//! The integer side of the streaming chromagram: configuration and its
//! checks, decimation of filtered frames, the circular sample buffer, the
//! emission schedule, and the spectral search windows.

use vstd::prelude::*;
use vstd::arithmetic::div_mod::lemma_fundamental_div_mod_converse;

verus! {

/// Number of samples in the circular buffer, and size of the transform.
pub const BUFFER_SIZE: usize = 8192;

/// Number of new samples between two chromagrams: half the buffer.
pub const CHROMA_INTERVAL: usize = 4096;

/// Index of the highest bin of the magnitude spectrum.
pub const MAX_BIN: usize = 4096;

/// Errors returned by the chromagram pipeline.
#[derive(Debug, PartialEq, Eq)]
pub enum ChromagramError {
    /// Frame received was not of the expected size.
    InvalidFrameSize {
        /// The expected size of the audio frame.
        expected: usize,
        /// The actual size of the received audio frame.
        got: usize,
    },
    /// An error occurred during the configuration of the chromagram.
    Configuration(String),
}

/// Settings of a chromagram pipeline.
#[derive(Debug, Clone, Copy, PartialEq, Eq, Structural)]
pub struct ChromagramConfig {
    /// Number of samples in each input frame.
    pub frame_size: usize,
    /// Sampling rate of the input, in Hz.
    pub sampling_rate: usize,
    /// Only every `downsample_factor`-th filtered sample is kept.
    pub downsample_factor: usize,
    /// Number of harmonics summed for each pitch class.
    pub num_harmonics: usize,
    /// Number of octaves summed for each pitch class.
    pub num_octaves: usize,
    /// Half-width, in bins per harmonic number, of the peak search.
    pub search_width: usize,
}

impl ChromagramConfig {
    /// The settings a pipeline can run with: non-empty frames, and a factor
    /// that divides the buffer size.
    pub open spec fn is_valid(self) -> bool {
        &&& self.frame_size > 0
        &&& self.downsample_factor > 0
        &&& BUFFER_SIZE as int % self.downsample_factor as int == 0
    }
}

/// The default settings.
pub open spec fn default_config() -> ChromagramConfig {
    ChromagramConfig {
        frame_size: 1024,
        sampling_rate: 44_100,
        downsample_factor: 4,
        num_harmonics: 2,
        num_octaves: 2,
        search_width: 3,
    }
}

/// Builder for a chromagram pipeline.
pub struct ChromagramBuilder {
    config: ChromagramConfig,
}

impl View for ChromagramBuilder {
    type V = ChromagramConfig;

    closed spec fn view(&self) -> ChromagramConfig {
        self.config
    }
}

impl ChromagramBuilder {
    /// Start with default parameters:
    /// frame_size = 1024, sampling_rate = 44_100,
    /// downsample_factor = 4, num_harmonics = 2,
    /// num_octaves = 2, search_width = 3.
    pub fn new() -> (r: ChromagramBuilder)
        ensures
            r@ == default_config(),
    {
        ChromagramBuilder {
            config: ChromagramConfig {
                frame_size: 1024,
                sampling_rate: 44_100,
                downsample_factor: 4,
                num_harmonics: 2,
                num_octaves: 2,
                search_width: 3,
            },
        }
    }

    /// Set the frame size for audio processing.
    pub fn frame_size(self, size: usize) -> (r: ChromagramBuilder)
        ensures
            r@ == (ChromagramConfig { frame_size: size, ..self@ }),
    {
        ChromagramBuilder { config: ChromagramConfig { frame_size: size, ..self.config } }
    }

    /// Set the sampling rate of the audio.
    pub fn sampling_rate(self, rate: usize) -> (r: ChromagramBuilder)
        ensures
            r@ == (ChromagramConfig { sampling_rate: rate, ..self@ }),
    {
        ChromagramBuilder { config: ChromagramConfig { sampling_rate: rate, ..self.config } }
    }

    /// Set the downsample factor for processing.
    pub fn downsample_factor(self, factor: usize) -> (r: ChromagramBuilder)
        ensures
            r@ == (ChromagramConfig { downsample_factor: factor, ..self@ }),
    {
        ChromagramBuilder { config: ChromagramConfig { downsample_factor: factor, ..self.config } }
    }

    /// Set the number of harmonics to consider for chord detection.
    pub fn num_harmonics(self, n: usize) -> (r: ChromagramBuilder)
        ensures
            r@ == (ChromagramConfig { num_harmonics: n, ..self@ }),
    {
        ChromagramBuilder { config: ChromagramConfig { num_harmonics: n, ..self.config } }
    }

    /// Set the number of octaves to consider for chord detection.
    pub fn num_octaves(self, n: usize) -> (r: ChromagramBuilder)
        ensures
            r@ == (ChromagramConfig { num_octaves: n, ..self@ }),
    {
        ChromagramBuilder { config: ChromagramConfig { num_octaves: n, ..self.config } }
    }

    /// Set the search width for finding spectral peaks.
    pub fn search_width(self, w: usize) -> (r: ChromagramBuilder)
        ensures
            r@ == (ChromagramConfig { search_width: w, ..self@ }),
    {
        ChromagramBuilder { config: ChromagramConfig { search_width: w, ..self.config } }
    }

    /// The settings chosen so far.
    pub fn config(&self) -> (r: ChromagramConfig)
        ensures
            r == self@,
    {
        self.config
    }

    /// Checks the settings and makes the stream, its buffer filled with
    /// `fill`. Fails with `Configuration` when the downsample factor does not
    /// divide the buffer size, or when the frame size is zero.
    pub fn build<T: Copy>(self, fill: T) -> (r: Result<ChromaStream<T>, ChromagramError>)
        ensures
            r is Ok <==> self@.is_valid(),
            r is Err ==> r matches Err(ChromagramError::Configuration(_)),
            r matches Ok(s) ==> s.wf() && s.config() == self@ && s.head() == 0 && s.pending() == 0
                && s.ring() == Seq::new(BUFFER_SIZE as nat, |i: int| fill),
    {
        if self.config.downsample_factor == 0 || BUFFER_SIZE % self.config.downsample_factor != 0 {
            return Err(
                ChromagramError::Configuration(
                    "BUFFER_SIZE must be divisible by downsample_factor".to_string(),
                ),
            );
        }
        if self.config.frame_size == 0 {
            return Err(ChromagramError::Configuration("frame_size cannot be zero".to_string()));
        }
        let mut ring: Vec<T> = Vec::new();
        let mut i: usize = 0;
        while i < BUFFER_SIZE
            invariant
                i <= BUFFER_SIZE,
                ring@ == Seq::new(i as nat, |j: int| fill),
            decreases BUFFER_SIZE - i,
        {
            ring.push(fill);
            i += 1;
            assert(ring@ =~= Seq::new(i as nat, |j: int| fill));
        }
        Ok(ChromaStream { config: self.config, ring, head: 0, pending: 0 })
    }
}

impl Default for ChromagramBuilder {
    fn default() -> (r: ChromagramBuilder)
        ensures
            r@ == default_config(),
    {
        ChromagramBuilder::new()
    }
}

/// `a + b`, held at `usize::MAX`.
pub open spec fn saturating_sum(a: int, b: int) -> int {
    if a + b > usize::MAX {
        usize::MAX as int
    } else {
        a + b
    }
}

/// Every `factor`-th sample of `s`, from the first: `s.len() / factor` samples.
pub open spec fn decimated<T>(s: Seq<T>, factor: nat) -> Seq<T>
    recommends
        factor > 0,
{
    Seq::new(s.len() / factor, |j: int| s[j * factor])
}

/// The buffer and cursor after writing the samples `s` one by one at the
/// cursor, each step advancing it by one, round the buffer.
pub open spec fn ring_write<T>(ring: Seq<T>, head: int, s: Seq<T>) -> (Seq<T>, int)
    decreases s.len(),
{
    if s.len() == 0 {
        (ring, head)
    } else {
        let (r, h) = ring_write(ring, head, s.drop_last());
        (r.update(h, s.last()), (h + 1) % BUFFER_SIZE as int)
    }
}

/// After writing `s` into a full buffer, the cursor has moved `s.len()`
/// slots round the buffer, and the slots behind it hold the latest samples,
/// newest first: the buffer holds the most recent samples in ring order.
pub proof fn lemma_ring_holds_latest<T>(ring: Seq<T>, head: int, s: Seq<T>)
    requires
        ring.len() == BUFFER_SIZE,
        0 <= head < BUFFER_SIZE,
    ensures
        ({
            let (r, h) = ring_write(ring, head, s);
            &&& r.len() == BUFFER_SIZE
            &&& h == (head + s.len()) % BUFFER_SIZE as int
            &&& forall|j: int|
                0 <= j < s.len() && j < BUFFER_SIZE ==> #[trigger] r[(h - 1 - j) % BUFFER_SIZE as int]
                    == s[s.len() - 1 - j]
        }),
    decreases s.len(),
{
    if s.len() > 0 {
        let n = BUFFER_SIZE as int;
        let s0 = s.drop_last();
        lemma_ring_holds_latest(ring, head, s0);
        let (r0, h0) = ring_write(ring, head, s0);
        let (r, h) = ring_write(ring, head, s);
        assert(r == r0.update(h0, s.last()));
        assert(h == (h0 + 1) % n);
        assert forall|j: int|
            0 <= j < s.len() && j < BUFFER_SIZE implies #[trigger] r[(h - 1 - j) % n] == s[s.len() - 1 - j] by {
            if j == 0 {
                assert((h - 1) % n == h0);
            } else {
                assert((h - 1 - j) % n == (h0 - 1 - (j - 1)) % n);
                assert((h - 1 - j) % n != h0);
                assert(s[s.len() - 1 - j] == s0[s0.len() - 1 - (j - 1)]);
            }
        }
    }
}

/// The buffer read out for analysis: all of it, starting half a buffer
/// behind the cursor and wrapping.
pub open spec fn window_of<T>(ring: Seq<T>, head: int) -> Seq<T> {
    Seq::new(
        BUFFER_SIZE as nat,
        |i: int| ring[(head + BUFFER_SIZE - CHROMA_INTERVAL + i) % BUFFER_SIZE as int],
    )
}

/// The emission schedule after a frame: the pending count grows by the
/// frame size; at `CHROMA_INTERVAL` or more a chromagram is due and the
/// interval is taken off.
pub open spec fn next_pending(pending: int, frame_size: int) -> int {
    let total = saturating_sum(pending, frame_size);
    if total >= CHROMA_INTERVAL {
        total - CHROMA_INTERVAL
    } else {
        total
    }
}

/// A chromagram is due after a frame.
pub open spec fn emits(pending: int, frame_size: int) -> bool {
    saturating_sum(pending, frame_size) >= CHROMA_INTERVAL
}

/// The pending count and the number of chromagrams after `frames` frames
/// of `frame_size` samples, from a pending count of `pending`.
pub open spec fn schedule(pending: int, frame_size: int, frames: nat) -> (int, nat)
    decreases frames,
{
    if frames == 0 {
        (pending, 0)
    } else {
        let (p, count) = schedule(pending, frame_size, (frames - 1) as nat);
        (next_pending(p, frame_size), if emits(p, frame_size) { count + 1 } else { count })
    }
}

/// From a fresh stream, with frames no longer than the emission interval,
/// one chromagram comes for each whole interval of input: after `frames`
/// frames there have been `frames * frame_size / CHROMA_INTERVAL` of them,
/// and the rest of the input is pending.
pub proof fn lemma_one_chromagram_per_interval(frame_size: int, frames: nat)
    requires
        0 < frame_size <= CHROMA_INTERVAL,
        frames * frame_size <= usize::MAX,
    ensures
        schedule(0, frame_size, frames) == (
            (frames * frame_size) % (CHROMA_INTERVAL as int),
            ((frames * frame_size) / (CHROMA_INTERVAL as int)) as nat,
        ),
    decreases frames,
{
    let i = CHROMA_INTERVAL as int;
    if frames > 0 {
        let m = (frames - 1) as nat;
        assert(m * frame_size <= frames * frame_size) by (nonlinear_arith)
            requires
                m + 1 == frames,
                frame_size > 0,
        ;
        lemma_one_chromagram_per_interval(frame_size, m);
        let total = m * frame_size;
        let p = total % i;
        let q = total / i;
        assert(frames * frame_size == total + frame_size) by (nonlinear_arith)
            requires
                m + 1 == frames,
                total == m * frame_size,
        ;
        vstd::arithmetic::div_mod::lemma_fundamental_div_mod(total, i);
        assert(0 <= p < i);
        if p + frame_size >= i {
            lemma_fundamental_div_mod_converse(frames * frame_size, i, q + 1, p + frame_size - i);
        } else {
            lemma_fundamental_div_mod_converse(frames * frame_size, i, q, p + frame_size);
        }
    } else {
        assert(frames * frame_size == 0) by (nonlinear_arith)
            requires
                frames == 0,
        ;
    }
}

/// The state of a chromagram stream that is not arithmetic on samples: the
/// circular buffer of decimated samples, its write cursor, and the count of
/// input samples since the last chromagram.
pub struct ChromaStream<T> {
    config: ChromagramConfig,
    ring: Vec<T>,
    head: usize,
    pending: usize,
}

impl<T: Copy> ChromaStream<T> {
    /// The stream's settings.
    pub closed spec fn config(&self) -> ChromagramConfig {
        self.config
    }

    /// The circular buffer.
    pub closed spec fn ring(&self) -> Seq<T> {
        self.ring@
    }

    /// The write cursor.
    pub closed spec fn head(&self) -> int {
        self.head as int
    }

    /// Input samples since the last chromagram.
    pub closed spec fn pending(&self) -> int {
        self.pending as int
    }

    /// Valid settings, a full buffer and a cursor inside it.
    pub open spec fn wf(&self) -> bool {
        &&& self.config().is_valid()
        &&& self.ring().len() == BUFFER_SIZE
        &&& 0 <= self.head() < BUFFER_SIZE
        &&& 0 <= self.pending() <= usize::MAX
    }

    /// The stream's settings.
    pub fn settings(&self) -> (r: ChromagramConfig)
        ensures
            r == self.config(),
    {
        self.config
    }

    /// Checks that a frame has the configured length.
    pub fn check_frame(&self, len: usize) -> (r: Result<(), ChromagramError>)
        ensures
            r is Ok <==> len == self.config().frame_size,
            len != self.config().frame_size ==> (r matches Err(
                ChromagramError::InvalidFrameSize { expected, got },
            ) && expected == self.config().frame_size && got == len),
    {
        if len != self.config.frame_size {
            Err(ChromagramError::InvalidFrameSize { expected: self.config.frame_size, got: len })
        } else {
            Ok(())
        }
    }

    /// Takes one filtered frame: keeps every `downsample_factor`-th sample,
    /// writes those into the circular buffer, and, when a chromagram is due,
    /// gives the buffer read out for analysis.
    pub fn feed(&mut self, filtered: &Vec<T>) -> (r: Option<Vec<T>>)
        requires
            old(self).wf(),
            filtered.len() == old(self).config().frame_size,
        ensures
            final(self).wf(),
            final(self).config() == old(self).config(),
            (final(self).ring(), final(self).head()) == ring_write(
                old(self).ring(),
                old(self).head(),
                decimated(filtered@, old(self).config().downsample_factor as nat),
            ),
            final(self).pending() == next_pending(old(self).pending(), filtered.len() as int),
            r is Some <==> emits(old(self).pending(), filtered.len() as int),
            r matches Some(w) ==> w@ == window_of(final(self).ring(), final(self).head()),
    {
        let kept = decimate(filtered, self.config.downsample_factor);
        self.write(&kept);
        let total = self.pending.saturating_add(self.config.frame_size);
        if total < CHROMA_INTERVAL {
            self.pending = total;
            None
        } else {
            self.pending = total - CHROMA_INTERVAL;
            Some(self.window())
        }
    }

    /// Writes samples into the circular buffer at the cursor, wrapping.
    fn write(&mut self, samples: &Vec<T>)
        requires
            old(self).wf(),
        ensures
            final(self).wf(),
            final(self).config() == old(self).config(),
            final(self).pending() == old(self).pending(),
            (final(self).ring(), final(self).head()) == ring_write(
                old(self).ring(),
                old(self).head(),
                samples@,
            ),
    {
        let ghost start_ring = self.ring@;
        let ghost start_head = self.head as int;
        let mut i: usize = 0;
        while i < samples.len()
            invariant
                self.wf(),
                self.config() == old(self).config(),
                self.pending() == old(self).pending(),
                start_ring == old(self).ring(),
                start_head == old(self).head(),
                i <= samples.len(),
                (self.ring(), self.head()) == ring_write(start_ring, start_head, samples@.take(i as int)),
            decreases samples.len() - i,
        {
            let s = samples[i];
            let h = self.head;
            self.ring.set(h, s);
            self.head = (h + 1) % BUFFER_SIZE;
            i += 1;
            assert(samples@.take(i as int).drop_last() =~= samples@.take(i - 1));
        }
        assert(samples@.take(i as int) =~= samples@);
    }

    /// The buffer read out for analysis, starting half a buffer behind the
    /// cursor.
    pub fn window(&self) -> (r: Vec<T>)
        requires
            self.wf(),
        ensures
            r@ == window_of(self.ring(), self.head()),
    {
        let start = (self.head + BUFFER_SIZE - CHROMA_INTERVAL) % BUFFER_SIZE;
        let mut r: Vec<T> = Vec::new();
        let mut i: usize = 0;
        while i < BUFFER_SIZE
            invariant
                self.wf(),
                start == (self.head() + BUFFER_SIZE - CHROMA_INTERVAL) % BUFFER_SIZE as int,
                i <= BUFFER_SIZE,
                r@.len() == i,
                forall|j: int| 0 <= j < i ==> #[trigger] r@[j] == window_of(self.ring(), self.head())[j],
            decreases BUFFER_SIZE - i,
        {
            r.push(self.ring[(start + i) % BUFFER_SIZE]);
            i += 1;
        }
        assert(r@ =~= window_of(self.ring(), self.head()));
        r
    }

    /// The spectral bins searched for a harmonic whose nearest bin is
    /// `center`: `search_width * harmonic` bins either side, clipped to the
    /// spectrum. `None` when no bin of the spectrum is in reach.
    pub fn search_window(&self, center: usize, harmonic: usize) -> (r: Option<(usize, usize)>)
        ensures
            ({
                let w = self.config().search_width * harmonic;
                let lo = if center >= w { center - w } else { 0 };
                let hi = if center + w <= MAX_BIN { center + w } else { MAX_BIN as int };
                &&& r is Some <==> lo <= hi
                &&& r matches Some(p) ==> p.0 == lo && p.1 == hi
            }),
    {
        let sw = self.config.search_width;
        proof {
            assert(sw as int * harmonic as int <= u128::MAX) by (nonlinear_arith)
                requires
                    sw <= usize::MAX,
                    harmonic <= usize::MAX,
                    usize::MAX < 0x1_0000_0000_0000_0000,
            ;
        }
        let w: u128 = (sw as u128) * (harmonic as u128);
        let c: u128 = center as u128;
        let lo: u128 = if c >= w {
            c - w
        } else {
            0
        };
        let hi: u128 = if c <= MAX_BIN as u128 && w <= MAX_BIN as u128 - c {
            c + w
        } else {
            MAX_BIN as u128
        };
        if lo <= hi {
            Some((lo as usize, hi as usize))
        } else {
            None
        }
    }
}

/// Every `factor`-th sample of `filtered`, from the first.
pub fn decimate<T: Copy>(filtered: &Vec<T>, factor: usize) -> (r: Vec<T>)
    requires
        factor > 0,
    ensures
        r@ == decimated(filtered@, factor as nat),
{
    let n = filtered.len();
    let mut r: Vec<T> = Vec::new();
    let mut i: usize = 0;
    let mut j: usize = 0;
    while i <= n && n - i >= factor
        invariant
            factor > 0,
            n == filtered.len(),
            i == j * factor,
            i <= n,
            r@.len() == j,
            forall|t: int| 0 <= t < j ==> #[trigger] r@[t] == filtered@[t * factor],
        decreases n - i,
    {
        r.push(filtered[i]);
        proof {
            assert((j + 1) * factor == j * factor + factor) by (nonlinear_arith);
            assert(j <= j * factor) by (nonlinear_arith)
                requires
                    factor > 0,
            ;
        }
        i += factor;
        j += 1;
    }
    proof {
        lemma_fundamental_div_mod_converse(n as int, factor as int, j as int, n - i);
    }
    assert(r@ =~= decimated(filtered@, factor as nat));
    r
}

} // verus!
