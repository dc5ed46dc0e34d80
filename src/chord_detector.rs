//! Chord classification: the chord qualities, the pitch classes, the bank of
//! 120 chord profiles and the ranking of profiles by score.

use vstd::prelude::*;
use vstd::arithmetic::div_mod::lemma_fundamental_div_mod_converse;

verus! {

/// Number of pitch classes in an octave.
pub const SEMITONES: usize = 12;

/// Number of chord qualities.
pub const NUM_CHORD_KINDS: usize = 10;

/// Number of chord profiles: one for each quality and root.
pub const NUM_CHORDS: usize = 120;

/// Supported chord qualities.
#[derive(Debug, Clone, Copy, PartialEq, Eq, Structural, PartialOrd, Ord, Hash)]
pub enum ChordKind {
    /// Major chord (e.g., C-E-G)
    Major,
    /// Minor chord (e.g., C-Eb-G)
    Minor,
    /// Power chord (e.g., C-G)
    PowerFifth,
    /// Dominant seventh chord (e.g., C-E-G-Bb)
    DominantSeventh,
    /// Major seventh chord (e.g., C-E-G-B)
    MajorSeventh,
    /// Minor seventh chord (e.g., C-Eb-G-Bb)
    MinorSeventh,
    /// Diminished chord (e.g., C-Eb-Gb)
    Diminished,
    /// Augmented chord (e.g., C-E-G#)
    Augmented,
    /// Suspended second chord (e.g., C-D-G)
    SuspendedSecond,
    /// Suspended fourth chord (e.g., C-F-G)
    SuspendedFourth,
}

/// Twelve chromatic pitch classes, and a marker for an index out of range.
#[derive(Debug, Clone, Copy, PartialEq, Eq, Structural, Hash)]
pub enum NoteName {
    /// C
    C,
    /// C sharp / D flat
    Cs,
    /// D
    D,
    /// D sharp / E flat
    Ds,
    /// E
    E,
    /// F
    F,
    /// F sharp / G flat
    Fs,
    /// G
    G,
    /// G sharp / A flat
    Gs,
    /// A
    A,
    /// A sharp / B flat
    As,
    /// B
    B,
    /// Unknown note name
    Unknown,
}

/// The pitch class with semitone offset `idx` from C; `Unknown` past B.
pub open spec fn note_of(idx: int) -> NoteName {
    if idx == 0 {
        NoteName::C
    } else if idx == 1 {
        NoteName::Cs
    } else if idx == 2 {
        NoteName::D
    } else if idx == 3 {
        NoteName::Ds
    } else if idx == 4 {
        NoteName::E
    } else if idx == 5 {
        NoteName::F
    } else if idx == 6 {
        NoteName::Fs
    } else if idx == 7 {
        NoteName::G
    } else if idx == 8 {
        NoteName::Gs
    } else if idx == 9 {
        NoteName::A
    } else if idx == 10 {
        NoteName::As
    } else if idx == 11 {
        NoteName::B
    } else {
        NoteName::Unknown
    }
}

/// The chord quality at position `idx` of the profile bank's quality order.
pub open spec fn kind_of(idx: int) -> ChordKind
    recommends
        0 <= idx < NUM_CHORD_KINDS,
{
    if idx == 0 {
        ChordKind::Major
    } else if idx == 1 {
        ChordKind::Minor
    } else if idx == 2 {
        ChordKind::PowerFifth
    } else if idx == 3 {
        ChordKind::DominantSeventh
    } else if idx == 4 {
        ChordKind::MajorSeventh
    } else if idx == 5 {
        ChordKind::MinorSeventh
    } else if idx == 6 {
        ChordKind::Diminished
    } else if idx == 7 {
        ChordKind::Augmented
    } else if idx == 8 {
        ChordKind::SuspendedSecond
    } else {
        ChordKind::SuspendedFourth
    }
}

impl NoteName {
    /// The pitch class `idx` semitones above C, or `Unknown` when `idx >= 12`.
    pub fn from_idx(idx: usize) -> (r: NoteName)
        ensures
            r == note_of(idx as int),
    {
        match idx {
            0 => NoteName::C,
            1 => NoteName::Cs,
            2 => NoteName::D,
            3 => NoteName::Ds,
            4 => NoteName::E,
            5 => NoteName::F,
            6 => NoteName::Fs,
            7 => NoteName::G,
            8 => NoteName::Gs,
            9 => NoteName::A,
            10 => NoteName::As,
            11 => NoteName::B,
            _ => NoteName::Unknown,
        }
    }
}

impl ChordKind {
    /// Position of this quality in the profile bank's quality order.
    pub open spec fn spec_index(self) -> int {
        match self {
            ChordKind::Major => 0,
            ChordKind::Minor => 1,
            ChordKind::PowerFifth => 2,
            ChordKind::DominantSeventh => 3,
            ChordKind::MajorSeventh => 4,
            ChordKind::MinorSeventh => 5,
            ChordKind::Diminished => 6,
            ChordKind::Augmented => 7,
            ChordKind::SuspendedSecond => 8,
            ChordKind::SuspendedFourth => 9,
        }
    }

    /// Semitone offsets from the root of the chord tones of this quality.
    pub open spec fn spec_intervals(self) -> Seq<usize> {
        match self {
            ChordKind::Major => seq![0, 4, 7],
            ChordKind::Minor => seq![0, 3, 7],
            ChordKind::PowerFifth => seq![0, 7],
            ChordKind::DominantSeventh => seq![0, 4, 7, 10],
            ChordKind::MajorSeventh => seq![0, 4, 7, 11],
            ChordKind::MinorSeventh => seq![0, 3, 7, 10],
            ChordKind::Diminished => seq![0, 3, 6],
            ChordKind::Augmented => seq![0, 4, 8],
            ChordKind::SuspendedSecond => seq![0, 2, 7],
            ChordKind::SuspendedFourth => seq![0, 5, 7],
        }
    }

    /// Scoring bias of this quality, in thousandths.
    pub open spec fn spec_bias_permille(self) -> u32 {
        match self {
            ChordKind::Major => 1060,
            ChordKind::Minor => 1060,
            ChordKind::PowerFifth => 1005,
            ChordKind::DominantSeventh => 1060,
            ChordKind::MajorSeventh => 1000,
            ChordKind::MinorSeventh => 1060,
            ChordKind::Diminished => 1050,
            ChordKind::Augmented => 1055,
            ChordKind::SuspendedSecond => 1000,
            ChordKind::SuspendedFourth => 1000,
        }
    }

    /// The quality at position `idx` of the profile bank's quality order.
    pub fn from_idx(idx: usize) -> (r: ChordKind)
        requires
            idx < NUM_CHORD_KINDS,
        ensures
            r == kind_of(idx as int),
            r.spec_index() == idx,
    {
        match idx {
            0 => ChordKind::Major,
            1 => ChordKind::Minor,
            2 => ChordKind::PowerFifth,
            3 => ChordKind::DominantSeventh,
            4 => ChordKind::MajorSeventh,
            5 => ChordKind::MinorSeventh,
            6 => ChordKind::Diminished,
            7 => ChordKind::Augmented,
            8 => ChordKind::SuspendedSecond,
            _ => ChordKind::SuspendedFourth,
        }
    }

    /// Semitone offsets from the root of the chord tones, root first.
    pub fn intervals(&self) -> (r: Vec<usize>)
        ensures
            r@ == self.spec_intervals(),
    {
        let r = match self {
            ChordKind::Major => vec![0, 4, 7],
            ChordKind::Minor => vec![0, 3, 7],
            ChordKind::PowerFifth => vec![0, 7],
            ChordKind::DominantSeventh => vec![0, 4, 7, 10],
            ChordKind::MajorSeventh => vec![0, 4, 7, 11],
            ChordKind::MinorSeventh => vec![0, 3, 7, 10],
            ChordKind::Diminished => vec![0, 3, 6],
            ChordKind::Augmented => vec![0, 4, 8],
            ChordKind::SuspendedSecond => vec![0, 2, 7],
            ChordKind::SuspendedFourth => vec![0, 5, 7],
        };
        assert(r@ =~= self.spec_intervals());
        r
    }

    /// The name of this quality, as written in the enum.
    pub open spec fn spec_name(self) -> Seq<char> {
        match self {
            ChordKind::Major => "Major"@,
            ChordKind::Minor => "Minor"@,
            ChordKind::PowerFifth => "PowerFifth"@,
            ChordKind::DominantSeventh => "DominantSeventh"@,
            ChordKind::MajorSeventh => "MajorSeventh"@,
            ChordKind::MinorSeventh => "MinorSeventh"@,
            ChordKind::Diminished => "Diminished"@,
            ChordKind::Augmented => "Augmented"@,
            ChordKind::SuspendedSecond => "SuspendedSecond"@,
            ChordKind::SuspendedFourth => "SuspendedFourth"@,
        }
    }

    /// The name of this quality, as written in the enum (`"Major"`).
    pub fn name(&self) -> (r: String)
        ensures
            r@ == self.spec_name(),
    {
        let s = match self {
            ChordKind::Major => "Major",
            ChordKind::Minor => "Minor",
            ChordKind::PowerFifth => "PowerFifth",
            ChordKind::DominantSeventh => "DominantSeventh",
            ChordKind::MajorSeventh => "MajorSeventh",
            ChordKind::MinorSeventh => "MinorSeventh",
            ChordKind::Diminished => "Diminished",
            ChordKind::Augmented => "Augmented",
            ChordKind::SuspendedSecond => "SuspendedSecond",
            ChordKind::SuspendedFourth => "SuspendedFourth",
        };
        s.to_string()
    }

    /// Scoring bias of this quality, in thousandths (1.06 is 1060).
    pub fn bias_permille(&self) -> (r: u32)
        ensures
            r == self.spec_bias_permille(),
    {
        match self {
            ChordKind::Major => 1060,
            ChordKind::Minor => 1060,
            ChordKind::PowerFifth => 1005,
            ChordKind::DominantSeventh => 1060,
            ChordKind::MajorSeventh => 1000,
            ChordKind::MinorSeventh => 1060,
            ChordKind::Diminished => 1050,
            ChordKind::Augmented => 1055,
            ChordKind::SuspendedSecond => 1000,
            ChordKind::SuspendedFourth => 1000,
        }
    }
}

/// Errors when detecting chords.
#[derive(Debug, PartialEq, Eq)]
pub enum ChordError {
    /// The chromagram provided did not have the expected number of semitones.
    InvalidLength {
        /// The expected number of semitones (12).
        expected: usize,
        /// The actual number of semitones provided.
        got: usize,
    },
    /// An invalid argument was provided to a detection function.
    InvalidArgument {
        /// The name of the invalid argument.
        arg: &'static str,
        /// A description of the invalid argument.
        msg: String,
    },
}

/// Checks that a chromagram has one bin per pitch class.
pub fn check_chroma(chroma_len: usize) -> (r: Result<(), ChordError>)
    ensures
        r is Ok <==> chroma_len == SEMITONES,
        chroma_len != SEMITONES ==> (r matches Err(ChordError::InvalidLength { expected, got })
            && expected == SEMITONES && got == chroma_len),
{
    if chroma_len != SEMITONES {
        Err(ChordError::InvalidLength { expected: SEMITONES, got: chroma_len })
    } else {
        Ok(())
    }
}

/// The pitch class a perfect fourth below pitch class `i`, which takes the
/// bleed of `i`'s harmonics.
pub fn bleed_target(i: usize) -> (r: usize)
    requires
        i < SEMITONES,
    ensures
        r == (i + 7) % 12,
        r < SEMITONES,
{
    (i + SEMITONES - 5) % SEMITONES
}

/// Profile `a` ranks before profile `b`: a lower key, or an equal key and a
/// lower index.
pub open spec fn ranks_before(keys: Seq<u32>, a: int, b: int) -> bool {
    keys[a] < keys[b] || (keys[a] == keys[b] && a < b)
}

/// `r` holds the first `r.len()` profile indices in rank order: strictly
/// ascending by rank, and every index left out ranks after every index taken.
pub open spec fn is_ranking(keys: Seq<u32>, r: Seq<usize>) -> bool {
    &&& forall|t: int| 0 <= t < r.len() ==> #[trigger] r[t] < keys.len()
    &&& forall|s: int, t: int|
        0 <= s < t < r.len() ==> ranks_before(keys, #[trigger] r[s] as int, #[trigger] r[t] as int)
    &&& forall|t: int, x: usize|
        0 <= t < r.len() && x < keys.len() && !r.contains(x)
            ==> #[trigger] ranks_before(keys, r[t] as int, x as int)
}

/// Two rankings of the same keys and length are equal: the ranking of a set
/// of scores is determined by the scores alone.
pub proof fn lemma_ranking_unique(keys: Seq<u32>, r1: Seq<usize>, r2: Seq<usize>)
    requires
        is_ranking(keys, r1),
        is_ranking(keys, r2),
        r1.len() == r2.len(),
    ensures
        r1 == r2,
{
    assert forall|t: int| 0 <= t < r1.len() implies r1[t] == r2[t] by {
        lemma_ranking_agrees_at(keys, r1, r2, t);
    }
    assert(r1 =~= r2);
}

proof fn lemma_ranking_agrees_at(keys: Seq<u32>, r1: Seq<usize>, r2: Seq<usize>, t: int)
    requires
        is_ranking(keys, r1),
        is_ranking(keys, r2),
        r1.len() == r2.len(),
        0 <= t < r1.len(),
    ensures
        r1[t] == r2[t],
    decreases t,
{
    assert forall|u: int| 0 <= u < t implies r1[u] == r2[u] by {
        lemma_ranking_agrees_at(keys, r1, r2, u);
    }
    if r1[t] != r2[t] {
        lemma_ranking_one_side(keys, r1, r2, t);
        assert forall|u: int| 0 <= u < t implies r2[u] == r1[u] by {}
        lemma_ranking_one_side(keys, r2, r1, t);
    }
}

/// Where `r1` and `r2` agree before `t`, `r1[t]` does not rank before a
/// different `r2[t]`.
proof fn lemma_ranking_one_side(keys: Seq<u32>, r1: Seq<usize>, r2: Seq<usize>, t: int)
    requires
        is_ranking(keys, r1),
        is_ranking(keys, r2),
        r1.len() == r2.len(),
        0 <= t < r1.len(),
        forall|u: int| 0 <= u < t ==> r1[u] == r2[u],
        r1[t] != r2[t],
    ensures
        !ranks_before(keys, r1[t] as int, r2[t] as int),
{
    let a = r1[t];
    if r2.contains(a) {
        let u = choose|u: int| 0 <= u < r2.len() && r2[u] == a;
        if u < t {
            assert(r1[u] == a);
            assert(ranks_before(keys, r1[u] as int, r1[t] as int));
        } else {
            assert(ranks_before(keys, r2[t] as int, r2[u] as int));
        }
    } else {
        assert(ranks_before(keys, r2[t] as int, a as int));
    }
}

/// Indices of the `choices` best profiles, best first: ascending by key, ties
/// broken by ascending index.
pub fn rank_profiles(keys: &Vec<u32>, choices: usize) -> (r: Vec<usize>)
    requires
        choices <= keys.len(),
    ensures
        r.len() == choices,
        is_ranking(keys@, r@),
{
    let n = keys.len();
    let mut order: Vec<usize> = Vec::new();
    let mut i: usize = 0;
    while i < n
        invariant
            i <= n,
            n == keys.len(),
            order.len() == i,
            forall|p: int| 0 <= p < i ==> #[trigger] order[p] == p,
        decreases n - i,
    {
        order.push(i);
        i += 1;
    }
    assert forall|x: usize| x < n implies #[trigger] order@.contains(x) by {
        assert(order[x as int] == x);
    }
    let mut t: usize = 0;
    while t < choices
        invariant
            t <= choices <= n,
            n == keys.len(),
            order.len() == n,
            forall|p: int| 0 <= p < n ==> #[trigger] order[p] < n,
            forall|p: int, q: int| 0 <= p < q < n ==> #[trigger] order[p] != #[trigger] order[q],
            forall|x: usize| x < n ==> #[trigger] order@.contains(x),
            forall|s: int, u: int|
                0 <= s < u < t ==> ranks_before(keys@, #[trigger] order[s] as int, #[trigger] order[u] as int),
            forall|s: int, p: int|
                0 <= s < t <= p < n ==> ranks_before(keys@, #[trigger] order[s] as int, #[trigger] order[p] as int),
        decreases choices - t,
    {
        let mut m: usize = t;
        let mut p: usize = t + 1;
        while p < n
            invariant
                t < n,
                t <= m < p <= n,
                n == keys.len(),
                order.len() == n,
                forall|q: int| 0 <= q < n ==> #[trigger] order[q] < n,
                forall|q: int, u: int| 0 <= q < u < n ==> #[trigger] order[q] != #[trigger] order[u],
                forall|q: int|
                    t <= q < p && q != m ==> ranks_before(keys@, order[m as int] as int, #[trigger] order[q] as int),
            decreases n - p,
        {
            let a = order[p];
            let b = order[m];
            if keys[a] < keys[b] || (keys[a] == keys[b] && a < b) {
                let ghost old_m = m;
                m = p;
                assert forall|q: int|
                    t <= q < p + 1 && q != m implies ranks_before(keys@, order[m as int] as int, #[trigger] order[q] as int) by {
                    if q != old_m {
                        assert(ranks_before(keys@, order[old_m as int] as int, order[q] as int));
                    }
                }
            }
            p += 1;
        }
        let ghost prev = order@;
        let a = order[t];
        let b = order[m];
        order.set(t, b);
        order.set(m, a);
        assert(order@ == prev.update(t as int, b).update(m as int, a));
        assert forall|x: usize| x < n implies #[trigger] order@.contains(x) by {
            assert(prev.contains(x));
            let q = choose|q: int| 0 <= q < n && prev[q] == x;
            if q == t {
                assert(order[m as int] == x);
            } else if q == m {
                assert(order[t as int] == x);
            } else {
                assert(order[q] == x);
            }
        }
        assert forall|s: int, q: int|
            0 <= s < t + 1 <= q < n implies ranks_before(keys@, #[trigger] order[s] as int, #[trigger] order[q] as int) by {
            if s < t {
                if q == m {
                    assert(ranks_before(keys@, prev[s] as int, prev[t as int] as int));
                } else {
                    assert(ranks_before(keys@, prev[s] as int, prev[q] as int));
                }
            } else {
                if q == m {
                    assert(ranks_before(keys@, prev[m as int] as int, prev[t as int] as int));
                } else {
                    assert(ranks_before(keys@, prev[m as int] as int, prev[q] as int));
                }
            }
        }
        assert forall|s: int, u: int|
            0 <= s < u < t + 1 implies ranks_before(keys@, #[trigger] order[s] as int, #[trigger] order[u] as int) by {
            if u == t {
                assert(ranks_before(keys@, prev[s] as int, prev[m as int] as int));
            } else {
                assert(ranks_before(keys@, prev[s] as int, prev[u] as int));
            }
        }
        t += 1;
    }
    let ghost full = order@;
    order.truncate(choices);
    proof {
        let r = order@;
        assert(r =~= full.take(choices as int));
        assert forall|t: int, x: usize|
            0 <= t < r.len() && x < n && !r.contains(x)
            implies #[trigger] ranks_before(keys@, r[t] as int, x as int) by {
            assert(full.contains(x));
            let q = choose|q: int| 0 <= q < n && full[q] == x;
            if q < choices {
                assert(r[q] == x);
            }
            assert(ranks_before(keys@, full[t] as int, full[q] as int));
        }
    }
    order
}

/// Pitch class `p` is a tone of the chord of quality `q` on `root`: it is
/// `(root + interval) mod 12` for one of the quality's intervals.
pub open spec fn is_chord_tone(q: ChordKind, root: int, p: int) -> bool {
    exists|j: int|
        0 <= j < q.spec_intervals().len() && #[trigger] ((root + q.spec_intervals()[j]) % 12) == p
}

/// Denominator of a profile's inverse normalizer, in thousandths:
/// `(12 - number of chord tones) * bias`.
pub open spec fn norm_denominator(q: ChordKind) -> int {
    (12 - q.spec_intervals().len()) * q.spec_bias_permille()
}

/// Quality of profile `i`: profiles are laid out quality by quality.
pub open spec fn profile_kind(i: int) -> ChordKind {
    kind_of(i / 12)
}

/// Root pitch class of profile `i`.
pub open spec fn profile_root(i: int) -> int {
    i % 12
}

/// A precomputed chord template: a chord-tone flag for each pitch class, and
/// the denominator of its inverse normalizer in thousandths (the normalizer
/// is `1000 / norm_denominator`).
#[derive(Debug, PartialEq, Eq)]
pub struct ChordProfile {
    /// `weights[p]` holds when pitch class `p` is a chord tone (weight 1).
    pub weights: Vec<bool>,
    /// `(12 - number of chord tones) * bias`, with the bias in thousandths.
    pub norm_denominator: u32,
}

impl ChordProfile {
    /// This is the profile at index `i` of the bank.
    pub open spec fn is_profile(&self, i: int) -> bool {
        &&& self.weights@.len() == SEMITONES
        &&& forall|p: int|
            0 <= p < SEMITONES ==> #[trigger] self.weights@[p] == is_chord_tone(
                profile_kind(i),
                profile_root(i),
                p,
            )
        &&& self.norm_denominator == norm_denominator(profile_kind(i))
    }
}

/// The bank of the 120 chord profiles, addressed by
/// `quality_index * 12 + root_index`.
pub struct ProfileBank {
    profiles: Vec<ChordProfile>,
}

impl ProfileBank {
    /// The profiles, in bank order.
    pub closed spec fn spec_profiles(&self) -> Seq<ChordProfile> {
        self.profiles@
    }

    /// Every entry is the profile of its index.
    pub open spec fn wf(&self) -> bool {
        &&& self.spec_profiles().len() == NUM_CHORDS
        &&& forall|i: int| 0 <= i < NUM_CHORDS ==> #[trigger] self.spec_profiles()[i].is_profile(i)
    }

    /// Builds the 120 profiles from the qualities' intervals and biases.
    pub fn new() -> (r: ProfileBank)
        ensures
            r.wf(),
    {
        let mut profiles: Vec<ChordProfile> = Vec::new();
        let mut q: usize = 0;
        while q < NUM_CHORD_KINDS
            invariant
                q <= NUM_CHORD_KINDS,
                profiles.len() == q * 12,
                forall|i: int| 0 <= i < q * 12 ==> #[trigger] profiles@[i].is_profile(i),
            decreases NUM_CHORD_KINDS - q,
        {
            let kind = ChordKind::from_idx(q);
            let intervals = kind.intervals();
            let tones = intervals.len();
            let denom: u32 = (12 - tones as u32) * kind.bias_permille();
            let mut root: usize = 0;
            while root < SEMITONES
                invariant
                    q < NUM_CHORD_KINDS,
                    root <= SEMITONES,
                    kind == kind_of(q as int),
                    intervals@ == kind.spec_intervals(),
                    denom == norm_denominator(kind),
                    profiles.len() == q * 12 + root,
                    forall|i: int| 0 <= i < q * 12 + root ==> #[trigger] profiles@[i].is_profile(i),
                decreases SEMITONES - root,
            {
                let mut weights: Vec<bool> = Vec::new();
                let mut p: usize = 0;
                while p < SEMITONES
                    invariant
                        p <= SEMITONES,
                        weights.len() == p,
                        forall|x: int| 0 <= x < p ==> !(#[trigger] weights@[x]),
                    decreases SEMITONES - p,
                {
                    weights.push(false);
                    p += 1;
                }
                let mut j: usize = 0;
                while j < intervals.len()
                    invariant
                        root < SEMITONES,
                        j <= intervals.len(),
                        intervals@ == kind.spec_intervals(),
                        weights.len() == SEMITONES,
                        forall|x: int|
                            0 <= x < SEMITONES ==> #[trigger] weights@[x] == exists|jj: int|
                                0 <= jj < j && #[trigger] ((root + intervals@[jj]) % 12) == x,
                    decreases intervals.len() - j,
                {
                    let note = (root + intervals[j]) % SEMITONES;
                    weights.set(note, true);
                    proof {
                        assert forall|x: int| 0 <= x < SEMITONES implies #[trigger] weights@[x] == exists|jj: int|
                            0 <= jj < j + 1 && #[trigger] ((root + intervals@[jj]) % 12) == x by {
                            if x == note {
                                assert((root + intervals@[j as int]) % 12 == x);
                            }
                        }
                    }
                    j += 1;
                }
                let ghost i = q * 12 + root;
                proof {
                    lemma_fundamental_div_mod_converse(i, 12, q as int, root as int);
                }
                profiles.push(ChordProfile { weights, norm_denominator: denom });
                assert(profiles@[i].is_profile(i));
                root += 1;
            }
            q += 1;
        }
        ProfileBank { profiles }
    }

    /// The profile at index `i`.
    pub fn profile(&self, i: usize) -> (r: &ChordProfile)
        requires
            self.wf(),
            i < NUM_CHORDS,
        ensures
            r.is_profile(i as int),
    {
        &self.profiles[i]
    }
}

/// A chord hypothesis: the chord and the index of its profile.
#[derive(Debug, Clone, Copy, PartialEq, Eq, Structural)]
pub struct ChordMatch {
    /// The root note of the chord.
    pub root: NoteName,
    /// The quality of the chord.
    pub quality: ChordKind,
    /// Index of the chord's profile in the bank.
    pub profile: usize,
}

/// The chord that profile `i` stands for.
pub open spec fn match_of(i: int) -> ChordMatch {
    ChordMatch { root: note_of(profile_root(i)), quality: profile_kind(i), profile: i as usize }
}

/// `r` lists the chords of the first `r.len()` profiles in rank order.
pub open spec fn is_chord_ranking(keys: Seq<u32>, r: Seq<ChordMatch>) -> bool {
    &&& is_ranking(keys, r.map_values(|m: ChordMatch| m.profile))
    &&& forall|t: int| 0 <= t < r.len() ==> #[trigger] r[t] == match_of(r[t].profile as int)
}

/// The chord of profile `i`.
pub fn chord_of_profile(i: usize) -> (r: ChordMatch)
    requires
        i < NUM_CHORDS,
    ensures
        r == match_of(i as int),
{
    ChordMatch {
        root: NoteName::from_idx(i % SEMITONES),
        quality: ChordKind::from_idx(i / SEMITONES),
        profile: i,
    }
}

/// The `choices` best chords, best first, given one key per profile that
/// orders profiles as their scores do (lower is better); equal keys go by
/// ascending profile index.
pub fn rank_chords(keys: &Vec<u32>, choices: usize) -> (r: Vec<ChordMatch>)
    requires
        keys.len() == NUM_CHORDS,
        choices <= NUM_CHORDS,
    ensures
        r.len() == choices,
        is_chord_ranking(keys@, r@),
{
    let order = rank_profiles(keys, choices);
    let mut r: Vec<ChordMatch> = Vec::new();
    let mut t: usize = 0;
    while t < choices
        invariant
            t <= choices,
            order.len() == choices,
            keys.len() == NUM_CHORDS,
            forall|u: int| 0 <= u < choices ==> #[trigger] order[u] < NUM_CHORDS,
            r.len() == t,
            forall|u: int| 0 <= u < t ==> #[trigger] r[u] == match_of(order[u] as int),
        decreases choices - t,
    {
        r.push(chord_of_profile(order[t]));
        t += 1;
    }
    assert(r@.map_values(|m: ChordMatch| m.profile) =~= order@);
    r
}

/// The `k` best chords, best first; `k` is clamped to the number of
/// profiles. Fails with `InvalidArgument` when `k` is zero.
pub fn top_chords(keys: &Vec<u32>, k: usize) -> (r: Result<Vec<ChordMatch>, ChordError>)
    requires
        keys.len() == NUM_CHORDS,
    ensures
        r is Err <==> k == 0,
        r is Err ==> r matches Err(ChordError::InvalidArgument { .. }),
        r matches Ok(v) ==> v.len() == if k < NUM_CHORDS { k } else { NUM_CHORDS },
        r matches Ok(v) ==> is_chord_ranking(keys@, v@),
{
    if k == 0 {
        return Err(ChordError::InvalidArgument { arg: "k", msg: "must be >= 1".to_string() });
    }
    let choices = if k < NUM_CHORDS {
        k
    } else {
        NUM_CHORDS
    };
    Ok(rank_chords(keys, choices))
}

/// The best chord: the first of the ranking. Its key is the least of all
/// the profiles' keys.
pub fn best_chord(keys: &Vec<u32>) -> (r: ChordMatch)
    requires
        keys.len() == NUM_CHORDS,
    ensures
        is_chord_ranking(keys@, seq![r]),
        r.profile < NUM_CHORDS,
        forall|x: int| 0 <= x < NUM_CHORDS ==> keys@[r.profile as int] <= #[trigger] keys@[x],
{
    let list = rank_chords(keys, 1);
    let r = list[0];
    proof {
        assert(seq![r] =~= list@);
        let ps = list@.map_values(|m: ChordMatch| m.profile);
        assert(ps[0] == r.profile);
        assert forall|x: int| 0 <= x < NUM_CHORDS implies keys@[r.profile as int] <= #[trigger] keys@[x] by {
            if x != r.profile {
                let xu = x as usize;
                if ps.contains(xu) {
                    let u = choose|u: int| 0 <= u < ps.len() && ps[u] == xu;
                    assert(u == 0);
                }
                assert(ranks_before(keys@, ps[0] as int, xu as int));
            }
        }
    }
    r
}

/// A prefix of a ranking is a ranking.
pub proof fn lemma_ranking_prefix(keys: Seq<u32>, r: Seq<usize>, m: int)
    requires
        is_ranking(keys, r),
        0 <= m <= r.len(),
    ensures
        is_ranking(keys, r.take(m)),
{
    let p = r.take(m);
    assert forall|t: int, x: usize|
        0 <= t < p.len() && x < keys.len() && !p.contains(x)
        implies #[trigger] ranks_before(keys, p[t] as int, x as int) by {
        assert(p[t] == r[t]);
        if r.contains(x) {
            let u = choose|u: int| 0 <= u < r.len() && r[u] == x;
            if u < m {
                assert(p[u] == x);
            }
            assert(ranks_before(keys, r[t] as int, r[u] as int));
        }
    }
}

/// Two chord rankings of the same keys and length are equal: ranking the
/// same chromagram twice gives the same chords.
pub proof fn lemma_chord_ranking_unique(keys: Seq<u32>, a: Seq<ChordMatch>, b: Seq<ChordMatch>)
    requires
        is_chord_ranking(keys, a),
        is_chord_ranking(keys, b),
        a.len() == b.len(),
    ensures
        a == b,
{
    let pa = a.map_values(|m: ChordMatch| m.profile);
    let pb = b.map_values(|m: ChordMatch| m.profile);
    lemma_ranking_unique(keys, pa, pb);
    assert forall|t: int| 0 <= t < a.len() implies a[t] == b[t] by {
        assert(pa[t] == pb[t]);
    }
    assert(a =~= b);
}

/// The best chord is the first of the full ranking of all 120 profiles, and
/// no profile has a lower key.
pub proof fn lemma_best_leads_full_ranking(keys: Seq<u32>, best: ChordMatch, all: Seq<ChordMatch>)
    requires
        keys.len() == NUM_CHORDS,
        is_chord_ranking(keys, seq![best]),
        is_chord_ranking(keys, all),
        all.len() == NUM_CHORDS,
    ensures
        best == all[0],
        best.profile < NUM_CHORDS,
        forall|x: int| 0 <= x < NUM_CHORDS ==> keys[best.profile as int] <= #[trigger] keys[x],
{
    let pa = all.map_values(|m: ChordMatch| m.profile);
    lemma_ranking_prefix(keys, pa, 1);
    let first = all.take(1);
    assert(first.map_values(|m: ChordMatch| m.profile) =~= pa.take(1));
    assert(is_chord_ranking(keys, first));
    lemma_chord_ranking_unique(keys, seq![best], first);
    assert(seq![best][0] == first[0]);
    let pb = seq![best].map_values(|m: ChordMatch| m.profile);
    assert(pb[0] == best.profile);
    assert forall|x: int| 0 <= x < NUM_CHORDS implies keys[best.profile as int] <= #[trigger] keys[x] by {
        if x != best.profile {
            let xu = x as usize;
            if pb.contains(xu) {
                let u = choose|u: int| 0 <= u < pb.len() && pb[u] == xu;
                assert(u == 0);
            }
            assert(ranks_before(keys, pb[0] as int, xu as int));
        }
    }
}

/// The single best chord of `top_chords(keys, 1)` is the chord of `best_chord`.
pub proof fn lemma_top_one_is_best(keys: Seq<u32>, top: Seq<ChordMatch>, best: ChordMatch)
    requires
        is_chord_ranking(keys, top),
        top.len() == 1,
        is_chord_ranking(keys, seq![best]),
    ensures
        top[0] == best,
{
    lemma_chord_ranking_unique(keys, top, seq![best]);
    assert(seq![best][0] == best);
}

/// Asking for more chords than there are profiles gives the full ranking,
/// as asking for exactly 120 does.
pub proof fn lemma_top_k_clamps(keys: Seq<u32>, k: int, over: Seq<ChordMatch>, all: Seq<ChordMatch>)
    requires
        k > NUM_CHORDS,
        is_chord_ranking(keys, over),
        over.len() == if k < NUM_CHORDS { k } else { NUM_CHORDS as int },
        is_chord_ranking(keys, all),
        all.len() == NUM_CHORDS,
    ensures
        over == all,
{
    lemma_chord_ranking_unique(keys, over, all);
}

} // verus!
