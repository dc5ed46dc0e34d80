use chord_detector::chromagram::{decimate, CHROMA_INTERVAL, MAX_BIN};
use chord_detector::{ChromagramBuilder, ChromagramConfig, ChromagramError};

#[test]
fn builder_defaults_and_setters() {
    let b = ChromagramBuilder::new();
    assert_eq!(
        b.config(),
        ChromagramConfig {
            frame_size: 1024,
            sampling_rate: 44_100,
            downsample_factor: 4,
            num_harmonics: 2,
            num_octaves: 2,
            search_width: 3,
        }
    );
    let c = ChromagramBuilder::new()
        .frame_size(4096)
        .sampling_rate(48_000)
        .downsample_factor(8)
        .num_harmonics(3)
        .num_octaves(1)
        .search_width(0)
        .config();
    assert_eq!(
        c,
        ChromagramConfig {
            frame_size: 4096,
            sampling_rate: 48_000,
            downsample_factor: 8,
            num_harmonics: 3,
            num_octaves: 1,
            search_width: 0,
        }
    );
}

#[test]
fn build_refuses_bad_settings() {
    let r = ChromagramBuilder::new().downsample_factor(3).build(0.0f32);
    assert!(matches!(r, Err(ChromagramError::Configuration(_))));
    let r = ChromagramBuilder::new().downsample_factor(0).build(0.0f32);
    assert!(matches!(r, Err(ChromagramError::Configuration(_))));
    let r = ChromagramBuilder::new().frame_size(0).build(0.0f32);
    assert!(matches!(r, Err(ChromagramError::Configuration(_))));
    assert!(ChromagramBuilder::new().downsample_factor(1).build(0.0f32).is_ok());
}

#[test]
fn wrong_frame_length_is_refused() {
    let s = ChromagramBuilder::new().build(0.0f32).unwrap();
    assert_eq!(s.check_frame(1024), Ok(()));
    assert_eq!(
        s.check_frame(1000),
        Err(ChromagramError::InvalidFrameSize { expected: 1024, got: 1000 })
    );
}

#[test]
fn decimation_keeps_every_nth_sample() {
    let v: Vec<i32> = (0..10).collect();
    assert_eq!(decimate(&v, 4), vec![0, 4]);
    assert_eq!(decimate(&v, 1), v);
    assert_eq!(decimate(&v, 3), vec![0, 3, 6]);
    assert_eq!(decimate(&v, 11), Vec::<i32>::new());
}

#[test]
fn zero_frames_emit_once_per_interval() {
    let mut s = ChromagramBuilder::new().build(0.0f32).unwrap();
    let frame = vec![0.0f32; 1024];
    let mut emitted = Vec::new();
    for n in 0..16 {
        if let Some(w) = s.feed(&frame) {
            assert_eq!(w.len(), 8192);
            assert!(w.iter().all(|&x| x >= 0.0));
            emitted.push(n);
        }
    }
    assert_eq!(emitted, vec![3, 7, 11, 15]);
}

#[test]
fn long_frames_emit_every_time() {
    let mut s = ChromagramBuilder::new().frame_size(5000).downsample_factor(1).build(0i32).unwrap();
    let frame = vec![1i32; 5000];
    for _ in 0..5 {
        assert!(s.feed(&frame).is_some());
    }
    let mut small = ChromagramBuilder::new().frame_size(CHROMA_INTERVAL - 1).build(0i32).unwrap();
    let frame = vec![1i32; CHROMA_INTERVAL - 1];
    assert!(small.feed(&frame).is_none());
    assert!(small.feed(&frame).is_some());
}

#[test]
fn window_starts_half_a_buffer_behind_the_cursor() {
    // factor 1, frames of 4096: after one frame the buffer holds 1..=4096
    // at 0..4096 and the cursor is at 4096.
    let mut s = ChromagramBuilder::new().frame_size(4096).downsample_factor(1).build(0i32).unwrap();
    let frame: Vec<i32> = (1..=4096).collect();
    let w = s.feed(&frame).unwrap();
    assert_eq!(w.len(), 8192);
    assert_eq!(w[0], 1);
    assert_eq!(w[4095], 4096);
    assert_eq!(w[4096], 0);
    assert_eq!(w[8191], 0);
    // the second frame fills the rest; the cursor wraps to 0
    let frame2: Vec<i32> = (4097..=8192).collect();
    let w2 = s.feed(&frame2).unwrap();
    assert_eq!(w2[0], 4097);
    assert_eq!(w2[4095], 8192);
    assert_eq!(w2[4096], 1);
    assert_eq!(w2[8191], 4096);
}

#[test]
fn decimated_samples_fill_the_buffer() {
    let mut s = ChromagramBuilder::new().frame_size(8).downsample_factor(4).build(0i32).unwrap();
    let frame: Vec<i32> = (10..18).collect();
    assert!(s.feed(&frame).is_none());
    let w = s.window();
    // the cursor is at 2: the window starts at buffer slot 2 + 4096, so
    // slots 0 and 1 come at 4094 and 4095
    assert_eq!(w[4094], 10);
    assert_eq!(w[4095], 14);
    assert_eq!(w[4096], 0);
    assert_eq!(w[0], 0);
}

#[test]
fn search_windows_are_clipped() {
    let s = ChromagramBuilder::new().build(0.0f32).unwrap();
    assert_eq!(s.search_window(10, 2), Some((4, 16)));
    assert_eq!(s.search_window(1, 1), Some((0, 4)));
    assert_eq!(s.search_window(4095, 1), Some((4092, MAX_BIN)));
    assert_eq!(s.search_window(4099, 1), Some((4096, 4096)));
    assert_eq!(s.search_window(5000, 1), None);
    let wide = ChromagramBuilder::new().search_width(usize::MAX).build(0.0f32).unwrap();
    assert_eq!(wide.search_window(7, usize::MAX), Some((0, MAX_BIN)));
}

#[test]
fn default_builder_matches_new() {
    assert_eq!(ChromagramBuilder::default().config(), ChromagramBuilder::new().config());
}

#[test]
fn ring_keeps_the_latest_samples() {
    // 3 frames of 4096 through an 8192-sample buffer: the first frame is
    // overwritten by the third.
    let mut s = ChromagramBuilder::new().frame_size(4096).downsample_factor(1).build(0u32).unwrap();
    for base in [0u32, 10_000, 20_000] {
        let frame: Vec<u32> = (base..base + 4096).collect();
        s.feed(&frame);
    }
    let w = s.window();
    // the cursor is at 4096; the window starts at slot 0
    assert_eq!(w[0], 20_000);
    assert_eq!(w[4095], 24_095);
    assert_eq!(w[4096], 10_000);
    assert_eq!(w[8191], 14_095);
}
