use chord_detector::chord_detector::{
    best_chord, bleed_target, check_chroma, chord_of_profile, rank_chords, rank_profiles,
    top_chords, NUM_CHORDS,
};
use chord_detector::{ChordError, ChordKind, ChordMatch, NoteName, ProfileBank};

const BLEED: f32 = 0.157;

/// Bleed suppression and scoring of every profile, as the detector does it.
fn score_keys(bank: &ProfileBank, chroma: &[f32]) -> (Vec<f32>, Vec<u32>) {
    let mut work = [0.0f32; 12];
    work.copy_from_slice(chroma);
    for i in 0..12 {
        let amount = BLEED * chroma[i];
        let t = bleed_target(i);
        work[t] = (work[t] - amount).max(0.0);
    }
    let mut scores = Vec::new();
    for i in 0..NUM_CHORDS {
        let p = bank.profile(i);
        let mut acc = 0.0f32;
        for q in 0..12 {
            if !p.weights[q] {
                acc += work[q] * work[q];
            }
        }
        scores.push(acc.sqrt() * (1000.0 / p.norm_denominator as f32));
    }
    let keys = scores.iter().map(|s| s.to_bits()).collect();
    (scores, keys)
}

fn index_of(root: usize, kind: usize) -> usize {
    kind * 12 + root
}

#[test]
fn note_names_from_index() {
    assert_eq!(NoteName::from_idx(0), NoteName::C);
    assert_eq!(NoteName::from_idx(1), NoteName::Cs);
    assert_eq!(NoteName::from_idx(7), NoteName::G);
    assert_eq!(NoteName::from_idx(11), NoteName::B);
    assert_eq!(NoteName::from_idx(12), NoteName::Unknown);
    assert_eq!(NoteName::from_idx(usize::MAX), NoteName::Unknown);
}

#[test]
fn chord_kinds_in_bank_order() {
    assert_eq!(ChordKind::from_idx(0), ChordKind::Major);
    assert_eq!(ChordKind::from_idx(2), ChordKind::PowerFifth);
    assert_eq!(ChordKind::from_idx(9), ChordKind::SuspendedFourth);
    assert_eq!(ChordKind::DominantSeventh.intervals(), vec![0, 4, 7, 10]);
    assert_eq!(ChordKind::SuspendedSecond.intervals(), vec![0, 2, 7]);
    assert_eq!(ChordKind::Augmented.bias_permille(), 1055);
    assert_eq!(ChordKind::PowerFifth.bias_permille(), 1005);
}

#[test]
fn profile_bank_layout() {
    let bank = ProfileBank::new();
    let tones = |i: usize| -> Vec<usize> {
        (0..12).filter(|&q| bank.profile(i).weights[q]).collect()
    };
    assert_eq!(tones(0), vec![0, 4, 7]);
    assert_eq!(bank.profile(0).norm_denominator, 9 * 1060);
    // A minor: A, C, E
    assert_eq!(tones(index_of(9, 1)), vec![0, 4, 9]);
    // B power chord wraps round to F#
    assert_eq!(tones(index_of(11, 2)), vec![6, 11]);
    assert_eq!(bank.profile(index_of(11, 2)).norm_denominator, 10 * 1005);
    assert_eq!(bank.profile(index_of(3, 4)).norm_denominator, 8 * 1000);
    for i in 0..NUM_CHORDS {
        assert_eq!(bank.profile(i).weights.len(), 12);
    }
}

#[test]
fn chord_of_profile_splits_index() {
    let m = chord_of_profile(index_of(9, 1));
    assert_eq!(m, ChordMatch { root: NoteName::A, quality: ChordKind::Minor, profile: 21 });
    let last = chord_of_profile(119);
    assert_eq!(last.root, NoteName::B);
    assert_eq!(last.quality, ChordKind::SuspendedFourth);
}

#[test]
fn bleed_goes_a_fourth_below() {
    assert_eq!(bleed_target(0), 7);
    assert_eq!(bleed_target(7), 2);
    assert_eq!(bleed_target(5), 0);
    assert_eq!(bleed_target(11), 6);
}

#[test]
fn chroma_of_wrong_length_is_refused() {
    assert_eq!(check_chroma(12), Ok(()));
    assert_eq!(check_chroma(11), Err(ChordError::InvalidLength { expected: 12, got: 11 }));
    assert_eq!(check_chroma(0), Err(ChordError::InvalidLength { expected: 12, got: 0 }));
}

#[test]
fn zero_k_is_refused() {
    let keys = vec![0u32; NUM_CHORDS];
    let r = top_chords(&keys, 0);
    assert!(matches!(r, Err(ChordError::InvalidArgument { arg: "k", .. })));
}

#[test]
fn oversized_k_is_clamped() {
    let keys: Vec<u32> = (0..NUM_CHORDS as u32).map(|i| (i * 37) % 53).collect();
    let all = top_chords(&keys, 120).unwrap();
    let over = top_chords(&keys, 121).unwrap();
    let huge = top_chords(&keys, usize::MAX).unwrap();
    assert_eq!(all.len(), 120);
    assert_eq!(over, all);
    assert_eq!(huge, all);
}

#[test]
fn equal_keys_rank_by_index() {
    let keys = vec![5u32; NUM_CHORDS];
    assert_eq!(rank_profiles(&keys, 4), vec![0, 1, 2, 3]);
    let keys2 = vec![3u32, 1, 2, 1, 3];
    assert_eq!(rank_profiles(&keys2, 5), vec![1, 3, 2, 0, 4]);
    assert_eq!(rank_profiles(&keys2, 0), Vec::<usize>::new());
}

#[test]
fn ranking_is_ascending_by_key() {
    let keys: Vec<u32> = (0..NUM_CHORDS as u32).map(|i| 1000 - i).collect();
    let top = rank_chords(&keys, 3);
    assert_eq!(top.iter().map(|m| m.profile).collect::<Vec<_>>(), vec![119, 118, 117]);
    assert_eq!(best_chord(&keys).profile, 119);
}

#[test]
fn best_agrees_with_top_one_and_full_ranking() {
    let keys: Vec<u32> = (0..NUM_CHORDS as u32).map(|i| (i * 71 + 13) % 97).collect();
    let best = best_chord(&keys);
    let one = top_chords(&keys, 1).unwrap();
    let all = top_chords(&keys, 120).unwrap();
    assert_eq!(one, vec![best]);
    assert_eq!(all[0], best);
    assert!(keys.iter().all(|&k| keys[best.profile] <= k));
    assert_eq!(best_chord(&keys), best);
}

#[test]
fn c_major_triad_is_detected() {
    let bank = ProfileBank::new();
    let mut chroma = [0.0f32; 12];
    chroma[0] = 1.0;
    chroma[4] = 1.0;
    chroma[7] = 1.0;
    let (scores, keys) = score_keys(&bank, &chroma);
    let best = best_chord(&keys);
    assert_eq!(best.root, NoteName::C);
    assert_eq!(best.quality, ChordKind::Major);
    let c_major = scores[index_of(0, 0)];
    let c_minor = scores[index_of(0, 1)];
    assert!(c_major < 0.05);
    assert!(c_major < c_minor);
    assert_eq!(scores[best.profile], c_major);
}

#[test]
fn uniform_chroma_scores_by_quality() {
    let bank = ProfileBank::new();
    let chroma = [1.0f32; 12];
    let (scores, keys) = score_keys(&bank, &chroma);
    for kind in 0..10 {
        for root in 1..12 {
            assert_eq!(scores[index_of(root, kind)], scores[index_of(0, kind)]);
        }
    }
    // After bleed every bin holds 0.843; a quality with t tones and bias b
    // scores sqrt(12 - t) * 0.843 / ((12 - t) * b) = 0.843 / (sqrt(12 - t) * b).
    let expected = |tones: f32, bias: f32| 0.843f32 / ((12.0 - tones).sqrt() * bias);
    let power = scores[index_of(0, 2)];
    let sus4 = scores[index_of(0, 9)];
    let dom7 = scores[index_of(0, 3)];
    let maj7 = scores[index_of(0, 4)];
    let major = scores[index_of(0, 0)];
    assert!((power - expected(2.0, 1.005)).abs() < 1e-4);
    assert!((sus4 - expected(3.0, 1.0)).abs() < 1e-4);
    assert!((dom7 - expected(4.0, 1.06)).abs() < 1e-4);
    assert!((maj7 - expected(4.0, 1.0)).abs() < 1e-4);
    assert!((major - expected(3.0, 1.06)).abs() < 1e-4);
    // The score falls as sqrt(12 - t) * b grows: 3.18 for the major triad,
    // 3.178 for the power chord, 3.0 for sus4, 2.998 for the dominant
    // seventh and 2.828 for the major seventh.
    assert!(major < power);
    assert!(power < sus4);
    assert!(sus4 < dom7);
    assert!(dom7 < maj7);
    // Major and minor triads tie; the lower profile index goes first.
    let best = best_chord(&keys);
    assert_eq!(best.quality, ChordKind::Major);
    assert_eq!(best.root, NoteName::C);
    let top = top_chords(&keys, 13).unwrap();
    assert!(top[..12].iter().all(|m| m.quality == ChordKind::Major));
    assert_eq!(top[12].quality, ChordKind::Minor);
}

#[test]
fn chord_kind_names() {
    assert_eq!(ChordKind::Major.name(), "Major");
    assert_eq!(ChordKind::SuspendedFourth.name(), "SuspendedFourth");
    assert_eq!(ChordKind::DominantSeventh.name(), "DominantSeventh");
}
