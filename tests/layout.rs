use blind_watermark::config::WatermarkMode;
use blind_watermark::embed::{assign_bits, vote_bits, WatermarkError};
use blind_watermark::strategy::{permutation_for_mode, Permutation};

fn is_permutation(f: &[usize], n: usize) -> bool {
    let mut seen = vec![false; n];
    for &v in f {
        if v >= n || seen[v] {
            return false;
        }
        seen[v] = true;
    }
    f.len() == n
}

#[test]
fn identity_maps_each_block_to_itself() {
    let p = Permutation::identity(5);
    assert_eq!(p.f, vec![0, 1, 2, 3, 4]);
    assert_eq!(p.n, 5);
    assert_eq!(p.corresponding_wmbits_position(4, 3), 1);
    assert_eq!(p.corresponding_block_positions(0, 3), vec![0, 3]);
    assert_eq!(p.corresponding_block_positions(2, 3), vec![2]);
}

#[test]
fn seeded_permutation_is_repeatable() {
    let a = Permutation::new(64, 42);
    let b = Permutation::new(64, 42);
    assert_eq!(a.f, b.f);
    assert_eq!(a.n, 64);
    assert!(is_permutation(&a.f, 64));
}

#[test]
fn seeded_permutation_depends_on_seed() {
    let a = Permutation::new(16, 1);
    let b = Permutation::new(16, 2);
    assert_ne!(a.f, b.f);
    assert!(is_permutation(&b.f, 16));
    assert_ne!(a.f, Permutation::identity(16).f);
}

#[test]
fn empty_permutation() {
    let p = Permutation::new(0, 9);
    assert!(p.f.is_empty());
    assert_eq!(p.corresponding_block_positions(0, 1), Vec::<usize>::new());
}

#[test]
fn block_positions_invert_bit_positions() {
    let p = Permutation::new(20, 7);
    let wm_len = 6;
    for bit in 0..wm_len {
        let blocks = p.corresponding_block_positions(bit, wm_len);
        for &b in &blocks {
            assert_eq!(p.corresponding_wmbits_position(b, wm_len), bit);
        }
        let expected: Vec<usize> =
            (0..20).filter(|&i| p.corresponding_wmbits_position(i, wm_len) == bit).collect();
        assert_eq!(blocks, expected);
    }
}

#[test]
fn mode_selects_permutation() {
    assert_eq!(permutation_for_mode(WatermarkMode::Normal, 4).f, vec![0, 1, 2, 3]);
    assert_eq!(permutation_for_mode(WatermarkMode::Strategy(5), 30).f, Permutation::new(30, 5).f);
}

#[test]
fn normal_layout_cycles_bits() {
    let bits = vec![true, false, true];
    assert_eq!(
        assign_bits(&bits, 7, WatermarkMode::Normal),
        Ok(vec![true, false, true, true, false, true, true])
    );
}

#[test]
fn seeded_layout_follows_permutation() {
    let bits = vec![true, false, false, true, true];
    let perm = Permutation::new(12, 77);
    let got = assign_bits(&bits, 12, WatermarkMode::Strategy(77)).unwrap();
    for i in 0..12 {
        assert_eq!(got[i], bits[perm.f[i] % 5]);
    }
}

#[test]
fn layout_errors() {
    assert_eq!(assign_bits(&vec![], 4, WatermarkMode::Normal), Err(WatermarkError::EmptyWatermark));
    assert_eq!(
        assign_bits(&vec![true; 5], 4, WatermarkMode::Normal),
        Err(WatermarkError::CapacityExceeded)
    );
    assert_eq!(assign_bits(&vec![true; 4], 4, WatermarkMode::Normal), Ok(vec![true; 4]));
}

#[test]
fn tie_decodes_as_set() {
    let raw = vec![(true, true, true), (false, false, false)];
    assert_eq!(vote_bits(&raw, 1, WatermarkMode::Normal), Ok(vec![true]));
    let mixed = vec![(true, false, true), (false, true, false)];
    assert_eq!(vote_bits(&mixed, 1, WatermarkMode::Normal), Ok(vec![true]));
    let below = vec![(true, false, false), (false, true, false)];
    assert_eq!(vote_bits(&below, 1, WatermarkMode::Normal), Ok(vec![false]));
}

#[test]
fn vote_counts_all_blocks_of_a_position() {
    let raw = vec![
        (true, true, false),
        (false, false, false),
        (true, true, true),
        (false, false, true),
    ];
    assert_eq!(vote_bits(&raw, 2, WatermarkMode::Normal), Ok(vec![true, false]));
}

#[test]
fn vote_errors() {
    assert_eq!(vote_bits(&vec![(true, true, true)], 0, WatermarkMode::Normal), Err(WatermarkError::EmptyWatermark));
    assert_eq!(vote_bits(&vec![], 3, WatermarkMode::Normal), Err(WatermarkError::NoBlocks));
}

#[test]
fn position_without_blocks_decodes_as_set() {
    let raw = vec![(false, false, false)];
    assert_eq!(vote_bits(&raw, 2, WatermarkMode::Normal), Ok(vec![false, true]));
}

#[test]
fn layout_then_vote_round_trip() {
    let bits = vec![false, true, false, true, true, false, false];
    for mode in [WatermarkMode::Normal, WatermarkMode::Strategy(0), WatermarkMode::Strategy(12345)] {
        let per_block = assign_bits(&bits, 40, mode).unwrap();
        let raw: Vec<(bool, bool, bool)> = per_block.iter().map(|&b| (b, b, b)).collect();
        assert_eq!(vote_bits(&raw, bits.len(), mode), Ok(bits.clone()));
    }
    let four = vec![false, true, false, true];
    let per_block = assign_bits(&four, 4, WatermarkMode::Normal).unwrap();
    let raw: Vec<(bool, bool, bool)> = per_block.iter().map(|&b| (b, b, b)).collect();
    assert_eq!(vote_bits(&raw, 4, WatermarkMode::Normal), Ok(four));
}

#[test]
fn vote_outvotes_single_channel_errors() {
    let bits = vec![true, false, true];
    let per_block = assign_bits(&bits, 9, WatermarkMode::Strategy(8)).unwrap();
    let raw: Vec<(bool, bool, bool)> = per_block.iter().map(|&b| (b, !b, b)).collect();
    assert_eq!(vote_bits(&raw, 3, WatermarkMode::Strategy(8)), Ok(bits));
}
