use egg_node::pow::target::bits_to_target;
use egg_node::pow::verify::verify_pow;
use egg_node::pow::work::work_from_bits;
use egg_node::chain::header::BlockHeader;

#[test]
fn target_places_mantissa_at_top_for_large_exponent() {
    let t = bits_to_target(0x1f00ffff);
    assert_eq!(t.len(), 32);
    assert_eq!(&t[0..4], &[0x00, 0x00, 0xff, 0xff]);
    assert!(t[4..].iter().all(|b| *b == 0));
}

#[test]
fn target_shifts_mantissa_down_for_small_exponent() {
    let t = bits_to_target(0x03001234);
    assert_eq!(t.len(), 32);
    assert!(t[0..28].iter().all(|b| *b == 0));
    assert_eq!(&t[28..32], &[0x00, 0x00, 0x12, 0x34]);
    let t2 = bits_to_target(0x02001234);
    assert_eq!(&t2[28..32], &[0x00, 0x00, 0x00, 0x12]);
}

#[test]
fn target_out_of_range_exponent_is_zero() {
    let t = bits_to_target(0xff000001);
    assert!(t.iter().all(|b| *b == 0));
}

#[test]
fn work_orders_against_target() {
    // A smaller target must mean strictly more work.
    let easy = work_from_bits(0x1f00ffff);
    let harder = work_from_bits(0x1f00aaaa);
    let hardest = work_from_bits(0x1d00ffff);
    assert!(harder > easy);
    assert!(hardest > harder);
    // Equal targets, equal work.
    assert_eq!(work_from_bits(0x1f00ffff), work_from_bits(0x1f00ffff));
    // An all-zero target counts as infinite work.
    assert_eq!(work_from_bits(0x1f000000), u128::MAX);
    // Work of ordinary targets is always positive.
    assert!(easy > 0);
}

#[test]
fn pow_rejects_most_nonces_on_hard_target() {
    let header = BlockHeader {
        version: 1,
        prev_hash: vec![0u8; 32],
        merkle_root: vec![0u8; 32],
        timestamp: 1,
        // Hardest representable target short of zero: nothing passes.
        bits: 0x01000001,
        nonce: 0,
    };
    assert!(!verify_pow(&header));
}
