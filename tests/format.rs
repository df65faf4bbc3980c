use dua::{block_count_display, human_readable_display};

#[test]
fn human_readable_round_boundaries() {
    assert_eq!(human_readable_display(1024), "1K");
    assert_eq!(human_readable_display(1536), "1.5K");
    assert_eq!(human_readable_display(0), "0");
}

#[test]
fn human_readable_scaling_and_rounding() {
    assert_eq!(human_readable_display(1023), "1023");
    assert_eq!(human_readable_display(1300), "1.3K");
    assert_eq!(human_readable_display(1280), "1.2K");
    assert_eq!(human_readable_display(1331), "1.3K");
    assert_eq!(human_readable_display(1048575), "1024.0K");
    assert_eq!(human_readable_display(1048576), "1M");
    assert_eq!(human_readable_display(5 * 1024 * 1024 * 1024), "5G");
}

#[test]
fn human_readable_stops_at_the_largest_unit() {
    assert_eq!(human_readable_display(1u128 << 80), "1Y");
    assert_eq!(human_readable_display(1u128 << 90), "1024Y");
    assert_eq!(human_readable_display(u128::MAX), "281474976710656.0Y");
}

#[test]
fn block_count_rounds_up_partial_blocks() {
    assert_eq!(block_count_display(0, 1024), "0");
    assert_eq!(block_count_display(1024, 1024), "1");
    assert_eq!(block_count_display(1025, 1024), "2");
    assert_eq!(block_count_display(2048, 1024), "2");
    assert_eq!(block_count_display(1, 512), "1");
    assert_eq!(block_count_display(150, 1), "150");
    assert_eq!(block_count_display(u128::MAX, 1), "340282366920938463463374607431768211455");
    assert_eq!(block_count_display(u128::MAX, 2), "170141183460469231731687303715884105728");
}
