use dua::{block_size, block_size_builder, resolve_block_size, BlockSize};

#[test]
fn test_block_size_reader() {
    assert_eq!(block_size("123KB".as_bytes()), BlockSize(123, 1, 1000));
    assert_eq!(block_size("KB".as_bytes()), BlockSize(1, 1, 1000));
    assert_eq!(block_size("".as_bytes()), BlockSize(1, 1, 1024));
    assert_eq!(block_size("1".as_bytes()), BlockSize(1, 1, 1024));
    assert_eq!(block_size("M".as_bytes()), BlockSize(1, 2, 1024));
}

#[test]
fn block_size_reads_units_and_decimal_base() {
    assert_eq!(block_size("4G".as_bytes()), BlockSize(4, 3, 1024));
    assert_eq!(block_size("2YB".as_bytes()), BlockSize(2, 8, 1000));
    assert_eq!(block_size("7B".as_bytes()), BlockSize(7, 1, 1000));
    assert_eq!(block_size("12Kx".as_bytes()), BlockSize(12, 1, 1024));
    assert_eq!(block_size("x".as_bytes()), BlockSize(1, 1, 1024));
}

#[test]
fn block_size_builder_multiplies_out() {
    assert_eq!(block_size_builder(BlockSize(123, 1, 1000)), 123_000);
    assert_eq!(block_size_builder(BlockSize(1, 2, 1024)), 1_048_576);
    assert_eq!(block_size_builder(BlockSize(1, 3, 1024)), 1_073_741_824);
    assert_eq!(block_size_builder(BlockSize(3, 0, 1024)), 3);
    assert_eq!(block_size_builder(BlockSize(5, 2, 0)), 0);
}

#[test]
fn resolve_block_size_refuses_unusable_sizes() {
    assert_eq!(resolve_block_size("1K".as_bytes()), Some(1024));
    assert_eq!(resolve_block_size("KB".as_bytes()), Some(1000));
    assert_eq!(resolve_block_size("2M".as_bytes()), Some(2 * 1024 * 1024));
    assert_eq!(resolve_block_size("0".as_bytes()), None);
    assert_eq!(resolve_block_size("99999999999999999999K".as_bytes()), None);
    assert_eq!(
        resolve_block_size("18446744073709551615Y".as_bytes()),
        None
    );
    assert_eq!(
        resolve_block_size("1Y".as_bytes()),
        Some(1u128 << 80)
    );
}
