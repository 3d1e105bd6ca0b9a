use exe_packer::codec::{compress, decompress, validate_compression_level, Algorithm, CodecError};
use exe_packer::decimal::{decimal_digits, parse_decimal};

fn sample(n: usize) -> Vec<u8> {
    (0..n).map(|i| ((i * 31 + 7) % 251) as u8).collect()
}

#[test]
fn zstd_level_23_rejected_with_range() {
    let err = validate_compression_level(23, false, true).unwrap_err();
    assert!(err.contains("1"));
    assert!(err.contains("22"));
    assert_eq!(err, "Invalid compression level 23 for zstd: supported levels are 1-22");
}

#[test]
fn brotli_level_12_rejected() {
    let err = validate_compression_level(12, true, false).unwrap_err();
    assert_eq!(err, "Invalid compression level 12 for brotli: supported levels are 0-11");
}

#[test]
fn default_level_10_rejected() {
    let err = validate_compression_level(10, false, false).unwrap_err();
    assert_eq!(err, "Invalid compression level 10 for lzma: supported levels are 0-9");
}

#[test]
fn level_3_accepted_everywhere() {
    assert!(validate_compression_level(3, false, false).is_ok());
    assert!(validate_compression_level(3, false, true).is_ok());
    assert!(validate_compression_level(3, true, false).is_ok());
    assert!(validate_compression_level(3, true, true).is_ok());
}

#[test]
fn zstd_level_0_rejected_and_range_edges_accepted() {
    assert!(validate_compression_level(0, false, true).is_err());
    assert!(validate_compression_level(1, false, true).is_ok());
    assert!(validate_compression_level(22, false, true).is_ok());
    assert!(validate_compression_level(0, true, false).is_ok());
    assert!(validate_compression_level(11, true, false).is_ok());
    assert!(validate_compression_level(9, false, false).is_ok());
}

#[test]
fn brotli_wins_over_zstd_flag() {
    assert_eq!(Algorithm::from_flags(true, true), Algorithm::Brotli);
    assert_eq!(Algorithm::from_flags(false, true), Algorithm::Zstd);
    assert_eq!(Algorithm::from_flags(false, false), Algorithm::Lzma);
}

#[test]
fn compress_rejects_level_before_work() {
    assert_eq!(
        compress(&[1, 2, 3], Algorithm::Zstd, 23),
        Err(CodecError::InvalidLevel { algorithm: Algorithm::Zstd, level: 23 })
    );
    assert_eq!(
        compress(&[1, 2, 3], Algorithm::Lzma, 10),
        Err(CodecError::InvalidLevel { algorithm: Algorithm::Lzma, level: 10 })
    );
}

#[test]
fn round_trip_lzma() {
    let data = sample(5000);
    let blob = compress(&data, Algorithm::Lzma, 6).unwrap();
    assert_ne!(blob, data);
    assert_eq!(decompress(&blob).unwrap(), data);
}

#[test]
fn round_trip_zstd() {
    let data = sample(5000);
    let blob = compress(&data, Algorithm::Zstd, 19).unwrap();
    assert_ne!(blob, data);
    assert_eq!(decompress(&blob).unwrap(), data);
}

#[test]
fn round_trip_brotli() {
    let data = sample(5000);
    let blob = compress(&data, Algorithm::Brotli, 11).unwrap();
    assert_ne!(blob, data);
    assert_eq!(decompress(&blob).unwrap(), data);
}

#[test]
fn round_trip_every_level() {
    let data = b"hello hello hello packer".to_vec();
    for (alg, lo, hi) in [(Algorithm::Lzma, 0, 9), (Algorithm::Zstd, 1, 22), (Algorithm::Brotli, 0, 11)] {
        for level in lo..=hi {
            let blob = compress(&data, alg, level).unwrap();
            assert_eq!(decompress(&blob).unwrap(), data);
        }
    }
}

#[test]
fn round_trip_empty_input() {
    for alg in [Algorithm::Lzma, Algorithm::Zstd, Algorithm::Brotli] {
        let blob = compress(&[], alg, 3).unwrap();
        assert_eq!(decompress(&blob).unwrap(), Vec::<u8>::new());
    }
}

#[test]
fn garbage_does_not_decompress() {
    let junk = vec![0xFFu8; 64];
    assert_eq!(decompress(&junk), Err(CodecError::DecompressFailed));
}

#[test]
fn decimal_rendering() {
    assert_eq!(decimal_digits(0), b"0".to_vec());
    assert_eq!(decimal_digits(10000), b"10000".to_vec());
    assert_eq!(decimal_digits(u64::MAX), u64::MAX.to_string().into_bytes());
}

#[test]
fn decimal_parsing() {
    assert_eq!(parse_decimal(b"0"), Some(0));
    assert_eq!(parse_decimal(b"4096"), Some(4096));
    assert_eq!(parse_decimal(b""), None);
    assert_eq!(parse_decimal(b"12a"), None);
    assert_eq!(parse_decimal(b" 12"), None);
    assert_eq!(parse_decimal(b"99999999999999999999999"), None);
    assert_eq!(parse_decimal(usize::MAX.to_string().as_bytes()), Some(usize::MAX));
}
