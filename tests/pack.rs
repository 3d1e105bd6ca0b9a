use std::collections::BTreeSet;

use exe_packer::codec::{decompress, Algorithm, CodecError};
use exe_packer::container::ExtraEntry;
use exe_packer::pack::{normalize_separators, pack_executable, pack_file, pack_files, SourceFile};
use exe_packer::container::parse_container;

fn file(path: &str, data: &[u8]) -> SourceFile {
    SourceFile { rel_path: path.as_bytes().to_vec(), data: data.to_vec() }
}

fn as_set(entries: &[ExtraEntry]) -> BTreeSet<(Vec<u8>, Vec<u8>)> {
    entries.iter().map(|e| (e.path.clone(), decompress(&e.blob).unwrap())).collect()
}

#[test]
fn separators_normalized() {
    assert_eq!(normalize_separators(b"sub\\dir\\f.txt"), b"sub/dir/f.txt".to_vec());
    assert_eq!(normalize_separators(b"plain"), b"plain".to_vec());
    assert_eq!(normalize_separators(b""), Vec::<u8>::new());
}

#[test]
fn pack_file_compresses_and_normalizes() {
    let e = pack_file(&file("a\\b.txt", b"hello"), Algorithm::Lzma, 3).unwrap();
    assert_eq!(e.path, b"a/b.txt".to_vec());
    assert_ne!(e.blob, b"hello".to_vec());
    assert_eq!(decompress(&e.blob).unwrap(), b"hello".to_vec());
}

#[test]
fn pack_file_invalid_level() {
    assert_eq!(
        pack_file(&file("a", b"x"), Algorithm::Brotli, 12).unwrap_err(),
        CodecError::InvalidLevel { algorithm: Algorithm::Brotli, level: 12 }
    );
}

#[test]
fn same_files_any_order_same_set() {
    let files: Vec<SourceFile> = (0..6).map(|i| file(&format!("f{}.bin", i), &vec![i as u8; 50 + i])).collect();
    let one_worker = pack_files(&files, Algorithm::Zstd, 3).unwrap();
    // two workers: each takes every other file, results appended as they finish
    let mut two_workers = pack_files(&files.iter().skip(1).step_by(2).cloned().collect::<Vec<_>>(), Algorithm::Zstd, 3).unwrap();
    two_workers.extend(pack_files(&files.iter().step_by(2).cloned().collect::<Vec<_>>(), Algorithm::Zstd, 3).unwrap());
    // one worker per file, finishing in reverse order
    let per_file: Vec<ExtraEntry> = files.iter().rev().map(|f| pack_file(f, Algorithm::Zstd, 3).unwrap()).collect();
    assert_eq!(as_set(&one_worker).len(), 6);
    assert_eq!(as_set(&one_worker), as_set(&two_workers));
    assert_eq!(as_set(&one_worker), as_set(&per_file));
}

#[test]
fn pack_files_empty_list() {
    assert!(pack_files(&[], Algorithm::Lzma, 3).unwrap().is_empty());
}

#[test]
fn pack_executable_builds_readable_stub() {
    let extras = vec![pack_file(&file("x.txt", b"data"), Algorithm::Brotli, 5).unwrap()];
    let img = pack_executable(b"TEMPLATE", b"prog.exe", b"program bytes", &extras, Algorithm::Brotli, 5, true).unwrap();
    assert!(img.starts_with(b"TEMPLATE\n--XFILENAMEX--\n"));
    let c = parse_container(&img).unwrap();
    assert_eq!(c.filename, b"prog.exe".to_vec());
    assert_eq!(decompress(&c.payload).unwrap(), b"program bytes".to_vec());
    assert!(c.cleanup);
    assert_eq!(c.extras[0].path, b"x.txt".to_vec());
}

#[test]
fn pack_executable_invalid_level() {
    assert_eq!(
        pack_executable(b"T", b"p", b"x", &[], Algorithm::Zstd, 23, false).unwrap_err(),
        CodecError::InvalidLevel { algorithm: Algorithm::Zstd, level: 23 }
    );
}
