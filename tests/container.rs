use exe_packer::container::{build_container, parse_container, ContainerError, ExtraEntry};

fn entry(path: &str, blob: &[u8]) -> ExtraEntry {
    ExtraEntry { path: path.as_bytes().to_vec(), blob: blob.to_vec() }
}

#[test]
fn wire_layout_is_exact() {
    let img = build_container(b"TPL", b"app.exe", b"xyz", true, &[entry("a/b.txt", b"12")]);
    let mut expected = b"TPL\n--XFILENAMEX--\nYXBwLmV4ZQ==\n--FILE-CONTENT--\n3\nxyz\n--CLEANUP--\n".to_vec();
    expected.extend_from_slice(b"\n--EXTRA-FILE--\nYS9iLnR4dA==\n2\n12");
    assert_eq!(img, expected);
}

#[test]
fn wire_layout_without_cleanup() {
    let img = build_container(b"", b"x", b"", false, &[]);
    assert_eq!(img, b"\n--XFILENAMEX--\neA==\n--FILE-CONTENT--\n0\n".to_vec());
}

#[test]
fn container_round_trip() {
    let extras = vec![entry("a.txt", b"compressed-a"), entry("sub/b.txt", &[0, 10, 255, 10])];
    let primary: Vec<u8> = (0..300u32).map(|i| (i % 7) as u8).collect();
    let img = build_container(b"MZ template bytes", b"tool.exe", &primary, false, &extras);
    let c = parse_container(&img).unwrap();
    assert_eq!(c.filename, b"tool.exe".to_vec());
    assert_eq!(c.payload, primary);
    assert!(!c.cleanup);
    assert_eq!(c.extras.len(), 2);
    assert_eq!(c.extras[0].path, b"a.txt".to_vec());
    assert_eq!(c.extras[0].blob, b"compressed-a".to_vec());
    assert_eq!(c.extras[1].path, b"sub/b.txt".to_vec());
    assert_eq!(c.extras[1].blob, vec![0, 10, 255, 10]);
}

#[test]
fn cleanup_flag_read_back() {
    let img = build_container(b"T", b"p.exe", b"abc", true, &[]);
    let c = parse_container(&img).unwrap();
    assert!(c.cleanup);
    assert_eq!(c.payload, b"abc".to_vec());
}

#[test]
fn missing_filename_marker() {
    let img = b"junk\n--FILE-CONTENT--\n1\nz".to_vec();
    assert_eq!(parse_container(&img).unwrap_err(), ContainerError::MissingFilenameMarker);
}

#[test]
fn missing_content_marker() {
    let img = b"junk\n--XFILENAMEX--\neA==\n".to_vec();
    assert_eq!(parse_container(&img).unwrap_err(), ContainerError::MissingContentMarker);
}

#[test]
fn unparsable_length() {
    let img = b"\n--XFILENAMEX--\neA==\n--FILE-CONTENT--\n1x\nz".to_vec();
    assert_eq!(parse_container(&img).unwrap_err(), ContainerError::MalformedLength);
    let img = b"\n--XFILENAMEX--\neA==\n--FILE-CONTENT--\n12".to_vec();
    assert_eq!(parse_container(&img).unwrap_err(), ContainerError::MalformedLength);
}

#[test]
fn truncated_payload() {
    let img = b"\n--XFILENAMEX--\neA==\n--FILE-CONTENT--\n10\nabc".to_vec();
    assert_eq!(parse_container(&img).unwrap_err(), ContainerError::Truncated);
}

#[test]
fn bad_extra_path() {
    let mut img = build_container(b"T", b"p", b"abc", false, &[]);
    img.extend_from_slice(b"\n--EXTRA-FILE--\n%%%\n1\nq");
    assert_eq!(parse_container(&img).unwrap_err(), ContainerError::MalformedPath);
}

#[test]
fn undecodable_name_falls_back_to_default() {
    let img = b"\n--XFILENAMEX--\n***\n--FILE-CONTENT--\n1\nz".to_vec();
    let c = parse_container(&img).unwrap();
    assert_eq!(c.filename, b"output.exe".to_vec());
}

#[test]
fn last_markers_win() {
    let mut img = b"--XFILENAMEX--\nYQ==\n--FILE-CONTENT--\n1\nA".to_vec();
    img.extend_from_slice(&build_container(b"", b"b", b"B", false, &[]));
    let c = parse_container(&img).unwrap();
    assert_eq!(c.filename, b"b".to_vec());
    assert_eq!(c.payload, b"B".to_vec());
}

#[test]
fn marker_text_inside_template_is_ignored() {
    let template = b"loader --CLEANUP--\n --EXTRA-FILE--\n%% junk --EXTRA-FILE--\n".to_vec();
    let img = build_container(&template, b"p.exe", b"abc", false, &[entry("x", b"1")]);
    let c = parse_container(&img).unwrap();
    assert!(!c.cleanup);
    assert_eq!(c.extras.len(), 1);
    assert_eq!(c.extras[0].path, b"x".to_vec());
}
