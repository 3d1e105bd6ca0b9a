use exe_packer::codec::{compress, Algorithm};
use exe_packer::container::{build_container, ContainerError, ExtraEntry};
use exe_packer::runtime::{
    generate_random_string, next_step, prepare_run, primary_file_name, unpack_entry, RunAction,
    RunEvent, RunState, StubError,
};

#[test]
fn file_name_is_last_component() {
    assert_eq!(primary_file_name(b"dir/sub/app.exe"), b"app.exe".to_vec());
    assert_eq!(primary_file_name(b"C:\\tools\\app.exe"), b"app.exe".to_vec());
    assert_eq!(primary_file_name(b"app.exe"), b"app.exe".to_vec());
}

#[test]
fn file_name_falls_back_to_default() {
    assert_eq!(primary_file_name(b""), b"output.exe".to_vec());
    assert_eq!(primary_file_name(b"dir/"), b"output.exe".to_vec());
    assert_eq!(primary_file_name(b".."), b"output.exe".to_vec());
    assert_eq!(primary_file_name(b"a/."), b"output.exe".to_vec());
    assert_eq!(primary_file_name(b"a/.x"), b".x".to_vec());
}

#[test]
fn prepare_run_decompresses_program() {
    let program = b"\x7fELF pretend program".to_vec();
    let blob = compress(&program, Algorithm::Zstd, 3).unwrap();
    let img = build_container(b"stub", b"out/run.exe", &blob, true, &[]);
    let run = prepare_run(&img).unwrap();
    assert_eq!(run.file_name, b"run.exe".to_vec());
    assert_eq!(run.program, program);
    assert!(run.cleanup);
    assert!(run.extras.is_empty());
}

#[test]
fn prepare_run_reports_parse_error() {
    assert_eq!(
        prepare_run(b"no container here").unwrap_err(),
        StubError::Parse(ContainerError::MissingFilenameMarker)
    );
}

#[test]
fn prepare_run_reports_decompress_error() {
    let img = build_container(b"stub", b"a.exe", &[0xFF; 40], false, &[]);
    assert_eq!(prepare_run(&img).unwrap_err(), StubError::Decompress);
}

#[test]
fn unpack_entry_decompresses() {
    let blob = compress(b"world", Algorithm::Lzma, 3).unwrap();
    let f = unpack_entry(&ExtraEntry { path: b"sub/b.txt".to_vec(), blob }).unwrap();
    assert_eq!(f.path, b"sub/b.txt".to_vec());
    assert_eq!(f.content, b"world".to_vec());
    let bad = ExtraEntry { path: b"x".to_vec(), blob: vec![0xFF; 40] };
    assert_eq!(unpack_entry(&bad).unwrap_err(), StubError::Decompress);
}

#[test]
fn cleanup_set_removes_temp_dir_after_exit() {
    let (s, a) = next_step(RunState::Extracted { cleanup: true }, RunEvent::Spawned);
    assert_eq!(a, RunAction::WaitForChild);
    assert_eq!(s, RunState::Running { cleanup: true });
    let (s, a) = next_step(s, RunEvent::ChildExited);
    assert_eq!(a, RunAction::RemoveTempDir);
    assert_eq!(s, RunState::Finished);
}

#[test]
fn cleanup_unset_keeps_temp_dir_after_exit() {
    let (s, _) = next_step(RunState::Extracted { cleanup: false }, RunEvent::Spawned);
    let (s, a) = next_step(s, RunEvent::ChildExited);
    assert_eq!(a, RunAction::KeepTempDir);
    assert_eq!(s, RunState::Finished);
}

#[test]
fn launch_failure_is_reported() {
    let (s, a) = next_step(RunState::Extracted { cleanup: true }, RunEvent::SpawnFailed);
    assert_eq!(a, RunAction::ReportLaunchError);
    assert_eq!(s, RunState::Finished);
    let (s2, a2) = next_step(RunState::Finished, RunEvent::ChildExited);
    assert_eq!(a2, RunAction::Ignore);
    assert_eq!(s2, RunState::Finished);
}

#[test]
fn random_names_are_alphanumeric() {
    let a = generate_random_string(10);
    assert_eq!(a.len(), 10);
    assert!(a.chars().all(|c| c.is_ascii_alphanumeric()));
    assert_eq!(generate_random_string(0), "");
}
