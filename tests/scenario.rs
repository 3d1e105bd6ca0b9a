use exe_packer::codec::{validate_compression_level, Algorithm};
use exe_packer::pack::{pack_executable, pack_files, SourceFile};
use exe_packer::runtime::{next_step, prepare_run, unpack_entry, RunAction, RunEvent, RunState};

#[test]
fn end_to_end_default_algorithm_level_3() {
    let input: Vec<u8> = (0..10_000u32).map(|i| (i.wrapping_mul(2654435761) >> 13) as u8).collect();
    assert!(validate_compression_level(3, false, false).is_ok());
    let algorithm = Algorithm::from_flags(false, false);
    let files = vec![
        SourceFile { rel_path: b"a.txt".to_vec(), data: b"hello".to_vec() },
        SourceFile { rel_path: b"sub\\b.txt".to_vec(), data: b"world".to_vec() },
    ];
    let extras = pack_files(&files, algorithm, 3).unwrap();
    let stub = pack_executable(b"LOADER", b"input.exe", &input, &extras, algorithm, 3, false).unwrap();

    let run = prepare_run(&stub).unwrap();
    assert_eq!(run.file_name, b"input.exe".to_vec());
    assert_eq!(run.program, input);
    assert!(!run.cleanup);
    let mut unpacked: Vec<(Vec<u8>, Vec<u8>)> =
        run.extras.iter().map(|e| unpack_entry(e).unwrap()).map(|f| (f.path, f.content)).collect();
    unpacked.sort();
    assert_eq!(
        unpacked,
        vec![(b"a.txt".to_vec(), b"hello".to_vec()), (b"sub/b.txt".to_vec(), b"world".to_vec())]
    );

    let (state, action) = next_step(RunState::Extracted { cleanup: run.cleanup }, RunEvent::Spawned);
    assert_eq!(action, RunAction::WaitForChild);
    let (_, action) = next_step(state, RunEvent::ChildExited);
    assert_eq!(action, RunAction::KeepTempDir);
}
