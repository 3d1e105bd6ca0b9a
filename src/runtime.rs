use vstd::prelude::*;
use rand::Rng;
use crate::codec::{decompress, decompressed, CodecError};
use crate::container::{
    default_filename, entries_view, parse_container, parsed_container, ContainerError, ExtraEntry,
};
use crate::text::push_char;

verus! {

/// Why a stub could not get its program ready to run.
#[derive(Clone, Copy, Debug, PartialEq, Eq, Structural)]
pub enum StubError {
    /// The image is not a well-formed container.
    Parse(ContainerError),
    /// No decoder accepted a payload.
    Decompress,
}

pub open spec fn is_separator(b: u8) -> bool {
    b == 47 || b == 92
}

/// The bytes after the last `/` or `\\`.
pub open spec fn last_component(s: Seq<u8>) -> Seq<u8>
    decreases s.len(),
{
    if s.len() == 0 {
        s
    } else if is_separator(s.last()) {
        Seq::empty()
    } else {
        last_component(s.drop_last()).push(s.last())
    }
}

/// The name the primary program is written under: the last component of
/// the decoded file name, or the default name where that component is
/// empty, `.` or `..`.
pub open spec fn launch_name(filename: Seq<u8>) -> Seq<u8> {
    let c = last_component(filename);
    if c.len() == 0 || c == seq![46u8] || c == seq![46u8, 46] {
        default_filename()
    } else {
        c
    }
}

/// The name under which the primary program is written in the temporary
/// directory (see `launch_name`).
pub fn primary_file_name(filename: &[u8]) -> (r: Vec<u8>)
    ensures
        r@ == launch_name(filename@),
{
    let mut start: usize = 0;
    let mut i: usize = 0;
    while i < filename.len()
        invariant
            start <= i <= filename.len(),
            last_component(filename@.subrange(0, i as int)) == filename@.subrange(
                start as int,
                i as int,
            ),
        decreases filename.len() - i,
    {
        let ghost prefix = filename@.subrange(0, i as int + 1);
        assert(prefix.drop_last() == filename@.subrange(0, i as int));
        if filename[i] == 47 || filename[i] == 92 {
            start = i + 1;
            assert(filename@.subrange(start as int, i as int + 1) =~= Seq::<u8>::empty());
        } else {
            assert(filename@.subrange(start as int, i as int + 1) =~= filename@.subrange(
                start as int,
                i as int,
            ).push(filename@[i as int]));
        }
        i = i + 1;
    }
    assert(filename@.subrange(0, filename.len() as int) == filename@);
    let n = filename.len() - start;
    if n == 0 || (n == 1 && filename[start] == 46) || (n == 2 && filename[start] == 46
        && filename[start + 1] == 46) {
        let fallback = vec![111u8, 117, 116, 112, 117, 116, 46, 101, 120, 101];
        assert(fallback@ =~= default_filename());
        proof {
            let c = filename@.subrange(start as int, filename.len() as int);
            if n == 1 {
                assert(c =~= seq![46u8]);
            }
            if n == 2 {
                assert(c =~= seq![46u8, 46]);
            }
        }
        return fallback;
    }
    let mut r: Vec<u8> = Vec::new();
    let mut j: usize = start;
    while j < filename.len()
        invariant
            start <= j <= filename.len(),
            r@ == filename@.subrange(start as int, j as int),
        decreases filename.len() - j,
    {
        assert(filename@.subrange(start as int, j as int + 1) =~= r@.push(filename@[j as int]));
        r.push(filename[j]);
        j = j + 1;
    }
    proof {
        let c = filename@.subrange(start as int, filename.len() as int);
        assert(c.len() == n);
        if n == 1 {
            assert(c[0] != 46);
            assert(c != seq![46u8]);
        }
        if n == 2 {
            assert(c[0] != 46 || c[1] != 46);
            assert(c != seq![46u8, 46]);
        }
    }
    r
}

/// A program ready to be written out and launched.
#[derive(Clone, Debug)]
pub struct PreparedRun {
    /// Name of the primary program inside the temporary directory.
    pub file_name: Vec<u8>,
    /// The primary program, decompressed.
    pub program: Vec<u8>,
    /// Whether the temporary directory is removed after the run.
    pub cleanup: bool,
    /// The companion files, still compressed.
    pub extras: Vec<ExtraEntry>,
}

/// Reads the container out of the stub's own image and decompresses the
/// primary program; a malformed container or an undecodable payload is an
/// error.
pub fn prepare_run(img: &[u8]) -> (r: Result<PreparedRun, StubError>)
    ensures
        match parsed_container(img@) {
            Err(e) => r == Err::<PreparedRun, StubError>(StubError::Parse(e)),
            Ok(c) => match decompressed(c.payload) {
                None => r == Err::<PreparedRun, StubError>(StubError::Decompress),
                Some(program) => r matches Ok(p) && p.file_name@ == launch_name(c.filename)
                    && p.program@ == program && p.cleanup == c.cleanup && entries_view(p.extras@)
                    == c.extras,
            },
        },
{
    let c = match parse_container(img) {
        Err(e) => return Err(StubError::Parse(e)),
        Ok(c) => c,
    };
    let program = match decompress(c.payload.as_slice()) {
        Err(_) => return Err(StubError::Decompress),
        Ok(p) => p,
    };
    let file_name = primary_file_name(c.filename.as_slice());
    Ok(PreparedRun { file_name, program, cleanup: c.cleanup, extras: c.extras })
}

/// A companion file ready to be written: its relative path and bytes.
#[derive(Clone, Debug)]
pub struct ExtractedFile {
    pub path: Vec<u8>,
    pub content: Vec<u8>,
}

/// Decompresses one companion file. Entries are independent of each other,
/// so a pool of workers may take them in any order.
pub fn unpack_entry(entry: &ExtraEntry) -> (r: Result<ExtractedFile, StubError>)
    ensures
        match decompressed(entry.blob@) {
            None => r == Err::<ExtractedFile, StubError>(StubError::Decompress),
            Some(content) => r matches Ok(f) && f.path@ == entry.path@ && f.content@ == content,
        },
{
    match decompress(entry.blob.as_slice()) {
        Err(_) => Err(StubError::Decompress),
        Ok(content) => Ok(ExtractedFile { path: entry.path.clone(), content }),
    }
}

pub open spec fn is_alphanumeric(b: u8) -> bool {
    (48 <= b <= 57) || (65 <= b <= 90) || (97 <= b <= 122)
}

/// Relies on rand's `thread_rng().sample(Alphanumeric)`: one of the ASCII
/// letters and digits, at random.
#[verifier::external_body]
fn random_alphanumeric() -> (r: u8)
    ensures
        is_alphanumeric(r),
{
    rand::thread_rng().sample(rand::distributions::Alphanumeric)
}

/// A random name of `len` ASCII letters and digits, for the temporary
/// directory of one run.
pub fn generate_random_string(len: usize) -> (r: String)
    ensures
        r@.len() == len,
        forall|i: int| 0 <= i < len ==> is_alphanumeric(#[trigger] r@[i] as u8),
{
    let mut s = String::new();
    let mut i: usize = 0;
    while i < len
        invariant
            i <= len,
            s@.len() == i,
            forall|j: int| 0 <= j < i ==> is_alphanumeric(#[trigger] s@[j] as u8),
        decreases len - i,
    {
        let b = random_alphanumeric();
        push_char(&mut s, b as char);
        i = i + 1;
    }
    s
}

/// Where a run of the stub stands once its files are in place.
#[derive(Clone, Copy, Debug, PartialEq, Eq, Structural)]
pub enum RunState {
    /// Files written, program not yet started.
    Extracted { cleanup: bool },
    /// The program runs.
    Running { cleanup: bool },
    /// Nothing is left to do.
    Finished,
}

/// What the outside world reports back.
#[derive(Clone, Copy, Debug, PartialEq, Eq, Structural)]
pub enum RunEvent {
    Spawned,
    SpawnFailed,
    ChildExited,
}

/// What the caller is to do next.
#[derive(Clone, Copy, Debug, PartialEq, Eq, Structural)]
pub enum RunAction {
    /// Wait for the program to end.
    WaitForChild,
    /// Remove the temporary directory with all it holds.
    RemoveTempDir,
    /// Leave the temporary directory in place.
    KeepTempDir,
    /// Report that the program could not be started, and end with failure.
    ReportLaunchError,
    /// The event does not apply in this state.
    Ignore,
}

/// One step of a run: after a successful launch the stub waits; after the
/// program ends the temporary directory goes if the cleanup flag was set
/// and stays otherwise; a failed launch is reported.
pub fn next_step(state: RunState, event: RunEvent) -> (r: (RunState, RunAction))
    ensures
        match (state, event) {
            (RunState::Extracted { cleanup }, RunEvent::Spawned) => r == (
                RunState::Running { cleanup },
                RunAction::WaitForChild,
            ),
            (RunState::Extracted { .. }, RunEvent::SpawnFailed) => r == (
                RunState::Finished,
                RunAction::ReportLaunchError,
            ),
            (RunState::Running { cleanup }, RunEvent::ChildExited) => r == (
                RunState::Finished,
                if cleanup {
                    RunAction::RemoveTempDir
                } else {
                    RunAction::KeepTempDir
                },
            ),
            _ => r == (state, RunAction::Ignore),
        },
{
    match (state, event) {
        (RunState::Extracted { cleanup }, RunEvent::Spawned) => (
            RunState::Running { cleanup },
            RunAction::WaitForChild,
        ),
        (RunState::Extracted { .. }, RunEvent::SpawnFailed) => (
            RunState::Finished,
            RunAction::ReportLaunchError,
        ),
        (RunState::Running { cleanup }, RunEvent::ChildExited) => (
            RunState::Finished,
            if cleanup {
                RunAction::RemoveTempDir
            } else {
                RunAction::KeepTempDir
            },
        ),
        _ => (state, RunAction::Ignore),
    }
}

} // verus!
