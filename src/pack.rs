use vstd::prelude::*;
use crate::codec::{
    compress, decoded_by, decompressed, earlier_decoders_reject, encoded, lemma_round_trip, Algorithm,
    CodecError,
};
use crate::container::{
    build_container, container_bytes, entries_view, lemma_container_round_trip,
    markers_only_at_sections, parsed_container, ExtraEntry,
};
use crate::encoding::base64_round_trips;

verus! {

/// A companion file as read from disk: its path relative to the packed
/// directory and its bytes.
#[derive(Clone, Debug)]
pub struct SourceFile {
    pub rel_path: Vec<u8>,
    pub data: Vec<u8>,
}

impl SourceFile {
    pub open spec fn view(&self) -> (Seq<u8>, Seq<u8>) {
        (self.rel_path@, self.data@)
    }
}

pub open spec fn sources_view(files: Seq<SourceFile>) -> Seq<(Seq<u8>, Seq<u8>)> {
    files.map_values(|f: SourceFile| f.view())
}

/// `/` in place of `\\`.
pub open spec fn normalized_byte(b: u8) -> u8 {
    if b == 92 {
        47
    } else {
        b
    }
}

/// A relative path with every `\\` written as `/`.
pub open spec fn normalized_path(p: Seq<u8>) -> Seq<u8> {
    p.map_values(|b: u8| normalized_byte(b))
}

/// The container entry that a companion file becomes.
pub open spec fn packed_entry(file: (Seq<u8>, Seq<u8>), algorithm: Algorithm, level: u32) -> (
    Seq<u8>,
    Seq<u8>,
) {
    (normalized_path(file.0), encoded(algorithm, file.1, level))
}

pub open spec fn packed_entries(
    files: Seq<(Seq<u8>, Seq<u8>)>,
    algorithm: Algorithm,
    level: u32,
) -> Seq<(Seq<u8>, Seq<u8>)> {
    files.map_values(|f: (Seq<u8>, Seq<u8>)| packed_entry(f, algorithm, level))
}

/// Writes every `\\` of a relative path as `/`.
pub fn normalize_separators(path: &[u8]) -> (r: Vec<u8>)
    ensures
        r@ == normalized_path(path@),
{
    let mut r: Vec<u8> = Vec::new();
    let mut i: usize = 0;
    while i < path.len()
        invariant
            i <= path.len(),
            r@ == normalized_path(path@.subrange(0, i as int)),
        decreases path.len() - i,
    {
        let b = path[i];
        r.push(if b == 92 {
            47
        } else {
            b
        });
        assert(normalized_path(path@.subrange(0, i as int + 1)) =~= normalized_path(
            path@.subrange(0, i as int),
        ).push(normalized_byte(b)));
        i = i + 1;
    }
    assert(path@.subrange(0, path.len() as int) == path@);
    r
}

/// Compresses one companion file into its container entry.
pub fn pack_file(file: &SourceFile, algorithm: Algorithm, level: u32) -> (r: Result<
    ExtraEntry,
    CodecError,
>)
    ensures
        r is Ok <==> algorithm.accepts_level(level),
        r is Err ==> r->Err_0 == (CodecError::InvalidLevel { algorithm, level }),
        r matches Ok(e) ==> e.view() == packed_entry(file.view(), algorithm, level)
            && decoded_by(algorithm, e.blob@) == Some(file.data@),
{
    let blob = compress(file.data.as_slice(), algorithm, level)?;
    let path = normalize_separators(file.rel_path.as_slice());
    Ok(ExtraEntry { path, blob })
}

/// Compresses every companion file, in order; the first failure ends the
/// whole operation.
pub fn pack_files(files: &[SourceFile], algorithm: Algorithm, level: u32) -> (r: Result<
    Vec<ExtraEntry>,
    CodecError,
>)
    ensures
        r is Ok <==> algorithm.accepts_level(level) || files@.len() == 0,
        r is Err ==> r->Err_0 == (CodecError::InvalidLevel { algorithm, level }),
        r matches Ok(v) ==> entries_view(v@) == packed_entries(
            sources_view(files@),
            algorithm,
            level,
        ),
        r matches Ok(v) ==> forall|i: int|
            0 <= i < v@.len() ==> decoded_by(algorithm, #[trigger] v@[i].blob@) == Some(
                files@[i].data@,
            ),
{
    let mut out: Vec<ExtraEntry> = Vec::new();
    let mut i: usize = 0;
    while i < files.len()
        invariant
            i <= files.len(),
            out@.len() == i,
            i > 0 ==> algorithm.accepts_level(level),
            entries_view(out@) == packed_entries(
                sources_view(files@.subrange(0, i as int)),
                algorithm,
                level,
            ),
            forall|j: int|
                0 <= j < i ==> decoded_by(algorithm, #[trigger] out@[j].blob@) == Some(
                    files@[j].data@,
                ),
        decreases files.len() - i,
    {
        let e = pack_file(&files[i], algorithm, level)?;
        let ghost before = out@;
        out.push(e);
        assert(entries_view(out@) =~= entries_view(before).push(e.view()));
        assert(sources_view(files@.subrange(0, i as int + 1)) =~= sources_view(
            files@.subrange(0, i as int),
        ).push(files@[i as int].view()));
        i = i + 1;
    }
    assert(files@.subrange(0, files.len() as int) == files@);
    Ok(out)
}

/// Builds a stub image: compresses the input program and places it, with
/// the already packed companion entries, behind the loader template.
pub fn pack_executable(
    template: &[u8],
    output_filename: &[u8],
    input: &[u8],
    extras: &[ExtraEntry],
    algorithm: Algorithm,
    level: u32,
    cleanup: bool,
) -> (r: Result<Vec<u8>, CodecError>)
    ensures
        r is Ok <==> algorithm.accepts_level(level),
        r is Err ==> r->Err_0 == (CodecError::InvalidLevel { algorithm, level }),
        r matches Ok(img) ==> img@ == container_bytes(
            template@,
            output_filename@,
            encoded(algorithm, input@, level),
            cleanup,
            entries_view(extras@),
        ) && decoded_by(algorithm, encoded(algorithm, input@, level)) == Some(input@)
            && base64_round_trips(output_filename@) && forall|i: int|
            0 <= i < extras@.len() ==> base64_round_trips(#[trigger] extras@[i].path@),
{
    let primary = compress(input, algorithm, level)?;
    Ok(build_container(template, output_filename, primary.as_slice(), cleanup, extras))
}

/// A stub that `pack_executable` writes gives back, when read and
/// decompressed, the input program under the output file name, with the
/// cleanup flag and every companion entry; provided no marker text recurs
/// in a payload and no decoder tried before the algorithm's own accepts the
/// primary blob.
pub proof fn lemma_packed_stub_restores_input(
    template: Seq<u8>,
    output_filename: Seq<u8>,
    input: Seq<u8>,
    entries: Seq<(Seq<u8>, Seq<u8>)>,
    algorithm: Algorithm,
    level: u32,
    cleanup: bool,
)
    requires
        base64_round_trips(output_filename),
        forall|i: int| 0 <= i < entries.len() ==> base64_round_trips(#[trigger] entries[i].0),
        forall|i: int| 0 <= i < entries.len() ==> #[trigger] entries[i].1.len() <= usize::MAX,
        encoded(algorithm, input, level).len() <= usize::MAX,
        decoded_by(algorithm, encoded(algorithm, input, level)) == Some(input),
        earlier_decoders_reject(algorithm, encoded(algorithm, input, level)),
        markers_only_at_sections(
            template,
            output_filename,
            encoded(algorithm, input, level),
            cleanup,
            entries,
        ),
    ensures
        ({
            let img = container_bytes(
                template,
                output_filename,
                encoded(algorithm, input, level),
                cleanup,
                entries,
            );
            &&& parsed_container(img) is Ok
            &&& parsed_container(img)->Ok_0.filename == output_filename
            &&& decompressed(parsed_container(img)->Ok_0.payload) == Some(input)
            &&& parsed_container(img)->Ok_0.cleanup == cleanup
            &&& parsed_container(img)->Ok_0.extras == entries
        }),
{
    let blob = encoded(algorithm, input, level);
    lemma_container_round_trip(template, output_filename, blob, cleanup, entries);
    lemma_round_trip(algorithm, input, blob);
}

/// Packing does not depend on the order in which the files are taken up,
/// and so not on how many workers share them: two lists that hold the same
/// files give the same set of entries.
pub proof fn lemma_pack_order_free(
    a: Seq<(Seq<u8>, Seq<u8>)>,
    b: Seq<(Seq<u8>, Seq<u8>)>,
    algorithm: Algorithm,
    level: u32,
)
    requires
        a.to_set() == b.to_set(),
    ensures
        packed_entries(a, algorithm, level).to_set() == packed_entries(b, algorithm, level).to_set(),
{
    lemma_packed_set(a, algorithm, level);
    lemma_packed_set(b, algorithm, level);
    assert(packed_entries(a, algorithm, level).to_set() =~= packed_entries(
        b,
        algorithm,
        level,
    ).to_set());
}

/// The set of entries is the image of the set of files.
proof fn lemma_packed_set(files: Seq<(Seq<u8>, Seq<u8>)>, algorithm: Algorithm, level: u32)
    ensures
        forall|e: (Seq<u8>, Seq<u8>)|
            #[trigger] packed_entries(files, algorithm, level).to_set().contains(e) <==> exists|
                f: (Seq<u8>, Seq<u8>),
            | files.to_set().contains(f) && e == packed_entry(f, algorithm, level),
{
    let p = packed_entries(files, algorithm, level);
    assert forall|e: (Seq<u8>, Seq<u8>)| #[trigger] p.to_set().contains(e) implies exists|
        f: (Seq<u8>, Seq<u8>),
    | files.to_set().contains(f) && e == packed_entry(f, algorithm, level) by {
        let i = choose|i: int| 0 <= i < p.len() && p[i] == e;
        assert(files.to_set().contains(files[i]));
    }
    assert forall|e: (Seq<u8>, Seq<u8>)|
        (exists|f: (Seq<u8>, Seq<u8>)|
            files.to_set().contains(f) && e == packed_entry(f, algorithm, level)) implies #[trigger] p.to_set().contains(e) by {
        let f = choose|f: (Seq<u8>, Seq<u8>)|
            files.to_set().contains(f) && e == packed_entry(f, algorithm, level);
        let i = choose|i: int| 0 <= i < files.len() && files[i] == f;
        assert(p[i] == e);
    }
}

} // verus!
