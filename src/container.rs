use vstd::prelude::*;
use crate::decimal::{
    decimal_bytes, decimal_digits, decimal_value, is_decimal, lemma_decimal_bytes_digits, parse_decimal,
};
use crate::encoding::{base64_decode, base64_decoded, base64_encode, base64_round_trips, base64_text};

verus! {

/// The fixed byte strings that open the sections of a container.
#[derive(Clone, Copy, Debug, PartialEq, Eq, Structural)]
pub enum Marker {
    /// `--XFILENAMEX--\n`, followed by the base64 output file name.
    Filename,
    /// `--FILE-CONTENT--\n`, followed by the primary payload's length line and bytes.
    Content,
    /// `--CLEANUP--\n`, a flag without payload.
    Cleanup,
    /// `--EXTRA-FILE--\n`, followed by a base64 path, a length line and bytes.
    Extra,
}

impl Marker {
    pub open spec fn text(self) -> Seq<u8> {
        match self {
            Marker::Filename => seq![45u8, 45, 88, 70, 73, 76, 69, 78, 65, 77, 69, 88, 45, 45, 10],
            Marker::Content => seq![45u8, 45, 70, 73, 76, 69, 45, 67, 79, 78, 84, 69, 78, 84, 45, 45, 10],
            Marker::Cleanup => seq![45u8, 45, 67, 76, 69, 65, 78, 85, 80, 45, 45, 10],
            Marker::Extra => seq![45u8, 45, 69, 88, 84, 82, 65, 45, 70, 73, 76, 69, 45, 45, 10],
        }
    }

    pub fn bytes(&self) -> (r: Vec<u8>)
        ensures
            r@ == self.text(),
    {
        let r = match self {
            Marker::Filename => vec![45u8, 45, 88, 70, 73, 76, 69, 78, 65, 77, 69, 88, 45, 45, 10],
            Marker::Content => vec![45u8, 45, 70, 73, 76, 69, 45, 67, 79, 78, 84, 69, 78, 84, 45, 45, 10],
            Marker::Cleanup => vec![45u8, 45, 67, 76, 69, 65, 78, 85, 80, 45, 45, 10],
            Marker::Extra => vec![45u8, 45, 69, 88, 84, 82, 65, 45, 70, 73, 76, 69, 45, 45, 10],
        };
        assert(r@ =~= self.text());
        r
    }
}

/// One companion file inside a container: its relative path and its
/// compressed bytes.
#[derive(Clone, Debug)]
pub struct ExtraEntry {
    pub path: Vec<u8>,
    pub blob: Vec<u8>,
}

impl ExtraEntry {
    pub open spec fn view(&self) -> (Seq<u8>, Seq<u8>) {
        (self.path@, self.blob@)
    }
}

pub open spec fn entries_view(entries: Seq<ExtraEntry>) -> Seq<(Seq<u8>, Seq<u8>)> {
    entries.map_values(|e: ExtraEntry| e.view())
}

pub open spec fn newline() -> Seq<u8> {
    seq![10u8]
}

/// Length line: the decimal length followed by a newline.
pub open spec fn length_line(n: nat) -> Seq<u8> {
    decimal_bytes(n) + newline()
}

/// Everything up to the extra-file sections: template, file name, primary
/// payload and, if asked for, the cleanup flag.
pub open spec fn head_bytes(
    template: Seq<u8>,
    filename: Seq<u8>,
    primary: Seq<u8>,
    cleanup: bool,
) -> Seq<u8> {
    template + newline() + Marker::Filename.text() + base64_text(filename) + newline()
        + Marker::Content.text() + length_line(primary.len()) + primary + if cleanup {
        newline() + Marker::Cleanup.text()
    } else {
        Seq::empty()
    }
}

/// One extra-file section.
pub open spec fn extra_section(entry: (Seq<u8>, Seq<u8>)) -> Seq<u8> {
    newline() + Marker::Extra.text() + base64_text(entry.0) + newline() + length_line(entry.1.len())
        + entry.1
}

/// The extra-file sections, one after the other in the given order.
pub open spec fn extra_sections(entries: Seq<(Seq<u8>, Seq<u8>)>) -> Seq<u8>
    decreases entries.len(),
{
    if entries.len() == 0 {
        Seq::empty()
    } else {
        extra_sections(entries.drop_last()) + extra_section(entries.last())
    }
}

/// The stub image that the builder writes.
pub open spec fn container_bytes(
    template: Seq<u8>,
    filename: Seq<u8>,
    primary: Seq<u8>,
    cleanup: bool,
    entries: Seq<(Seq<u8>, Seq<u8>)>,
) -> Seq<u8> {
    head_bytes(template, filename, primary, cleanup) + extra_sections(entries)
}

fn append(out: &mut Vec<u8>, src: &[u8])
    ensures
        final(out)@ == old(out)@ + src@,
{
    let ghost start = out@;
    let mut i: usize = 0;
    while i < src.len()
        invariant
            i <= src.len(),
            out@ == start + src@.subrange(0, i as int),
        decreases src.len() - i,
    {
        assert(src@.subrange(0, i as int + 1) == src@.subrange(0, i as int).push(src@[i as int]));
        out.push(src[i]);
        i = i + 1;
    }
    assert(src@.subrange(0, src.len() as int) == src@);
}

fn append_length_line(out: &mut Vec<u8>, n: usize)
    ensures
        final(out)@ == old(out)@ + length_line(n as nat),
{
    let digits = decimal_digits(n as u64);
    append(out, digits.as_slice());
    out.push(10u8);
}

/// Assembles a stub image: the template verbatim, then the base64 file
/// name, the primary payload with its length, the cleanup flag if asked
/// for, and each extra entry with its base64 path and length.
pub fn build_container(
    template: &[u8],
    output_filename: &[u8],
    primary: &[u8],
    cleanup: bool,
    extras: &[ExtraEntry],
) -> (r: Vec<u8>)
    ensures
        r@ == container_bytes(
            template@,
            output_filename@,
            primary@,
            cleanup,
            entries_view(extras@),
        ),
        base64_round_trips(output_filename@),
        forall|i: int| 0 <= i < extras@.len() ==> base64_round_trips(#[trigger] extras@[i].path@),
{
    let mut out: Vec<u8> = Vec::new();
    append(&mut out, template);
    out.push(10u8);
    let m = Marker::Filename.bytes();
    append(&mut out, m.as_slice());
    let name = base64_encode(output_filename);
    append(&mut out, name.as_slice());
    out.push(10u8);
    let m = Marker::Content.bytes();
    append(&mut out, m.as_slice());
    append_length_line(&mut out, primary.len());
    append(&mut out, primary);
    if cleanup {
        out.push(10u8);
        let m = Marker::Cleanup.bytes();
        append(&mut out, m.as_slice());
    }
    let ghost head = out@;
    assert(head =~= head_bytes(template@, output_filename@, primary@, cleanup));
    let mut i: usize = 0;
    while i < extras.len()
        invariant
            i <= extras.len(),
            out@ == head + extra_sections(entries_view(extras@.subrange(0, i as int))),
            forall|j: int| 0 <= j < i ==> base64_round_trips(#[trigger] extras@[j].path@),
        decreases extras.len() - i,
    {
        let e = &extras[i];
        out.push(10u8);
        let m = Marker::Extra.bytes();
        append(&mut out, m.as_slice());
        let p = base64_encode(e.path.as_slice());
        append(&mut out, p.as_slice());
        out.push(10u8);
        append_length_line(&mut out, e.blob.len());
        append(&mut out, e.blob.as_slice());
        proof {
            let s = entries_view(extras@.subrange(0, i as int + 1));
            assert(s.drop_last() =~= entries_view(extras@.subrange(0, i as int)));
            assert(s.last() == e.view());
            assert(out@ =~= head + extra_sections(s));
        }
        i = i + 1;
    }
    assert(extras@.subrange(0, extras.len() as int) == extras@);
    out
}

/// Why a stub image could not be read as a container.
#[derive(Clone, Copy, Debug, PartialEq, Eq, Structural)]
pub enum ContainerError {
    /// No file-name marker in the image.
    MissingFilenameMarker,
    /// No file-content marker in the image.
    MissingContentMarker,
    /// A length line is missing, empty, not decimal, or too large.
    MalformedLength,
    /// The image ends before the number of bytes a length line declares.
    Truncated,
    /// An extra file's path line is missing or is not base64.
    MalformedPath,
}

/// `m` stands in `img` at position `i`.
pub open spec fn occurs_at(img: Seq<u8>, i: int, m: Seq<u8>) -> bool {
    0 <= i && i + m.len() <= img.len() && img.subrange(i, i + m.len()) == m
}

/// The last position below `n` at which `m` stands.
pub open spec fn last_occurrence_below(img: Seq<u8>, m: Seq<u8>, n: nat) -> Option<int>
    decreases n,
{
    if n == 0 {
        None
    } else if occurs_at(img, n - 1, m) {
        Some(n - 1)
    } else {
        last_occurrence_below(img, m, (n - 1) as nat)
    }
}

/// Every position `p` with `lo <= p < n` at which `m` stands, in
/// increasing order.
pub open spec fn occurrences_from(img: Seq<u8>, m: Seq<u8>, lo: int, n: nat) -> Seq<int>
    decreases n,
{
    if n == 0 || n - 1 < lo {
        Seq::empty()
    } else if occurs_at(img, n - 1, m) {
        occurrences_from(img, m, lo, (n - 1) as nat).push(n - 1)
    } else {
        occurrences_from(img, m, lo, (n - 1) as nat)
    }
}

/// A cleanup marker stands after position `f`.
pub open spec fn cleanup_after(img: Seq<u8>, f: int) -> bool {
    match last_occurrence_below(img, Marker::Cleanup.text(), img.len()) {
        Some(p) => p > f,
        None => false,
    }
}

/// Position of the first newline at or after `k`.
pub open spec fn first_newline_from(img: Seq<u8>, k: nat) -> Option<nat>
    decreases img.len() - k,
{
    if k >= img.len() {
        None
    } else if img[k as int] == 10 {
        Some(k)
    } else {
        first_newline_from(img, k + 1)
    }
}

/// A length line starting at `start` and the bytes it declares.
pub open spec fn sized_field(img: Seq<u8>, start: nat) -> Result<Seq<u8>, ContainerError> {
    match first_newline_from(img, start) {
        None => Err(ContainerError::MalformedLength),
        Some(nl) => {
            let digits = img.subrange(start as int, nl as int);
            if !is_decimal(digits) || decimal_value(digits) > usize::MAX {
                Err(ContainerError::MalformedLength)
            } else if nl + 1 + decimal_value(digits) > img.len() {
                Err(ContainerError::Truncated)
            } else {
                Ok(img.subrange((nl + 1) as int, (nl + 1 + decimal_value(digits)) as int))
            }
        },
    }
}

/// The name used when the file-name line does not decode.
pub open spec fn default_filename() -> Seq<u8> {
    seq![111u8, 117, 116, 112, 117, 116, 46, 101, 120, 101]
}

/// The file name whose base64 line starts at `start`, or the default name.
pub open spec fn filename_at(img: Seq<u8>, start: nat) -> Seq<u8> {
    match first_newline_from(img, start) {
        Some(nl) => match base64_decoded(img.subrange(start as int, nl as int)) {
            Some(name) => name,
            None => default_filename(),
        },
        None => default_filename(),
    }
}

/// The extra entry whose marker stands at `pos`.
pub open spec fn extra_at(img: Seq<u8>, pos: int) -> Result<(Seq<u8>, Seq<u8>), ContainerError> {
    let start = (pos + Marker::Extra.text().len()) as nat;
    match first_newline_from(img, start) {
        None => Err(ContainerError::MalformedPath),
        Some(nl) => match base64_decoded(img.subrange(start as int, nl as int)) {
            None => Err(ContainerError::MalformedPath),
            Some(path) => match sized_field(img, nl + 1) {
                Err(e) => Err(e),
                Ok(blob) => Ok((path, blob)),
            },
        },
    }
}

/// The extra entries at the given marker positions, or the error of the
/// first that is malformed.
pub open spec fn extras_at(img: Seq<u8>, positions: Seq<int>) -> Result<
    Seq<(Seq<u8>, Seq<u8>)>,
    ContainerError,
>
    decreases positions.len(),
{
    if positions.len() == 0 {
        Ok(Seq::empty())
    } else {
        match extras_at(img, positions.drop_last()) {
            Err(e) => Err(e),
            Ok(prev) => match extra_at(img, positions.last()) {
                Err(e) => Err(e),
                Ok(x) => Ok(prev.push(x)),
            },
        }
    }
}

/// What a container holds, as values.
pub struct ContainerView {
    pub filename: Seq<u8>,
    pub payload: Seq<u8>,
    pub cleanup: bool,
    pub extras: Seq<(Seq<u8>, Seq<u8>)>,
}

/// Reading a stub image: the file name follows the last file-name marker,
/// the primary payload the last file-content marker. The last file-name
/// marker ends the loader template, whose bytes are never interpreted:
/// past it, a cleanup marker sets the cleanup flag and every extra-file
/// marker opens an entry.
pub open spec fn parsed_container(img: Seq<u8>) -> Result<ContainerView, ContainerError> {
    let n = img.len();
    match last_occurrence_below(img, Marker::Filename.text(), n) {
        None => Err(ContainerError::MissingFilenameMarker),
        Some(f) => match last_occurrence_below(img, Marker::Content.text(), n) {
            None => Err(ContainerError::MissingContentMarker),
            Some(c) => match sized_field(img, (c + Marker::Content.text().len()) as nat) {
                Err(e) => Err(e),
                Ok(payload) => match extras_at(
                    img,
                    occurrences_from(img, Marker::Extra.text(), f + 1, n),
                ) {
                    Err(e) => Err(e),
                    Ok(extras) => Ok(
                        ContainerView {
                            filename: filename_at(img, (f + Marker::Filename.text().len()) as nat),
                            payload,
                            cleanup: cleanup_after(img, f),
                            extras,
                        },
                    ),
                },
            },
        },
    }
}

/// A container read out of a stub image.
#[derive(Clone, Debug)]
pub struct Container {
    /// Output file name as bytes.
    pub filename: Vec<u8>,
    /// Compressed primary program.
    pub payload: Vec<u8>,
    /// Whether the extracted copy is to be removed after the run.
    pub cleanup: bool,
    pub extras: Vec<ExtraEntry>,
}

impl Container {
    pub open spec fn view(&self) -> ContainerView {
        ContainerView {
            filename: self.filename@,
            payload: self.payload@,
            cleanup: self.cleanup,
            extras: entries_view(self.extras@),
        }
    }
}

spec fn as_position(o: Option<usize>) -> Option<int> {
    match o {
        Some(p) => Some(p as int),
        None => None,
    }
}

fn matches_at(img: &[u8], i: usize, m: &Vec<u8>) -> (r: bool)
    ensures
        r == occurs_at(img@, i as int, m@),
{
    if m.len() > img.len() || i > img.len() - m.len() {
        return false;
    }
    let mut j: usize = 0;
    while j < m.len()
        invariant
            j <= m.len(),
            i + m.len() <= img.len(),
            forall|k: int| 0 <= k < j ==> img@[i + k] == m@[k],
        decreases m.len() - j,
    {
        if img[i + j] != m[j] {
            assert(img@.subrange(i as int, i + m.len())[j as int] != m@[j as int]);
            return false;
        }
        j = j + 1;
    }
    assert(img@.subrange(i as int, i + m.len()) =~= m@);
    true
}

fn find_newline(img: &[u8], k: usize) -> (r: Option<usize>)
    ensures
        match r {
            Some(p) => k <= p < img@.len() && first_newline_from(img@, k as nat) == Some(p as nat),
            None => first_newline_from(img@, k as nat) is None,
        },
{
    let mut i: usize = k;
    while i < img.len()
        invariant
            k <= i,
            first_newline_from(img@, k as nat) == first_newline_from(img@, i as nat),
        decreases img.len() - i,
    {
        if img[i] == 10 {
            return Some(i);
        }
        i = i + 1;
    }
    None
}

fn copy_range(img: &[u8], a: usize, b: usize) -> (r: Vec<u8>)
    requires
        a <= b <= img@.len(),
    ensures
        r@ == img@.subrange(a as int, b as int),
{
    let mut r: Vec<u8> = Vec::new();
    append(&mut r, &img[a..b]);
    r
}

fn read_sized_field(img: &[u8], start: usize) -> (r: Result<Vec<u8>, ContainerError>)
    ensures
        match r {
            Ok(v) => sized_field(img@, start as nat) == Ok::<Seq<u8>, ContainerError>(v@),
            Err(e) => sized_field(img@, start as nat) == Err::<Seq<u8>, ContainerError>(e),
        },
{
    let nl = match find_newline(img, start) {
        None => return Err(ContainerError::MalformedLength),
        Some(nl) => nl,
    };
    let len = match parse_decimal(&img[start..nl]) {
        None => return Err(ContainerError::MalformedLength),
        Some(len) => len,
    };
    if len > img.len() - (nl + 1) {
        return Err(ContainerError::Truncated);
    }
    Ok(copy_range(img, nl + 1, nl + 1 + len))
}

fn read_filename(img: &[u8], start: usize) -> (r: Vec<u8>)
    ensures
        r@ == filename_at(img@, start as nat),
{
    let fallback = vec![111u8, 117, 116, 112, 117, 116, 46, 101, 120, 101];
    assert(fallback@ =~= default_filename());
    match find_newline(img, start) {
        Some(nl) => match base64_decode(&img[start..nl]) {
            Some(name) => name,
            None => fallback,
        },
        None => fallback,
    }
}

fn read_extra(img: &[u8], pos: usize) -> (r: Result<ExtraEntry, ContainerError>)
    requires
        pos + 15 <= img@.len(),
    ensures
        match r {
            Ok(e) => extra_at(img@, pos as int) == Ok::<(Seq<u8>, Seq<u8>), ContainerError>(e.view()),
            Err(e) => extra_at(img@, pos as int) == Err::<(Seq<u8>, Seq<u8>), ContainerError>(e),
        },
{
    assert(img@.len() == img.len());
    let start = pos + 15;
    let nl = match find_newline(img, start) {
        None => return Err(ContainerError::MalformedPath),
        Some(nl) => nl,
    };
    let path = match base64_decode(&img[start..nl]) {
        None => return Err(ContainerError::MalformedPath),
        Some(p) => p,
    };
    match read_sized_field(img, nl + 1) {
        Err(e) => Err(e),
        Ok(blob) => Ok(ExtraEntry { path, blob }),
    }
}

/// Reads a stub image as a container (see `parsed_container`).
pub fn parse_container(img: &[u8]) -> (r: Result<Container, ContainerError>)
    ensures
        match r {
            Ok(c) => parsed_container(img@) == Ok::<ContainerView, ContainerError>(c.view()),
            Err(e) => parsed_container(img@) == Err::<ContainerView, ContainerError>(e),
        },
{
    let m_filename = Marker::Filename.bytes();
    let m_content = Marker::Content.bytes();
    let m_cleanup = Marker::Cleanup.bytes();
    let m_extra = Marker::Extra.bytes();
    assert(m_filename@.len() == 15 && m_content@.len() == 17 && m_extra@.len() == 15);
    let mut filename_pos: Option<usize> = None;
    let mut content_pos: Option<usize> = None;
    let mut cleanup_pos: Option<usize> = None;
    let mut i: usize = 0;
    while i < img.len()
        invariant
            i <= img@.len(),
            m_filename@ == Marker::Filename.text(),
            m_content@ == Marker::Content.text(),
            m_cleanup@ == Marker::Cleanup.text(),
            m_extra@ == Marker::Extra.text(),
            as_position(filename_pos) == last_occurrence_below(img@, m_filename@, i as nat),
            as_position(content_pos) == last_occurrence_below(img@, m_content@, i as nat),
            as_position(cleanup_pos) == last_occurrence_below(img@, m_cleanup@, i as nat),
            filename_pos matches Some(p) ==> p + 15 <= img@.len(),
            content_pos matches Some(p) ==> p + 17 <= img@.len(),
        decreases img.len() - i,
    {
        if matches_at(img, i, &m_filename) {
            filename_pos = Some(i);
        }
        if matches_at(img, i, &m_content) {
            content_pos = Some(i);
        }
        if matches_at(img, i, &m_cleanup) {
            cleanup_pos = Some(i);
        }
        i = i + 1;
    }
    let f = match filename_pos {
        None => return Err(ContainerError::MissingFilenameMarker),
        Some(f) => f,
    };
    let cleanup = match cleanup_pos {
        Some(p) => p > f,
        None => false,
    };
    let mut extra_pos: Vec<usize> = Vec::new();
    let mut j: usize = f + 1;
    while j < img.len()
        invariant
            f + 1 <= j <= img@.len(),
            m_extra@ == Marker::Extra.text(),
            extra_pos@.map_values(|p: usize| p as int) == occurrences_from(
                img@,
                m_extra@,
                f + 1,
                j as nat,
            ),
            forall|k: int| 0 <= k < extra_pos@.len() ==> #[trigger] extra_pos@[k] + 15 <= img@.len(),
        decreases img.len() - j,
    {
        if matches_at(img, j, &m_extra) {
            let ghost before = extra_pos@;
            extra_pos.push(j);
            assert(extra_pos@.map_values(|p: usize| p as int) =~= before.map_values(
                |p: usize| p as int,
            ).push(j as int));
        }
        j = j + 1;
    }
    let c = match content_pos {
        None => return Err(ContainerError::MissingContentMarker),
        Some(c) => c,
    };
    let payload = match read_sized_field(img, c + 17) {
        Err(e) => return Err(e),
        Ok(p) => p,
    };
    let mut extras: Vec<ExtraEntry> = Vec::new();
    let ghost positions = extra_pos@.map_values(|p: usize| p as int);
    assert(positions.subrange(0, 0) =~= Seq::<int>::empty());
    assert(entries_view(extras@) =~= Seq::<(Seq<u8>, Seq<u8>)>::empty());
    let mut k: usize = 0;
    while k < extra_pos.len()
        invariant
            k <= extra_pos@.len(),
            positions == extra_pos@.map_values(|p: usize| p as int),
            positions == occurrences_from(img@, Marker::Extra.text(), f + 1, img@.len()),
            cleanup == cleanup_after(img@, f as int),
            last_occurrence_below(img@, Marker::Filename.text(), img@.len()) == Some(f as int),
            last_occurrence_below(img@, Marker::Content.text(), img@.len()) == Some(c as int),
            sized_field(img@, (c + 17) as nat) == Ok::<Seq<u8>, ContainerError>(payload@),
            forall|j: int| 0 <= j < extra_pos@.len() ==> #[trigger] extra_pos@[j] + 15 <= img@.len(),
            extras_at(img@, positions.subrange(0, k as int)) == Ok::<
                Seq<(Seq<u8>, Seq<u8>)>,
                ContainerError,
            >(entries_view(extras@)),
        decreases extra_pos.len() - k,
    {
        let pos = extra_pos[k];
        assert(positions.subrange(0, k as int + 1).drop_last() =~= positions.subrange(0, k as int));
        assert(positions.subrange(0, k as int + 1).last() == pos as int);
        match read_extra(img, pos) {
            Err(e) => {
                proof {
                    lemma_extras_prefix_error(img@, positions, k as int + 1);
                }
                return Err(e);
            },
            Ok(entry) => {
                let ghost before = extras@;
                extras.push(entry);
                assert(entries_view(extras@) =~= entries_view(before).push(entry.view()));
            },
        }
        k = k + 1;
    }
    assert(positions.subrange(0, extra_pos.len() as int) =~= positions);
    let filename = read_filename(img, f + 15);
    Ok(Container { filename, payload, cleanup, extras })
}

/// Once a prefix of the entries fails, the whole list fails with that error.
proof fn lemma_extras_prefix_error(img: Seq<u8>, positions: Seq<int>, k: int)
    requires
        0 <= k <= positions.len(),
        extras_at(img, positions.subrange(0, k)) is Err,
    ensures
        extras_at(img, positions) == extras_at(img, positions.subrange(0, k)),
    decreases positions.len() - k,
{
    if k < positions.len() {
        assert(positions.subrange(0, k + 1).drop_last() =~= positions.subrange(0, k));
        lemma_extras_prefix_error(img, positions, k + 1);
    } else {
        assert(positions.subrange(0, k) =~= positions);
    }
}

/// Positions of the extra-file markers that the builder writes after a
/// head of `base` bytes.
pub open spec fn extra_marker_positions(base: int, entries: Seq<(Seq<u8>, Seq<u8>)>) -> Seq<int> {
    Seq::new(
        entries.len(),
        |k: int| base + extra_sections(entries.subrange(0, k)).len() + 1,
    )
}

/// Past the template, the marker scan of the built image finds each marker
/// only where the builder put one: no marker text recurs inside a payload.
pub open spec fn markers_only_at_sections(
    template: Seq<u8>,
    filename: Seq<u8>,
    primary: Seq<u8>,
    cleanup: bool,
    entries: Seq<(Seq<u8>, Seq<u8>)>,
) -> bool {
    let img = container_bytes(template, filename, primary, cleanup, entries);
    let n = img.len();
    let content_pos = template.len() as int + 1 + Marker::Filename.text().len() + base64_text(filename).len()
        + 1;
    &&& last_occurrence_below(img, Marker::Filename.text(), n) == Some(template.len() as int + 1)
    &&& last_occurrence_below(img, Marker::Content.text(), n) == Some(content_pos)
    &&& cleanup_after(img, template.len() as int + 1) == cleanup
    &&& occurrences_from(img, Marker::Extra.text(), template.len() as int + 2, n) == extra_marker_positions(
        head_bytes(template, filename, primary, cleanup).len() as int,
        entries,
    )
}

proof fn lemma_newline_at(img: Seq<u8>, k: nat, e: nat)
    requires
        k <= e < img.len(),
        img[e as int] == 10,
        forall|j: int| k <= j < e ==> img[j] != 10,
    ensures
        first_newline_from(img, k) == Some(e),
    decreases e - k,
{
    if k < e {
        lemma_newline_at(img, k + 1, e);
    }
}

proof fn lemma_prefix(a: Seq<u8>, b: Seq<u8>)
    ensures
        (a + b).subrange(0, a.len() as int) == a,
{
    assert((a + b).subrange(0, a.len() as int) =~= a);
}

proof fn lemma_window_within(img: Seq<u8>, a: int, b: int, w: Seq<u8>, c: int, d: int)
    requires
        0 <= a <= b <= img.len(),
        img.subrange(a, b) == w,
        0 <= c <= d <= w.len(),
    ensures
        img.subrange(a + c, a + d) == w.subrange(c, d),
{
    assert(img.subrange(a + c, a + d) =~= w.subrange(c, d));
}

/// A base64 line of `data` starting at `start` decodes back to `data`.
proof fn lemma_base64_line(img: Seq<u8>, start: nat, data: Seq<u8>)
    requires
        base64_round_trips(data),
        start + base64_text(data).len() + 1 <= img.len(),
        img.subrange(start as int, start as int + base64_text(data).len() + 1) == base64_text(data)
            + newline(),
    ensures
        first_newline_from(img, start) == Some(start + base64_text(data).len()),
        base64_decoded(img.subrange(start as int, start as int + base64_text(data).len())) == Some(data),
{
    let t = base64_text(data);
    let w = img.subrange(start as int, start as int + t.len() + 1);
    assert forall|j: int| start <= j < start + t.len() implies img[j] != 10 by {
        assert(w[j - start] == img[j]);
        assert(w[j - start] == t[j - start]);
        assert(crate::encoding::is_base64_byte(t[j - start]));
    }
    assert(w[t.len() as int] == img[start as int + t.len()]);
    lemma_newline_at(img, start, start + t.len());
    assert(img.subrange(start as int, start as int + t.len()) =~= t);
}

/// A length line for `blob` followed by `blob` reads back as `blob`.
proof fn lemma_sized_window(img: Seq<u8>, start: nat, blob: Seq<u8>)
    requires
        blob.len() <= usize::MAX,
        start + length_line(blob.len()).len() + blob.len() <= img.len(),
        img.subrange(start as int, start as int + length_line(blob.len()).len() + blob.len())
            == length_line(blob.len()) + blob,
    ensures
        sized_field(img, start) == Ok::<Seq<u8>, ContainerError>(blob),
{
    let d = decimal_bytes(blob.len());
    lemma_decimal_bytes_digits(blob.len());
    let w = img.subrange(start as int, start as int + length_line(blob.len()).len() + blob.len());
    assert forall|j: int| start <= j < start + d.len() implies img[j] != 10 by {
        assert(w[j - start] == img[j]);
        assert(w[j - start] == d[j - start]);
        assert(crate::decimal::is_digit(d[j - start]));
    }
    assert(w[d.len() as int] == img[start as int + d.len()]);
    lemma_newline_at(img, start, start + d.len());
    assert(img.subrange(start as int, start as int + d.len()) =~= d);
    assert forall|i: int| 0 <= i < blob.len() implies img[start as int + d.len() + 1 + i] == blob[i] by {
        assert(w[d.len() + 1 + i] == img[start as int + d.len() + 1 + i]);
    }
    assert(img.subrange(start as int + d.len() + 1, start as int + d.len() + 1 + blob.len()) =~= blob);
}

/// The sections of the first `k` entries open the sections of the first `j`.
proof fn lemma_sections_prefix(entries: Seq<(Seq<u8>, Seq<u8>)>, k: int, j: int)
    requires
        0 <= k <= j <= entries.len(),
    ensures
        extra_sections(entries.subrange(0, k)).len() <= extra_sections(entries.subrange(0, j)).len(),
        extra_sections(entries.subrange(0, j)).subrange(
            0,
            extra_sections(entries.subrange(0, k)).len() as int,
        ) == extra_sections(entries.subrange(0, k)),
    decreases j - k,
{
    let sk = extra_sections(entries.subrange(0, k));
    if k == j {
        assert(sk.subrange(0, sk.len() as int) =~= sk);
    } else {
        lemma_sections_prefix(entries, k, j - 1);
        assert(entries.subrange(0, j).drop_last() =~= entries.subrange(0, j - 1));
        let sj1 = extra_sections(entries.subrange(0, j - 1));
        let sj = extra_sections(entries.subrange(0, j));
        assert(sj == sj1 + extra_section(entries.subrange(0, j).last()));
        assert(sj.subrange(0, sk.len() as int) =~= sj1.subrange(0, sk.len() as int));
    }
}

/// Where the section of entry `k` stands in the built image.
proof fn lemma_entry_window(
    template: Seq<u8>,
    filename: Seq<u8>,
    primary: Seq<u8>,
    cleanup: bool,
    entries: Seq<(Seq<u8>, Seq<u8>)>,
    k: int,
)
    requires
        0 <= k < entries.len(),
    ensures
        ({
            let img = container_bytes(template, filename, primary, cleanup, entries);
            let at = head_bytes(template, filename, primary, cleanup).len() as int + extra_sections(
                entries.subrange(0, k),
            ).len();
            &&& at + extra_section(entries[k]).len() <= img.len()
            &&& img.subrange(at, at + extra_section(entries[k]).len()) == extra_section(entries[k])
        }),
{
    let img = container_bytes(template, filename, primary, cleanup, entries);
    let head = head_bytes(template, filename, primary, cleanup);
    let all = extra_sections(entries);
    let sk = extra_sections(entries.subrange(0, k));
    let sec = extra_section(entries[k]);
    lemma_sections_prefix(entries, k + 1, entries.len() as int);
    assert(entries.subrange(0, entries.len() as int) =~= entries);
    assert(entries.subrange(0, k + 1).drop_last() =~= entries.subrange(0, k));
    let sk1 = extra_sections(entries.subrange(0, k + 1));
    assert(sk1 == sk + sec);
    assert(all.subrange(0, sk1.len() as int) == sk1);
    assert(img =~= head + all);
    assert(img.subrange(head.len() as int + sk.len(), head.len() as int + sk.len() + sec.len()) =~= sec) by {
        assert forall|i: int| 0 <= i < sec.len() implies img.subrange(
            head.len() as int + sk.len(),
            head.len() as int + sk.len() + sec.len(),
        )[i] == sec[i] by {
            assert(all.subrange(0, sk1.len() as int)[sk.len() + i] == sk1[sk.len() + i]);
        }
    }
}

/// Entry `k` reads back from its marker.
proof fn lemma_entry_reads_back(
    template: Seq<u8>,
    filename: Seq<u8>,
    primary: Seq<u8>,
    cleanup: bool,
    entries: Seq<(Seq<u8>, Seq<u8>)>,
    k: int,
)
    requires
        0 <= k < entries.len(),
        base64_round_trips(entries[k].0),
        entries[k].1.len() <= usize::MAX,
    ensures
        extra_at(
            container_bytes(template, filename, primary, cleanup, entries),
            extra_marker_positions(
                head_bytes(template, filename, primary, cleanup).len() as int,
                entries,
            )[k],
        ) == Ok::<(Seq<u8>, Seq<u8>), ContainerError>(entries[k]),
{
    let img = container_bytes(template, filename, primary, cleanup, entries);
    let head = head_bytes(template, filename, primary, cleanup);
    let at = head.len() as int + extra_sections(entries.subrange(0, k)).len();
    let sec = extra_section(entries[k]);
    let (path, blob) = entries[k];
    let t = base64_text(path);
    let ll = length_line(blob.len());
    lemma_entry_window(template, filename, primary, cleanup, entries, k);
    assert(Marker::Extra.text().len() == 15);
    assert(sec =~= newline() + Marker::Extra.text() + (t + newline()) + (ll + blob));
    lemma_window_within(img, at, at + sec.len(), sec, 16, 16 + t.len() as int + 1);
    assert(sec.subrange(16, 16 + t.len() as int + 1) =~= t + newline());
    lemma_base64_line(img, (at + 16) as nat, path);
    lemma_window_within(img, at, at + sec.len(), sec, 16 + t.len() as int + 1, sec.len() as int);
    assert(sec.subrange(16 + t.len() as int + 1, sec.len() as int) =~= ll + blob);
    lemma_sized_window(img, (at + 16 + t.len() + 1) as nat, blob);
}

/// Container round trip: reading the image that the builder writes gives
/// back the file name, the primary payload, the cleanup flag and every
/// extra entry with its path and bytes, in the order they were written,
/// provided no marker text recurs where the builder put none.
pub proof fn lemma_container_round_trip(
    template: Seq<u8>,
    filename: Seq<u8>,
    primary: Seq<u8>,
    cleanup: bool,
    entries: Seq<(Seq<u8>, Seq<u8>)>,
)
    requires
        base64_round_trips(filename),
        forall|i: int| 0 <= i < entries.len() ==> base64_round_trips(#[trigger] entries[i].0),
        primary.len() <= usize::MAX,
        forall|i: int| 0 <= i < entries.len() ==> #[trigger] entries[i].1.len() <= usize::MAX,
        markers_only_at_sections(template, filename, primary, cleanup, entries),
    ensures
        parsed_container(container_bytes(template, filename, primary, cleanup, entries)) == Ok::<
            ContainerView,
            ContainerError,
        >(ContainerView { filename, payload: primary, cleanup, extras: entries }),
{
    let img = container_bytes(template, filename, primary, cleanup, entries);
    let head = head_bytes(template, filename, primary, cleanup);
    let nb = base64_text(filename);
    let ll = length_line(primary.len());
    assert(Marker::Filename.text().len() == 15);
    assert(Marker::Content.text().len() == 17);
    let h0 = template + newline() + Marker::Filename.text();
    let h1 = h0 + nb + newline();
    let h2 = h1 + Marker::Content.text();
    let h3 = h2 + ll + primary;
    lemma_prefix(head, extra_sections(entries));
    lemma_prefix(h3, if cleanup {
        newline() + Marker::Cleanup.text()
    } else {
        Seq::empty()
    });
    lemma_window_within(img, 0, head.len() as int, head, 0, h3.len() as int);
    lemma_prefix(h2 + ll, primary);
    lemma_prefix(h2, ll);
    lemma_prefix(h1, Marker::Content.text());
    lemma_window_within(img, 0, h3.len() as int, h3, 0, (h2 + ll).len() as int);
    lemma_window_within(img, 0, (h2 + ll).len() as int, h2 + ll, 0, h2.len() as int);
    lemma_window_within(img, 0, h2.len() as int, h2, 0, h1.len() as int);
    // file name line
    assert(h1.subrange(h0.len() as int, h1.len() as int) =~= nb + newline());
    lemma_window_within(img, 0, h1.len() as int, h1, h0.len() as int, h1.len() as int);
    lemma_base64_line(img, h0.len(), filename);
    // primary payload
    assert(h3.subrange(h2.len() as int, h3.len() as int) =~= ll + primary);
    lemma_window_within(img, 0, h3.len() as int, h3, h2.len() as int, h3.len() as int);
    lemma_sized_window(img, h2.len(), primary);
    // extra entries
    let positions = extra_marker_positions(head.len() as int, entries);
    assert forall|k: int| 0 <= k <= entries.len() implies extras_at(img, positions.subrange(0, k))
        == Ok::<Seq<(Seq<u8>, Seq<u8>)>, ContainerError>(entries.subrange(0, k)) by {
        lemma_extras_read_back(template, filename, primary, cleanup, entries, k);
    }
    assert(positions.subrange(0, entries.len() as int) =~= positions);
    assert(entries.subrange(0, entries.len() as int) =~= entries);
}

proof fn lemma_extras_read_back(
    template: Seq<u8>,
    filename: Seq<u8>,
    primary: Seq<u8>,
    cleanup: bool,
    entries: Seq<(Seq<u8>, Seq<u8>)>,
    k: int,
)
    requires
        0 <= k <= entries.len(),
        forall|i: int| 0 <= i < entries.len() ==> base64_round_trips(#[trigger] entries[i].0),
        forall|i: int| 0 <= i < entries.len() ==> #[trigger] entries[i].1.len() <= usize::MAX,
    ensures
        extras_at(
            container_bytes(template, filename, primary, cleanup, entries),
            extra_marker_positions(
                head_bytes(template, filename, primary, cleanup).len() as int,
                entries,
            ).subrange(0, k),
        ) == Ok::<Seq<(Seq<u8>, Seq<u8>)>, ContainerError>(entries.subrange(0, k)),
    decreases k,
{
    let img = container_bytes(template, filename, primary, cleanup, entries);
    let positions = extra_marker_positions(
        head_bytes(template, filename, primary, cleanup).len() as int,
        entries,
    );
    if k == 0 {
        assert(positions.subrange(0, 0) =~= Seq::<int>::empty());
        assert(entries.subrange(0, 0) =~= Seq::<(Seq<u8>, Seq<u8>)>::empty());
    } else {
        lemma_extras_read_back(template, filename, primary, cleanup, entries, k - 1);
        assert(positions.subrange(0, k).drop_last() =~= positions.subrange(0, k - 1));
        assert(positions.subrange(0, k).last() == positions[k - 1]);
        lemma_entry_reads_back(template, filename, primary, cleanup, entries, k - 1);
        assert(entries.subrange(0, k) =~= entries.subrange(0, k - 1).push(entries[k - 1]));
    }
}

} // verus!
