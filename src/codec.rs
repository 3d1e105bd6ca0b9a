use vstd::prelude::*;
use std::io::Read;
use std::io::Write;
use crate::text::{decimal_text, push_decimal, push_text};

verus! {

/// The compression algorithms a payload may be encoded with.
#[derive(Clone, Copy, Debug, PartialEq, Eq, Structural)]
pub enum Algorithm {
    Lzma,
    Zstd,
    Brotli,
}

impl Algorithm {
    /// Smallest level the algorithm accepts.
    pub open spec fn min_level(self) -> u32 {
        match self {
            Algorithm::Zstd => 1,
            _ => 0,
        }
    }

    /// Largest level the algorithm accepts.
    pub open spec fn max_level(self) -> u32 {
        match self {
            Algorithm::Lzma => 9,
            Algorithm::Zstd => 22,
            Algorithm::Brotli => 11,
        }
    }

    pub open spec fn accepts_level(self, level: u32) -> bool {
        self.min_level() <= level <= self.max_level()
    }

    /// The algorithm that the command-line flags select: Brotli wins over
    /// Zstd, and LZMA is the default.
    pub open spec fn spec_from_flags(brotli: bool, zstd: bool) -> Algorithm {
        if brotli {
            Algorithm::Brotli
        } else if zstd {
            Algorithm::Zstd
        } else {
            Algorithm::Lzma
        }
    }

    pub fn from_flags(brotli: bool, zstd: bool) -> (r: Algorithm)
        ensures
            r == Algorithm::spec_from_flags(brotli, zstd),
    {
        if brotli {
            Algorithm::Brotli
        } else if zstd {
            Algorithm::Zstd
        } else {
            Algorithm::Lzma
        }
    }

    pub fn min_level_of(&self) -> (r: u32)
        ensures
            r == self.min_level(),
    {
        match self {
            Algorithm::Zstd => 1,
            _ => 0,
        }
    }

    pub fn max_level_of(&self) -> (r: u32)
        ensures
            r == self.max_level(),
    {
        match self {
            Algorithm::Lzma => 9,
            Algorithm::Zstd => 22,
            Algorithm::Brotli => 11,
        }
    }

    /// The algorithm's name as the diagnostics spell it.
    pub open spec fn spec_name(self) -> Seq<char> {
        match self {
            Algorithm::Lzma => "lzma"@,
            Algorithm::Zstd => "zstd"@,
            Algorithm::Brotli => "brotli"@,
        }
    }

    pub fn name(&self) -> (r: &'static str)
        ensures
            r@ == self.spec_name(),
    {
        match self {
            Algorithm::Lzma => "lzma",
            Algorithm::Zstd => "zstd",
            Algorithm::Brotli => "brotli",
        }
    }
}

/// The diagnostic for a level outside the algorithm's range, e.g.
/// "Invalid compression level 23 for zstd: supported levels are 1-22".
pub open spec fn level_diagnostic(algorithm: Algorithm, level: u32) -> Seq<char> {
    "Invalid compression level "@ + decimal_text(level as nat) + " for "@ + algorithm.spec_name()
        + ": supported levels are "@ + decimal_text(algorithm.min_level() as nat) + "-"@
        + decimal_text(algorithm.max_level() as nat)
}

fn level_message(algorithm: Algorithm, level: u32) -> (r: String)
    ensures
        r@ == level_diagnostic(algorithm, level),
{
    let mut s = "Invalid compression level ".to_owned();
    push_decimal(&mut s, level);
    push_text(&mut s, " for ");
    push_text(&mut s, algorithm.name());
    push_text(&mut s, ": supported levels are ");
    push_decimal(&mut s, algorithm.min_level_of());
    push_text(&mut s, "-");
    push_decimal(&mut s, algorithm.max_level_of());
    s
}

/// Checks a compression level against the range of the algorithm that the
/// flags select, before any compression work is done.
pub fn validate_compression_level(level: u32, brotli: bool, zstd: bool) -> (r: Result<(), String>)
    ensures
        r is Ok <==> Algorithm::spec_from_flags(brotli, zstd).accepts_level(level),
        r matches Err(msg) ==> msg@ == level_diagnostic(
            Algorithm::spec_from_flags(brotli, zstd),
            level,
        ),
{
    let algorithm = Algorithm::from_flags(brotli, zstd);
    if level < algorithm.min_level_of() || level > algorithm.max_level_of() {
        Err(level_message(algorithm, level))
    } else {
        Ok(())
    }
}

/// Failures of the codec.
#[derive(Clone, Copy, Debug, PartialEq, Eq, Structural)]
pub enum CodecError {
    /// The level lies outside the algorithm's range.
    InvalidLevel { algorithm: Algorithm, level: u32 },
    /// None of the decoders accepted the blob.
    DecompressFailed,
}

/// xz stream that the xz2 crate writes for `data` at preset `level`.
pub uninterp spec fn lzma_encoded(data: Seq<u8>, level: u32) -> Seq<u8>;

/// zstd frame that the zstd crate writes for `data` at `level`.
pub uninterp spec fn zstd_encoded(data: Seq<u8>, level: u32) -> Seq<u8>;

/// Brotli stream that the brotli crate writes for `data` at quality `level`.
pub uninterp spec fn brotli_encoded(data: Seq<u8>, level: u32) -> Seq<u8>;

/// What the xz2 decoder reads out of `blob`, `None` where it reports an error.
pub uninterp spec fn lzma_decoded(blob: Seq<u8>) -> Option<Seq<u8>>;

/// What the zstd decoder reads out of `blob`, `None` where it reports an error.
pub uninterp spec fn zstd_decoded(blob: Seq<u8>) -> Option<Seq<u8>>;

/// What the brotli decoder reads out of `blob`, `None` where it reports an error.
pub uninterp spec fn brotli_decoded(blob: Seq<u8>) -> Option<Seq<u8>>;

pub open spec fn encoded(algorithm: Algorithm, data: Seq<u8>, level: u32) -> Seq<u8> {
    match algorithm {
        Algorithm::Lzma => lzma_encoded(data, level),
        Algorithm::Zstd => zstd_encoded(data, level),
        Algorithm::Brotli => brotli_encoded(data, level),
    }
}

/// What the decoder of one algorithm makes of a blob.
pub open spec fn decoded_by(algorithm: Algorithm, blob: Seq<u8>) -> Option<Seq<u8>> {
    match algorithm {
        Algorithm::Lzma => lzma_decoded(blob),
        Algorithm::Zstd => zstd_decoded(blob),
        Algorithm::Brotli => brotli_decoded(blob),
    }
}

/// A blob carries no algorithm tag: the decoders are tried in the order
/// Brotli, LZMA, Zstd, and the first one that succeeds gives the result.
pub open spec fn decompressed(blob: Seq<u8>) -> Option<Seq<u8>> {
    if brotli_decoded(blob) is Some {
        brotli_decoded(blob)
    } else if lzma_decoded(blob) is Some {
        lzma_decoded(blob)
    } else {
        zstd_decoded(blob)
    }
}

/// No decoder tried before `algorithm`'s own accepts `blob`.
pub open spec fn earlier_decoders_reject(algorithm: Algorithm, blob: Seq<u8>) -> bool {
    match algorithm {
        Algorithm::Brotli => true,
        Algorithm::Lzma => brotli_decoded(blob) is None,
        Algorithm::Zstd => brotli_decoded(blob) is None && lzma_decoded(blob) is None,
    }
}

/// Relies on xz2::write::XzEncoder (with the bundled liblzma that the
/// `static` feature builds): an xz stream at preset `level` (a preset up to
/// 9 is accepted), which xz2::read::XzDecoder reads back to the input.
/// Encoding into memory fails only where memory runs out.
#[verifier::external_body]
fn lzma_compress(data: &[u8], level: u32) -> (r: Vec<u8>)
    requires
        level <= 9,
    ensures
        r@ == lzma_encoded(data@, level),
        lzma_decoded(r@) == Some(data@),
{
    let mut out = Vec::new();
    let mut encoder = xz2::write::XzEncoder::new(&mut out, level);
    encoder.write_all(data).expect("xz encoding into memory");
    encoder.finish().expect("xz encoding into memory");
    out
}

/// Relies on zstd::stream::Encoder: a zstd frame at `level`, which
/// zstd::stream::Decoder reads back to the input. Encoding into memory
/// fails only where memory runs out.
#[verifier::external_body]
fn zstd_compress(data: &[u8], level: u32) -> (r: Vec<u8>)
    requires
        1 <= level <= 22,
    ensures
        r@ == zstd_encoded(data@, level),
        zstd_decoded(r@) == Some(data@),
{
    let mut out = Vec::new();
    let mut encoder = zstd::stream::Encoder::new(&mut out, level as i32).expect("zstd context");
    encoder.write_all(data).expect("zstd encoding into memory");
    encoder.finish().expect("zstd encoding into memory");
    out
}

/// Relies on brotli::CompressorWriter (4096-byte buffer, window 22): a
/// brotli stream at quality `level`, finished when the writer is dropped,
/// which brotli::Decompressor reads back to the input. Writing into memory
/// does not fail.
#[verifier::external_body]
fn brotli_compress(data: &[u8], level: u32) -> (r: Vec<u8>)
    requires
        level <= 11,
    ensures
        r@ == brotli_encoded(data@, level),
        brotli_decoded(r@) == Some(data@),
{
    let mut out = Vec::new();
    let mut encoder = brotli::CompressorWriter::new(&mut out, 4096, level, 22);
    encoder.write_all(data).expect("brotli encoding into memory");
    drop(encoder);
    out
}

/// Relies on xz2::read::XzDecoder read to the end: the decoded bytes, or an
/// error for a blob that is not one well-formed xz stream.
#[verifier::external_body]
fn lzma_decompress(blob: &[u8]) -> (r: Option<Vec<u8>>)
    ensures
        r matches Some(v) ==> lzma_decoded(blob@) == Some(v@),
        r is None ==> lzma_decoded(blob@) is None,
{
    let mut out = Vec::new();
    xz2::read::XzDecoder::new(blob).read_to_end(&mut out).ok()?;
    Some(out)
}

/// Relies on zstd::stream::Decoder read to the end: the decoded bytes, or an
/// error for a blob that is not well-formed zstd.
#[verifier::external_body]
fn zstd_decompress(blob: &[u8]) -> (r: Option<Vec<u8>>)
    ensures
        r matches Some(v) ==> zstd_decoded(blob@) == Some(v@),
        r is None ==> zstd_decoded(blob@) is None,
{
    let mut out = Vec::new();
    zstd::stream::Decoder::new(blob).ok()?.read_to_end(&mut out).ok()?;
    Some(out)
}

/// Relies on brotli::Decompressor (4096-byte buffer) read to the end: the
/// decoded bytes, or an error for a blob that is not a well-formed stream.
#[verifier::external_body]
fn brotli_decompress(blob: &[u8]) -> (r: Option<Vec<u8>>)
    ensures
        r matches Some(v) ==> brotli_decoded(blob@) == Some(v@),
        r is None ==> brotli_decoded(blob@) is None,
{
    let mut out = Vec::new();
    brotli::Decompressor::new(blob, 4096).read_to_end(&mut out).ok()?;
    Some(out)
}

/// Compresses `data` with `algorithm` at `level`. The level is checked
/// first; an accepted level gives the algorithm's encoding, which that
/// algorithm's decoder reads back to `data`.
pub fn compress(data: &[u8], algorithm: Algorithm, level: u32) -> (r: Result<Vec<u8>, CodecError>)
    ensures
        r is Ok <==> algorithm.accepts_level(level),
        r is Err ==> r->Err_0 == (CodecError::InvalidLevel { algorithm, level }),
        r matches Ok(v) ==> v@ == encoded(algorithm, data@, level) && decoded_by(algorithm, v@)
            == Some(data@),
{
    if level < algorithm.min_level_of() || level > algorithm.max_level_of() {
        return Err(CodecError::InvalidLevel { algorithm, level });
    }
    match algorithm {
        Algorithm::Lzma => Ok(lzma_compress(data, level)),
        Algorithm::Zstd => Ok(zstd_compress(data, level)),
        Algorithm::Brotli => Ok(brotli_compress(data, level)),
    }
}

/// Decodes a blob of unknown algorithm: Brotli, then LZMA, then Zstd, and
/// the first decoder that succeeds gives the result.
pub fn decompress(blob: &[u8]) -> (r: Result<Vec<u8>, CodecError>)
    ensures
        r matches Ok(v) ==> decompressed(blob@) == Some(v@),
        r is Err <==> decompressed(blob@) is None,
        r is Err ==> r->Err_0 == CodecError::DecompressFailed,
{
    if let Some(v) = brotli_decompress(blob) {
        return Ok(v);
    }
    if let Some(v) = lzma_decompress(blob) {
        return Ok(v);
    }
    match zstd_decompress(blob) {
        Some(v) => Ok(v),
        None => Err(CodecError::DecompressFailed),
    }
}

/// Round trip: a blob that an algorithm's decoder reads back to `data` (as
/// `compress` promises of what it returns) decompresses to `data`, unless a
/// decoder tried earlier accepts it first.
pub proof fn lemma_round_trip(algorithm: Algorithm, data: Seq<u8>, blob: Seq<u8>)
    requires
        decoded_by(algorithm, blob) == Some(data),
        earlier_decoders_reject(algorithm, blob),
    ensures
        decompressed(blob) == Some(data),
{
}

} // verus!
