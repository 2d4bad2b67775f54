//! RIFF/WAVE parsing: validate the container, walk the chunk list, and hand
//! back the `fmt ` fields and the raw PCM of the `data` chunk.
use vstd::prelude::*;
use crate::le::{
    get_u16_le, get_u32_le, le_u16_at, le_u32_at, lemma_u16_le_at, lemma_u32_le_at, u16_le, u32_le,
};
use crate::text::{decimal, usize_to_decimal};

verus! {

/// Decoded metadata + raw PCM payload from a RIFF/WAVE file.
#[derive(Debug, Clone, PartialEq, Eq)]
pub struct WavData {
    /// WAVE `fmt ` audio format tag (1 = uncompressed PCM).
    pub audio_format: u16,
    /// Channel count (1 = mono, 2 = stereo, ...).
    pub channels: u16,
    /// Samples per second, e.g. 44_100.
    pub sample_rate: u32,
    /// Bits per sample, e.g. 16.
    pub bits_per_sample: u16,
    /// Raw bytes of the `data` chunk (interleaved PCM frames).
    pub pcm: Vec<u8>,
}

/// The mathematical content of a decoded WAV.
pub struct WavView {
    pub audio_format: u16,
    pub channels: u16,
    pub sample_rate: u32,
    pub bits_per_sample: u16,
    pub pcm: Seq<u8>,
}

impl View for WavData {
    type V = WavView;

    open spec fn view(&self) -> WavView {
        WavView {
            audio_format: self.audio_format,
            channels: self.channels,
            sample_rate: self.sample_rate,
            bits_per_sample: self.bits_per_sample,
            pcm: self.pcm@,
        }
    }
}

/// Why a buffer is not a usable WAV.
#[derive(Debug, Clone, Copy, PartialEq, Eq, Structural)]
pub enum WavError {
    /// Buffer is too small to even contain the 12-byte RIFF/WAVE header.
    TooShort(usize),
    /// The first four bytes were not the ASCII magic `RIFF`.
    BadRiffMagic,
    /// Bytes 8..12 were not the ASCII magic `WAVE`.
    BadWaveMagic,
    /// A chunk header claimed a size that runs past the end of the buffer.
    TruncatedChunk,
    /// No `fmt ` chunk was present.
    MissingFmtChunk,
    /// The `fmt ` chunk was smaller than the 16-byte PCM header.
    FmtChunkTooSmall(usize),
    /// No `data` chunk was present.
    MissingDataChunk,
}

/// The description of each error.
pub open spec fn wav_error_message(e: WavError) -> Seq<char> {
    match e {
        WavError::TooShort(n) => "WAV data too short ("@ + decimal(n as nat)
            + " bytes; need at least 12)"@,
        WavError::BadRiffMagic => "missing 'RIFF' magic"@,
        WavError::BadWaveMagic => "missing 'WAVE' magic"@,
        WavError::TruncatedChunk => "truncated chunk: declared size runs past end of buffer"@,
        WavError::MissingFmtChunk => "missing 'fmt ' chunk"@,
        WavError::FmtChunkTooSmall(n) => "'fmt ' chunk too small ("@ + decimal(n as nat)
            + " bytes; need at least 16)"@,
        WavError::MissingDataChunk => "missing 'data' chunk"@,
    }
}

impl WavError {
    /// A human-readable description of the error.
    pub fn message(&self) -> (r: String)
        ensures
            r@ == wav_error_message(*self),
    {
        match self {
            WavError::TooShort(n) => {
                let mut s = String::from_str("WAV data too short (");
                s.append(usize_to_decimal(*n).as_str());
                s.append(" bytes; need at least 12)");
                s
            },
            WavError::BadRiffMagic => "missing 'RIFF' magic".to_owned(),
            WavError::BadWaveMagic => "missing 'WAVE' magic".to_owned(),
            WavError::TruncatedChunk => "truncated chunk: declared size runs past end of buffer".to_owned(),
            WavError::MissingFmtChunk => "missing 'fmt ' chunk".to_owned(),
            WavError::FmtChunkTooSmall(n) => {
                let mut s = String::from_str("'fmt ' chunk too small (");
                s.append(usize_to_decimal(*n).as_str());
                s.append(" bytes; need at least 16)");
                s
            },
            WavError::MissingDataChunk => "missing 'data' chunk".to_owned(),
        }
    }
}

/// The `fmt ` fields: format tag, channels, sample rate, bits per sample.
pub type FmtFields = (u16, u16, u32, u16);

/// Whether the four bytes at `at` spell the ASCII tag `a b c d`.
pub open spec fn tag_at(b: Seq<u8>, at: int, t: Seq<u8>) -> bool {
    b.subrange(at, at + 4) == t
}

/// `RIFF`, `WAVE`, `fmt ` and `data` as bytes.
pub open spec fn riff_tag() -> Seq<u8> {
    seq![0x52u8, 0x49u8, 0x46u8, 0x46u8]
}

pub open spec fn wave_tag() -> Seq<u8> {
    seq![0x57u8, 0x41u8, 0x56u8, 0x45u8]
}

pub open spec fn fmt_tag() -> Seq<u8> {
    seq![0x66u8, 0x6Du8, 0x74u8, 0x20u8]
}

pub open spec fn data_tag() -> Seq<u8> {
    seq![0x64u8, 0x61u8, 0x74u8, 0x61u8]
}

/// The `fmt ` fields read from a chunk body.
pub open spec fn fmt_fields(body: Seq<u8>) -> FmtFields {
    (
        le_u16_at(body, 0) as u16,
        le_u16_at(body, 2) as u16,
        le_u32_at(body, 4) as u32,
        le_u16_at(body, 14) as u16,
    )
}

/// Walk the chunk list from `off`: each chunk is a 4-byte id, a 4-byte LE
/// size, `size` body bytes and a pad byte when `size` is odd. The last `fmt `
/// and the last `data` chunk seen win; other chunks are skipped.
pub open spec fn walk_chunks(
    b: Seq<u8>,
    off: int,
    fmt: Option<FmtFields>,
    pcm: Option<Seq<u8>>,
) -> Result<(Option<FmtFields>, Option<Seq<u8>>), WavError>
    decreases b.len() + 1 - off,
{
    if off < 0 || off + 8 > b.len() {
        Ok((fmt, pcm))
    } else {
        let size = le_u32_at(b, off + 4);
        let body_end = off + 8 + size;
        if body_end > b.len() {
            Err(WavError::TruncatedChunk)
        } else {
            let body = b.subrange(off + 8, body_end);
            let next = body_end + size % 2;
            if tag_at(b, off, fmt_tag()) {
                if size < 16 {
                    Err(WavError::FmtChunkTooSmall(size as usize))
                } else {
                    walk_chunks(b, next, Some(fmt_fields(body)), pcm)
                }
            } else if tag_at(b, off, data_tag()) {
                walk_chunks(b, next, fmt, Some(body))
            } else {
                walk_chunks(b, next, fmt, pcm)
            }
        }
    }
}

/// What parsing a WAV buffer yields.
pub open spec fn spec_parse_wav(b: Seq<u8>) -> Result<WavView, WavError> {
    if b.len() < 12 {
        Err(WavError::TooShort(b.len() as usize))
    } else if !tag_at(b, 0, riff_tag()) {
        Err(WavError::BadRiffMagic)
    } else if !tag_at(b, 8, wave_tag()) {
        Err(WavError::BadWaveMagic)
    } else {
        match walk_chunks(b, 12, None, None) {
            Err(e) => Err(e),
            Ok((None, _)) => Err(WavError::MissingFmtChunk),
            Ok((Some(_), None)) => Err(WavError::MissingDataChunk),
            Ok((Some(f), Some(pcm))) => Ok(
                WavView {
                    audio_format: f.0,
                    channels: f.1,
                    sample_rate: f.2,
                    bits_per_sample: f.3,
                    pcm,
                },
            ),
        }
    }
}

/// The view of an optional byte vector.
pub open spec fn opt_bytes_view(o: Option<Vec<u8>>) -> Option<Seq<u8>> {
    match o {
        Some(v) => Some(v@),
        None => None,
    }
}

/// Read a little-endian `u16` at `off`, or `None` if out of bounds.
pub fn read_u16_le(bytes: &[u8], off: usize) -> (r: Option<u16>)
    ensures
        off + 2 <= bytes@.len() ==> r == Some(le_u16_at(bytes@, off as int) as u16),
        off + 2 > bytes@.len() ==> r is None,
{
    if off > bytes.len() || bytes.len() - off < 2 {
        None
    } else {
        Some(get_u16_le(bytes, off))
    }
}

/// Read a little-endian `u32` at `off`, or `None` if out of bounds.
pub fn read_u32_le(bytes: &[u8], off: usize) -> (r: Option<u32>)
    ensures
        off + 4 <= bytes@.len() ==> r == Some(le_u32_at(bytes@, off as int) as u32),
        off + 4 > bytes@.len() ==> r is None,
{
    if off > bytes.len() || bytes.len() - off < 4 {
        None
    } else {
        Some(get_u32_le(bytes, off))
    }
}

/// Whether the four bytes at `at` are `t0 t1 t2 t3`.
fn has_tag(bytes: &[u8], at: usize, t0: u8, t1: u8, t2: u8, t3: u8) -> (r: bool)
    requires
        at + 4 <= bytes@.len(),
    ensures
        r == tag_at(bytes@, at as int, seq![t0, t1, t2, t3]),
{
    let r = bytes[at] == t0 && bytes[at + 1] == t1 && bytes[at + 2] == t2 && bytes[at + 3] == t3;
    proof {
        let s = bytes@.subrange(at as int, at + 4);
        if r {
            assert(s =~= seq![t0, t1, t2, t3]);
        } else {
            assert(s[0] != t0 || s[1] != t1 || s[2] != t2 || s[3] != t3);
        }
    }
    r
}

/// Parse an in-memory RIFF/WAVE buffer: validate the `RIFF`/`WAVE` magics,
/// walk the chunk list for `fmt ` and `data`, and return the format fields
/// and raw PCM. Malformed input yields an error, never a panic.
pub fn parse_wav(bytes: &[u8]) -> (r: Result<WavData, WavError>)
    ensures
        match (r, spec_parse_wav(bytes@)) {
            (Ok(w), Ok(v)) => w@ == v,
            (Err(x), Err(y)) => x == y,
            _ => false,
        },
{
    let len = bytes.len();
    if len < 12 {
        return Err(WavError::TooShort(len));
    }
    if !has_tag(bytes, 0, 0x52, 0x49, 0x46, 0x46) {
        return Err(WavError::BadRiffMagic);
    }
    if !has_tag(bytes, 8, 0x57, 0x41, 0x56, 0x45) {
        return Err(WavError::BadWaveMagic);
    }
    let mut fmt: Option<(u16, u16, u32, u16)> = None;
    let mut pcm: Option<Vec<u8>> = None;
    let mut off: usize = 12;
    while off <= len && len - off >= 8
        invariant
            len == bytes@.len(),
            12 <= off <= len,
            tag_at(bytes@, 0, riff_tag()),
            tag_at(bytes@, 8, wave_tag()),
            walk_chunks(bytes@, 12, None, None) == walk_chunks(
                bytes@,
                off as int,
                fmt,
                opt_bytes_view(pcm),
            ),
        decreases len - off,
    {
        let size = read_u32_le(bytes, off + 4).unwrap();
        let body_start = off + 8;
        let ghost pv = opt_bytes_view(pcm);
        if size as usize > len - body_start {
            assert(walk_chunks(bytes@, off as int, fmt, pv) == Err::<
                (Option<FmtFields>, Option<Seq<u8>>),
                WavError,
            >(WavError::TruncatedChunk));
            return Err(WavError::TruncatedChunk);
        }
        let body_end = body_start + size as usize;
        let body = &bytes[body_start..body_end];
        let ghost old_fmt = fmt;
        let ghost old_off = off;
        if has_tag(bytes, off, 0x66, 0x6D, 0x74, 0x20) {
            if body.len() < 16 {
                assert(walk_chunks(bytes@, off as int, fmt, pv) == Err::<
                    (Option<FmtFields>, Option<Seq<u8>>),
                    WavError,
                >(WavError::FmtChunkTooSmall(size as usize)));
                return Err(WavError::FmtChunkTooSmall(body.len()));
            }
            let audio_format = read_u16_le(body, 0).unwrap();
            let channels = read_u16_le(body, 2).unwrap();
            let sample_rate = read_u32_le(body, 4).unwrap();
            let bits_per_sample = read_u16_le(body, 14).unwrap();
            fmt = Some((audio_format, channels, sample_rate, bits_per_sample));
        } else if has_tag(bytes, off, 0x64, 0x61, 0x74, 0x61) {
            pcm = Some(vstd::slice::slice_to_vec(body));
        }
        assert((size & 1) == size % 2) by (bit_vector);
        off = body_end;
        if size & 1 == 1 && off < len {
            off = off + 1;
        }
        proof {
            let next = body_end + size % 2;
            assert(walk_chunks(bytes@, old_off as int, old_fmt, pv) == walk_chunks(
                bytes@,
                next,
                fmt,
                opt_bytes_view(pcm),
            ));
            if next != off {
                assert(walk_chunks(bytes@, next, fmt, opt_bytes_view(pcm)) == walk_chunks(
                    bytes@,
                    off as int,
                    fmt,
                    opt_bytes_view(pcm),
                ));
            }
        }
    }
    let (audio_format, channels, sample_rate, bits_per_sample) = match fmt {
        Some(f) => f,
        None => return Err(WavError::MissingFmtChunk),
    };
    let pcm = match pcm {
        Some(p) => p,
        None => return Err(WavError::MissingDataChunk),
    };
    Ok(WavData { audio_format, channels, sample_rate, bits_per_sample, pcm })
}


/// The 44-byte header of the smallest well-formed WAV: `RIFF`, the RIFF
/// size, `WAVE`, a 16-byte `fmt ` chunk (format, channels, sample rate, byte
/// rate, block align, bits per sample) and the `data` chunk header for
/// `data_len` bytes.
pub open spec fn minimal_wav_header(fmt: FmtFields, byte_rate: u32, block_align: u16, data_len: nat) -> Seq<
    u8,
> {
    riff_tag() + u32_le((36 + data_len) as u32) + wave_tag() + fmt_tag() + u32_le(16) + u16_le(fmt.0)
        + u16_le(fmt.1) + u32_le(fmt.2) + u32_le(byte_rate) + u16_le(block_align) + u16_le(fmt.3)
        + data_tag() + u32_le(data_len as u32)
}

/// The smallest well-formed WAV: the header, then `pcm` as the data chunk.
pub open spec fn minimal_wav(fmt: FmtFields, byte_rate: u32, block_align: u16, pcm: Seq<u8>) -> Seq<u8> {
    minimal_wav_header(fmt, byte_rate, block_align, pcm.len()) + pcm
}

/// Where each field sits in the header.
proof fn lemma_minimal_wav_header(fmt: FmtFields, byte_rate: u32, block_align: u16, data_len: nat)
    ensures
        ({
            let h = minimal_wav_header(fmt, byte_rate, block_align, data_len);
            &&& h.len() == 44
            &&& h.subrange(0, 4) == riff_tag()
            &&& h.subrange(8, 12) == wave_tag()
            &&& h.subrange(12, 16) == fmt_tag()
            &&& h.subrange(16, 20) == u32_le(16)
            &&& h.subrange(20, 22) == u16_le(fmt.0)
            &&& h.subrange(22, 24) == u16_le(fmt.1)
            &&& h.subrange(24, 28) == u32_le(fmt.2)
            &&& h.subrange(34, 36) == u16_le(fmt.3)
            &&& h.subrange(36, 40) == data_tag()
            &&& h.subrange(40, 44) == u32_le(data_len as u32)
        }),
{
    let h = minimal_wav_header(fmt, byte_rate, block_align, data_len);
    assert(h.subrange(0, 4) =~= riff_tag());
    assert(h.subrange(8, 12) =~= wave_tag());
    assert(h.subrange(12, 16) =~= fmt_tag());
    assert(h.subrange(16, 20) =~= u32_le(16));
    assert(h.subrange(20, 22) =~= u16_le(fmt.0));
    assert(h.subrange(22, 24) =~= u16_le(fmt.1));
    assert(h.subrange(24, 28) =~= u32_le(fmt.2));
    assert(h.subrange(34, 36) =~= u16_le(fmt.3));
    assert(h.subrange(36, 40) =~= data_tag());
    assert(h.subrange(40, 44) =~= u32_le(data_len as u32));
}

/// A 16-byte `fmt ` chunk at 12 is read and walking goes on at 36.
proof fn lemma_walk_fmt_chunk(b: Seq<u8>, fmt: FmtFields)
    requires
        b.len() >= 44,
        b.subrange(12, 16) == fmt_tag(),
        b.subrange(16, 20) == u32_le(16),
        b.subrange(20, 22) == u16_le(fmt.0),
        b.subrange(22, 24) == u16_le(fmt.1),
        b.subrange(24, 28) == u32_le(fmt.2),
        b.subrange(34, 36) == u16_le(fmt.3),
    ensures
        walk_chunks(b, 12, None, None) == walk_chunks(b, 36, Some(fmt), None),
{
    lemma_u32_le_at(b, 16, 16);
    let body = b.subrange(20, 36);
    assert(body.subrange(0, 2) =~= b.subrange(20, 22));
    assert(body.subrange(2, 4) =~= b.subrange(22, 24));
    assert(body.subrange(4, 8) =~= b.subrange(24, 28));
    assert(body.subrange(14, 16) =~= b.subrange(34, 36));
    lemma_u16_le_at(body, 0, fmt.0);
    lemma_u16_le_at(body, 2, fmt.1);
    lemma_u32_le_at(body, 4, fmt.2);
    lemma_u16_le_at(body, 14, fmt.3);
    assert(fmt_fields(body) == fmt);
    assert(tag_at(b, 12, fmt_tag()));
}

/// A `data` chunk at 36 that runs to the end is the last chunk.
proof fn lemma_walk_data_chunk(b: Seq<u8>, fmt: FmtFields, pcm: Seq<u8>)
    requires
        pcm.len() <= u32::MAX,
        b.len() == 44 + pcm.len(),
        b.subrange(36, 40) == data_tag(),
        b.subrange(40, 44) == u32_le(pcm.len() as u32),
        b.subrange(44, b.len() as int) == pcm,
    ensures
        walk_chunks(b, 36, Some(fmt), None) == Ok::<(Option<FmtFields>, Option<Seq<u8>>), WavError>(
            (Some(fmt), Some(pcm)),
        ),
{
    let n: int = pcm.len() as int;
    lemma_u32_le_at(b, 40, n as u32);
    assert(!tag_at(b, 36, fmt_tag())) by {
        assert(b.subrange(36, 40)[0] != fmt_tag()[0]);
    }
    assert(tag_at(b, 36, data_tag()));
    let next = 44 + n + n % 2;
    assert(walk_chunks(b, next, Some(fmt), Some(pcm)) == Ok::<
        (Option<FmtFields>, Option<Seq<u8>>),
        WavError,
    >((Some(fmt), Some(pcm))));
}

/// A minimal WAV parses back to the format fields and PCM it was written
/// with.
pub proof fn lemma_minimal_wav_parses(fmt: FmtFields, byte_rate: u32, block_align: u16, pcm: Seq<u8>)
    requires
        pcm.len() + 36 <= u32::MAX,
    ensures
        spec_parse_wav(minimal_wav(fmt, byte_rate, block_align, pcm)) == Ok::<WavView, WavError>(
            WavView {
                audio_format: fmt.0,
                channels: fmt.1,
                sample_rate: fmt.2,
                bits_per_sample: fmt.3,
                pcm,
            },
        ),
{
    let h = minimal_wav_header(fmt, byte_rate, block_align, pcm.len());
    let b = minimal_wav(fmt, byte_rate, block_align, pcm);
    lemma_minimal_wav_header(fmt, byte_rate, block_align, pcm.len());
    assert(b == h + pcm);
    assert(b.subrange(0, 4) =~= h.subrange(0, 4));
    assert(b.subrange(8, 12) =~= h.subrange(8, 12));
    assert(b.subrange(12, 16) =~= h.subrange(12, 16));
    assert(b.subrange(16, 20) =~= h.subrange(16, 20));
    assert(b.subrange(20, 22) =~= h.subrange(20, 22));
    assert(b.subrange(22, 24) =~= h.subrange(22, 24));
    assert(b.subrange(24, 28) =~= h.subrange(24, 28));
    assert(b.subrange(34, 36) =~= h.subrange(34, 36));
    assert(b.subrange(36, 40) =~= h.subrange(36, 40));
    assert(b.subrange(40, 44) =~= h.subrange(40, 44));
    assert(b.subrange(44, b.len() as int) =~= pcm);
    lemma_walk_fmt_chunk(b, fmt);
    lemma_walk_data_chunk(b, fmt, pcm);
    assert(tag_at(b, 0, riff_tag()));
    assert(tag_at(b, 8, wave_tag()));
}

/// A WAV of a `fmt ` chunk holding `fmt_body` (of any size, padded to an
/// even length) followed by a `data` chunk holding `pcm`.
pub open spec fn two_chunk_wav(fmt_body: Seq<u8>, pcm: Seq<u8>) -> Seq<u8> {
    let pad: Seq<u8> = if fmt_body.len() % 2 == 1 {
        seq![0u8]
    } else {
        Seq::empty()
    };
    riff_tag() + u32_le((20 + fmt_body.len() + pad.len() + pcm.len()) as u32) + wave_tag()
        + fmt_tag() + u32_le(fmt_body.len() as u32) + fmt_body + pad + data_tag() + u32_le(
        pcm.len() as u32,
    ) + pcm
}

/// Where the pieces of a two-chunk WAV sit.
#[verifier::spinoff_prover]
#[verifier::rlimit(60)]
proof fn lemma_two_chunk_layout(fmt_body: Seq<u8>, pcm: Seq<u8>)
    requires
        16 <= fmt_body.len(),
        fmt_body.len() + pcm.len() + 29 <= u32::MAX,
    ensures
        ({
            let b = two_chunk_wav(fmt_body, pcm);
            let sz = fmt_body.len() as int;
            let d = 20 + sz + sz % 2;
            &&& b.len() == d + 8 + pcm.len()
            &&& tag_at(b, 0, riff_tag())
            &&& tag_at(b, 8, wave_tag())
            &&& tag_at(b, 12, fmt_tag())
            &&& le_u32_at(b, 16) == sz
            &&& b.subrange(20, 20 + sz) == fmt_body
            &&& !tag_at(b, d, fmt_tag())
            &&& tag_at(b, d, data_tag())
            &&& le_u32_at(b, d + 4) == pcm.len()
            &&& b.subrange(d + 8, d + 8 + pcm.len()) == pcm
        }),
{
    let sz = fmt_body.len() as int;
    let n = pcm.len() as int;
    let pad: Seq<u8> = if sz % 2 == 1 {
        seq![0u8]
    } else {
        Seq::empty()
    };
    let p = pad.len() as int;
    let b = two_chunk_wav(fmt_body, pcm);
    let riff_size = u32_le((20 + sz + p + n) as u32);
    let fmt_size = u32_le(sz as u32);
    let data_size = u32_le(n as u32);
    assert(b == riff_tag() + riff_size + wave_tag() + fmt_tag() + fmt_size + fmt_body + pad
        + data_tag() + data_size + pcm);
    assert(b.len() == 28 + sz + p + n);
    let d = 20 + sz + p;
    assert(b.subrange(0, 4) =~= riff_tag());
    assert(b.subrange(8, 12) =~= wave_tag());
    assert(b.subrange(12, 16) =~= fmt_tag());
    assert(b.subrange(16, 20) =~= fmt_size);
    assert(b.subrange(20, 20 + sz) =~= fmt_body);
    assert(b.subrange(d, d + 4) =~= data_tag());
    assert(b.subrange(d + 4, d + 8) =~= data_size);
    assert(b.subrange(d + 8, d + 8 + n) =~= pcm);
    lemma_u32_le_at(b, 16, sz as u32);
    lemma_u32_le_at(b, d + 4, n as u32);
    assert(tag_at(b, 0, riff_tag()));
    assert(tag_at(b, 8, wave_tag()));
    assert(tag_at(b, 12, fmt_tag()));
    assert(!tag_at(b, d, fmt_tag())) by {
        assert(b.subrange(d, d + 4)[0] != fmt_tag()[0]);
    }
    assert(tag_at(b, d, data_tag()));
}

/// Whatever the size of its `fmt ` chunk (16 bytes or more, such as the
/// 18- and 40-byte extended forms), a WAV takes its format tag, channel
/// count, sample rate and bits per sample from bytes 0, 2, 4 and 14 of that
/// chunk, and its samples from the `data` chunk.
#[verifier::spinoff_prover]
#[verifier::rlimit(60)]
pub proof fn lemma_fmt_fields_at_fixed_offsets(fmt_body: Seq<u8>, pcm: Seq<u8>)
    requires
        16 <= fmt_body.len(),
        fmt_body.len() + pcm.len() + 29 <= u32::MAX,
    ensures
        spec_parse_wav(two_chunk_wav(fmt_body, pcm)) == Ok::<WavView, WavError>(
            WavView {
                audio_format: le_u16_at(fmt_body, 0) as u16,
                channels: le_u16_at(fmt_body, 2) as u16,
                sample_rate: le_u32_at(fmt_body, 4) as u32,
                bits_per_sample: le_u16_at(fmt_body, 14) as u16,
                pcm,
            },
        ),
{
    let sz = fmt_body.len() as int;
    let n = pcm.len() as int;
    let b = two_chunk_wav(fmt_body, pcm);
    let d = 20 + sz + sz % 2;
    lemma_two_chunk_layout(fmt_body, pcm);
    let f = fmt_fields(fmt_body);
    let end = d + 8 + n + n % 2;
    assert(walk_chunks(b, end, Some(f), Some(pcm)) == Ok::<
        (Option<FmtFields>, Option<Seq<u8>>),
        WavError,
    >((Some(f), Some(pcm))));
    assert(walk_chunks(b, d, Some(f), None) == walk_chunks(b, end, Some(f), Some(pcm)));
    assert(walk_chunks(b, 12, None, None) == walk_chunks(b, d, Some(f), None));
}

} // verus!
