//! Frames on the wire and the choice between plain and gzip-compressed payloads.
use crate::proto::{
    decode_processes_bytes, encode_processes_bytes, lemma_rows_bytes_head, processes_bytes,
    push_bytes, rows_bytes, varint_field, COUNT_TAG,
};
use crate::types::{ProcessesPayload, ProcessesView};
use vstd::prelude::*;
use vstd::utf8::*;

verus! {

/// Payloads longer than this many bytes are compressed.
pub const COMPRESSION_THRESHOLD: usize = 768;

/// One message on the connection.
#[derive(Clone, Debug)]
pub enum Frame {
    Text(String),
    Binary(Vec<u8>),
    Close,
}

pub enum FrameView {
    Text(Seq<char>),
    Binary(Seq<u8>),
    Close,
}

impl View for Frame {
    type V = FrameView;

    open spec fn view(&self) -> FrameView {
        match self {
            Frame::Text(s) => FrameView::Text(s@),
            Frame::Binary(b) => FrameView::Binary(b@),
            Frame::Close => FrameView::Close,
        }
    }
}

/// Why a frame could not be read as the payload asked for.
#[derive(Clone, Copy, Debug, PartialEq, Eq, Structural)]
pub enum DecodeError {
    /// A close frame carries no payload.
    Closed,
    /// The bytes are not an encoding of the payload.
    Malformed,
}

/// The gzip stream that the compressor produces for `b`.
pub uninterp spec fn gzip_of(b: Seq<u8>) -> Seq<u8>;

pub open spec fn has_gzip_magic(b: Seq<u8>) -> bool {
    b.len() >= 2 && b[0] == 0x1f && b[1] == 0x8b
}

/// Relies on flate2's `write::GzEncoder` at `Compression::fast()` writing into a `Vec`:
/// the output is the gzip stream of the input, which opens with the gzip magic bytes.
#[verifier::external_body]
fn gzip(b: &[u8]) -> (r: Option<Vec<u8>>)
    ensures
        r matches Some(z) ==> z@ == gzip_of(b@) && has_gzip_magic(z@),
{
    let mut enc = flate2::write::GzEncoder::new(Vec::new(), flate2::Compression::fast());
    match std::io::Write::write_all(&mut enc, b) {
        Ok(()) => enc.finish().ok(),
        Err(_) => None,
    }
}

/// The bytes held by an optional buffer.
pub open spec fn bytes_of(r: Option<Vec<u8>>) -> Option<Seq<u8>> {
    match r {
        Some(v) => Some(v@),
        None => None,
    }
}

/// Relies on flate2's `read::GzDecoder` read to the end: a stream made by `gzip` gives
/// back its input, and input that does not open with the gzip magic bytes is refused.
#[verifier::external_body]
fn gunzip(b: &[u8]) -> (r: Option<Vec<u8>>)
    ensures
        forall|m: Seq<u8>| #[trigger] gzip_of(m) == b@ ==> bytes_of(r) == Some(m),
        !has_gzip_magic(b@) ==> r is None,
{
    let mut dec = flate2::read::GzDecoder::new(b);
    let mut out = Vec::new();
    match std::io::Read::read_to_end(&mut dec, &mut out) {
        Ok(_) => Some(out),
        Err(_) => None,
    }
}

/// The payload bytes `m` travel in frame `f`: as text, as a binary frame that
/// is not a gzip stream, or gzip-compressed.
pub open spec fn frame_carries(f: FrameView, m: Seq<u8>) -> bool {
    match f {
        FrameView::Text(s) => m == encode_utf8(s),
        FrameView::Binary(b) => (!has_gzip_magic(b) && m == b) || b == gzip_of(m),
        FrameView::Close => false,
    }
}

/// Frame `f` is one that the encoder may send for the payload bytes `raw`
/// when they go out in a binary frame.
pub open spec fn binary_frame_for(raw: Seq<u8>, f: FrameView) -> bool {
    if raw.len() <= COMPRESSION_THRESHOLD {
        f == FrameView::Binary(raw)
    } else {
        f == FrameView::Binary(gzip_of(raw)) || f == FrameView::Binary(raw)
    }
}

/// Puts `raw` in a binary frame, compressed when it is over the threshold
/// (and sent as it is should compression fail).
fn binary_frame(raw: Vec<u8>) -> (f: Frame)
    ensures
        binary_frame_for(raw@, f@),
{
    if raw.len() <= COMPRESSION_THRESHOLD {
        Frame::Binary(raw)
    } else {
        match gzip(raw.as_slice()) {
            Some(z) => Frame::Binary(z),
            None => Frame::Binary(raw),
        }
    }
}

/// Frames a process list in the dense binary schema.
pub fn encode_processes(p: &ProcessesPayload) -> (f: Frame)
    ensures
        binary_frame_for(processes_bytes(p@), f@),
{
    binary_frame(encode_processes_bytes(p))
}

/// Frame `f` is one that the encoder may send for the text payload `t`.
pub open spec fn text_frame_for(t: Seq<char>, f: FrameView) -> bool {
    if encode_utf8(t).len() <= COMPRESSION_THRESHOLD {
        f == FrameView::Text(t)
    } else {
        binary_frame_for(encode_utf8(t), f)
    }
}

/// Frames a serialized text payload: as text up to the threshold, gzip-compressed above it.
pub fn encode_text(text: String) -> (f: Frame)
    ensures
        text_frame_for(text@, f@),
{
    if text.as_str().as_bytes().len() <= COMPRESSION_THRESHOLD {
        Frame::Text(text)
    } else {
        let mut raw: Vec<u8> = Vec::new();
        push_bytes(&mut raw, text.as_str().as_bytes());
        assert(raw@ =~= encode_utf8(text@));
        binary_frame(raw)
    }
}

/// The payload bytes of a frame: a binary frame is decompressed when it is a
/// gzip stream and taken as it is otherwise; a close frame has none.
pub fn frame_bytes(f: &Frame) -> (r: Option<Vec<u8>>)
    ensures
        f@ is Close ==> r is None,
        !(f@ is Close) ==> r is Some,
        forall|m: Seq<u8>| #[trigger] frame_carries(f@, m) ==> (r matches Some(d) && d@ == m),
{
    match f {
        Frame::Text(s) => {
            let mut out: Vec<u8> = Vec::new();
            push_bytes(&mut out, s.as_str().as_bytes());
            assert(out@ =~= encode_utf8(s@));
            Some(out)
        },
        Frame::Binary(b) => {
            match gunzip(b.as_slice()) {
                Some(d) => Some(d),
                None => {
                    let mut out: Vec<u8> = Vec::new();
                    push_bytes(&mut out, b.as_slice());
                    assert(out@ =~= b@);
                    Some(out)
                },
            }
        },
        Frame::Close => None,
    }
}

/// `r` is what decoding the payload bytes `m` as a process list gives.
pub open spec fn processes_decoded(m: Seq<u8>, r: Result<ProcessesPayload, DecodeError>) -> bool {
    &&& r matches Ok(y) ==> processes_bytes(y@) == m
    &&& r matches Err(e) ==> e == DecodeError::Malformed
    &&& forall|w: ProcessesView| #[trigger] processes_bytes(w) == m ==> (r matches Ok(y) && y@ == w)
}

/// What decoding frame `f` as a process list gives.
pub open spec fn processes_from_frame(f: FrameView, r: Result<ProcessesPayload, DecodeError>) -> bool {
    &&& f is Close ==> r == Err::<ProcessesPayload, DecodeError>(DecodeError::Closed)
    &&& forall|m: Seq<u8>| #[trigger] frame_carries(f, m) ==> processes_decoded(m, r)
}

/// Reads a process list out of a frame.
pub fn decode_processes(f: &Frame) -> (r: Result<ProcessesPayload, DecodeError>)
    ensures
        processes_from_frame(f@, r),
{
    match frame_bytes(f) {
        None => Err(DecodeError::Closed),
        Some(d) => match decode_processes_bytes(&d) {
            Some(x) => Ok(x),
            None => Err(DecodeError::Malformed),
        },
    }
}

proof fn lemma_processes_bytes_not_gzip(x: ProcessesView)
    ensures
        !has_gzip_magic(processes_bytes(x)),
{
    let raw = processes_bytes(x);
    if x.process_count != 0 {
        assert(raw[0] == COUNT_TAG);
    } else if x.rows.len() > 0 {
        lemma_rows_bytes_head(x.rows);
        assert(varint_field(COUNT_TAG, 0) =~= Seq::<u8>::empty());
        assert(raw =~= rows_bytes(x.rows));
    }
}

/// Decoding gives back every process list that was encoded, whichever
/// frame the encoder chose for it.
pub proof fn lemma_processes_round_trip(
    x: ProcessesView,
    f: FrameView,
    r: Result<ProcessesPayload, DecodeError>,
)
    requires
        binary_frame_for(processes_bytes(x), f),
        processes_from_frame(f, r),
    ensures
        r matches Ok(y) && y@ == x,
{
    lemma_processes_bytes_not_gzip(x);
    assert(frame_carries(f, processes_bytes(x)));
}

/// Well-formed text never opens with the gzip magic bytes: the second magic
/// byte is a UTF-8 continuation byte and cannot follow an ASCII character.
proof fn lemma_text_not_gzip(t: Seq<char>)
    ensures
        !has_gzip_magic(encode_utf8(t)),
{
    let b = encode_utf8(t);
    encode_utf8_valid_utf8(t);
    if b.len() >= 2 && b[0] == 0x1f {
        reveal_with_fuel(is_char_boundary, 2);
        assert(length_of_first_scalar(b) == 1);
        assert(is_char_boundary(b, 1));
        is_char_boundary_iff_not_is_continuation_byte(b, 1);
    }
}

/// The payload bytes of a text payload come back unchanged from whichever
/// frame the encoder chose for it.
pub proof fn lemma_text_round_trip(t: Seq<char>, f: FrameView)
    requires
        text_frame_for(t, f),
    ensures
        frame_carries(f, encode_utf8(t)),
{
    lemma_text_not_gzip(t);
}

} // verus!
