//! Dense binary schema of the process list.
//!
//! The layout is protocol-buffer compatible: a message is a run of fields,
//! each a one-byte tag followed by a base-128 varint, a little-endian
//! 32-bit word, or a length-prefixed byte run. Fields that hold their
//! default value are left out, and fields come in ascending tag order, so
//! every payload has exactly one encoding and the decoder accepts exactly
//! the encodings.
//!
//! ```text
//! Processes { 1: process_count varint, 2: rows (repeated Process) }
//! Process   { 1: pid varint, 2: name bytes, 3: cpu_usage fixed32, 4: mem_bytes varint }
//! ```
use crate::types::{ProcessInfo, ProcessRow, ProcessesPayload, ProcessesView};
use vstd::prelude::*;
use vstd::utf8::*;

verus! {

/// Base-128 varint: seven bits per byte, least significant group first,
/// high bit set on every byte but the last.
pub open spec fn varint(v: nat) -> Seq<u8>
    decreases v,
{
    if v < 128 {
        seq![v as u8]
    } else {
        seq![((v % 128) + 128) as u8] + varint(v / 128)
    }
}

/// `b` holds the encoding of `v` at `pos`.
pub open spec fn varint_at(b: Seq<u8>, pos: int, v: u64) -> bool {
    &&& 0 <= pos
    &&& pos + varint(v as nat).len() <= b.len()
    &&& b.subrange(pos, pos + varint(v as nat).len()) == varint(v as nat)
}

proof fn lemma_varint_len(v: nat)
    ensures
        varint(v).len() >= 1,
        varint(v)[0] < 128 <==> v < 128,
    decreases v,
{
    if v >= 128 {
        lemma_varint_len(v / 128);
    }
}

/// Appends the varint encoding of `v`.
pub fn push_varint(out: &mut Vec<u8>, v: u64)
    ensures
        final(out)@ == old(out)@ + varint(v as nat),
{
    let mut x: u64 = v;
    while x >= 128
        invariant
            out@ + varint(x as nat) == old(out)@ + varint(v as nat),
        decreases x,
    {
        let ghost before = out@;
        out.push(((x % 128) + 128) as u8);
        assert(varint(x as nat) == seq![((x % 128) + 128) as u8] + varint((x / 128) as nat));
        assert(out@ + varint((x / 128) as nat) =~= before + varint(x as nat));
        x = x / 128;
    }
    let ghost before = out@;
    out.push(x as u8);
    assert(out@ =~= before + varint(x as nat));
}

/// Reads the varint at `pos`, accepting only the shortest encoding of a value that fits `u64`.
pub fn read_varint(b: &Vec<u8>, pos: usize) -> (r: Option<(u64, usize)>)
    ensures
        r matches Some((v, p)) ==> pos < p <= b@.len() && p == pos + varint(v as nat).len()
            && varint_at(b@, pos as int, v),
        forall|v: u64| #[trigger] varint_at(b@, pos as int, v) ==> r == Some((v, (pos + varint(v as nat).len()) as usize)),
    decreases b@.len() - pos,
{
    if pos >= b.len() {
        proof {
            assert forall|v: u64| #[trigger] varint_at(b@, pos as int, v) implies false by {
                lemma_varint_len(v as nat);
            }
        }
        return None;
    }
    let byte = b[pos];
    if byte < 128 {
        proof {
            assert(varint(byte as nat) =~= seq![byte]);
            assert(b@.subrange(pos as int, pos + 1) =~= seq![byte]);
            assert forall|v: u64| #[trigger] varint_at(b@, pos as int, v) implies v == byte as u64 by {
                lemma_varint_len(v as nat);
                assert(b@.subrange(pos as int, pos + varint(v as nat).len())[0] == b@[pos as int]);
                if v >= 128 {
                    assert(varint(v as nat)[0] == ((v % 128) + 128) as u8);
                }
            }
        }
        return Some((byte as u64, pos + 1));
    }
    let rest = read_varint(b, pos + 1);
    proof {
        assert forall|v: u64| #[trigger] varint_at(b@, pos as int, v) implies v >= 128 && varint_at(b@, pos + 1, (v / 128) as u64)
            && (v % 128) + 128 == byte by {
            lemma_varint_len(v as nat);
            let s = varint(v as nat);
            assert(b@.subrange(pos as int, pos + s.len())[0] == b@[pos as int]);
            if v < 128 {
                assert(s[0] == v as u8);
            } else {
                let t = varint((v / 128) as nat);
                assert(s == seq![((v % 128) + 128) as u8] + t);
                assert(b@.subrange(pos + 1, pos + 1 + t.len()) =~= b@.subrange(pos as int, pos + s.len()).subrange(1, s.len() as int));
                assert(s.subrange(1, s.len() as int) =~= t);
            }
        }
    }
    match rest {
        None => None,
        Some((hi, p)) => {
            let low: u64 = (byte - 128) as u64;
            if hi == 0 || hi > (u64::MAX - low) / 128 {
                proof {
                    assert forall|v: u64| #[trigger] varint_at(b@, pos as int, v) implies false by {
                        assert(varint_at(b@, pos + 1, (v / 128) as u64));
                        assert(hi == v / 128);
                        assert(v == hi * 128 + low) by (nonlinear_arith)
                            requires hi == v / 128, low == v % 128;
                        assert(hi * 128 + low <= u64::MAX);
                        assert((hi * 128 + low - low) / 128 == hi) by (nonlinear_arith);
                    }
                }
                None
            } else {
                let v: u64 = hi * 128 + low;
                proof {
                    assert(hi * 128 <= u64::MAX - low) by (nonlinear_arith)
                        requires hi <= (u64::MAX - low) / 128;
                    assert(v % 128 == low && v / 128 == hi) by (nonlinear_arith)
                        requires v == hi * 128 + low, low < 128;
                    let t = varint(hi as nat);
                    assert(varint(v as nat) == seq![byte] + t);
                    assert(b@.subrange(pos as int, p as int) =~= seq![byte] + b@.subrange(pos + 1, p as int));
                    assert forall|w: u64| #[trigger] varint_at(b@, pos as int, w) implies w == v by {
                        assert(varint_at(b@, pos + 1, (w / 128) as u64));
                        assert(w / 128 == hi);
                        assert(w == hi * 128 + low) by (nonlinear_arith)
                            requires hi == w / 128, low == w % 128;
                    }
                }
                Some((v, p))
            }
        }
    }
}

/// Little-endian bytes of a 32-bit word.
pub open spec fn le32(v: u32) -> Seq<u8> {
    seq![(v % 256) as u8, ((v / 256) % 256) as u8, ((v / 65536) % 256) as u8, (v / 16777216) as u8]
}

/// A varint field; absent when the value is zero.
pub open spec fn varint_field(tag: u8, v: nat) -> Seq<u8> {
    if v == 0 {
        seq![]
    } else {
        seq![tag] + varint(v)
    }
}

/// A length-prefixed field; absent when the run is empty.
pub open spec fn bytes_field(tag: u8, b: Seq<u8>) -> Seq<u8> {
    if b.len() == 0 {
        seq![]
    } else {
        seq![tag] + varint(b.len()) + b
    }
}

/// A 32-bit word field; absent when the word is zero.
pub open spec fn fixed32_field(tag: u8, v: u32) -> Seq<u8> {
    if v == 0 {
        seq![]
    } else {
        seq![tag] + le32(v)
    }
}

pub const PID_TAG: u8 = 0x08;
pub const NAME_TAG: u8 = 0x12;
pub const CPU_TAG: u8 = 0x1d;
pub const MEM_TAG: u8 = 0x20;
pub const COUNT_TAG: u8 = 0x08;
pub const ROW_TAG: u8 = 0x12;

/// Body of one process message.
pub open spec fn row_bytes(r: ProcessRow) -> Seq<u8> {
    varint_field(PID_TAG, r.pid as nat) + bytes_field(NAME_TAG, encode_utf8(r.name))
        + fixed32_field(CPU_TAG, r.cpu_usage_bits) + varint_field(MEM_TAG, r.mem_bytes as nat)
}

/// One process message embedded in the list (always present, even when its body is empty).
pub open spec fn row_record(r: ProcessRow) -> Seq<u8> {
    seq![ROW_TAG] + varint(row_bytes(r).len()) + row_bytes(r)
}

pub open spec fn rows_bytes(rows: Seq<ProcessRow>) -> Seq<u8>
    decreases rows.len(),
{
    if rows.len() == 0 {
        seq![]
    } else {
        rows_bytes(rows.drop_last()) + row_record(rows.last())
    }
}

/// The encoding of a whole process list.
pub open spec fn processes_bytes(p: ProcessesView) -> Seq<u8> {
    varint_field(COUNT_TAG, p.process_count as nat) + rows_bytes(p.rows)
}

pub(crate) fn push_bytes(out: &mut Vec<u8>, b: &[u8])
    ensures
        final(out)@ == old(out)@ + b@,
{
    let mut i: usize = 0;
    while i < b.len()
        invariant
            i <= b@.len(),
            out@ == old(out)@ + b@.subrange(0, i as int),
        decreases b@.len() - i,
    {
        out.push(b[i]);
        i = i + 1;
        assert(out@ =~= old(out)@ + b@.subrange(0, i as int));
    }
    assert(b@.subrange(0, i as int) =~= b@);
}

fn push_varint_field(out: &mut Vec<u8>, tag: u8, v: u64)
    ensures
        final(out)@ == old(out)@ + varint_field(tag, v as nat),
{
    if v != 0 {
        out.push(tag);
        push_varint(out, v);
        assert(out@ =~= old(out)@ + varint_field(tag, v as nat));
    } else {
        assert(out@ =~= old(out)@ + varint_field(tag, v as nat));
    }
}

fn push_fixed32_field(out: &mut Vec<u8>, tag: u8, v: u32)
    ensures
        final(out)@ == old(out)@ + fixed32_field(tag, v),
{
    if v != 0 {
        out.push(tag);
        out.push((v % 256) as u8);
        out.push(((v / 256) % 256) as u8);
        out.push(((v / 65536) % 256) as u8);
        out.push((v / 16777216) as u8);
    }
    assert(out@ =~= old(out)@ + fixed32_field(tag, v));
}

/// Appends the body of one process message.
pub fn encode_row(out: &mut Vec<u8>, r: &ProcessInfo)
    ensures
        final(out)@ == old(out)@ + row_bytes(r@),
{
    push_varint_field(out, PID_TAG, r.pid as u64);
    let name = r.name.as_str().as_bytes();
    let ghost mid = out@;
    if name.len() != 0 {
        out.push(NAME_TAG);
        push_varint(out, name.len() as u64);
        push_bytes(out, name);
    }
    assert(out@ =~= mid + bytes_field(NAME_TAG, encode_utf8(r.name@)));
    push_fixed32_field(out, CPU_TAG, r.cpu_usage_bits);
    push_varint_field(out, MEM_TAG, r.mem_bytes);
    assert(out@ =~= old(out)@ + row_bytes(r@));
}

/// Encodes a whole process list.
pub fn encode_processes_bytes(p: &ProcessesPayload) -> (r: Vec<u8>)
    ensures
        r@ == processes_bytes(p@),
{
    let mut out: Vec<u8> = Vec::new();
    push_varint_field(&mut out, COUNT_TAG, p.process_count);
    let ghost head = out@;
    let rows = &p.top_processes;
    let mut i: usize = 0;
    while i < rows.len()
        invariant
            i <= rows@.len(),
            head == varint_field(COUNT_TAG, p.process_count as nat),
            rows == &p.top_processes,
            out@ == head + rows_bytes(p@.rows.subrange(0, i as int)),
        decreases rows@.len() - i,
    {
        let mut body: Vec<u8> = Vec::new();
        encode_row(&mut body, &rows[i]);
        let ghost before = out@;
        out.push(ROW_TAG);
        push_varint(&mut out, body.len() as u64);
        push_bytes(&mut out, body.as_slice());
        proof {
            let sub = p@.rows.subrange(0, i + 1);
            assert(sub.drop_last() =~= p@.rows.subrange(0, i as int));
            assert(sub.last() == rows@[i as int]@);
            assert(out@ =~= head + rows_bytes(sub));
        }
        i = i + 1;
    }
    assert(p@.rows.subrange(0, i as int) =~= p@.rows);
    out
}

/// `f` stands at `pos` within `b[..end]`, and the byte after it (if any is left) is not `tag`.
pub open spec fn field_at(b: Seq<u8>, pos: int, end: int, tag: u8, f: Seq<u8>) -> bool {
    &&& 0 <= pos
    &&& pos + f.len() <= end <= b.len()
    &&& b.subrange(pos, pos + f.len()) == f
    &&& pos + f.len() < end ==> b[pos + f.len()] != tag
}

proof fn lemma_field_head(b: Seq<u8>, pos: int, f: Seq<u8>)
    requires
        0 <= pos,
        pos + f.len() <= b.len(),
        b.subrange(pos, pos + f.len()) == f,
        f.len() > 0,
    ensures
        b[pos] == f[0],
{
    assert(b.subrange(pos, pos + f.len())[0] == b[pos]);
}

/// Reads an optional varint field of `tag` at `pos`, not past `end`.
fn read_varint_field(b: &Vec<u8>, pos: usize, end: usize, tag: u8) -> (r: Option<(u64, usize)>)
    requires
        pos <= end <= b@.len(),
    ensures
        r matches Some((v, p)) ==> pos <= p <= end && b@.subrange(pos as int, p as int)
            == varint_field(tag, v as nat),
        forall|v: u64| #[trigger] field_at(b@, pos as int, end as int, tag, varint_field(tag, v as nat))
            ==> r == Some((v, (pos + varint_field(tag, v as nat).len()) as usize)),
{
    if pos < end && b[pos] == tag {
        proof {
            assert forall|v: u64| #[trigger] field_at(b@, pos as int, end as int, tag, varint_field(tag, v as nat))
                implies v != 0 && varint_at(b@, pos + 1, v) by {
                let f = varint_field(tag, v as nat);
                if v == 0 {
                    assert(f.len() == 0);
                } else {
                    assert(b@.subrange(pos + 1, pos + f.len()) =~= b@.subrange(pos as int, pos + f.len()).subrange(1, f.len() as int));
                    assert(f.subrange(1, f.len() as int) =~= varint(v as nat));
                }
            }
        }
        match read_varint(b, pos + 1) {
            Some((v, p)) => {
                if p <= end && v != 0 {
                    assert(b@.subrange(pos as int, p as int) =~= seq![tag] + b@.subrange(pos + 1, p as int));
                    Some((v, p))
                } else {
                    None
                }
            },
            None => None,
        }
    } else {
        proof {
            assert(b@.subrange(pos as int, pos as int) =~= varint_field(tag, 0));
            assert forall|v: u64| #[trigger] field_at(b@, pos as int, end as int, tag, varint_field(tag, v as nat))
                implies v == 0 by {
                if v != 0 {
                    let f = varint_field(tag, v as nat);
                    lemma_field_head(b@, pos as int, f);
                }
            }
        }
        Some((0, pos))
    }
}

/// Relies on `std::str::from_utf8`: it accepts exactly well-formed UTF-8, and
/// the text it hands back is what those bytes decode to.
#[verifier::external_body]
pub(crate) fn utf8_string(b: &[u8]) -> (r: Option<String>)
    ensures
        r is Some <==> valid_utf8(b@),
        r matches Some(s) ==> s@ == decode_utf8(b@),
{
    std::str::from_utf8(b).ok().map(|s| s.to_owned())
}

/// Reads an optional text field of `tag` at `pos`, not past `end`.
fn read_text_field(b: &Vec<u8>, pos: usize, end: usize, tag: u8) -> (r: Option<(String, usize)>)
    requires
        pos <= end <= b@.len(),
    ensures
        r matches Some((s, p)) ==> pos <= p <= end && b@.subrange(pos as int, p as int)
            == bytes_field(tag, encode_utf8(s@)),
        forall|c: Seq<char>| #[trigger] field_at(b@, pos as int, end as int, tag, bytes_field(tag, encode_utf8(c)))
            ==> (r matches Some((s, p)) && s@ == c && p == pos + bytes_field(tag, encode_utf8(c)).len()),
{
    broadcast use encode_utf8_valid_utf8, encode_utf8_decode_utf8, decode_utf8_encode_utf8;

    if pos < end && b[pos] == tag {
        proof {
            assert forall|c: Seq<char>| #[trigger] field_at(b@, pos as int, end as int, tag, bytes_field(tag, encode_utf8(c)))
                implies encode_utf8(c).len() != 0 && varint_at(b@, pos + 1, encode_utf8(c).len() as u64) by {
                let e = encode_utf8(c);
                let f = bytes_field(tag, e);
                if e.len() == 0 {
                    assert(f.len() == 0);
                } else {
                    assert(b@.subrange(pos + 1, pos + 1 + varint(e.len()).len()) =~= b@.subrange(pos as int, pos + f.len()).subrange(1, 1 + varint(e.len()).len() as int));
                    assert(f.subrange(1, 1 + varint(e.len()).len() as int) =~= varint(e.len()));
                }
            }
        }
        match read_varint(b, pos + 1) {
            Some((n, p)) => {
                if p <= end && n != 0 && n <= (end - p) as u64 {
                    let q: usize = p + n as usize;
                    let run = vstd::slice::slice_subrange(b.as_slice(), p, q);
                    match utf8_string(run) {
                        Some(s) => {
                            proof {
                                assert(encode_utf8(s@) == run@);
                                assert(b@.subrange(pos as int, q as int) =~= seq![tag] + varint(n as nat) + run@);
                                assert forall|c: Seq<char>| #[trigger] field_at(b@, pos as int, end as int, tag, bytes_field(tag, encode_utf8(c)))
                                    implies s@ == c && q == pos + bytes_field(tag, encode_utf8(c)).len() by {
                                    let e = encode_utf8(c);
                                    let f = bytes_field(tag, e);
                                    assert(n == e.len());
                                    assert(run@ =~= b@.subrange(pos as int, pos + f.len()).subrange(f.len() - e.len(), f.len() as int));
                                    assert(f.subrange(f.len() - e.len(), f.len() as int) =~= e);
                                    assert(decode_utf8(e) == c);
                                }
                            }
                            Some((s, q))
                        },
                        None => {
                            proof {
                                assert forall|c: Seq<char>| #[trigger] field_at(b@, pos as int, end as int, tag, bytes_field(tag, encode_utf8(c)))
                                    implies false by {
                                    let e = encode_utf8(c);
                                    let f = bytes_field(tag, e);
                                    assert(n == e.len());
                                    assert(run@ =~= b@.subrange(pos as int, pos + f.len()).subrange(f.len() - e.len(), f.len() as int));
                                    assert(f.subrange(f.len() - e.len(), f.len() as int) =~= e);
                                }
                            }
                            None
                        },
                    }
                } else {
                    None
                }
            },
            None => None,
        }
    } else {
        proof {
            assert(b@.subrange(pos as int, pos as int) =~= bytes_field(tag, encode_utf8(Seq::<char>::empty())));
            assert forall|c: Seq<char>| #[trigger] field_at(b@, pos as int, end as int, tag, bytes_field(tag, encode_utf8(c)))
                implies c.len() == 0 by {
                let e = encode_utf8(c);
                if e.len() != 0 {
                    lemma_field_head(b@, pos as int, bytes_field(tag, e));
                }
                if c.len() != 0 {
                    assert(decode_utf8(e) == c);
                }
                assert(c =~= Seq::<char>::empty());
            }
        }
        Some((String::new(), pos))
    }
}

/// Reads an optional 32-bit word field of `tag` at `pos`, not past `end`.
fn read_fixed32_field(b: &Vec<u8>, pos: usize, end: usize, tag: u8) -> (r: Option<(u32, usize)>)
    requires
        pos <= end <= b@.len(),
    ensures
        r matches Some((v, p)) ==> pos <= p <= end && b@.subrange(pos as int, p as int)
            == fixed32_field(tag, v),
        forall|v: u32| #[trigger] field_at(b@, pos as int, end as int, tag, fixed32_field(tag, v))
            ==> r == Some((v, (pos + fixed32_field(tag, v).len()) as usize)),
{
    if pos < end && b[pos] == tag {
        if end - pos < 5 {
            proof {
                assert forall|v: u32| #[trigger] field_at(b@, pos as int, end as int, tag, fixed32_field(tag, v))
                    implies false by {
                    if v == 0 {
                        assert(fixed32_field(tag, v).len() == 0);
                    }
                }
            }
            return None;
        }
        let b0 = b[pos + 1] as u32;
        let b1 = b[pos + 2] as u32;
        let b2 = b[pos + 3] as u32;
        let b3 = b[pos + 4] as u32;
        let v: u32 = b0 + b1 * 256 + b2 * 65536 + b3 * 16777216;
        proof {
            assert(v % 256 == b0 && (v / 256) % 256 == b1 && (v / 65536) % 256 == b2 && v / 16777216 == b3)
                by (nonlinear_arith)
                requires
                    v == b0 + b1 * 256 + b2 * 65536 + b3 * 16777216,
                    b0 < 256, b1 < 256, b2 < 256, b3 < 256,
            ;
            assert forall|w: u32| #[trigger] field_at(b@, pos as int, end as int, tag, fixed32_field(tag, w))
                implies w == v by {
                let f = fixed32_field(tag, w);
                if w == 0 {
                    assert(b@[pos as int] == tag);
                    assert(f.len() == 0);
                } else {
                    let sub = b@.subrange(pos as int, pos + 5);
                    assert(sub[1] == b0 && sub[2] == b1 && sub[3] == b2 && sub[4] == b3);
                    assert(f[1] == (w % 256) as u8 && f[2] == ((w / 256) % 256) as u8);
                    assert(f[3] == ((w / 65536) % 256) as u8 && f[4] == (w / 16777216) as u8);
                    let c0 = w % 256;
                    let c1 = (w / 256) % 256;
                    let c2 = (w / 65536) % 256;
                    let c3 = w / 16777216;
                    assert(w == c0 + c1 * 256 + c2 * 65536 + c3 * 16777216) by (nonlinear_arith)
                        requires
                            c0 == w % 256, c1 == (w / 256) % 256, c2 == (w / 65536) % 256,
                            c3 == w / 16777216, w <= 0xffff_ffff,
                    ;
                }
            }
        }
        if v == 0 {
            return None;
        }
        assert(b@.subrange(pos as int, pos + 5) =~= fixed32_field(tag, v));
        Some((v, pos + 5))
    } else {
        proof {
            assert(b@.subrange(pos as int, pos as int) =~= fixed32_field(tag, 0));
            assert forall|v: u32| #[trigger] field_at(b@, pos as int, end as int, tag, fixed32_field(tag, v))
                implies v == 0 by {
                if v != 0 {
                    lemma_field_head(b@, pos as int, fixed32_field(tag, v));
                }
            }
        }
        Some((0, pos))
    }
}

/// Where `b[lo..hi]` is `f + g`, `f` stands at `lo` and is followed by the head of `g`.
proof fn lemma_split_at(b: Seq<u8>, lo: int, hi: int, f: Seq<u8>, g: Seq<u8>)
    requires
        0 <= lo <= hi <= b.len(),
        b.subrange(lo, hi) == f + g,
    ensures
        lo + f.len() <= hi,
        b.subrange(lo, lo + f.len()) == f,
        b.subrange(lo + f.len(), hi) == g,
        g.len() > 0 ==> b[lo + f.len()] == g[0],
{
    assert(b.subrange(lo, hi).len() == hi - lo);
    assert(lo + f.len() <= hi);
    assert(b.subrange(lo, lo + f.len()) =~= b.subrange(lo, hi).subrange(0, f.len() as int));
    assert(b.subrange(lo + f.len(), hi) =~= b.subrange(lo, hi).subrange(f.len() as int, hi - lo));
    assert(b.subrange(lo, lo + f.len()) =~= (f + g).subrange(0, f.len() as int));
    assert(b.subrange(lo + f.len(), hi) =~= (f + g).subrange(f.len() as int, (f + g).len() as int));
    if g.len() > 0 {
        assert(b.subrange(lo, hi)[f.len() as int] == b[lo + f.len()]);
    }
}

/// Parses the body of one process message occupying `b[start..end]`.
fn parse_row(b: &Vec<u8>, start: usize, end: usize) -> (r: Option<ProcessInfo>)
    requires
        start <= end <= b@.len(),
    ensures
        r matches Some(x) ==> b@.subrange(start as int, end as int) == row_bytes(x@),
        forall|w: ProcessRow| b@.subrange(start as int, end as int) == #[trigger] row_bytes(w)
            ==> (r matches Some(x) && x@ == w),
{
    let ghost bs = b@;
    proof {
        assert forall|w: ProcessRow| b@.subrange(start as int, end as int) == #[trigger] row_bytes(w) implies {
            let f1 = varint_field(PID_TAG, w.pid as nat);
            let f2 = bytes_field(NAME_TAG, encode_utf8(w.name));
            let f3 = fixed32_field(CPU_TAG, w.cpu_usage_bits);
            let f4 = varint_field(MEM_TAG, w.mem_bytes as nat);
            &&& field_at(bs, start as int, end as int, PID_TAG, f1)
            &&& field_at(bs, start + f1.len(), end as int, NAME_TAG, f2)
            &&& field_at(bs, start + f1.len() + f2.len(), end as int, CPU_TAG, f3)
            &&& field_at(bs, start + f1.len() + f2.len() + f3.len(), end as int, MEM_TAG, f4)
            &&& start + f1.len() + f2.len() + f3.len() + f4.len() == end
        } by {
            let f1 = varint_field(PID_TAG, w.pid as nat);
            let f2 = bytes_field(NAME_TAG, encode_utf8(w.name));
            let f3 = fixed32_field(CPU_TAG, w.cpu_usage_bits);
            let f4 = varint_field(MEM_TAG, w.mem_bytes as nat);
            assert(row_bytes(w) =~= f1 + (f2 + (f3 + f4)));
            lemma_split_at(bs, start as int, end as int, f1, f2 + (f3 + f4));
            let o2 = start + f1.len();
            lemma_split_at(bs, o2, end as int, f2, f3 + f4);
            let o3 = o2 + f2.len();
            lemma_split_at(bs, o3, end as int, f3, f4);
            let o4 = o3 + f3.len();
            assert(bs.subrange(o4, end as int) == f4);
            assert(bs.subrange(o4, end as int) == f4 + Seq::<u8>::empty());
            lemma_split_at(bs, o4, end as int, f4, Seq::<u8>::empty());
            if f2.len() > 0 {
                assert((f2 + (f3 + f4))[0] == NAME_TAG);
            } else if f3.len() > 0 {
                assert((f2 + (f3 + f4))[0] == CPU_TAG);
            } else if f4.len() > 0 {
                assert((f2 + (f3 + f4))[0] == MEM_TAG);
            }
            if f3.len() > 0 {
                assert((f3 + f4)[0] == CPU_TAG);
            } else if f4.len() > 0 {
                assert((f3 + f4)[0] == MEM_TAG);
            }
        }
    }
    let (pid, p1) = match read_varint_field(b, start, end, PID_TAG) {
        Some(x) => x,
        None => return None,
    };
    if pid > u32::MAX as u64 {
        return None;
    }
    let (name, p2) = match read_text_field(b, p1, end, NAME_TAG) {
        Some(x) => x,
        None => return None,
    };
    let (cpu, p3) = match read_fixed32_field(b, p2, end, CPU_TAG) {
        Some(x) => x,
        None => return None,
    };
    let (mem, p4) = match read_varint_field(b, p3, end, MEM_TAG) {
        Some(x) => x,
        None => return None,
    };
    if p4 != end {
        return None;
    }
    let row = ProcessInfo { pid: pid as u32, name, cpu_usage_bits: cpu, mem_bytes: mem };
    proof {
        assert(b@.subrange(start as int, end as int) =~= b@.subrange(start as int, p1 as int)
            + b@.subrange(p1 as int, p2 as int) + b@.subrange(p2 as int, p3 as int)
            + b@.subrange(p3 as int, p4 as int));
        assert(row_bytes(row@) =~= b@.subrange(start as int, end as int));
    }
    Some(row)
}

proof fn lemma_rows_bytes_append(a: Seq<ProcessRow>, c: Seq<ProcessRow>)
    ensures
        rows_bytes(a + c) == rows_bytes(a) + rows_bytes(c),
    decreases c.len(),
{
    if c.len() == 0 {
        assert(a + c =~= a);
        assert(rows_bytes(a) + rows_bytes(c) =~= rows_bytes(a));
    } else {
        lemma_rows_bytes_append(a, c.drop_last());
        assert((a + c).drop_last() =~= a + c.drop_last());
        assert(rows_bytes(a + c) =~= rows_bytes(a) + rows_bytes(c));
    }
}

proof fn lemma_rows_bytes_single(rows: Seq<ProcessRow>)
    requires
        rows.len() == 1,
    ensures
        rows_bytes(rows) == row_record(rows[0]),
{
    assert(rows.drop_last() =~= Seq::<ProcessRow>::empty());
    assert(rows_bytes(Seq::<ProcessRow>::empty()) =~= Seq::<u8>::empty());
    assert(rows.last() == rows[0]);
    assert(rows_bytes(rows) =~= row_record(rows[0]));
}

pub proof fn lemma_rows_bytes_head(rows: Seq<ProcessRow>)
    requires
        rows.len() > 0,
    ensures
        rows_bytes(rows).len() > 0,
        rows_bytes(rows)[0] == ROW_TAG,
{
    lemma_rows_bytes_append(rows.subrange(0, 1), rows.subrange(1, rows.len() as int));
    assert(rows.subrange(0, 1) + rows.subrange(1, rows.len() as int) =~= rows);
    lemma_rows_bytes_single(rows.subrange(0, 1));
}

/// Where the rows decoded so far are the first `k` rows of `w`, and bytes are left,
/// the record of row `k` stands next.
proof fn lemma_next_record(b: Seq<u8>, w: ProcessesView, head: Seq<u8>, done: Seq<ProcessRow>, pos: int)
    requires
        processes_bytes(w) == b,
        head == varint_field(COUNT_TAG, w.process_count as nat),
        0 <= pos < b.len(),
        b.subrange(0, pos) == head + rows_bytes(done),
        done.len() <= w.rows.len(),
        done == w.rows.subrange(0, done.len() as int),
    ensures
        done.len() < w.rows.len(),
        pos + row_record(w.rows[done.len() as int]).len() <= b.len(),
        b.subrange(pos, pos + row_record(w.rows[done.len() as int]).len()) == row_record(w.rows[done.len() as int]),
{
    let k = done.len() as int;
    let n = w.rows.len() as int;
    if k == n {
        assert(w.rows.subrange(0, k) =~= w.rows);
        assert(b.subrange(0, pos).len() == b.len());
    } else {
        let rec = row_record(w.rows[k]);
        let tail = rows_bytes(w.rows.subrange(k + 1, n));
        lemma_rows_bytes_append(w.rows.subrange(0, k), w.rows.subrange(k, n));
        assert(w.rows.subrange(0, k) + w.rows.subrange(k, n) =~= w.rows);
        lemma_rows_bytes_append(w.rows.subrange(k, k + 1), w.rows.subrange(k + 1, n));
        assert(w.rows.subrange(k, k + 1) + w.rows.subrange(k + 1, n) =~= w.rows.subrange(k, n));
        lemma_rows_bytes_single(w.rows.subrange(k, k + 1));
        assert(b =~= (head + rows_bytes(done)) + (rec + tail));
        assert(b.subrange(0, b.len() as int) =~= (head + rows_bytes(done)) + (rec + tail));
        lemma_split_at(b, 0, b.len() as int, head + rows_bytes(done), rec + tail);
        assert(b.subrange(0, pos).len() == pos);
        lemma_split_at(b, pos, b.len() as int, rec, tail);
    }
}

/// The record of a row splits into its tag, the varint of its body length, and its body.
proof fn lemma_record_parts(b: Seq<u8>, pos: int, r: ProcessRow)
    requires
        0 <= pos,
        b.len() <= u64::MAX,
        pos + row_record(r).len() <= b.len(),
        b.subrange(pos, pos + row_record(r).len()) == row_record(r),
    ensures
        b[pos] == ROW_TAG,
        varint_at(b, pos + 1, row_bytes(r).len() as u64),
        row_bytes(r).len() <= u64::MAX,
        b.subrange(pos + 1 + varint(row_bytes(r).len()).len(), pos + row_record(r).len()) == row_bytes(r),
{
    let rec = row_record(r);
    let body = row_bytes(r);
    assert(rec =~= seq![ROW_TAG] + (varint(body.len()) + body));
    lemma_split_at(b, pos, pos + rec.len(), seq![ROW_TAG], varint(body.len()) + body);
    lemma_split_at(b, pos + 1, pos + rec.len(), varint(body.len()), body);
    assert(b.subrange(pos, pos + rec.len())[0] == b[pos]);
    assert(body.len() <= u64::MAX);
}

/// The record of `r` stands at `pos` in `b`.
pub open spec fn record_at(b: Seq<u8>, pos: int, r: ProcessRow) -> bool {
    &&& 0 <= pos
    &&& pos + row_record(r).len() <= b.len()
    &&& b.subrange(pos, pos + row_record(r).len()) == row_record(r)
}

/// Reads one row record at `pos`.
fn read_record(b: &Vec<u8>, pos: usize) -> (r: Option<(ProcessInfo, usize)>)
    requires
        pos < b@.len(),
    ensures
        r matches Some((x, q)) ==> pos < q <= b@.len() && b@.subrange(pos as int, q as int) == row_record(x@),
        forall|w: ProcessRow| #[trigger] record_at(b@, pos as int, w)
            ==> (r matches Some((x, q)) && x@ == w && q == pos + row_record(w).len()),
{
    let len = b.len();
    proof {
        assert forall|w: ProcessRow| #[trigger] record_at(b@, pos as int, w) implies {
            &&& b@[pos as int] == ROW_TAG
            &&& varint_at(b@, pos + 1, row_bytes(w).len() as u64)
            &&& b@.subrange(pos + 1 + varint(row_bytes(w).len()).len(), pos + row_record(w).len()) == row_bytes(w)
        } by {
            lemma_record_parts(b@, pos as int, w);
        }
    }
    if b[pos] != ROW_TAG {
        return None;
    }
    let (n, p) = match read_varint(b, pos + 1) {
        Some(x) => x,
        None => return None,
    };
    if n > (len - p) as u64 {
        return None;
    }
    let q: usize = p + n as usize;
    let row = match parse_row(b, p, q) {
        Some(x) => x,
        None => return None,
    };
    assert(b@.subrange(pos as int, q as int) =~= seq![ROW_TAG] + varint(n as nat) + row_bytes(row@));
    Some((row, q))
}

/// Decodes a process list, accepting exactly the encodings of process lists.
pub fn decode_processes_bytes(b: &Vec<u8>) -> (r: Option<ProcessesPayload>)
    ensures
        r matches Some(x) ==> processes_bytes(x@) == b@,
        forall|w: ProcessesView| #[trigger] processes_bytes(w) == b@ ==> (r matches Some(x) && x@ == w),
{
    let len = b.len();
    proof {
        assert forall|w: ProcessesView| #[trigger] processes_bytes(w) == b@ implies
            field_at(b@, 0, len as int, COUNT_TAG, varint_field(COUNT_TAG, w.process_count as nat)) by {
            let f = varint_field(COUNT_TAG, w.process_count as nat);
            let g = rows_bytes(w.rows);
            assert(b@.subrange(0, len as int) =~= f + g);
            lemma_split_at(b@, 0, len as int, f, g);
            if w.rows.len() > 0 {
                lemma_rows_bytes_head(w.rows);
            } else {
                assert(g.len() == 0);
            }
        }
    }
    let (count, p0) = match read_varint_field(b, 0, len, COUNT_TAG) {
        Some(x) => x,
        None => return None,
    };
    let ghost head = varint_field(COUNT_TAG, count as nat);
    let mut rows: Vec<ProcessInfo> = Vec::new();
    let mut pos: usize = p0;
    assert(b@.subrange(0, pos as int) =~= head + rows_bytes(rows@.map_values(|p: ProcessInfo| p@)));
    while pos < len
        invariant
            len == b@.len(),
            pos <= len,
            head == varint_field(COUNT_TAG, count as nat),
            b@.subrange(0, pos as int) == head + rows_bytes(rows@.map_values(|p: ProcessInfo| p@)),
            forall|w: ProcessesView| #[trigger] processes_bytes(w) == b@ ==> {
                &&& w.process_count == count
                &&& rows@.len() <= w.rows.len()
                &&& rows@.map_values(|p: ProcessInfo| p@) == w.rows.subrange(0, rows@.len() as int)
            },
        decreases len - pos,
    {
        let ghost done = rows@.map_values(|p: ProcessInfo| p@);
        proof {
            assert forall|w: ProcessesView| #[trigger] processes_bytes(w) == b@ implies {
                let r = w.rows[rows@.len() as int];
                &&& rows@.len() < w.rows.len()
                &&& record_at(b@, pos as int, r)
            } by {
                lemma_next_record(b@, w, head, done, pos as int);
            }
        }
        let (row, q) = match read_record(b, pos) {
            Some(x) => x,
            None => return None,
        };
        let ghost old_rows = rows@;
        rows.push(row);
        proof {
            let nv = rows@.map_values(|p: ProcessInfo| p@);
            assert(nv =~= done.push(row@));
            assert(nv.drop_last() =~= done);
            assert(b@.subrange(0, q as int) =~= b@.subrange(0, pos as int) + b@.subrange(pos as int, q as int));
            assert(b@.subrange(0, q as int) =~= head + rows_bytes(nv));
            assert forall|w: ProcessesView| #[trigger] processes_bytes(w) == b@ implies {
                &&& rows@.len() <= w.rows.len()
                &&& nv == w.rows.subrange(0, rows@.len() as int)
            } by {
                let k = old_rows.len() as int;
                assert(record_at(b@, pos as int, w.rows[k]));
                assert(row@ == w.rows[k]);
                assert(nv =~= w.rows.subrange(0, k + 1));
            }
        }
        pos = q;
    }
    let x = ProcessesPayload { process_count: count, top_processes: rows };
    proof {
        assert(b@.subrange(0, pos as int) =~= b@);
        assert forall|w: ProcessesView| #[trigger] processes_bytes(w) == b@ implies x@ == w by {
            let k = rows@.len() as int;
            if k < w.rows.len() {
                lemma_rows_bytes_append(w.rows.subrange(0, k), w.rows.subrange(k, w.rows.len() as int));
                assert(w.rows.subrange(0, k) + w.rows.subrange(k, w.rows.len() as int) =~= w.rows);
                lemma_rows_bytes_head(w.rows.subrange(k, w.rows.len() as int));
                assert(false);
            }
            assert(w.rows.subrange(0, k) =~= w.rows);
            assert(x@.rows =~= w.rows);
        }
    }
    Some(x)
}

} // verus!
