//! Command-line values: unsigned decimal numbers and the agent's port option.
use vstd::prelude::*;
use vstd::utf8::*;

verus! {

pub open spec fn is_digit(c: u8) -> bool {
    48 <= c <= 57
}

/// Value of a run of decimal digits, most significant first.
pub open spec fn digits_value(d: Seq<u8>) -> nat
    decreases d.len(),
{
    if d.len() == 0 {
        0
    } else {
        digits_value(d.drop_last()) * 10 + (d.last() - 48) as nat
    }
}

/// `b` without its leading `+`, if it has one.
pub open spec fn unsigned_part(b: Seq<u8>) -> Seq<u8> {
    if b.len() > 0 && b[0] == 43 {
        b.drop_first()
    } else {
        b
    }
}

pub open spec fn all_digits(d: Seq<u8>) -> bool {
    forall|i: int| 0 <= i < d.len() ==> #[trigger] is_digit(d[i])
}

/// The text form of an unsigned number: an optional `+`, then one or more digits.
pub open spec fn decimal_digits(b: Seq<u8>) -> Option<Seq<u8>> {
    let d = unsigned_part(b);
    if d.len() > 0 && all_digits(d) {
        Some(d)
    } else {
        None
    }
}

/// The number that `b` spells, when it spells one no larger than `max`.
pub open spec fn decimal_value(b: Seq<u8>, max: nat) -> Option<nat> {
    match decimal_digits(b) {
        Some(d) => if digits_value(d) <= max { Some(digits_value(d)) } else { None },
        None => None,
    }
}

/// Reads an unsigned decimal no larger than `max`, as std's integer parsing does for unsigned types.
pub fn parse_decimal(b: &[u8], max: u64) -> (r: Option<u64>)
    ensures
        r matches Some(v) ==> decimal_value(b@, max as nat) == Some(v as nat),
        r is None ==> decimal_value(b@, max as nat) is None,
{
    let start: usize = if b.len() > 0 && b[0] == 43 { 1 } else { 0 };
    let ghost d = unsigned_part(b@);
    assert(d =~= b@.subrange(start as int, b@.len() as int));
    if start >= b.len() {
        return None;
    }
    let mut acc: u64 = 0;
    let mut i: usize = start;
    while i < b.len()
        invariant
            start <= i <= b@.len(),
            start < b@.len(),
            d == b@.subrange(start as int, b@.len() as int),
            d == unsigned_part(b@),
            acc as nat == digits_value(b@.subrange(start as int, i as int)),
            acc <= max,
            forall|j: int| start <= j < i ==> #[trigger] is_digit(b@[j]),
        decreases b@.len() - i,
    {
        let c = b[i];
        let ghost pre = b@.subrange(start as int, i as int);
        let ghost next = b@.subrange(start as int, i + 1);
        assert(next.drop_last() =~= pre);
        if c < 48 || c > 57 {
            assert(!is_digit(d[i - start]));
            assert(decimal_digits(b@) is None);
            return None;
        }
        let digit: u64 = (c - 48) as u64;
        if digit > max || acc > (max - digit) / 10 {
            proof {
                assert(acc * 10 + digit > max) by (nonlinear_arith)
                    requires digit > max || acc > (max - digit) / 10, digit > max || acc * 10 <= acc * 10;
                lemma_digits_prefix_bound(d, (i + 1 - start) as int);
                assert(d.subrange(0, (i + 1 - start) as int) =~= next);
            }
            return None;
        }
        assert(acc * 10 + digit <= max) by (nonlinear_arith)
            requires acc <= (max - digit) / 10, digit <= max;
        acc = acc * 10 + digit;
        i = i + 1;
    }
    assert(b@.subrange(start as int, i as int) =~= d);
    Some(acc)
}

/// A digit run is worth at least each of its prefixes.
proof fn lemma_digits_prefix_bound(d: Seq<u8>, k: int)
    requires
        0 <= k <= d.len(),
    ensures
        digits_value(d.subrange(0, k)) <= digits_value(d),
    decreases d.len() - k,
{
    if k < d.len() {
        lemma_digits_prefix_bound(d, k + 1);
        let a = d.subrange(0, k + 1);
        assert(a.drop_last() =~= d.subrange(0, k));
    } else {
        assert(d.subrange(0, k) =~= d);
    }
}

/// The bytes of each argument.
pub open spec fn arg_bytes(args: Seq<String>) -> Seq<Seq<u8>> {
    args.map_values(|a: String| encode_utf8(a@))
}

pub open spec fn has_prefix(b: Seq<u8>, p: Seq<u8>) -> bool {
    b.len() >= p.len() && b.subrange(0, p.len() as int) == p
}

/// The long and short port values after scanning `args` from index `i`:
/// `--port V` and `--port=V` set the long one, `-p V` the short one, and
/// the last occurrence wins. A flag with nothing after it clears its value.
pub open spec fn port_scan(
    args: Seq<Seq<u8>>,
    i: int,
    long: Option<Seq<u8>>,
    short: Option<Seq<u8>>,
) -> (Option<Seq<u8>>, Option<Seq<u8>>)
    decreases (if i >= args.len() { 0 } else { args.len() - i }),
{
    if i < 0 || i >= args.len() {
        (long, short)
    } else if args[i] == encode_utf8("--port"@) {
        port_scan(args, i + 2, if i + 1 < args.len() { Some(args[i + 1]) } else { None }, short)
    } else if args[i] == encode_utf8("-p"@) {
        port_scan(args, i + 2, long, if i + 1 < args.len() { Some(args[i + 1]) } else { None })
    } else if has_prefix(args[i], encode_utf8("--port="@)) {
        port_scan(args, i + 1, Some(args[i].subrange(encode_utf8("--port="@).len() as int, args[i].len() as int)), short)
    } else {
        port_scan(args, i + 1, long, short)
    }
}

/// The port chosen by `args` (the first one being the program name): the long
/// option before the short one, and `default_port` when neither gives a valid port.
pub open spec fn port_choice(args: Seq<Seq<u8>>, default_port: u16) -> u16 {
    let (long, short) = port_scan(args, 1, None, None);
    let chosen = if long is Some { long } else { short };
    match chosen {
        Some(v) => match decimal_value(v, 65535) {
            Some(n) => n as u16,
            None => default_port,
        },
        None => default_port,
    }
}

pub(crate) fn same_bytes(a: &[u8], b: &[u8]) -> (r: bool)
    ensures
        r == (a@ == b@),
{
    if a.len() != b.len() {
        return false;
    }
    let mut i: usize = 0;
    while i < a.len()
        invariant
            a@.len() == b@.len(),
            i <= a@.len(),
            forall|j: int| 0 <= j < i ==> a@[j] == b@[j],
        decreases a@.len() - i,
    {
        if a[i] != b[i] {
            return false;
        }
        i = i + 1;
    }
    assert(a@ =~= b@);
    true
}

/// Picks the agent's listening port out of the command line.
pub fn parse_port(args: Vec<String>, default_port: u16) -> (r: u16)
    ensures
        r == port_choice(arg_bytes(args@), default_port),
{
    let ghost a = arg_bytes(args@);
    let long_flag = "--port".as_bytes();
    let short_flag = "-p".as_bytes();
    let assign = "--port=".as_bytes();
    let mut long: Option<&[u8]> = None;
    let mut short: Option<&[u8]> = None;
    let mut i: usize = 1;
    while i < args.len()
        invariant
            a == arg_bytes(args@),
            a.len() == args@.len(),
            long_flag@ == encode_utf8("--port"@),
            short_flag@ == encode_utf8("-p"@),
            assign@ == encode_utf8("--port="@),
            1 <= i,
            port_scan(a, i as int, opt_bytes(long), opt_bytes(short)) == port_scan(a, 1, None, None),
        decreases args@.len() - i,
    {
        let cur = args[i].as_str().as_bytes();
        let ghost i0 = i as int;
        let ghost l0 = opt_bytes(long);
        let ghost s0 = opt_bytes(short);
        assert(cur@ == a[i as int]);
        if same_bytes(cur, long_flag) {
            if i + 1 < args.len() {
                let v = args[i + 1].as_str().as_bytes();
                assert(v@ == a[i + 1]);
                long = Some(v);
                i = i + 2;
            } else {
                long = None;
                i = args.len();
                assert(port_scan(a, i0 + 2, None, s0) == (None::<Seq<u8>>, s0));
            }
        } else if same_bytes(cur, short_flag) {
            if i + 1 < args.len() {
                let v = args[i + 1].as_str().as_bytes();
                assert(v@ == a[i + 1]);
                short = Some(v);
                i = i + 2;
            } else {
                short = None;
                i = args.len();
                assert(port_scan(a, i0 + 2, l0, None) == (l0, None::<Seq<u8>>));
            }
        } else if cur.len() >= assign.len() && same_bytes(
            vstd::slice::slice_subrange(cur, 0, assign.len()),
            assign,
        ) {
            let v = vstd::slice::slice_subrange(cur, assign.len(), cur.len());
            assert(has_prefix(a[i as int], encode_utf8("--port="@)));
            long = Some(v);
            i = i + 1;
        } else {
            assert(!has_prefix(a[i as int], encode_utf8("--port="@)));
            i = i + 1;
        }
    }
    let chosen = if long.is_some() { long } else { short };
    match chosen {
        Some(v) => match parse_decimal(v, 65535) {
            Some(n) => n as u16,
            None => default_port,
        },
        None => default_port,
    }
}

pub open spec fn opt_bytes(o: Option<&[u8]>) -> Option<Seq<u8>> {
    match o {
        Some(s) => Some(s@),
        None => None,
    }
}

} // verus!
