//! Tick counters out of the kernel's process-accounting text.
//!
//! `/proc/stat` opens with `cpu  user nice system idle iowait irq softirq steal ...`;
//! `/proc/<pid>/stat` holds `pid (comm) state ...` with `utime` and `stime` as the
//! 12th and 13th fields after the closing parenthesis of `comm`.
use crate::args::{decimal_value, parse_decimal};
use vstd::prelude::*;

verus! {

/// ASCII whitespace: space, tab, line feed, vertical tab, form feed, carriage return.
pub open spec fn is_space(c: u8) -> bool {
    c == 32 || (9 <= c <= 13)
}

/// Length of the word at the start of `b`.
pub open spec fn word_len(b: Seq<u8>) -> nat
    decreases b.len(),
{
    if b.len() == 0 || is_space(b[0]) {
        0
    } else {
        1 + word_len(b.drop_first())
    }
}

/// The whitespace-separated words of `b`.
pub open spec fn words(b: Seq<u8>) -> Seq<Seq<u8>>
    decreases b.len(),
{
    if b.len() == 0 {
        seq![]
    } else if is_space(b[0]) {
        words(b.drop_first())
    } else if 0 < word_len(b) <= b.len() {
        seq![b.subrange(0, word_len(b) as int)] + words(b.subrange(word_len(b) as int, b.len() as int))
    } else {
        seq![]
    }
}

proof fn lemma_word_len_bound(b: Seq<u8>)
    ensures
        word_len(b) <= b.len(),
        b.len() > 0 && !is_space(b[0]) ==> word_len(b) > 0,
        word_len(b) < b.len() ==> is_space(b[word_len(b) as int]),
        forall|k: int| 0 <= k < word_len(b) ==> !is_space(#[trigger] b[k]),
    decreases b.len(),
{
    if b.len() > 0 && !is_space(b[0]) {
        lemma_word_len_bound(b.drop_first());
        assert forall|k: int| 0 <= k < word_len(b) implies !is_space(#[trigger] b[k]) by {
            if k > 0 {
                assert(b[k] == b.drop_first()[k - 1]);
            }
        }
    }
}

/// A word runs until the first space.
proof fn lemma_word_len_at(b: Seq<u8>, n: int)
    requires
        0 <= n <= b.len(),
        forall|k: int| 0 <= k < n ==> !is_space(#[trigger] b[k]),
        n == b.len() || is_space(b[n]),
    ensures
        word_len(b) == n,
    decreases n,
{
    if n > 0 {
        assert forall|k: int| 0 <= k < n - 1 implies !is_space(#[trigger] b.drop_first()[k]) by {
            assert(b.drop_first()[k] == b[k + 1]);
        }
        if n - 1 < b.drop_first().len() {
            assert(b.drop_first()[n - 1] == b[n]);
        }
        lemma_word_len_at(b.drop_first(), n - 1);
    }
}

/// Splits `b[start..end]` into its words.
pub fn split_words(b: &[u8], start: usize, end: usize) -> (r: Vec<Vec<u8>>)
    requires
        start <= end <= b@.len(),
    ensures
        r@.map_values(|w: Vec<u8>| w@) == words(b@.subrange(start as int, end as int)),
{
    let mut out: Vec<Vec<u8>> = Vec::new();
    let mut i: usize = start;
    while i < end
        invariant
            start <= i <= end <= b@.len(),
            out@.map_values(|w: Vec<u8>| w@) + words(b@.subrange(i as int, end as int))
                == words(b@.subrange(start as int, end as int)),
        decreases end - i,
    {
        let ghost rest = b@.subrange(i as int, end as int);
        if b[i] == 32 || (9 <= b[i] && b[i] <= 13) {
            assert(rest.drop_first() =~= b@.subrange(i + 1, end as int));
            i = i + 1;
        } else {
            let mut j: usize = i;
            let mut word: Vec<u8> = Vec::new();
            while j < end && !(b[j] == 32 || (9 <= b[j] && b[j] <= 13))
                invariant
                    i <= j <= end <= b@.len(),
                    word@ == b@.subrange(i as int, j as int),
                    forall|k: int| i <= k < j ==> !is_space(#[trigger] b@[k]),
                decreases end - j,
            {
                word.push(b[j]);
                j = j + 1;
                assert(word@ =~= b@.subrange(i as int, j as int));
            }
            proof {
                assert forall|k: int| 0 <= k < j - i implies !is_space(#[trigger] rest[k]) by {
                    assert(rest[k] == b@[i + k]);
                }
                if j < end {
                    assert(rest[j - i] == b@[j as int]);
                }
                lemma_word_len_at(rest, j - i);
                lemma_word_len_bound(rest);
                assert(rest.subrange(0, j - i) =~= word@);
                assert(rest.subrange(j - i, rest.len() as int) =~= b@.subrange(j as int, end as int));
                let ov = out@.map_values(|w: Vec<u8>| w@);
                assert(words(rest) == seq![word@] + words(b@.subrange(j as int, end as int)));
                assert(ov.push(word@) + words(b@.subrange(j as int, end as int)) =~= ov + words(rest));
            }
            let ghost ov = out@.map_values(|w: Vec<u8>| w@);
            let ghost wv = word@;
            out.push(word);
            assert(out@.map_values(|w: Vec<u8>| w@) =~= ov.push(wv));
            i = j;
        }
    }
    proof {
        assert(words(b@.subrange(i as int, end as int)) =~= Seq::<Seq<u8>>::empty());
        assert(out@.map_values(|w: Vec<u8>| w@) + Seq::<Seq<u8>>::empty() =~= out@.map_values(|w: Vec<u8>| w@));
    }
    out
}

/// `a + b`, saturating at the largest `u64`.
pub open spec fn sat_add(a: nat, b: nat) -> nat {
    if a + b > u64::MAX {
        u64::MAX as nat
    } else {
        a + b
    }
}

/// Saturating sum of the numbers among `ws`; words that are not numbers count as zero.
pub open spec fn tick_sum(ws: Seq<Seq<u8>>) -> nat
    decreases ws.len(),
{
    if ws.len() == 0 {
        0
    } else {
        let v = match decimal_value(ws.last(), u64::MAX as nat) {
            Some(n) => n,
            None => 0,
        };
        sat_add(tick_sum(ws.drop_last()), v)
    }
}

/// Index of the first line feed in `b`, or its length.
pub open spec fn line_len(b: Seq<u8>) -> nat
    decreases b.len(),
{
    if b.len() == 0 || b[0] == 10 {
        0
    } else {
        1 + line_len(b.drop_first())
    }
}

proof fn lemma_line_len_at(b: Seq<u8>, n: int)
    requires
        0 <= n <= b.len(),
        forall|k: int| 0 <= k < n ==> #[trigger] b[k] != 10,
        n == b.len() || b[n] == 10,
    ensures
        line_len(b) == n,
    decreases n,
{
    if n > 0 {
        assert forall|k: int| 0 <= k < n - 1 implies #[trigger] b.drop_first()[k] != 10 by {
            assert(b.drop_first()[k] == b[k + 1]);
        }
        if n - 1 < b.drop_first().len() {
            assert(b.drop_first()[n - 1] == b[n]);
        }
        lemma_line_len_at(b.drop_first(), n - 1);
    }
}

/// Total CPU ticks from the text of `/proc/stat`: the saturating sum of the
/// (at most eight) counters after the label on its first line; `None` for empty text.
pub open spec fn total_ticks_of(b: Seq<u8>) -> Option<nat> {
    if b.len() == 0 {
        None
    } else {
        let ws = words(b.subrange(0, line_len(b) as int));
        if ws.len() == 0 {
            Some(0)
        } else {
            Some(tick_sum(ws.subrange(1, if ws.len() > 9 { 9 } else { ws.len() as int })))
        }
    }
}

pub fn total_ticks(b: &[u8]) -> (r: Option<u64>)
    ensures
        r matches Some(v) ==> total_ticks_of(b@) == Some(v as nat),
        r is None ==> total_ticks_of(b@) is None,
{
    if b.len() == 0 {
        return None;
    }
    let mut n: usize = 0;
    while n < b.len() && b[n] != 10
        invariant
            n <= b@.len(),
            forall|k: int| 0 <= k < n ==> #[trigger] b@[k] != 10,
        decreases b@.len() - n,
    {
        n = n + 1;
    }
    proof {
        lemma_line_len_at(b@, n as int);
    }
    let ws = split_words(b, 0, n);
    let ghost wv = ws@.map_values(|w: Vec<u8>| w@);
    if ws.len() == 0 {
        return Some(0);
    }
    let stop: usize = if ws.len() > 9 { 9 } else { ws.len() };
    let mut acc: u64 = 0;
    let mut k: usize = 1;
    while k < stop
        invariant
            1 <= k <= stop <= ws@.len(),
            wv == ws@.map_values(|w: Vec<u8>| w@),
            acc as nat == tick_sum(wv.subrange(1, k as int)),
        decreases stop - k,
    {
        let v: u64 = match parse_decimal(ws[k].as_slice(), u64::MAX) {
            Some(x) => x,
            None => 0,
        };
        proof {
            let sub = wv.subrange(1, k + 1);
            assert(sub.drop_last() =~= wv.subrange(1, k as int));
            assert(sub.last() == ws@[k as int]@);
        }
        acc = if acc > u64::MAX - v { u64::MAX } else { acc + v };
        k = k + 1;
    }
    Some(acc)
}

/// Index of the last occurrence of `c` in `b`.
pub open spec fn last_index_of(b: Seq<u8>, c: u8) -> Option<nat>
    decreases b.len(),
{
    if b.len() == 0 {
        None
    } else if b.last() == c {
        Some((b.len() - 1) as nat)
    } else {
        last_index_of(b.drop_last(), c)
    }
}

/// The ticks a process has used (user plus system time) from the text of
/// `/proc/<pid>/stat`; `None` when the text does not hold both counters.
pub open spec fn process_ticks_of(b: Seq<u8>) -> Option<nat> {
    match last_index_of(b, 41) {
        None => None,
        Some(p) => if p + 2 > b.len() {
            None
        } else {
            let ws = words(b.subrange(p + 2 as int, b.len() as int));
            if ws.len() < 13 {
                None
            } else {
                match (decimal_value(ws[11], u64::MAX as nat), decimal_value(ws[12], u64::MAX as nat)) {
                    (Some(u), Some(s)) => Some(sat_add(u, s)),
                    _ => None,
                }
            }
        },
    }
}

pub fn process_ticks(b: &[u8]) -> (r: Option<u64>)
    ensures
        r matches Some(v) ==> process_ticks_of(b@) == Some(v as nat),
        r is None ==> process_ticks_of(b@) is None,
{
    let mut i: usize = b.len();
    assert(b@.subrange(0, i as int) =~= b@);
    while i > 0 && b[i - 1] != 41
        invariant
            i <= b@.len(),
            last_index_of(b@, 41) == last_index_of(b@.subrange(0, i as int), 41),
        decreases i,
    {
        proof {
            let sub = b@.subrange(0, i as int);
            assert(sub.drop_last() =~= b@.subrange(0, i - 1));
        }
        i = i - 1;
    }
    if i == 0 {
        assert(b@.subrange(0, 0) =~= Seq::<u8>::empty());
        return None;
    }
    let rpar = i - 1;
    assert(last_index_of(b@, 41) == Some(rpar as nat));
    if b.len() - rpar < 2 {
        return None;
    }
    let ws = split_words(b, rpar + 2, b.len());
    let ghost wv = ws@.map_values(|w: Vec<u8>| w@);
    if ws.len() < 13 {
        return None;
    }
    assert(wv[11] == ws@[11]@ && wv[12] == ws@[12]@);
    let utime = match parse_decimal(ws[11].as_slice(), u64::MAX) {
        Some(x) => x,
        None => return None,
    };
    let stime = match parse_decimal(ws[12].as_slice(), u64::MAX) {
        Some(x) => x,
        None => return None,
    };
    Some(if utime > u64::MAX - stime { u64::MAX } else { utime + stime })
}

} // verus!
