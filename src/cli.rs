//! The client's command line.
use crate::args::{decimal_value, has_prefix, parse_decimal, same_bytes};
use crate::proto::utf8_string;
use crate::session::same_text;
use vstd::prelude::*;
use vstd::utf8::*;

verus! {

/// What the client was asked to do.
#[derive(Clone, Debug)]
pub struct ParsedArgs {
    pub url: Option<String>,
    pub tls_ca: Option<String>,
    pub profile: Option<String>,
    pub save: bool,
    pub demo: bool,
    pub dry_run: bool,
    pub metrics_interval_ms: Option<u64>,
    pub processes_interval_ms: Option<u64>,
}

/// Why the command line was not accepted; the caller prints the usage text.
#[derive(Clone, Copy, Debug, PartialEq, Eq, Structural)]
pub enum ArgsError {
    /// `-h` or `--help`.
    Help,
    /// A second positional argument.
    Unexpected,
}

pub struct ArgsView {
    pub url: Option<Seq<char>>,
    pub tls_ca: Option<Seq<char>>,
    pub profile: Option<Seq<char>>,
    pub save: bool,
    pub demo: bool,
    pub dry_run: bool,
    pub metrics_interval_ms: Option<u64>,
    pub processes_interval_ms: Option<u64>,
}

pub open spec fn text_of(s: Option<String>) -> Option<Seq<char>> {
    match s {
        Some(t) => Some(t@),
        None => None,
    }
}

impl View for ParsedArgs {
    type V = ArgsView;

    open spec fn view(&self) -> ArgsView {
        ArgsView {
            url: text_of(self.url),
            tls_ca: text_of(self.tls_ca),
            profile: text_of(self.profile),
            save: self.save,
            demo: self.demo,
            dry_run: self.dry_run,
            metrics_interval_ms: self.metrics_interval_ms,
            processes_interval_ms: self.processes_interval_ms,
        }
    }
}

pub open spec fn empty_args() -> ArgsView {
    ArgsView {
        url: None,
        tls_ca: None,
        profile: None,
        save: false,
        demo: false,
        dry_run: false,
        metrics_interval_ms: None,
        processes_interval_ms: None,
    }
}

/// The argument after index `i`, if there is one.
pub open spec fn next_arg(args: Seq<Seq<char>>, i: int) -> Option<Seq<char>> {
    if 0 <= i + 1 < args.len() {
        Some(args[i + 1])
    } else {
        None
    }
}

/// An interval given as its own argument: unset unless it is a number.
pub open spec fn interval_of(v: Option<Seq<char>>) -> Option<u64> {
    match v {
        Some(t) => match decimal_value(encode_utf8(t), u64::MAX as nat) {
            Some(n) => Some(n as u64),
            None => None,
        },
        None => None,
    }
}

/// The text after an ASCII prefix `p` of `a`, when it is well-formed.
pub open spec fn value_after(a: Seq<char>, p: Seq<char>) -> Option<Seq<char>> {
    let b = encode_utf8(a);
    let q = encode_utf8(p);
    let rest = b.subrange(q.len() as int, b.len() as int);
    if valid_utf8(rest) {
        Some(decode_utf8(rest))
    } else {
        None
    }
}

pub open spec fn starts_with(a: Seq<char>, p: Seq<char>) -> bool {
    has_prefix(encode_utf8(a), encode_utf8(p))
}

/// Scans `args` from index `i` with the options seen so far in `st`; the last
/// occurrence of an option wins, `--name=value` forms ignore an empty value,
/// and a flag with nothing after it clears its value.
pub open spec fn args_scan(args: Seq<Seq<char>>, i: int, st: ArgsView) -> Result<ArgsView, ArgsError>
    decreases (if i >= args.len() { 0 } else { args.len() - i }),
{
    if i < 0 || i >= args.len() {
        Ok(st)
    } else {
        let a = args[i];
        if a == "-h"@ || a == "--help"@ {
            Err(ArgsError::Help)
        } else if a == "--tls-ca"@ || a == "-t"@ {
            args_scan(args, i + 2, ArgsView { tls_ca: next_arg(args, i), ..st })
        } else if a == "--profile"@ || a == "-P"@ {
            args_scan(args, i + 2, ArgsView { profile: next_arg(args, i), ..st })
        } else if a == "--save"@ {
            args_scan(args, i + 1, ArgsView { save: true, ..st })
        } else if a == "--demo"@ {
            args_scan(args, i + 1, ArgsView { demo: true, ..st })
        } else if a == "--dry-run"@ {
            args_scan(args, i + 1, ArgsView { dry_run: true, ..st })
        } else if a == "--metrics-interval-ms"@ {
            args_scan(args, i + 2, ArgsView { metrics_interval_ms: interval_of(next_arg(args, i)), ..st })
        } else if a == "--processes-interval-ms"@ {
            args_scan(args, i + 2, ArgsView { processes_interval_ms: interval_of(next_arg(args, i)), ..st })
        } else if starts_with(a, "--tls-ca="@) {
            args_scan(args, i + 1, match value_after(a, "--tls-ca="@) {
                Some(v) => if v.len() > 0 { ArgsView { tls_ca: Some(v), ..st } } else { st },
                None => st,
            })
        } else if starts_with(a, "--profile="@) {
            args_scan(args, i + 1, match value_after(a, "--profile="@) {
                Some(v) => if v.len() > 0 { ArgsView { profile: Some(v), ..st } } else { st },
                None => st,
            })
        } else if starts_with(a, "--metrics-interval-ms="@) {
            args_scan(args, i + 1, ArgsView { metrics_interval_ms: interval_of(value_after(a, "--metrics-interval-ms="@)), ..st })
        } else if starts_with(a, "--processes-interval-ms="@) {
            args_scan(args, i + 1, ArgsView { processes_interval_ms: interval_of(value_after(a, "--processes-interval-ms="@)), ..st })
        } else if st.url is None {
            args_scan(args, i + 1, ArgsView { url: Some(a), ..st })
        } else {
            Err(ArgsError::Unexpected)
        }
    }
}

pub open spec fn args_text(args: Seq<String>) -> Seq<Seq<char>> {
    args.map_values(|a: String| a@)
}

fn clone_opt(s: &Option<String>) -> (r: Option<String>)
    ensures
        text_of(r) == text_of(*s),
{
    match s {
        Some(t) => Some(t.clone()),
        None => None,
    }
}

fn next_of(args: &Vec<String>, i: usize) -> (r: Option<String>)
    ensures
        text_of(r) == next_arg(args_text(args@), i as int),
{
    if args.len() > 0 && i < args.len() - 1 {
        Some(args[i + 1].clone())
    } else {
        None
    }
}

fn interval_from(v: &Option<String>) -> (r: Option<u64>)
    ensures
        r == interval_of(text_of(*v)),
{
    match v {
        Some(t) => parse_decimal(t.as_str().as_bytes(), u64::MAX),
        None => None,
    }
}

/// The text of `a` after its first `plen` bytes.
fn text_after(a: &str, plen: usize) -> (r: Option<String>)
    requires
        plen <= encode_utf8(a@).len(),
    ensures
        valid_utf8(encode_utf8(a@).subrange(plen as int, encode_utf8(a@).len() as int)) ==> (r matches Some(s)
            && s@ == decode_utf8(encode_utf8(a@).subrange(plen as int, encode_utf8(a@).len() as int))),
        !valid_utf8(encode_utf8(a@).subrange(plen as int, encode_utf8(a@).len() as int)) ==> r is None,
{
    let b = a.as_bytes();
    utf8_string(vstd::slice::slice_subrange(b, plen, b.len()))
}

proof fn lemma_scan_end(args: Seq<Seq<char>>, j: int, st: ArgsView)
    requires
        j >= args.len(),
    ensures
        args_scan(args, j, st) == Ok::<ArgsView, ArgsError>(st),
{
}

/// Whether `a` starts with the bytes of `p`.
fn starts_with_text(a: &str, p: &str) -> (r: bool)
    ensures
        r == starts_with(a@, p@),
{
    let b = a.as_bytes();
    let q = p.as_bytes();
    b.len() >= q.len() && same_bytes(vstd::slice::slice_subrange(b, 0, q.len()), q)
}

/// Reads the client's command line; the first argument is the program name.
pub fn parse_args(args: Vec<String>) -> (r: Result<ParsedArgs, ArgsError>)
    ensures
        match args_scan(args_text(args@), 1, empty_args()) {
            Ok(v) => r matches Ok(p) && p@ == v,
            Err(e) => r == Err::<ParsedArgs, ArgsError>(e),
        },
{
    let ghost a = args_text(args@);
    let mut st = ParsedArgs {
        url: None,
        tls_ca: None,
        profile: None,
        save: false,
        demo: false,
        dry_run: false,
        metrics_interval_ms: None,
        processes_interval_ms: None,
    };
    assert(st@ == empty_args());
    let mut i: usize = 1;
    while i < args.len()
        invariant
            a == args_text(args@),
            a.len() == args@.len(),
            1 <= i,
            args_scan(a, i as int, st@) == args_scan(a, 1, empty_args()),
        decreases args@.len() - i,
    {
        let cur = args[i].as_str();
        let ghost i0 = i as int;
        assert(cur@ == a[i0]);
        let step2: usize = if i + 1 < args.len() { i + 2 } else { args.len() };
        proof {
            if i0 + 2 > args@.len() {
                assert forall|x: ArgsView| args_scan(a, i0 + 2, x) == args_scan(a, step2 as int, x) by {
                    lemma_scan_end(a, i0 + 2, x);
                    lemma_scan_end(a, step2 as int, x);
                }
            }
        }
        if same_text(cur, "-h") || same_text(cur, "--help") {
            return Err(ArgsError::Help);
        } else if same_text(cur, "--tls-ca") || same_text(cur, "-t") {
            st.tls_ca = next_of(&args, i);
            i = step2;
        } else if same_text(cur, "--profile") || same_text(cur, "-P") {
            st.profile = next_of(&args, i);
            i = step2;
        } else if same_text(cur, "--save") {
            st.save = true;
            i = i + 1;
        } else if same_text(cur, "--demo") {
            st.demo = true;
            i = i + 1;
        } else if same_text(cur, "--dry-run") {
            st.dry_run = true;
            i = i + 1;
        } else if same_text(cur, "--metrics-interval-ms") {
            st.metrics_interval_ms = interval_from(&next_of(&args, i));
            i = step2;
        } else if same_text(cur, "--processes-interval-ms") {
            st.processes_interval_ms = interval_from(&next_of(&args, i));
            i = step2;
        } else if starts_with_text(cur, "--tls-ca=") {
            match text_after(cur, "--tls-ca=".as_bytes().len()) {
                Some(v) => if !v.as_str().is_empty() {
                    st.tls_ca = Some(v);
                },
                None => {},
            }
            i = i + 1;
        } else if starts_with_text(cur, "--profile=") {
            match text_after(cur, "--profile=".as_bytes().len()) {
                Some(v) => if !v.as_str().is_empty() {
                    st.profile = Some(v);
                },
                None => {},
            }
            i = i + 1;
        } else if starts_with_text(cur, "--metrics-interval-ms=") {
            st.metrics_interval_ms = interval_from(&text_after(cur, "--metrics-interval-ms=".as_bytes().len()));
            i = i + 1;
        } else if starts_with_text(cur, "--processes-interval-ms=") {
            st.processes_interval_ms = interval_from(&text_after(cur, "--processes-interval-ms=".as_bytes().len()));
            i = i + 1;
        } else if st.url.is_none() {
            st.url = Some(args[i].clone());
            i = i + 1;
        } else {
            return Err(ArgsError::Unexpected);
        }
    }
    Ok(st)
}

} // verus!
