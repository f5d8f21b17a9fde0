//! Device-name classification for the disk list.
use vstd::prelude::*;
use vstd::utf8::*;

verus! {

pub open spec fn lower_byte(c: u8) -> u8 {
    if 65 <= c <= 90 {
        (c + 32) as u8
    } else {
        c
    }
}

/// ASCII letters lowered; every other byte kept.
pub open spec fn ascii_lower(b: Seq<u8>) -> Seq<u8> {
    b.map_values(|c: u8| lower_byte(c))
}

pub open spec fn contains_at(h: Seq<u8>, n: Seq<u8>, i: int) -> bool {
    0 <= i && i + n.len() <= h.len() && h.subrange(i, i + n.len()) == n
}

pub open spec fn contains(h: Seq<u8>, n: Seq<u8>) -> bool {
    exists|i: int| contains_at(h, n, i)
}

fn contains_bytes(h: &Vec<u8>, n: &[u8]) -> (r: bool)
    ensures
        r == contains(h@, n@),
{
    if n.len() > h.len() {
        assert forall|i: int| !contains_at(h@, n@, i) by {}
        return false;
    }
    let mut i: usize = 0;
    while i <= h.len() - n.len()
        invariant
            n@.len() <= h@.len(),
            i <= h@.len() - n@.len() + 1,
            forall|k: int| 0 <= k < i ==> !contains_at(h@, n@, k),
        decreases h@.len() - n@.len() + 1 - i,
    {
        let mut j: usize = 0;
        let mut same = true;
        while j < n.len()
            invariant
                i + n@.len() <= h@.len(),
                h@.len() <= usize::MAX,
                j <= n@.len(),
                same == forall|k: int| 0 <= k < j ==> h@[i + k] == n@[k],
            decreases n@.len() - j,
        {
            if h[i + j] != n[j] {
                same = false;
            }
            j = j + 1;
        }
        if same {
            assert(h@.subrange(i as int, i + n@.len()) =~= n@);
            assert(contains_at(h@, n@, i as int));
            return true;
        }
        proof {
            if contains_at(h@, n@, i as int) {
                let k = choose|k: int| 0 <= k < n@.len() && h@[i + k] != n@[k];
                assert(h@.subrange(i as int, i + n@.len())[k] == h@[i + k]);
            }
        }
        i = i + 1;
    }
    assert forall|k: int| !contains_at(h@, n@, k) by {
        if 0 <= k && k + n@.len() <= h@.len() {
            assert(k < i);
        }
    }
    false
}

pub open spec fn nvme() -> Seq<u8> {
    seq![110u8, 118, 109, 101]
}

pub open spec fn overlay() -> Seq<u8> {
    seq![111u8, 118, 101, 114, 108, 97, 121]
}

/// The icon shown beside a disk of this name: remote shares (a `:` in the
/// name), NVMe drives, `sd*` drives, overlay mounts, then anything else.
pub open spec fn disk_icon_of(name: Seq<u8>) -> Seq<char> {
    let n = ascii_lower(name);
    if contains(n, seq![58u8]) {
        "\u{1f5c4}\u{fe0f}"@
    } else if contains(n, nvme()) {
        "\u{26a1}"@
    } else if n.len() >= 2 && n[0] == 115 && n[1] == 100 {
        "\u{1f4bd}"@
    } else if contains(n, overlay()) {
        "\u{1f4e6}"@
    } else {
        "\u{1f5b4}"@
    }
}

/// Picks the icon for a disk name (matching is case-insensitive for ASCII letters).
pub fn disk_icon(name: &str) -> (r: &'static str)
    ensures
        r@ == disk_icon_of(encode_utf8(name@)),
{
    let b = name.as_bytes();
    let mut n: Vec<u8> = Vec::new();
    let mut i: usize = 0;
    while i < b.len()
        invariant
            i <= b@.len(),
            n@ == ascii_lower(b@.subrange(0, i as int)),
        decreases b@.len() - i,
    {
        let c = b[i];
        n.push(if 65 <= c && c <= 90 { c + 32 } else { c });
        i = i + 1;
        assert(n@ =~= ascii_lower(b@.subrange(0, i as int)));
    }
    assert(b@.subrange(0, i as int) =~= b@);
    let colon: Vec<u8> = vec![58u8];
    let nv: Vec<u8> = vec![110u8, 118, 109, 101];
    let ov: Vec<u8> = vec![111u8, 118, 101, 114, 108, 97, 121];
    assert(colon@ =~= seq![58u8]);
    assert(nv@ =~= nvme());
    assert(ov@ =~= overlay());
    if contains_bytes(&n, colon.as_slice()) {
        "\u{1f5c4}\u{fe0f}"
    } else if contains_bytes(&n, nv.as_slice()) {
        "\u{26a1}"
    } else if n.len() >= 2 && n[0] == 115 && n[1] == 100 {
        "\u{1f4bd}"
    } else if contains_bytes(&n, ov.as_slice()) {
        "\u{1f4e6}"
    } else {
        "\u{1f5b4}"
    }
}

} // verus!
