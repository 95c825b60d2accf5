//! Inferring a bump kind from a commit message: the text is lowered
//! (ASCII), then scanned for literal bracket tags in a fixed priority
//! order; the first tag found wins, and no tag means no inference.
use vstd::prelude::*;

use crate::bump::VersionBump;

verus! {

/// ASCII lowering of one byte.
pub open spec fn lower_byte(b: u8) -> u8 {
    if 0x41 <= b <= 0x5a {
        (b + 0x20) as u8
    } else {
        b
    }
}

/// ASCII lowering of a byte string.
pub open spec fn lower(s: Seq<u8>) -> Seq<u8> {
    Seq::new(s.len(), |i: int| lower_byte(s[i]))
}

/// `needle` occurs somewhere in `h`.
pub open spec fn contains_seq(h: Seq<u8>, needle: Seq<u8>) -> bool {
    exists|i: int|
        0 <= i <= h.len() - needle.len() && #[trigger] h.subrange(i, i + needle.len() as int)
            == needle
}

pub open spec fn tag_major() -> Seq<u8> {
    seq![0x5b, 0x6d, 0x61, 0x6a, 0x6f, 0x72, 0x5d]
}

pub open spec fn tag_minor() -> Seq<u8> {
    seq![0x5b, 0x6d, 0x69, 0x6e, 0x6f, 0x72, 0x5d]
}

pub open spec fn tag_patch() -> Seq<u8> {
    seq![0x5b, 0x70, 0x61, 0x74, 0x63, 0x68, 0x5d]
}

pub open spec fn tag_preminor() -> Seq<u8> {
    seq![0x5b, 0x70, 0x72, 0x65, 0x6d, 0x69, 0x6e, 0x6f, 0x72, 0x5d]
}

pub open spec fn tag_prepatch() -> Seq<u8> {
    seq![0x5b, 0x70, 0x72, 0x65, 0x70, 0x61, 0x74, 0x63, 0x68, 0x5d]
}

pub open spec fn tag_skip() -> Seq<u8> {
    seq![0x5b, 0x6e, 0x6f, 0x2d, 0x76, 0x65, 0x72, 0x73, 0x69, 0x6f, 0x6e, 0x5d]
}

/// The inference on already-lowered text: the first tag present, in the
/// fixed priority order major, minor, patch, preminor, prepatch,
/// no-version.
pub open spec fn spec_infer(t: Seq<u8>) -> Option<VersionBump> {
    if contains_seq(t, tag_major()) {
        Some(VersionBump::Major)
    } else if contains_seq(t, tag_minor()) {
        Some(VersionBump::Minor)
    } else if contains_seq(t, tag_patch()) {
        Some(VersionBump::Patch)
    } else if contains_seq(t, tag_preminor()) {
        Some(VersionBump::Preminor)
    } else if contains_seq(t, tag_prepatch()) {
        Some(VersionBump::Prepatch)
    } else if contains_seq(t, tag_skip()) {
        Some(VersionBump::Skip)
    } else {
        None
    }
}

/// Substring search, as executable code.
fn contains_bytes(h: &[u8], needle: &[u8]) -> (r: bool)
    ensures
        r == contains_seq(h@, needle@),
{
    let n = needle.len();
    let hn = h.len();
    if n > hn {
        return false;
    }
    let mut i: usize = 0;
    while i <= hn - n
        invariant
            n <= hn == h@.len(),
            n == needle@.len(),
            0 <= i <= hn - n + 1,
            forall|k: int| 0 <= k < i ==> #[trigger] h@.subrange(k, k + n as int) != needle@,
        decreases hn - i,
    {
        let mut j: usize = 0;
        let mut matches = true;
        while j < n
            invariant
                n <= hn == h@.len(),
                n == needle@.len(),
                0 <= i <= hn - n,
                0 <= j <= n,
                matches ==> forall|k: int| 0 <= k < j ==> #[trigger] h@[i + k] == needle@[k],
                !matches ==> exists|k: int| 0 <= k < n && #[trigger] h@[i + k] != needle@[k],
                !matches ==> j == n,
            decreases n - j,
        {
            if h[i + j] != needle[j] {
                assert(h@[i + j as int] != needle@[j as int]);
                matches = false;
                j = n;
            } else {
                assert(h@[i + j as int] == needle@[j as int]);
                j += 1;
            }
        }
        if matches {
            proof {
                assert forall|k: int| 0 <= k < n implies h@.subrange(i as int, i + n as int)[k]
                    == needle@[k] by {
                    assert(h@[i + k] == needle@[k]);
                }
                assert(h@.subrange(i as int, i + n as int) =~= needle@);
            }
            return true;
        }
        proof {
            let k = choose|k: int| 0 <= k < n && #[trigger] h@[i + k] != needle@[k];
            assert(h@.subrange(i as int, i + n as int)[k] == h@[i + k]);
        }
        i += 1;
    }
    false
}

/// Infers the bump kind from a commit message: the message is lowered and
/// scanned for the bracket tags in their fixed priority order.
pub fn infer_version_bump(message: &[u8]) -> (r: Option<VersionBump>)
    ensures
        r == spec_infer(lower(message@)),
{
    let n = message.len();
    let mut low: Vec<u8> = Vec::new();
    let mut i: usize = 0;
    while i < n
        invariant
            0 <= i <= n == message@.len(),
            low@.len() == i,
            forall|k: int| 0 <= k < i ==> low@[k] == lower_byte(message@[k]),
        decreases n - i,
    {
        let b = message[i];
        if 0x41 <= b && b <= 0x5a {
            low.push(b + 0x20);
        } else {
            low.push(b);
        }
        i += 1;
    }
    assert(low@ =~= lower(message@));
    let t_major: [u8; 7] = [0x5b, 0x6d, 0x61, 0x6a, 0x6f, 0x72, 0x5d];
    let t_minor: [u8; 7] = [0x5b, 0x6d, 0x69, 0x6e, 0x6f, 0x72, 0x5d];
    let t_patch: [u8; 7] = [0x5b, 0x70, 0x61, 0x74, 0x63, 0x68, 0x5d];
    let t_preminor: [u8; 10] = [0x5b, 0x70, 0x72, 0x65, 0x6d, 0x69, 0x6e, 0x6f, 0x72, 0x5d];
    let t_prepatch: [u8; 10] = [0x5b, 0x70, 0x72, 0x65, 0x70, 0x61, 0x74, 0x63, 0x68, 0x5d];
    let t_skip: [u8; 12] = [
        0x5b,
        0x6e,
        0x6f,
        0x2d,
        0x76,
        0x65,
        0x72,
        0x73,
        0x69,
        0x6f,
        0x6e,
        0x5d,
    ];
    assert(t_major@ =~= tag_major());
    assert(t_minor@ =~= tag_minor());
    assert(t_patch@ =~= tag_patch());
    assert(t_preminor@ =~= tag_preminor());
    assert(t_prepatch@ =~= tag_prepatch());
    assert(t_skip@ =~= tag_skip());
    if contains_bytes(low.as_slice(), t_major.as_slice()) {
        Some(VersionBump::Major)
    } else if contains_bytes(low.as_slice(), t_minor.as_slice()) {
        Some(VersionBump::Minor)
    } else if contains_bytes(low.as_slice(), t_patch.as_slice()) {
        Some(VersionBump::Patch)
    } else if contains_bytes(low.as_slice(), t_preminor.as_slice()) {
        Some(VersionBump::Preminor)
    } else if contains_bytes(low.as_slice(), t_prepatch.as_slice()) {
        Some(VersionBump::Prepatch)
    } else if contains_bytes(low.as_slice(), t_skip.as_slice()) {
        Some(VersionBump::Skip)
    } else {
        None
    }
}

} // verus!
