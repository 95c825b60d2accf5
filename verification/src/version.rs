//! The semantic version value: a numeric triple, optional pre-release text,
//! and discardable build metadata, together with the `alpha.N` pre-release
//! counter encoding and functional-update field accessors.
use vstd::prelude::*;

use crate::text::{
    all_digits, dec_str, dec_value, is_digit, is_ident_char, lemma_dec_str_props, lemma_find_is,
    parse_dec_u64, valid_ident, valid_idents,
};

verus! {

/// The mathematical model of a version value: unbounded integers for the
/// triple and plain byte sequences for the textual components.
#[verifier::ext_equal]
pub ghost struct VersionModel {
    pub major: int,
    pub minor: int,
    pub patch: int,
    pub pre: Seq<u8>,
    pub build: Seq<u8>,
}

/// The bytes `"alpha."`, the prefix that marks a recognized pre-release
/// counter.
pub open spec fn alpha_prefix() -> Seq<u8> {
    seq![0x61, 0x6c, 0x70, 0x68, 0x61, 0x2e]
}

/// The pre-release counter of `pre`: `Some(n)` iff the text is exactly
/// `alpha.<digits>` and the digits have a value that fits in a `u64`.
/// Anything else — empty text, a bare `alpha`, another prefix, a non-digit
/// suffix, an oversized value — counts as no pre-release.
pub open spec fn alpha_counter(pre: Seq<u8>) -> Option<int> {
    if pre.len() > 6 && pre.take(6) == alpha_prefix() && all_digits(pre.skip(6)) && dec_value(
        pre.skip(6),
    ) <= u64::MAX {
        Some(dec_value(pre.skip(6)))
    } else {
        None
    }
}

/// The canonical encoding of counter `n`: the bytes `alpha.<n>`.
pub open spec fn alpha_seq(n: int) -> Seq<u8> {
    alpha_prefix() + dec_str(n)
}

/// The counter that an increment produces: one past the recognized counter,
/// or 0 when none is recognized.
pub open spec fn next_counter(pre: Seq<u8>) -> int {
    match alpha_counter(pre) {
        Some(n) => n + 1,
        None => 0,
    }
}

/// The pre-release bytes that `set_pre` stores for a requested counter.
pub open spec fn pre_bytes_of(counter: Option<u64>) -> Seq<u8> {
    match counter {
        Some(n) => alpha_seq(n as int),
        None => Seq::<u8>::empty(),
    }
}

/// Encoding and decoding of the counter are inverse, and the encoding is
/// valid pre-release text.
pub proof fn lemma_alpha_seq(n: int)
    requires
        0 <= n <= u64::MAX,
    ensures
        alpha_counter(alpha_seq(n)) == Some(n),
        valid_idents(alpha_seq(n), true),
        alpha_seq(n).len() > 6,
{
    lemma_dec_str_props(n);
    let s = alpha_seq(n);
    assert(s.take(6) =~= alpha_prefix());
    assert(s.skip(6) =~= dec_str(n));
    assert(alpha_counter(s) == Some(n));
    // The text splits at the single dot, index 5, into "alpha" and the digits.
    assert forall|k: int| 0 <= k < 5 implies s[k] != 0x2e by {
        assert(s[k] == alpha_prefix()[k]);
    }
    lemma_find_is(s, 0x2e, 5);
    assert(s.take(5) =~= seq![0x61u8, 0x6c, 0x70, 0x68, 0x61]);
    assert(valid_ident(s.take(5), true)) by {
        assert(forall|k: int| 0 <= k < 5 ==> is_ident_char(#[trigger] s.take(5)[k]));
        assert(!is_digit(s.take(5)[0]));
    }
    let digits = s.skip(6);
    assert(forall|k: int| 0 <= k < digits.len() ==> digits[k] != 0x2e) by {
        assert(forall|k: int| 0 <= k < digits.len() ==> is_digit(#[trigger] digits[k]));
    }
    lemma_find_is(digits, 0x2e, digits.len() as int);
    assert(valid_ident(digits, true)) by {
        assert(forall|k: int| 0 <= k < digits.len() ==> is_digit(#[trigger] digits[k]));
    }
    assert(valid_idents(digits, true));
    assert(valid_idents(s, true));
}

/// A well-formed model: the triple fits in `u64`, the pre-release text is
/// empty or a valid dot-separated identifier list under pre-release rules,
/// and the build text is empty or a valid identifier list.
pub open spec fn wf_model(m: VersionModel) -> bool {
    &&& 0 <= m.major <= u64::MAX
    &&& 0 <= m.minor <= u64::MAX
    &&& 0 <= m.patch <= u64::MAX
    &&& m.pre.len() == 0 || valid_idents(m.pre, true)
    &&& m.build.len() == 0 || valid_idents(m.build, false)
}

/// A semantic version value. The numeric triple is immediate; `pre` and
/// `build` hold the raw bytes of the textual components, empty when absent.
#[derive(Debug)]
pub struct SemVer {
    pub major: u64,
    pub minor: u64,
    pub patch: u64,
    pub pre: Vec<u8>,
    pub build: Vec<u8>,
}

impl View for SemVer {
    type V = VersionModel;

    open spec fn view(&self) -> VersionModel {
        VersionModel {
            major: self.major as int,
            minor: self.minor as int,
            patch: self.patch as int,
            pre: self.pre@,
            build: self.build@,
        }
    }
}

impl SemVer {
    /// Well-formedness of the stored value.
    pub open spec fn wf(&self) -> bool {
        wf_model(self@)
    }

    /// A release version `major.minor.patch` with no pre-release and no
    /// build metadata.
    pub fn new(major: u64, minor: u64, patch: u64) -> (r: Self)
        ensures
            r@ == (VersionModel {
                major: major as int,
                minor: minor as int,
                patch: patch as int,
                pre: Seq::<u8>::empty(),
                build: Seq::<u8>::empty(),
            }),
            r.wf(),
    {
        SemVer { major, minor, patch, pre: Vec::new(), build: Vec::new() }
    }

    pub fn get_major(&self) -> (r: u64)
        ensures
            r as int == self@.major,
    {
        self.major
    }

    pub fn get_minor(&self) -> (r: u64)
        ensures
            r as int == self@.minor,
    {
        self.minor
    }

    pub fn get_patch(&self) -> (r: u64)
        ensures
            r as int == self@.patch,
    {
        self.patch
    }

    pub fn set_major(self, value: u64) -> (r: Self)
        ensures
            r@ == (VersionModel { major: value as int, ..self@ }),
    {
        SemVer { major: value, ..self }
    }

    pub fn set_minor(self, value: u64) -> (r: Self)
        ensures
            r@ == (VersionModel { minor: value as int, ..self@ }),
    {
        SemVer { minor: value, ..self }
    }

    pub fn set_patch(self, value: u64) -> (r: Self)
        ensures
            r@ == (VersionModel { patch: value as int, ..self@ }),
    {
        SemVer { patch: value, ..self }
    }

    pub fn reset_major(self) -> (r: Self)
        ensures
            r@ == (VersionModel { major: 0, ..self@ }),
    {
        self.set_major(0)
    }

    pub fn reset_minor(self) -> (r: Self)
        ensures
            r@ == (VersionModel { minor: 0, ..self@ }),
    {
        self.set_minor(0)
    }

    pub fn reset_patch(self) -> (r: Self)
        ensures
            r@ == (VersionModel { patch: 0, ..self@ }),
    {
        self.set_patch(0)
    }

    pub fn inc_major(self) -> (r: Self)
        requires
            self@.major < u64::MAX,
        ensures
            r@ == (VersionModel { major: self@.major + 1, ..self@ }),
    {
        let v = self.get_major();
        self.set_major(v + 1)
    }

    pub fn inc_minor(self) -> (r: Self)
        requires
            self@.minor < u64::MAX,
        ensures
            r@ == (VersionModel { minor: self@.minor + 1, ..self@ }),
    {
        let v = self.get_minor();
        self.set_minor(v + 1)
    }

    pub fn inc_patch(self) -> (r: Self)
        requires
            self@.patch < u64::MAX,
        ensures
            r@ == (VersionModel { patch: self@.patch + 1, ..self@ }),
    {
        let v = self.get_patch();
        self.set_patch(v + 1)
    }

    /// Stores `alpha.<n>` for `Some(n)`, clears the pre-release for `None`.
    pub fn set_pre(self, counter: Option<u64>) -> (r: Self)
        ensures
            r@ == (VersionModel { pre: pre_bytes_of(counter), ..self@ }),
            counter is Some ==> valid_idents(r@.pre, true),
    {
        match counter {
            Some(n) => {
                let mut v: Vec<u8> = Vec::new();
                v.push(0x61);  // 'a'
                v.push(0x6c);  // 'l'
                v.push(0x70);  // 'p'
                v.push(0x68);  // 'h'
                v.push(0x61);  // 'a'
                v.push(0x2e);  // '.'
                assert(v@ =~= alpha_prefix());
                crate::text::push_dec(n, &mut v);
                assert(v@ =~= alpha_seq(n as int));
                proof {
                    lemma_alpha_seq(n as int);
                }
                SemVer { pre: v, ..self }
            },
            None => {
                let r = SemVer { pre: Vec::new(), ..self };
                assert(r.pre@ =~= Seq::<u8>::empty());
                r
            },
        }
    }

    /// The recognized pre-release counter, if any.
    pub fn get_pre(&self) -> (r: Option<u64>)
        ensures
            match r {
                Some(n) => alpha_counter(self@.pre) == Some(n as int),
                None => alpha_counter(self@.pre) is None,
            },
    {
        extract_alpha_version(self.pre.as_slice())
    }

    /// Clears the pre-release text.
    pub fn reset_pre(self) -> (r: Self)
        ensures
            r@ == (VersionModel { pre: Seq::<u8>::empty(), ..self@ }),
    {
        self.set_pre(None)
    }

    /// Advances the pre-release counter: one past the recognized counter, or
    /// `alpha.0` when none is recognized.
    pub fn inc_pre(self) -> (r: Self)
        requires
            next_counter(self@.pre) <= u64::MAX,
        ensures
            r@ == (VersionModel { pre: alpha_seq(next_counter(self@.pre)), ..self@ }),
            valid_idents(r@.pre, true),
    {
        let v: u64 = match self.get_pre() {
            Some(n) => n + 1,
            None => 0,
        };
        self.set_pre(Some(v))
    }
}

/// The numeric part of an `alpha.<digits>` pre-release text: `Some` exactly
/// when `alpha_counter` recognizes a counter.
pub fn extract_alpha_version(pre: &[u8]) -> (r: Option<u64>)
    ensures
        match r {
            Some(n) => alpha_counter(pre@) == Some(n as int),
            None => alpha_counter(pre@) is None,
        },
{
    let n = pre.len();
    if n < 7 {
        return None;
    }
    let prefix_ok = pre[0] == 0x61 && pre[1] == 0x6c && pre[2] == 0x70 && pre[3] == 0x68
        && pre[4] == 0x61 && pre[5] == 0x2e;
    if !prefix_ok {
        proof {
            if pre@.take(6) == alpha_prefix() {
                assert(forall|k: int| 0 <= k < 6 ==> pre@.take(6)[k] == pre@[k]);
                assert(pre@[0] == 0x61 && pre@[1] == 0x6c && pre@[2] == 0x70 && pre@[3] == 0x68
                    && pre@[4] == 0x61 && pre@[5] == 0x2e);
            }
        }
        return None;
    }
    let suffix = vstd::slice::slice_subrange(pre, 6, n);
    assert(suffix@ =~= pre@.skip(6));
    let parsed = parse_dec_u64(suffix);
    proof {
        if parsed is None {
            assert(pre@.skip(6).len() >= 1);
        } else {
            assert(pre@.take(6) =~= alpha_prefix());
        }
    }
    parsed
}

} // verus!
