//! Byte-level building blocks for the version grammar: ASCII digit strings,
//! their decimal values, canonical decimal rendering, first-occurrence search,
//! and the identifier rules for pre-release and build components.
use vstd::prelude::*;

verus! {

/// True iff `b` is an ASCII decimal digit (`'0'..='9'`).
pub open spec fn is_digit(b: u8) -> bool {
    0x30 <= b <= 0x39
}

/// True iff every byte of `s` is an ASCII decimal digit.
pub open spec fn all_digits(s: Seq<u8>) -> bool {
    forall|i: int| 0 <= i < s.len() ==> is_digit(#[trigger] s[i])
}

/// True iff `b` may appear in a pre-release or build identifier:
/// ASCII alphanumeric or hyphen.
pub open spec fn is_ident_char(b: u8) -> bool {
    is_digit(b) || (0x41 <= b <= 0x5a) || (0x61 <= b <= 0x7a) || b == 0x2d
}

/// Decimal value of a digit string (most significant digit first).
pub open spec fn dec_value(s: Seq<u8>) -> int
    decreases s.len(),
{
    if s.len() == 0 {
        0
    } else {
        dec_value(s.drop_last()) * 10 + (s.last() - 0x30)
    }
}

/// Canonical decimal digit string of a non-negative integer.
pub open spec fn dec_str(n: int) -> Seq<u8>
    recommends
        n >= 0,
    decreases n,
{
    if n < 10 {
        seq![(0x30 + n) as u8]
    } else {
        dec_str(n / 10).push((0x30 + n % 10) as u8)
    }
}

/// A digit string that some non-negative integer renders to: non-empty,
/// all digits, and no leading zero unless it is exactly "0".
pub open spec fn canonical_num(s: Seq<u8>) -> bool {
    s.len() >= 1 && all_digits(s) && (s[0] == 0x30 ==> s.len() == 1)
}

pub proof fn lemma_dec_value_nonneg(s: Seq<u8>)
    requires
        all_digits(s),
    ensures
        dec_value(s) >= 0,
    decreases s.len(),
{
    if s.len() > 0 {
        assert(all_digits(s.drop_last())) by {
            assert(forall|i: int|
                0 <= i < s.drop_last().len() ==> s.drop_last()[i] == s[i] && is_digit(#[trigger] s[i]));
        }
        lemma_dec_value_nonneg(s.drop_last());
    }
}

pub proof fn lemma_dec_value_pos(s: Seq<u8>)
    requires
        all_digits(s),
        s.len() >= 1,
        s[0] != 0x30,
    ensures
        dec_value(s) >= 1,
    decreases s.len(),
{
    if s.len() == 1 {
        reveal_with_fuel(dec_value, 2);
        assert(dec_value(s.drop_last()) == 0);
    } else {
        let init = s.drop_last();
        assert(all_digits(init) && init[0] == s[0]) by {
            assert(forall|i: int|
                0 <= i < init.len() ==> init[i] == s[i] && is_digit(#[trigger] s[i]));
        }
        lemma_dec_value_pos(init);
    }
}

/// The canonical rendering of `n >= 0` is a canonical digit string whose
/// value is `n`; it starts with `'0'` only for `n == 0`.
pub proof fn lemma_dec_str_props(n: int)
    requires
        n >= 0,
    ensures
        canonical_num(dec_str(n)),
        dec_value(dec_str(n)) == n,
        dec_str(n)[0] == 0x30 <==> n == 0,
    decreases n,
{
    if n < 10 {
        let s = dec_str(n);
        reveal_with_fuel(dec_value, 2);
        assert(s =~= seq![(0x30 + n) as u8]);
        assert(s.drop_last() =~= Seq::<u8>::empty());
        assert(dec_value(s) == (s.last() - 0x30));
    } else {
        lemma_dec_str_props(n / 10);
        let p = dec_str(n / 10);
        let d = (0x30 + n % 10) as u8;
        let s = dec_str(n);
        assert(s =~= p.push(d));
        assert(s.drop_last() =~= p);
        assert(dec_value(s) == dec_value(p) * 10 + (d - 0x30));
        assert(dec_value(s) == (n / 10) * 10 + n % 10);
        assert(forall|i: int| 0 <= i < s.len() ==> is_digit(#[trigger] s[i])) by {
            assert(forall|i: int| 0 <= i < p.len() ==> s[i] == p[i]);
            assert(is_digit(s[s.len() - 1]));
        }
        assert(s[0] == p[0]);
        assert(n / 10 >= 1);
    }
}

/// A canonical digit string renders back to itself: decimal representation
/// without leading zeros is unique.
pub proof fn lemma_canonical_round_trip(s: Seq<u8>)
    requires
        canonical_num(s),
    ensures
        dec_value(s) >= 0,
        dec_str(dec_value(s)) =~= s,
    decreases s.len(),
{
    lemma_dec_value_nonneg(s);
    if s.len() == 1 {
        reveal_with_fuel(dec_value, 2);
        reveal_with_fuel(dec_str, 2);
        assert(s.drop_last() =~= Seq::<u8>::empty());
        assert(dec_value(s) == s[0] - 0x30);
        assert(dec_str(dec_value(s)) =~= seq![(0x30 + (s[0] - 0x30)) as u8]);
        assert((0x30 + (s[0] - 0x30)) as u8 == s[0]);
    } else {
        let init = s.drop_last();
        let d = s.last() - 0x30;
        assert(all_digits(init) && init[0] == s[0]) by {
            assert(forall|i: int|
                0 <= i < init.len() ==> init[i] == s[i] && is_digit(#[trigger] s[i]));
        }
        assert(canonical_num(init));
        lemma_canonical_round_trip(init);
        lemma_dec_value_pos(init);
        let v = dec_value(init);
        assert(dec_value(s) == v * 10 + d);
        assert(v >= 1);
        assert(dec_value(s) >= 10) by {
            assert(v * 10 >= 10) by (nonlinear_arith)
                requires
                    v >= 1,
            ;
        }
        assert((v * 10 + d) / 10 == v && (v * 10 + d) % 10 == d) by (nonlinear_arith)
            requires
                0 <= d < 10,
        ;
        assert(dec_str(dec_value(s)) =~= dec_str(v).push((0x30 + d) as u8));
        assert((0x30 + d) as u8 == s.last());
        assert(dec_str(v).push(s.last()) =~= init.push(s.last()));
        assert(init.push(s.last()) =~= s);
    }
}

/// The value of a digit string never shrinks as the string grows to the right.
pub proof fn lemma_dec_value_prefix(s: Seq<u8>, i: int, j: int)
    requires
        all_digits(s),
        0 <= i <= j <= s.len(),
    ensures
        dec_value(s.take(i)) <= dec_value(s.take(j)),
    decreases j - i,
{
    if i < j {
        lemma_dec_value_prefix(s, i, j - 1);
        let t = s.take(j);
        assert(t.drop_last() =~= s.take(j - 1));
        assert(all_digits(s.take(j - 1))) by {
            assert(forall|k: int|
                0 <= k < j - 1 ==> s.take(j - 1)[k] == s[k] && is_digit(#[trigger] s[k]));
        }
        lemma_dec_value_nonneg(s.take(j - 1));
        let v = dec_value(s.take(j - 1));
        assert(is_digit(s[j - 1]));
        assert(dec_value(t) == v * 10 + (s[j - 1] - 0x30));
        assert(v * 10 >= v) by (nonlinear_arith)
            requires
                v >= 0,
        ;
    }
}

/// Index of the first occurrence of `c` in `s`, or `s.len()` if absent.
pub open spec fn find(s: Seq<u8>, c: u8) -> int
    decreases s.len(),
{
    if s.len() == 0 {
        0
    } else if s[0] == c {
        0
    } else {
        1 + find(s.drop_first(), c)
    }
}

/// `find` is characterized by: no occurrence before it, and an occurrence
/// at it unless it is `s.len()`.
pub proof fn lemma_find_is(s: Seq<u8>, c: u8, i: int)
    requires
        0 <= i <= s.len(),
        forall|k: int| 0 <= k < i ==> s[k] != c,
        i < s.len() ==> s[i] == c,
    ensures
        find(s, c) == i,
    decreases s.len(),
{
    if s.len() == 0 {
    } else if s[0] == c {
        assert(i == 0);
    } else {
        let t = s.drop_first();
        assert(forall|k: int| 0 <= k < t.len() ==> t[k] == s[k + 1]);
        lemma_find_is(t, c, i - 1);
    }
}

pub proof fn lemma_find_bounds(s: Seq<u8>, c: u8)
    ensures
        0 <= find(s, c) <= s.len(),
        forall|k: int| 0 <= k < find(s, c) ==> s[k] != c,
        find(s, c) < s.len() ==> s[find(s, c)] == c,
    decreases s.len(),
{
    if s.len() > 0 && s[0] != c {
        let t = s.drop_first();
        lemma_find_bounds(t, c);
        assert(forall|k: int| 0 <= k < t.len() ==> t[k] == s[k + 1]);
        assert forall|k: int| 0 <= k < find(s, c) implies s[k] != c by {
            if k > 0 {
                assert(t[k - 1] != c);
            }
        }
    }
}

/// First occurrence of `c` in `s`, as executable code.
pub fn find_byte(s: &[u8], c: u8) -> (r: usize)
    ensures
        r == find(s@, c),
        r <= s@.len(),
{
    let n = s.len();
    let mut i: usize = 0;
    while i < n
        invariant
            0 <= i <= n == s@.len(),
            forall|k: int| 0 <= k < i ==> s@[k] != c,
        decreases n - i,
    {
        if s[i] == c {
            proof {
                lemma_find_is(s@, c, i as int);
            }
            return i;
        }
        i += 1;
    }
    proof {
        lemma_find_is(s@, c, n as int);
    }
    n
}

/// A single pre-release or build identifier: non-empty, only ASCII
/// alphanumerics and hyphens, and — under pre-release rules — a purely
/// numeric identifier must not have a leading zero.
pub open spec fn valid_ident(s: Seq<u8>, pre_rules: bool) -> bool {
    &&& s.len() >= 1
    &&& forall|i: int| 0 <= i < s.len() ==> is_ident_char(#[trigger] s[i])
    &&& (pre_rules && all_digits(s) && s.len() > 1 ==> s[0] != 0x30)
}

/// A non-empty dot-separated list of valid identifiers.
pub open spec fn valid_idents(s: Seq<u8>, pre_rules: bool) -> bool
    decreases s.len(),
    via valid_idents_decreases
{
    let d = find(s, 0x2e);
    if d == s.len() {
        valid_ident(s, pre_rules)
    } else {
        valid_ident(s.take(d), pre_rules) && valid_idents(s.skip(d + 1), pre_rules)
    }
}

#[via_fn]
proof fn valid_idents_decreases(s: Seq<u8>, pre_rules: bool) {
    lemma_find_bounds(s, 0x2e);
}

/// Executable check of a single identifier.
pub fn check_ident(s: &[u8], pre_rules: bool) -> (r: bool)
    ensures
        r == valid_ident(s@, pre_rules),
{
    let n = s.len();
    if n == 0 {
        return false;
    }
    let mut i: usize = 0;
    let mut digits_only = true;
    while i < n
        invariant
            0 <= i <= n == s@.len(),
            forall|k: int| 0 <= k < i ==> is_ident_char(#[trigger] s@[k]),
            digits_only == (forall|k: int| 0 <= k < i ==> is_digit(#[trigger] s@[k])),
        decreases n - i,
    {
        let b = s[i];
        let is_d = 0x30 <= b && b <= 0x39;
        let ok = is_d || (0x41 <= b && b <= 0x5a) || (0x61 <= b && b <= 0x7a) || b == 0x2d;
        if !ok {
            assert(!is_ident_char(s@[i as int]));
            return false;
        }
        if !is_d {
            digits_only = false;
        }
        i += 1;
    }
    if pre_rules && digits_only && n > 1 && s[0] == 0x30 {
        return false;
    }
    true
}

/// Executable check of a dot-separated identifier list, mirroring
/// `valid_idents`.
pub fn check_idents(s: &[u8], pre_rules: bool) -> (r: bool)
    ensures
        r == valid_idents(s@, pre_rules),
    decreases s@.len(),
{
    proof {
        lemma_find_bounds(s@, 0x2e);
    }
    let d = find_byte(s, 0x2e);
    if d == s.len() {
        check_ident(s, pre_rules)
    } else {
        let head = vstd::slice::slice_subrange(s, 0, d);
        let tail = vstd::slice::slice_subrange(s, d + 1, s.len());
        assert(head@ =~= s@.take(d as int));
        assert(tail@ =~= s@.skip(d + 1));
        let ok_head = check_ident(head, pre_rules);
        if !ok_head {
            return false;
        }
        check_idents(tail, pre_rules)
    }
}

/// Every byte of a valid identifier list is an identifier character or a dot;
/// in particular it is ASCII.
pub proof fn lemma_idents_ascii(s: Seq<u8>, pre_rules: bool)
    requires
        valid_idents(s, pre_rules),
    ensures
        s.len() >= 1,
        forall|i: int| 0 <= i < s.len() ==> (is_ident_char(#[trigger] s[i]) || s[i] == 0x2e),
    decreases s.len(),
{
    lemma_find_bounds(s, 0x2e);
    let d = find(s, 0x2e);
    if d == s.len() {
    } else {
        lemma_idents_ascii(s.skip(d + 1), pre_rules);
        assert forall|i: int| 0 <= i < s.len() implies (is_ident_char(#[trigger] s[i]) || s[i]
            == 0x2e) by {
            if i < d {
                assert(s.take(d)[i] == s[i]);
                assert(is_ident_char(s.take(d)[i]));
            } else if i == d {
            } else {
                assert(s.skip(d + 1)[i - d - 1] == s[i]);
            }
        }
    }
}

/// Appends the canonical decimal digits of `n` to `out`.
pub fn push_dec(n: u64, out: &mut Vec<u8>)
    ensures
        final(out)@ == old(out)@ + dec_str(n as int),
    decreases n,
{
    if n >= 10 {
        push_dec(n / 10, out);
    }
    let d = (n % 10) as u8;
    out.push(0x30 + d);
    proof {
        if n < 10 {
            assert(out@ =~= old(out)@ + dec_str(n as int));
        } else {
            assert(out@ =~= old(out)@ + dec_str(n as int));
        }
    }
}

/// Parses an all-digit byte string into a `u64`; `None` when the string is
/// empty, holds a non-digit, or its value does not fit.
pub fn parse_dec_u64(s: &[u8]) -> (r: Option<u64>)
    ensures
        match r {
            Some(n) => s@.len() >= 1 && all_digits(s@) && dec_value(s@) == n as int,
            None => !(s@.len() >= 1 && all_digits(s@) && dec_value(s@) <= u64::MAX),
        },
{
    let n = s.len();
    if n == 0 {
        return None;
    }
    let mut i: usize = 0;
    let mut acc: u64 = 0;
    while i < n
        invariant
            0 <= i <= n == s@.len(),
            all_digits(s@.take(i as int)),
            acc as int == dec_value(s@.take(i as int)),
        decreases n - i,
    {
        let b = s[i];
        if !(0x30 <= b && b <= 0x39) {
            assert(!is_digit(s@[i as int]));
            return None;
        }
        let d = (b - 0x30) as u64;
        assert(s@.take(i + 1).drop_last() =~= s@.take(i as int));
        assert(all_digits(s@.take(i + 1))) by {
            assert(forall|k: int|
                0 <= k < i + 1 ==> s@.take(i + 1)[k] == s@[k]);
            assert(forall|k: int|
                0 <= k < i ==> is_digit(#[trigger] s@.take(i as int)[k]));
        }
        assert(dec_value(s@.take(i + 1)) == acc as int * 10 + d as int);
        if acc > u64::MAX / 10 || (acc == u64::MAX / 10 && d > u64::MAX % 10) {
            proof {
                if all_digits(s@) {
                    lemma_dec_value_prefix(s@, i + 1, n as int);
                    assert(s@.take(n as int) =~= s@);
                }
            }
            return None;
        }
        acc = acc * 10 + d;
        i += 1;
    }
    assert(s@.take(n as int) =~= s@);
    Some(acc)
}

} // verus!
