//! Reading and writing the canonical string form
//! `MAJOR.MINOR.PATCH[-PRERELEASE][+BUILD]`: a grammar specification, a
//! verified parser and serializer, and the proof that they are inverse.
use vstd::prelude::*;

use vstd::string::StringSliceAdditionalSpecFns;

use crate::text::{
    canonical_num, dec_str, dec_value, find, find_byte, check_idents, is_digit,
    lemma_canonical_round_trip, lemma_dec_str_props, lemma_dec_value_nonneg, lemma_find_bounds,
    lemma_find_is, lemma_idents_ascii, parse_dec_u64, push_dec, valid_idents,
};
use crate::version::{wf_model, SemVer, VersionModel};

verus! {

/// Malformed version text.
#[derive(Clone, Copy, Debug, PartialEq, Eq, Structural)]
pub struct ParseError;

/// A numeric component: canonical digits whose value fits in a `u64`.
pub open spec fn valid_num(s: Seq<u8>) -> bool {
    canonical_num(s) && dec_value(s) <= u64::MAX
}

/// The dotted numeric triple `MAJOR.MINOR.PATCH`, split at its first two
/// dots; anything else in it makes a component invalid.
pub open spec fn parse_triple(t: Seq<u8>) -> Option<(int, int, int)> {
    let d1 = find(t, 0x2e);
    if d1 == t.len() {
        None
    } else {
        let a = t.take(d1);
        let rest = t.skip(d1 + 1);
        let d2 = find(rest, 0x2e);
        if d2 == rest.len() {
            None
        } else {
            let b = rest.take(d2);
            let c = rest.skip(d2 + 1);
            if valid_num(a) && valid_num(b) && valid_num(c) {
                Some((dec_value(a), dec_value(b), dec_value(c)))
            } else {
                None
            }
        }
    }
}

/// The whole grammar: build metadata after the first `+`, pre-release text
/// after the first `-` of what remains, the numeric triple before it. The
/// result is the parsed model, or `None` for malformed text.
pub open spec fn parse_spec(b: Seq<u8>) -> Option<VersionModel> {
    let ip = find(b, 0x2b);
    let core = b.take(ip);
    let build = if ip < b.len() {
        b.skip(ip + 1)
    } else {
        Seq::<u8>::empty()
    };
    let hp = find(core, 0x2d);
    let triple = core.take(hp);
    let pre = if hp < core.len() {
        core.skip(hp + 1)
    } else {
        Seq::<u8>::empty()
    };
    if (ip < b.len() ==> valid_idents(build, false)) && (hp < core.len() ==> valid_idents(
        pre,
        true,
    )) {
        match parse_triple(triple) {
            Some((ma, mi, pa)) => Some(
                VersionModel { major: ma, minor: mi, patch: pa, pre, build },
            ),
            None => None,
        }
    } else {
        None
    }
}

/// The canonical rendering of a model: the dotted triple, `-` plus the
/// pre-release text when present, `+` plus the build text when present.
pub open spec fn ser_spec(m: VersionModel) -> Seq<u8> {
    dec_str(m.major) + seq![0x2eu8] + dec_str(m.minor) + seq![0x2eu8] + dec_str(m.patch) + (if m.pre.len()
        > 0 {
        seq![0x2du8] + m.pre
    } else {
        Seq::<u8>::empty()
    }) + (if m.build.len() > 0 {
        seq![0x2bu8] + m.build
    } else {
        Seq::<u8>::empty()
    })
}

/// The characters of a sequence of bytes below 0x80, one per byte.
pub open spec fn ascii_chars_of(s: Seq<u8>) -> Seq<char> {
    Seq::new(s.len(), |i: int| s[i] as char)
}

/// A numeric component, as executable code.
fn parse_num(s: &[u8]) -> (r: Option<u64>)
    ensures
        match r {
            Some(v) => valid_num(s@) && dec_value(s@) == v as int,
            None => !valid_num(s@),
        },
{
    if s.len() > 1 && s[0] == 0x30 {
        return None;
    }
    parse_dec_u64(s)
}

impl SemVer {
    /// Reads a version from its byte form; `Err` exactly on text that the
    /// grammar rejects.
    pub fn parse_bytes(b: &[u8]) -> (r: Result<SemVer, ParseError>)
        ensures
            match r {
                Ok(v) => parse_spec(b@) == Some(v@) && v.wf(),
                Err(_) => parse_spec(b@) is None,
            },
    {
        let n = b.len();
        let ip = find_byte(b, 0x2b);
        let core = vstd::slice::slice_subrange(b, 0, ip);
        assert(core@ =~= b@.take(ip as int));
        let hp = find_byte(core, 0x2d);
        let triple = vstd::slice::slice_subrange(core, 0, hp);
        assert(triple@ =~= core@.take(hp as int));

        // The numeric triple.
        let d1 = find_byte(triple, 0x2e);
        if d1 == triple.len() {
            return Err(ParseError);
        }
        let a = vstd::slice::slice_subrange(triple, 0, d1);
        let rest = vstd::slice::slice_subrange(triple, d1 + 1, triple.len());
        assert(a@ =~= triple@.take(d1 as int));
        assert(rest@ =~= triple@.skip(d1 + 1));
        let d2 = find_byte(rest, 0x2e);
        if d2 == rest.len() {
            return Err(ParseError);
        }
        let bs = vstd::slice::slice_subrange(rest, 0, d2);
        let c = vstd::slice::slice_subrange(rest, d2 + 1, rest.len());
        assert(bs@ =~= rest@.take(d2 as int));
        assert(c@ =~= rest@.skip(d2 + 1));
        let ma = match parse_num(a) {
            Some(v) => v,
            None => {
                return Err(ParseError);
            },
        };
        let mi = match parse_num(bs) {
            Some(v) => v,
            None => {
                return Err(ParseError);
            },
        };
        let pa = match parse_num(c) {
            Some(v) => v,
            None => {
                return Err(ParseError);
            },
        };

        // Pre-release text, when a `-` follows the triple.
        let mut pre: Vec<u8> = Vec::new();
        if hp < core.len() {
            let pre_slice = vstd::slice::slice_subrange(core, hp + 1, core.len());
            assert(pre_slice@ =~= core@.skip(hp + 1));
            if !check_idents(pre_slice, true) {
                return Err(ParseError);
            }
            pre = vstd::slice::slice_to_vec(pre_slice);
        }

        // Build metadata, when a `+` follows.
        let mut build: Vec<u8> = Vec::new();
        if ip < n {
            let build_slice = vstd::slice::slice_subrange(b, ip + 1, n);
            assert(build_slice@ =~= b@.skip(ip + 1));
            if !check_idents(build_slice, false) {
                return Err(ParseError);
            }
            build = vstd::slice::slice_to_vec(build_slice);
        }

        let v = SemVer { major: ma, minor: mi, patch: pa, pre, build };
        proof {
            if hp < core@.len() {
            } else {
                assert(v@.pre =~= Seq::<u8>::empty());
            }
            if ip < n {
            } else {
                assert(v@.build =~= Seq::<u8>::empty());
            }
            lemma_dec_value_nonneg(a@);
            lemma_dec_value_nonneg(bs@);
            lemma_dec_value_nonneg(c@);
            assert(parse_spec(b@) == Some(v@));
        }
        Ok(v)
    }

    /// Reads a version from a string slice.
    pub fn parse(s: &str) -> (r: Result<SemVer, ParseError>)
        ensures
            match r {
                Ok(v) => parse_spec(s.spec_bytes()) == Some(v@) && v.wf(),
                Err(_) => parse_spec(s.spec_bytes()) is None,
            },
    {
        Self::parse_bytes(s.as_bytes())
    }

    /// Writes the canonical byte form; its bytes are ASCII whenever the
    /// value is well-formed.
    pub fn serialize_bytes(&self) -> (r: Vec<u8>)
        ensures
            r@ == ser_spec(self@),
            self.wf() ==> forall|i: int| 0 <= i < r@.len() ==> r@[i] < 0x80,
    {
        let mut out: Vec<u8> = Vec::new();
        push_dec(self.major, &mut out);
        out.push(0x2e);
        push_dec(self.minor, &mut out);
        out.push(0x2e);
        push_dec(self.patch, &mut out);
        proof {
            lemma_dec_str_props(self@.major);
            lemma_dec_str_props(self@.minor);
            lemma_dec_str_props(self@.patch);
            assert(out@ =~= dec_str(self@.major) + seq![0x2eu8] + dec_str(self@.minor)
                + seq![0x2eu8] + dec_str(self@.patch));
        }
        if self.pre.len() > 0 {
            out.push(0x2d);
            let mut i: usize = 0;
            while i < self.pre.len()
                invariant
                    0 <= i <= self.pre@.len(),
                    out@ == dec_str(self@.major) + seq![0x2eu8] + dec_str(self@.minor)
                        + seq![0x2eu8] + dec_str(self@.patch) + seq![0x2du8] + self.pre@.take(
                        i as int,
                    ),
                decreases self.pre@.len() - i,
            {
                let x = self.pre[i];
                out.push(x);
                assert(out@ =~= dec_str(self@.major) + seq![0x2eu8] + dec_str(self@.minor)
                    + seq![0x2eu8] + dec_str(self@.patch) + seq![0x2du8] + self.pre@.take(
                    i + 1,
                ));
                i += 1;
            }
            assert(self.pre@.take(self.pre@.len() as int) =~= self.pre@);
        }
        let ghost mid = out@;
        if self.build.len() > 0 {
            out.push(0x2b);
            let mut i: usize = 0;
            while i < self.build.len()
                invariant
                    0 <= i <= self.build@.len(),
                    out@ == mid + seq![0x2bu8] + self.build@.take(i as int),
                decreases self.build@.len() - i,
            {
                let x = self.build[i];
                out.push(x);
                assert(out@ =~= mid + seq![0x2bu8] + self.build@.take(i + 1));
                i += 1;
            }
            assert(self.build@.take(self.build@.len() as int) =~= self.build@);
        }
        proof {
            assert(out@ =~= ser_spec(self@));
            if self.wf() {
                lemma_dec_str_props(self@.major);
                lemma_dec_str_props(self@.minor);
                lemma_dec_str_props(self@.patch);
                if self@.pre.len() > 0 {
                    lemma_idents_ascii(self@.pre, true);
                }
                if self@.build.len() > 0 {
                    lemma_idents_ascii(self@.build, false);
                }
                assert forall|i: int| 0 <= i < out@.len() implies out@[i] < 0x80 by {
                    lemma_ser_index_ascii(self@, i);
                }
            }
        }
        out
    }

    /// The canonical string form.
    pub fn to_string(&self) -> (r: String)
        requires
            self.wf(),
        ensures
            r@ == ascii_chars_of(ser_spec(self@)),
    {
        let bytes = self.serialize_bytes();
        ascii_string_of(bytes)
    }
}

/// Every byte of the rendering of a well-formed model is ASCII.
proof fn lemma_ser_index_ascii(m: VersionModel, i: int)
    requires
        wf_model(m),
        0 <= i < ser_spec(m).len(),
    ensures
        ser_spec(m)[i] < 0x80,
{
    lemma_dec_str_props(m.major);
    lemma_dec_str_props(m.minor);
    lemma_dec_str_props(m.patch);
    if m.pre.len() > 0 {
        lemma_idents_ascii(m.pre, true);
    }
    if m.build.len() > 0 {
        lemma_idents_ascii(m.build, false);
    }
    let s = ser_spec(m);
    let p1 = dec_str(m.major);
    let p2 = dec_str(m.minor);
    let p3 = dec_str(m.patch);
    let pp = if m.pre.len() > 0 {
        seq![0x2du8] + m.pre
    } else {
        Seq::<u8>::empty()
    };
    let bp = if m.build.len() > 0 {
        seq![0x2bu8] + m.build
    } else {
        Seq::<u8>::empty()
    };
    assert(s =~= p1 + seq![0x2eu8] + p2 + seq![0x2eu8] + p3 + pp + bp);
    // Locate index `i` in one of the pieces; each piece is ASCII.
    let n1 = p1.len() as int;
    let n2 = p2.len() as int;
    let n3 = p3.len() as int;
    if i < n1 {
        assert(crate::text::is_digit(p1[i]));
    } else if i == n1 {
    } else if i < n1 + 1 + n2 {
        assert(crate::text::is_digit(p2[i - n1 - 1]));
    } else if i == n1 + 1 + n2 {
    } else if i < n1 + 1 + n2 + 1 + n3 {
        assert(crate::text::is_digit(p3[i - n1 - 1 - n2 - 1]));
    } else {
        let j = i - (n1 + 1 + n2 + 1 + n3);
        if j < pp.len() {
            assert(s[i] == pp[j]);
            if j > 0 {
                assert(pp[j] == m.pre[j - 1]);
                assert(crate::text::is_ident_char(m.pre[j - 1]) || m.pre[j - 1] == 0x2e);
            }
        } else {
            let k = j - pp.len();
            assert(s[i] == bp[k]);
            if k > 0 {
                assert(bp[k] == m.build[k - 1]);
                assert(crate::text::is_ident_char(m.build[k - 1]) || m.build[k - 1] == 0x2e);
            }
        }
    }
}

/// Relies on `String::from_utf8`: bytes below 0x80 are single-byte UTF-8
/// sequences and decode to the characters with the same code points.
#[verifier::external_body]
fn ascii_string_of(v: Vec<u8>) -> (r: String)
    requires
        forall|i: int| 0 <= i < v@.len() ==> v@[i] < 0x80,
    ensures
        r@ == ascii_chars_of(v@),
{
    String::from_utf8(v).unwrap_or_default()
}

/// Parsing then serializing restores a valid version string exactly: the
/// model that `parse_spec` accepts renders back to the very same bytes, and
/// is well-formed.
pub proof fn lemma_parse_serialize_round_trip(b: Seq<u8>)
    requires
        parse_spec(b) is Some,
    ensures
        wf_model(parse_spec(b)->Some_0),
        ser_spec(parse_spec(b)->Some_0) == b,
{
    let m = parse_spec(b)->Some_0;
    lemma_find_bounds(b, 0x2b);
    let ip = find(b, 0x2b);
    let core = b.take(ip);
    let build = if ip < b.len() {
        b.skip(ip + 1)
    } else {
        Seq::<u8>::empty()
    };
    lemma_find_bounds(core, 0x2d);
    let hp = find(core, 0x2d);
    let triple = core.take(hp);
    let pre = if hp < core.len() {
        core.skip(hp + 1)
    } else {
        Seq::<u8>::empty()
    };
    lemma_find_bounds(triple, 0x2e);
    let d1 = find(triple, 0x2e);
    let a = triple.take(d1);
    let rest = triple.skip(d1 + 1);
    lemma_find_bounds(rest, 0x2e);
    let d2 = find(rest, 0x2e);
    let bs = rest.take(d2);
    let c = rest.skip(d2 + 1);
    assert(valid_num(a) && valid_num(bs) && valid_num(c));
    lemma_canonical_round_trip(a);
    lemma_canonical_round_trip(bs);
    lemma_canonical_round_trip(c);
    lemma_dec_value_nonneg(a);
    lemma_dec_value_nonneg(bs);
    lemma_dec_value_nonneg(c);
    assert(m.major == dec_value(a) && m.minor == dec_value(bs) && m.patch == dec_value(c));
    assert(dec_str(m.major) == a && dec_str(m.minor) == bs && dec_str(m.patch) == c);
    if hp < core.len() {
        lemma_idents_ascii(pre, true);
    }
    if ip < b.len() {
        lemma_idents_ascii(build, false);
    }
    // Reassemble the split points from the inside out.
    assert(rest =~= bs + seq![0x2eu8] + c);
    assert(triple =~= a + seq![0x2eu8] + rest);
    if hp < core.len() {
        assert(core =~= triple + seq![0x2du8] + pre);
    } else {
        assert(core =~= triple);
    }
    if ip < b.len() {
        assert(b =~= core + seq![0x2bu8] + build);
    } else {
        assert(b =~= core);
    }
    assert(ser_spec(m) =~= b);
}

/// Serializing then parsing restores a well-formed model exactly: the
/// canonical rendering is itself a valid version string, and it reads back
/// to the very same value.
pub proof fn lemma_serialize_parse_round_trip(m: VersionModel)
    requires
        wf_model(m),
    ensures
        parse_spec(ser_spec(m)) == Some(m),
{
    let s = ser_spec(m);
    let a = dec_str(m.major);
    let b2 = dec_str(m.minor);
    let c = dec_str(m.patch);
    lemma_dec_str_props(m.major);
    lemma_dec_str_props(m.minor);
    lemma_dec_str_props(m.patch);
    if m.pre.len() > 0 {
        lemma_idents_ascii(m.pre, true);
    }
    if m.build.len() > 0 {
        lemma_idents_ascii(m.build, false);
    }
    let pp = if m.pre.len() > 0 {
        seq![0x2du8] + m.pre
    } else {
        Seq::<u8>::empty()
    };
    let bp = if m.build.len() > 0 {
        seq![0x2bu8] + m.build
    } else {
        Seq::<u8>::empty()
    };
    assert(s =~= a + seq![0x2eu8] + b2 + seq![0x2eu8] + c + pp + bp);
    let n1 = a.len() as int;
    let n2 = b2.len() as int;
    let n3 = c.len() as int;
    let triple_len = n1 + 1 + n2 + 1 + n3;
    let core_len = triple_len + pp.len() as int;

    // No byte before the build separator is a '+'.
    assert forall|k: int| 0 <= k < core_len implies s[k] != 0x2b by {
        lemma_ser_piece(m, k);
    }
    if m.build.len() > 0 {
        assert(s[core_len] == bp[0] == 0x2b);
        lemma_find_is(s, 0x2b, core_len);
    } else {
        assert(s.len() == core_len);
        lemma_find_is(s, 0x2b, core_len);
    }
    let core = s.take(core_len);
    assert(core =~= a + seq![0x2eu8] + b2 + seq![0x2eu8] + c + pp);
    if m.build.len() > 0 {
        assert(s.skip(core_len + 1) =~= m.build);
    }

    // No byte of the triple is a '-'; the pre-release separator, when
    // present, is the first one.
    assert forall|k: int| 0 <= k < triple_len implies core[k] != 0x2d by {
        assert(core[k] == s[k]);
        lemma_ser_piece(m, k);
    }
    if m.pre.len() > 0 {
        assert(core[triple_len] == pp[0] == 0x2d);
        lemma_find_is(core, 0x2d, triple_len);
        assert(core.skip(triple_len + 1) =~= m.pre);
    } else {
        assert(core.len() == triple_len);
        lemma_find_is(core, 0x2d, triple_len);
    }
    let triple = core.take(triple_len);
    assert(triple =~= a + seq![0x2eu8] + b2 + seq![0x2eu8] + c);

    // The first two dots split the triple into its three digit strings.
    assert forall|k: int| 0 <= k < n1 implies triple[k] != 0x2e by {
        assert(triple[k] == a[k]);
        assert(is_digit(a[k]));
    }
    assert(triple[n1] == 0x2e);
    lemma_find_is(triple, 0x2e, n1);
    assert(triple.take(n1) =~= a);
    let rest = triple.skip(n1 + 1);
    assert(rest =~= b2 + seq![0x2eu8] + c);
    assert forall|k: int| 0 <= k < n2 implies rest[k] != 0x2e by {
        assert(rest[k] == b2[k]);
        assert(is_digit(b2[k]));
    }
    assert(rest[n2] == 0x2e);
    lemma_find_is(rest, 0x2e, n2);
    assert(rest.take(n2) =~= b2);
    assert(rest.skip(n2 + 1) =~= c);

    assert(parse_spec(s) == Some(m)) by {
        assert(parse_spec(s)->Some_0 =~= m);
    }
}

/// In the rendering of a well-formed model, every byte before the build
/// separator is a digit, a dot, or — at or after the pre-release separator —
/// a pre-release byte; none of them is a `+`, and none of the triple's bytes
/// is a `-`.
proof fn lemma_ser_piece(m: VersionModel, k: int)
    requires
        wf_model(m),
        0 <= k < dec_str(m.major).len() + 1 + dec_str(m.minor).len() + 1 + dec_str(
            m.patch,
        ).len() + (if m.pre.len() > 0 {
            1 + m.pre.len() as int
        } else {
            0
        }),
    ensures
        ser_spec(m)[k] != 0x2b,
        k < dec_str(m.major).len() + 1 + dec_str(m.minor).len() + 1 + dec_str(m.patch).len()
            ==> ser_spec(m)[k] != 0x2d,
{
    lemma_dec_str_props(m.major);
    lemma_dec_str_props(m.minor);
    lemma_dec_str_props(m.patch);
    if m.pre.len() > 0 {
        lemma_idents_ascii(m.pre, true);
    }
    if m.build.len() > 0 {
        lemma_idents_ascii(m.build, false);
    }
    let s = ser_spec(m);
    let p1 = dec_str(m.major);
    let p2 = dec_str(m.minor);
    let p3 = dec_str(m.patch);
    let pp = if m.pre.len() > 0 {
        seq![0x2du8] + m.pre
    } else {
        Seq::<u8>::empty()
    };
    let bp = if m.build.len() > 0 {
        seq![0x2bu8] + m.build
    } else {
        Seq::<u8>::empty()
    };
    assert(s =~= p1 + seq![0x2eu8] + p2 + seq![0x2eu8] + p3 + pp + bp);
    let n1 = p1.len() as int;
    let n2 = p2.len() as int;
    let n3 = p3.len() as int;
    if k < n1 {
        assert(is_digit(p1[k]));
    } else if k == n1 {
    } else if k < n1 + 1 + n2 {
        assert(is_digit(p2[k - n1 - 1]));
    } else if k == n1 + 1 + n2 {
    } else if k < n1 + 1 + n2 + 1 + n3 {
        assert(is_digit(p3[k - n1 - 1 - n2 - 1]));
    } else {
        let j = k - (n1 + 1 + n2 + 1 + n3);
        assert(s[k] == pp[j]);
        if j > 0 {
            assert(pp[j] == m.pre[j - 1]);
            assert(crate::text::is_ident_char(m.pre[j - 1]) || m.pre[j - 1] == 0x2e);
        }
    }
}

} // verus!
