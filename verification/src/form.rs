//! Url-encoded form bodies: `key=value` segments separated by `&`, where `+`
//! stands for a space and `%hh` for the byte with hex value `hh`. Keys and
//! values are decoded; a bad escape, or a decoded key or value that is not
//! valid UTF-8 text, makes the body malformed where it stands. Segments are
//! read left to right and the first segment whose decoded key matches gives
//! the field's value.

use vstd::prelude::*;

use crate::bytes_eq;
use crate::hex_val;
use crate::hex_value;
use crate::is_hex;
use crate::is_utf8;
use crate::utf8_check;

verus! {

/// The ampersand separating segments.
pub const AMP: u8 = 0x26;

/// The equals sign separating a key from its value.
pub const EQUALS: u8 = 0x3d;

/// The percent sign opening an escape.
pub const PERCENT: u8 = 0x25;

/// The plus sign standing for a space.
pub const PLUS: u8 = 0x2b;

/// The space written as `+`.
pub const SPACE: u8 = 0x20;

/// The index of the first occurrence of `c` in `s`, or `s.len()` if absent.
pub open spec fn first_occ(s: Seq<u8>, c: u8) -> int
    decreases s.len(),
{
    if s.len() == 0 {
        0
    } else if s[0] == c {
        0
    } else {
        1 + first_occ(s.skip(1), c)
    }
}

/// `first_occ` points at the first occurrence: everything before it differs
/// from `c`, and the position itself holds `c` unless `c` is absent.
pub proof fn lemma_first_occ(s: Seq<u8>, c: u8)
    ensures
        0 <= first_occ(s, c) <= s.len(),
        forall|t: int| 0 <= t < first_occ(s, c) ==> s[t] != c,
        first_occ(s, c) < s.len() ==> s[first_occ(s, c)] == c,
    decreases s.len(),
{
    if s.len() == 0 {
    } else if s[0] == c {
    } else {
        lemma_first_occ(s.skip(1), c);
        let i = first_occ(s, c);
        assert forall|t: int| 0 <= t < i implies s[t] != c by {
            if t > 0 {
                assert(s.skip(1)[t - 1] == s[t]);
            }
        }
        if i < s.len() {
            assert(s.skip(1)[i - 1] == s[i]);
        }
    }
}

/// A position before which `c` does not occur, and which holds `c` or is the
/// end, is exactly `first_occ`.
pub proof fn lemma_first_occ_is(s: Seq<u8>, c: u8, i: int)
    requires
        0 <= i <= s.len(),
        forall|t: int| 0 <= t < i ==> s[t] != c,
        i < s.len() ==> s[i] == c,
    ensures
        first_occ(s, c) == i,
    decreases s.len(),
{
    if s.len() == 0 {
    } else if s[0] == c {
    } else {
        assert(s[0] != c);
        assert(i != 0);
        assert forall|t: int| 0 <= t < i - 1 implies s.skip(1)[t] != c by {
            assert(s.skip(1)[t] == s[t + 1]);
        }
        if i - 1 < s.skip(1).len() {
            assert(s.skip(1)[i - 1] == s[i]);
        }
        lemma_first_occ_is(s.skip(1), c, i - 1);
    }
}

/// The decoded form of one url-encoded token, or `None` on a bad escape: a
/// `%` not followed by two hex digits.
pub open spec fn decoded(s: Seq<u8>) -> Option<Seq<u8>>
    decreases s.len(),
{
    if s.len() == 0 {
        Some(Seq::empty())
    } else if s[0] == PLUS {
        match decoded(s.skip(1)) {
            Some(r) => Some(seq![SPACE] + r),
            None => None,
        }
    } else if s[0] == PERCENT {
        if s.len() >= 3 && is_hex(s[1]) && is_hex(s[2]) {
            match decoded(s.skip(3)) {
                Some(r) => Some(seq![(hex_val(s[1]) * 16 + hex_val(s[2])) as u8] + r),
                None => None,
            }
        } else {
            None
        }
    } else {
        match decoded(s.skip(1)) {
            Some(r) => Some(seq![s[0]] + r),
            None => None,
        }
    }
}

/// The segments of a body: the parts between ampersands, in order. An empty
/// body has no segment; a trailing ampersand adds none.
pub open spec fn segments(s: Seq<u8>) -> Seq<Seq<u8>>
    decreases s.len(),
    via segments_dec
{
    if s.len() == 0 {
        Seq::empty()
    } else {
        let i = first_occ(s, AMP);
        if i == s.len() {
            seq![s]
        } else {
            seq![s.take(i)] + segments(s.skip(i + 1))
        }
    }
}

#[via_fn]
proof fn segments_dec(s: Seq<u8>) {
    lemma_first_occ(s, AMP);
}

/// The raw (still encoded) key of a segment: what stands before the first `=`.
pub open spec fn seg_key(seg: Seq<u8>) -> Seq<u8> {
    seg.take(first_occ(seg, EQUALS))
}

/// The raw (still encoded) value of a segment: what stands after the first
/// `=`, or nothing when the segment has no `=`.
pub open spec fn seg_val(seg: Seq<u8>) -> Seq<u8> {
    if first_occ(seg, EQUALS) == seg.len() {
        Seq::empty()
    } else {
        seg.skip(first_occ(seg, EQUALS) + 1)
    }
}

/// The outcome of looking a field up in a form body.
pub enum FieldSpec {
    /// A bad escape or non-UTF-8 text stood in a segment read before the
    /// field was found.
    Malformed,
    /// No segment's key matches.
    Missing,
    /// The decoded value of the first segment whose decoded key matches.
    Found(Seq<u8>),
}

/// Looks `key` up in the given segments, left to right.
pub open spec fn lookup_segs(segs: Seq<Seq<u8>>, key: Seq<u8>) -> FieldSpec
    decreases segs.len(),
{
    if segs.len() == 0 {
        FieldSpec::Missing
    } else {
        match (decoded(seg_key(segs[0])), decoded(seg_val(segs[0]))) {
            (Some(k), Some(v)) => if !is_utf8(k) || !is_utf8(v) {
                FieldSpec::Malformed
            } else if k == key {
                FieldSpec::Found(v)
            } else {
                lookup_segs(segs.skip(1), key)
            },
            _ => FieldSpec::Malformed,
        }
    }
}

/// A found field's value is valid UTF-8 text.
pub proof fn lemma_found_utf8(segs: Seq<Seq<u8>>, key: Seq<u8>)
    ensures
        lookup_segs(segs, key) matches FieldSpec::Found(v) ==> is_utf8(v),
    decreases segs.len(),
{
    if segs.len() > 0 {
        lemma_found_utf8(segs.skip(1), key);
    }
}

/// The value of field `key` in the url-encoded body, if any.
pub open spec fn form_field(body: Seq<u8>, key: Seq<u8>) -> FieldSpec {
    lookup_segs(segments(body), key)
}

/// The outcome of looking a field up, as executable data.
pub enum Field {
    Malformed,
    Missing,
    Found(Vec<u8>),
}

/// Whether an executable lookup outcome means the given specified one.
pub open spec fn field_matches(r: Field, f: FieldSpec) -> bool {
    match (r, f) {
        (Field::Malformed, FieldSpec::Malformed) => true,
        (Field::Missing, FieldSpec::Missing) => true,
        (Field::Found(v), FieldSpec::Found(w)) => v@ == w,
        _ => false,
    }
}

/// Finds the first occurrence of `c` in `s[from..to]`.
pub(crate) fn find_in(s: &[u8], from: usize, to: usize, c: u8) -> (r: usize)
    requires
        from <= to <= s@.len(),
    ensures
        from <= r <= to,
        r - from == first_occ(s@.subrange(from as int, to as int), c),
{
    let mut i: usize = from;
    while i < to && s[i] != c
        invariant
            from <= i <= to <= s@.len(),
            forall|t: int| from <= t < i ==> s@[t] != c,
        decreases to - i,
    {
        i = i + 1;
    }
    proof {
        let sub = s@.subrange(from as int, to as int);
        assert forall|t: int| 0 <= t < i - from implies sub[t] != c by {
            assert(sub[t] == s@[from + t]);
        }
        if i < to {
            assert(sub[i - from] == s@[i as int]);
        }
        lemma_first_occ_is(sub, c, i - from);
    }
    i
}

/// Decodes one url-encoded token; `None` exactly when it holds a bad escape.
pub fn decode_bytes(s: &[u8]) -> (r: Option<Vec<u8>>)
    ensures
        r matches Some(v) ==> decoded(s@) == Some(v@),
        r is None <==> decoded(s@) is None,
{
    let mut out: Vec<u8> = Vec::new();
    let mut i: usize = 0;
    proof {
        assert(s@.skip(0) =~= s@);
        match decoded(s@) {
            Some(r0) => {
                assert(Seq::<u8>::empty() + r0 =~= r0);
            },
            None => {},
        }
    }
    while i < s.len()
        invariant
            i <= s@.len(),
            decoded(s@) == (match decoded(s@.skip(i as int)) {
                Some(rest) => Some(out@ + rest),
                None => None::<Seq<u8>>,
            }),
        decreases s@.len() - i,
    {
        let ghost rem = s@.skip(i as int);
        proof {
            assert(rem[0] == s@[i as int]);
        }
        let ghost out0 = out@;
        if s[i] == PLUS {
            out.push(SPACE);
            proof {
                assert(rem.skip(1) =~= s@.skip(i + 1));
                match decoded(s@.skip(i + 1)) {
                    Some(r) => {
                        assert(decoded(rem) == Some(seq![SPACE] + r));
                        assert(out0 + (seq![SPACE] + r) =~= out@ + r);
                    },
                    None => {
                        assert(decoded(rem) is None);
                    },
                }
            }
            i = i + 1;
        } else if s[i] == PERCENT {
            if s.len() - i < 3 {
                proof {
                    assert(rem.len() < 3);
                    assert(decoded(rem) is None);
                }
                return None;
            }
            let hi = hex_value(s[i + 1]);
            let lo = hex_value(s[i + 2]);
            proof {
                assert(rem[1] == s@[i + 1]);
                assert(rem[2] == s@[i + 2]);
            }
            if hi == 16 || lo == 16 {
                proof {
                    assert(decoded(rem) is None);
                }
                return None;
            }
            out.push(hi * 16 + lo);
            proof {
                assert(rem.skip(3) =~= s@.skip(i + 3));
                match decoded(s@.skip(i + 3)) {
                    Some(r) => {
                        assert(decoded(rem) == Some(seq![(hex_val(rem[1]) * 16 + hex_val(rem[2])) as u8] + r));
                        assert(out0 + (seq![(hex_val(rem[1]) * 16 + hex_val(rem[2])) as u8] + r) =~= out@ + r);
                    },
                    None => {
                        assert(decoded(rem) is None);
                    },
                }
            }
            i = i + 3;
        } else {
            let b = s[i];
            out.push(b);
            proof {
                assert(rem.skip(1) =~= s@.skip(i + 1));
                match decoded(s@.skip(i + 1)) {
                    Some(r) => {
                        assert(decoded(rem) == Some(seq![rem[0]] + r));
                        assert(out0 + (seq![rem[0]] + r) =~= out@ + r);
                    },
                    None => {
                        assert(decoded(rem) is None);
                    },
                }
            }
            i = i + 1;
        }
    }
    proof {
        assert(s@.skip(i as int) =~= Seq::<u8>::empty());
        assert(decoded(Seq::<u8>::empty()) == Some(Seq::<u8>::empty()));
        assert(out@ + Seq::<u8>::empty() =~= out@);
    }
    Some(out)
}

/// Looks `key` up among the segments of `body[pos..]`.
fn lookup_from(body: &[u8], pos: usize, key: &[u8]) -> (r: Field)
    requires
        pos <= body@.len(),
    ensures
        field_matches(r, lookup_segs(segments(body@.skip(pos as int)), key@)),
    decreases body@.len() - pos,
{
    let ghost rem = body@.skip(pos as int);
    if pos == body.len() {
        proof {
            assert(rem =~= Seq::<u8>::empty());
        }
        return Field::Missing;
    }
    let end = find_in(body, pos, body.len(), AMP);
    proof {
        assert(body@.subrange(pos as int, body@.len() as int) =~= rem);
    }
    let ghost i = first_occ(rem, AMP);
    let ghost seg = if i == rem.len() { rem } else { rem.take(i) };
    proof {
        lemma_first_occ(rem, AMP);
        assert(i == end - pos);
        if i == rem.len() {
            assert(segments(rem) == seq![rem]);
            assert(segments(rem)[0] == seg);
        } else {
            assert(segments(rem) == seq![rem.take(i)] + segments(rem.skip(i + 1)));
            assert(segments(rem)[0] == seg);
        }
        assert(seg =~= body@.subrange(pos as int, end as int));
    }
    let eq = find_in(body, pos, end, EQUALS);
    let ghost e = first_occ(seg, EQUALS);
    proof {
        lemma_first_occ(seg, EQUALS);
        assert(e == eq - pos);
        assert(seg_key(seg) =~= body@.subrange(pos as int, eq as int));
    }
    let dkey = decode_bytes(slice_part(body, pos, eq));
    match dkey {
        None => {
            proof {
                assert(decoded(seg_key(segments(rem)[0])) is None);
            }
            Field::Malformed
        },
        Some(kv) => {
            if !utf8_check(kv.as_slice()) {
                proof {
                    match decoded(seg_val(seg)) {
                        Some(_) => {},
                        None => {},
                    }
                }
                return Field::Malformed;
            }
            let dval: Option<Vec<u8>> = if eq == end {
                proof {
                    assert(seg_val(seg) =~= Seq::<u8>::empty());
                    assert(decoded(seg_val(seg)) == Some(Seq::<u8>::empty()));
                }
                Some(Vec::new())
            } else {
                proof {
                    assert(seg_val(seg) =~= body@.subrange(eq + 1, end as int));
                }
                decode_bytes(slice_part(body, eq + 1, end))
            };
            match dval {
                None => {
                    proof {
                        assert(decoded(seg_val(segments(rem)[0])) is None);
                    }
                    Field::Malformed
                },
                Some(vv) => {
                    if !utf8_check(vv.as_slice()) {
                        return Field::Malformed;
                    }
                    if bytes_eq(kv.as_slice(), key) {
                        return Field::Found(vv);
                    }
                    if end == body.len() {
                        proof {
                            assert(i == rem.len());
                            assert(segments(rem) =~= seq![rem]);
                            assert(segments(rem).skip(1) =~= Seq::<Seq<u8>>::empty());
                            assert(lookup_segs(Seq::<Seq<u8>>::empty(), key@) == FieldSpec::Missing);
                        }
                        return Field::Missing;
                    }
                    let r2 = lookup_from(body, end + 1, key);
                    proof {
                        assert(rem.skip(i + 1) =~= body@.skip(end + 1));
                        assert(segments(rem).skip(1) =~= segments(rem.skip(i + 1)));
                    }
                    r2
                },
            }
        },
    }
}

/// The bytes of `s` from `from` (inclusive) to `to` (exclusive).
fn slice_part(s: &[u8], from: usize, to: usize) -> (r: &[u8])
    requires
        from <= to <= s@.len(),
    ensures
        r@ == s@.subrange(from as int, to as int),
{
    &s[from..to]
}

/// The value of field `key` in the url-encoded `body`.
pub fn form_field_get(body: &[u8], key: &[u8]) -> (r: Field)
    ensures
        field_matches(r, form_field(body@, key@)),
{
    proof {
        assert(body@.skip(0) =~= body@);
    }
    lookup_from(body, 0, key)
}

} // verus!
