//! Post identifiers: 16 random bytes, written in the canonical hyphenated
//! lowercase hex text form of 36 bytes (8-4-4-4-12 digits).

use vstd::prelude::*;

use crate::hex_digit;
use crate::hex_digit_of;
use crate::hex_val;
use crate::hex_value;
use crate::is_hex;

verus! {

/// The ASCII hyphen.
pub const HYPHEN: u8 = 0x2d;

/// Whether position `i` of the 36-byte text form holds a hyphen.
pub open spec fn is_hyphen_pos(i: int) -> bool {
    i == 8 || i == 13 || i == 18 || i == 23
}

/// For a non-hyphen position of the text form, the index of the hex digit standing there.
pub open spec fn digit_index(i: int) -> int {
    if i < 8 {
        i
    } else if i < 13 {
        i - 1
    } else if i < 18 {
        i - 2
    } else if i < 23 {
        i - 3
    } else {
        i - 4
    }
}

/// The position in the text form where hex digit `j` stands.
pub open spec fn digit_pos(j: int) -> int {
    if j < 8 {
        j
    } else if j < 12 {
        j + 1
    } else if j < 16 {
        j + 2
    } else if j < 20 {
        j + 3
    } else {
        j + 4
    }
}

/// The canonical text form of a 16-byte identifier: 32 lowercase hex digits
/// with hyphens at positions 8, 13, 18 and 23.
pub open spec fn id_text_of(b: Seq<u8>) -> Seq<u8>
    recommends
        b.len() == 16,
{
    Seq::new(
        36,
        |i: int|
            if is_hyphen_pos(i) {
                HYPHEN
            } else {
                let j = digit_index(i);
                if j % 2 == 0 {
                    hex_digit((b[j / 2] / 16) as u8)
                } else {
                    hex_digit((b[j / 2] % 16) as u8)
                }
            },
    )
}

/// Whether a byte sequence is a well-formed identifier text: 36 bytes,
/// hyphens exactly at positions 8, 13, 18 and 23, hex digits (either case)
/// everywhere else.
pub open spec fn well_formed_id(s: Seq<u8>) -> bool {
    &&& s.len() == 36
    &&& forall|i: int|
        0 <= i < 36 && is_hyphen_pos(i) ==> #[trigger] s[i] == HYPHEN
    &&& forall|i: int|
        0 <= i < 36 && !is_hyphen_pos(i) ==> is_hex(#[trigger] s[i])
}

/// The 16 identifier bytes read back from a well-formed text form.
pub open spec fn id_bytes_of(s: Seq<u8>) -> Seq<u8>
    recommends
        well_formed_id(s),
{
    Seq::new(
        16,
        |k: int| (hex_val(s[digit_pos(2 * k)]) * 16 + hex_val(s[digit_pos(2 * k + 1)])) as u8,
    )
}

/// A post identifier: 16 bytes.
pub struct PostId {
    bytes: Vec<u8>,
}

impl View for PostId {
    type V = Seq<u8>;

    closed spec fn view(&self) -> Seq<u8> {
        self.bytes@
    }
}

impl PostId {
    /// Whether the identifier holds exactly 16 bytes.
    pub open spec fn wf(&self) -> bool {
        self@.len() == 16
    }

    /// Builds an identifier from its 16 raw bytes.
    pub fn from_bytes(bytes: Vec<u8>) -> (r: PostId)
        requires
            bytes@.len() == 16,
        ensures
            r@ == bytes@,
            r.wf(),
    {
        PostId { bytes }
    }

    /// The identifier's raw bytes.
    pub fn as_bytes(&self) -> (r: &[u8])
        ensures
            r@ == self@,
    {
        self.bytes.as_slice()
    }

    /// An identifier with the same bytes.
    pub fn duplicate(&self) -> (r: PostId)
        ensures
            r@ == self@,
    {
        let mut v: Vec<u8> = Vec::new();
        let mut i: usize = 0;
        while i < self.bytes.len()
            invariant
                i <= self.bytes@.len(),
                v@ =~= self.bytes@.take(i as int),
            decreases self.bytes@.len() - i,
        {
            v.push(self.bytes[i]);
            i = i + 1;
        }
        proof {
            assert(v@ =~= self.bytes@);
        }
        PostId { bytes: v }
    }

    /// Writes the identifier in its canonical text form.
    pub fn to_text(&self) -> (r: Vec<u8>)
        requires
            self.wf(),
        ensures
            r@ == id_text_of(self@),
    {
        let mut out: Vec<u8> = Vec::new();
        let mut i: usize = 0;
        while i < 36
            invariant
                self.wf(),
                i <= 36,
                out@.len() == i,
                forall|t: int| 0 <= t < i ==> out@[t] == id_text_of(self@)[t],
            decreases 36 - i,
        {
            if i == 8 || i == 13 || i == 18 || i == 23 {
                out.push(HYPHEN);
            } else {
                let j: usize = if i < 8 {
                    i
                } else if i < 13 {
                    i - 1
                } else if i < 18 {
                    i - 2
                } else if i < 23 {
                    i - 3
                } else {
                    i - 4
                };
                let b = self.bytes[j / 2];
                let v = if j % 2 == 0 {
                    b / 16
                } else {
                    b % 16
                };
                out.push(hex_digit_of(v));
            }
            i = i + 1;
        }
        proof {
            assert(out@ =~= id_text_of(self@));
        }
        out
    }

    /// Reads an identifier from its text form; `None` exactly when the text
    /// is not a well-formed identifier.
    pub fn parse(s: &[u8]) -> (r: Option<PostId>)
        ensures
            r is Some <==> well_formed_id(s@),
            r matches Some(id) ==> id.wf() && id@ == id_bytes_of(s@),
    {
        if s.len() != 36 {
            return None;
        }
        let mut i: usize = 0;
        while i < 36
            invariant
                s@.len() == 36,
                i <= 36,
                forall|t: int|
                    0 <= t < i && is_hyphen_pos(t) ==> #[trigger] s@[t] == HYPHEN,
                forall|t: int|
                    0 <= t < i && !is_hyphen_pos(t) ==> is_hex(#[trigger] s@[t]),
            decreases 36 - i,
        {
            if i == 8 || i == 13 || i == 18 || i == 23 {
                if s[i] != HYPHEN {
                    return None;
                }
            } else {
                if hex_value(s[i]) == 16 {
                    return None;
                }
            }
            i = i + 1;
        }
        assert(well_formed_id(s@));
        let mut bytes: Vec<u8> = Vec::new();
        let mut k: usize = 0;
        while k < 16
            invariant
                s@.len() == 36,
                well_formed_id(s@),
                k <= 16,
                bytes@.len() == k,
                forall|t: int| 0 <= t < k ==> bytes@[t] == id_bytes_of(s@)[t],
            decreases 16 - k,
        {
            let hi_pos = text_pos(2 * k);
            let lo_pos = text_pos(2 * k + 1);
            proof {
                lemma_digit_pos(2 * (k as int));
                lemma_digit_pos(2 * (k as int) + 1);
            }
            let hi = hex_value(s[hi_pos]);
            let lo = hex_value(s[lo_pos]);
            bytes.push(hi * 16 + lo);
            k = k + 1;
        }
        proof {
            assert(bytes@ =~= id_bytes_of(s@));
        }
        Some(PostId { bytes })
    }
}

/// The text position of hex digit `j`.
fn text_pos(j: usize) -> (r: usize)
    requires
        j < 32,
    ensures
        r == digit_pos(j as int),
{
    if j < 8 {
        j
    } else if j < 12 {
        j + 1
    } else if j < 16 {
        j + 2
    } else if j < 20 {
        j + 3
    } else {
        j + 4
    }
}

/// Each hex digit of the text form stands at a non-hyphen position inside the
/// 36 bytes, and the two index maps invert one another there.
pub proof fn lemma_digit_pos(j: int)
    requires
        0 <= j < 32,
    ensures
        0 <= digit_pos(j) < 36,
        !is_hyphen_pos(digit_pos(j)),
        digit_index(digit_pos(j)) == j,
{
}

/// A hex digit written for a value below 16 reads back as that value.
pub proof fn lemma_hex_digit_round_trip(v: u8)
    requires
        v < 16,
    ensures
        is_hex(hex_digit(v)),
        hex_val(hex_digit(v)) == v,
{
}

/// The canonical text form of any 16 bytes is well formed, and parsing it
/// yields those bytes back.
pub proof fn lemma_id_text_round_trip(b: Seq<u8>)
    requires
        b.len() == 16,
    ensures
        well_formed_id(id_text_of(b)),
        id_bytes_of(id_text_of(b)) == b,
{
    let s = id_text_of(b);
    assert forall|i: int| 0 <= i < 36 && !is_hyphen_pos(i) implies is_hex(#[trigger] s[i]) by {
        let j = digit_index(i);
        if j % 2 == 0 {
            lemma_hex_digit_round_trip((b[j / 2] / 16) as u8);
        } else {
            lemma_hex_digit_round_trip((b[j / 2] % 16) as u8);
        }
    }
    assert(well_formed_id(s));
    assert forall|k: int| 0 <= k < 16 implies id_bytes_of(s)[k] == b[k] by {
        lemma_digit_pos(2 * k);
        lemma_digit_pos(2 * k + 1);
        lemma_hex_digit_round_trip((b[k] / 16) as u8);
        lemma_hex_digit_round_trip((b[k] % 16) as u8);
        assert(s[digit_pos(2 * k)] == hex_digit((b[k] / 16) as u8));
        assert(s[digit_pos(2 * k + 1)] == hex_digit((b[k] % 16) as u8));
        assert(id_bytes_of(s)[k] == (b[k] / 16 * 16 + b[k] % 16) as u8);
    }
    assert(id_bytes_of(s) =~= b);
}

/// Every byte of a canonical identifier text is ASCII.
pub proof fn lemma_id_text_ascii(b: Seq<u8>)
    requires
        b.len() == 16,
    ensures
        forall|i: int| 0 <= i < id_text_of(b).len() ==> id_text_of(b)[i] < 0x80,
{
    let s = id_text_of(b);
    assert forall|i: int| 0 <= i < s.len() implies s[i] < 0x80 by {
        if !is_hyphen_pos(i) {
            let j = digit_index(i);
        }
    }
}

} // verus!
