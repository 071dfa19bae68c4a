//! Percent decoding.
//!
//! A `%` stands for one byte together with the two characters that follow it. The
//! two characters are cut out of the text by their bytes, which has no answer
//! where the cut would fall inside a character: [`is_clean`] tells the texts on
//! which that never happens.

use crate::text::{contains_text, decode_lossy, holds_bytes};
use vstd::prelude::*;
use vstd::string::*;
use vstd::utf8::{decode_utf8, encode_utf8, is_ascii_chars, is_char_boundary, valid_utf8};

verus! {

/// The value of a hexadecimal digit.
pub open spec fn hex_digit(b: u8) -> Option<u8> {
    if 48 <= b <= 57 {
        Some((b - 48) as u8)
    } else if 65 <= b <= 70 {
        Some((b - 55) as u8)
    } else if 97 <= b <= 102 {
        Some((b - 87) as u8)
    } else {
        None
    }
}

/// What `u8::from_str_radix` reads from two bytes: two hexadecimal digits, or a
/// plus sign and one.
pub open spec fn hex_pair(hi: u8, lo: u8) -> Option<u8> {
    match (hex_digit(hi), hex_digit(lo)) {
        (Some(h), Some(l)) => Some((h * 16 + l) as u8),
        (None, Some(l)) => if hi == 43 {
            Some(l)
        } else {
            None
        },
        _ => None,
    }
}

/// The bytes that an encoded text stands for from a place on. Where `plus` is set,
/// a plus sign stands for a space.
pub open spec fn decoded_from(b: Seq<u8>, i: int, plus: bool) -> Seq<u8>
    decreases b.len() - i,
{
    if i < 0 || i >= b.len() {
        Seq::empty()
    } else if b[i] == 37 && i + 2 < b.len() && hex_pair(b[i + 1], b[i + 2]) is Some {
        seq![hex_pair(b[i + 1], b[i + 2])->0] + decoded_from(b, i + 3, plus)
    } else if plus && b[i] == 43 {
        seq![32u8] + decoded_from(b, i + 1, plus)
    } else {
        seq![b[i]] + decoded_from(b, i + 1, plus)
    }
}

/// Whether no `%` that is met from a place on cuts a character apart.
pub open spec fn clean_from(b: Seq<u8>, i: int) -> bool
    decreases b.len() - i,
{
    if i < 0 || i >= b.len() {
        true
    } else if b[i] == 37 && i + 2 < b.len() {
        &&& is_char_boundary(b, i + 3)
        &&& if hex_pair(b[i + 1], b[i + 2]) is Some {
            clean_from(b, i + 3)
        } else {
            clean_from(b, i + 1)
        }
    } else {
        clean_from(b, i + 1)
    }
}

/// Whether a text can be decoded.
pub open spec fn clean(text: Seq<char>) -> bool {
    clean_from(encode_utf8(text), 0)
}

/// The text that an encoded text stands for. Bytes that are no UTF-8 are replaced.
pub open spec fn decoded(text: Seq<char>, plus: bool) -> Seq<char> {
    crate::text::lossy_text(decoded_from(encode_utf8(text), 0, plus))
}

fn hex_of(b: u8) -> (r: Option<u8>)
    ensures
        r == hex_digit(b),
{
    if 48 <= b && b <= 57 {
        Some(b - 48)
    } else if 65 <= b && b <= 70 {
        Some(b - 55)
    } else if 97 <= b && b <= 102 {
        Some(b - 87)
    } else {
        None
    }
}

fn pair_of(hi: u8, lo: u8) -> (r: Option<u8>)
    ensures
        r == hex_pair(hi, lo),
{
    match (hex_of(hi), hex_of(lo)) {
        (Some(h), Some(l)) => Some(h * 16 + l),
        (None, Some(l)) => if hi == 43 {
            Some(l)
        } else {
            None
        },
        _ => None,
    }
}

/// Whether a text can be decoded.
pub fn is_clean(text: &str) -> (r: bool)
    ensures
        r == clean(text@),
{
    let b = text.as_bytes();
    let mut i: usize = 0;
    while i < b.len()
        invariant
            i <= b@.len(),
            b@ == encode_utf8(text@),
            clean(text@) == clean_from(b@, i as int),
        decreases b.len() - i,
    {
        if b[i] == 37 && b.len() - i > 2 {
            if !text.is_char_boundary(i + 3) {
                return false;
            }
            match pair_of(b[i + 1], b[i + 2]) {
                Some(_) => {
                    i = i + 3;
                },
                None => {
                    i = i + 1;
                },
            }
        } else {
            i = i + 1;
        }
    }
    true
}

/// Whether the ASCII texts that occur in a text are those whose bytes occur in a byte
/// sequence.
pub open spec fn same_ascii(text: Seq<char>, b: Seq<u8>) -> bool {
    forall|m: Seq<char>|
        is_ascii_chars(m) && m.len() > 0 ==> #[trigger] contains_text(text, m) == holds_bytes(b, encode_utf8(m))
}

/// Decodes a text. What is ASCII comes out as it went in, whether or not the rest is
/// UTF-8.
pub fn decode(text: &str, plus: bool) -> (r: String)
    requires
        clean(text@),
    ensures
        r@ == decoded(text@, plus),
        valid_utf8(decoded_from(encode_utf8(text@), 0, plus)) ==> r@ == decode_utf8(
            decoded_from(encode_utf8(text@), 0, plus),
        ),
        same_ascii(r@, decoded_from(encode_utf8(text@), 0, plus)),
{
    let b = text.as_bytes();
    let mut out: Vec<u8> = Vec::new();
    let mut i: usize = 0;
    assert(out@ + decoded_from(b@, 0, plus) =~= decoded_from(b@, 0, plus));
    while i < b.len()
        invariant
            i <= b@.len(),
            b@ == encode_utf8(text@),
            out@ + decoded_from(b@, i as int, plus) == decoded_from(b@, 0, plus),
        decreases b.len() - i,
    {
        let ghost was = out@;
        let ghost at = i as int;
        let mut step: usize = 1;
        let mut byte: u8 = b[i];
        if b[i] == 37 && b.len() - i > 2 {
            match pair_of(b[i + 1], b[i + 2]) {
                Some(x) => {
                    byte = x;
                    step = 3;
                },
                None => {},
            }
        } else if plus && b[i] == 43 {
            byte = 32;
        }
        out.push(byte);
        i = i + step;
        assert(out@ + decoded_from(b@, i as int, plus) =~= was + decoded_from(b@, at, plus));
    }
    assert(out@ + decoded_from(b@, i as int, plus) =~= out@);
    decode_lossy(&out)
}

/// Decodes a text, and what comes of it once more; nothing where either cannot be.
pub fn percent_decode_twice(text: &str) -> (r: Option<String>)
    ensures
        r is Some <==> clean(text@) && clean(decoded(text@, false)),
        r matches Some(t) ==> t@ == decoded(decoded(text@, false), false) && same_ascii(
            t@,
            decoded_from(encode_utf8(decoded(text@, false)), 0, false),
        ),
{
    if !is_clean(text) {
        return None;
    }
    let once = decode(text, false);
    if !is_clean(once.as_str()) {
        return None;
    }
    Some(decode(once.as_str(), false))
}

/// Whether a text is another with each of its characters, which are ASCII, written as an
/// escape: a `%` and two hexadecimal digits of either case.
pub open spec fn escapes_all(t: Seq<char>, v: Seq<char>) -> bool {
    &&& is_ascii_chars(t)
    &&& t.len() == 3 * v.len()
    &&& forall|i: int|
        0 <= i < v.len() ==> t[3 * i] == '%' && escape_of(t[3 * i + 1], t[3 * i + 2]) == Some(#[trigger] v[i] as u8)
}

/// The byte that two hexadecimal digits stand for.
pub open spec fn escape_of(hi: char, lo: char) -> Option<u8> {
    match (hex_digit(hi as u8), hex_digit(lo as u8)) {
        (Some(h), Some(l)) => Some((h * 16 + l) as u8),
        _ => None,
    }
}

proof fn lemma_escapes_decode(t: Seq<char>, v: Seq<char>, i: int)
    requires
        is_ascii_chars(v),
        escapes_all(t, v),
        0 <= i <= v.len(),
    ensures
        decoded_from(encode_utf8(t), 3 * i, false) == encode_utf8(v).skip(i),
    decreases v.len() - i,
{
    vstd::utf8::is_ascii_chars_encode_utf8(t);
    vstd::utf8::is_ascii_chars_encode_utf8(v);
    let b = encode_utf8(t);
    if i < v.len() {
        lemma_escapes_decode(t, v, i + 1);
        assert(v[i] as u8 == encode_utf8(v)[i]);
        assert(b[3 * i] == t[3 * i] as u8 && b[3 * i + 1] == t[3 * i + 1] as u8 && b[3 * i + 2] == t[3 * i + 2] as u8);
        assert(hex_pair(b[3 * i + 1], b[3 * i + 2]) == Some(encode_utf8(v)[i]));
        assert(3 * (i + 1) == 3 * i + 3);
        assert(encode_utf8(v).skip(i) =~= seq![encode_utf8(v)[i]] + encode_utf8(v).skip(i + 1));
    } else {
        assert(encode_utf8(v).skip(i) =~= Seq::empty());
    }
}

proof fn lemma_ascii_clean_from(t: Seq<char>, i: int)
    requires
        is_ascii_chars(t),
        0 <= i,
    ensures
        clean_from(encode_utf8(t), i),
    decreases t.len() - i,
{
    let b = encode_utf8(t);
    vstd::utf8::is_ascii_chars_encode_utf8(t);
    vstd::utf8::encode_utf8_valid_utf8(t);
    if i < b.len() {
        lemma_ascii_clean_from(t, i + 1);
        if b[i] == 37 && i + 2 < b.len() {
            lemma_ascii_clean_from(t, i + 3);
            if i + 3 < b.len() {
                assert(b[i + 3] == t[i + 3] as u8);
                vstd::utf8::is_char_boundary_iff_not_is_continuation_byte(b, i + 3);
            } else {
                vstd::utf8::is_char_boundary_start_end_of_seq(b);
            }
        }
    }
}

/// A text of ASCII characters can be decoded.
pub proof fn lemma_ascii_is_clean(t: Seq<char>)
    requires
        is_ascii_chars(t),
    ensures
        clean(t),
{
    lemma_ascii_clean_from(t, 0);
}

/// Decoding undoes escaping: an ASCII text that is written in escapes alone comes out as
/// it was.
pub proof fn law_decoding_undoes_escaping(t: Seq<char>, v: Seq<char>)
    requires
        is_ascii_chars(v),
        escapes_all(t, v),
    ensures
        clean(t),
        decoded_from(encode_utf8(t), 0, false) == encode_utf8(v),
        decoded(t, false) == v,
{
    lemma_ascii_is_clean(t);
    lemma_escapes_decode(t, v, 0);
    assert(encode_utf8(v).skip(0) =~= encode_utf8(v));
    vstd::utf8::encode_utf8_valid_utf8(v);
    vstd::utf8::encode_utf8_decode_utf8(v);
}

proof fn lemma_plain_decodes(b: Seq<u8>, i: int, plus: bool)
    requires
        0 <= i <= b.len(),
        forall|j: int| 0 <= j < b.len() ==> #[trigger] b[j] != 37,
    ensures
        decoded_from(b, i, plus) == b.skip(i).map_values(
            |c: u8|
                if plus && c == 43 {
                    32u8
                } else {
                    c
                },
        ),
    decreases b.len() - i,
{
    let turned = |c: u8|
        if plus && c == 43 {
            32u8
        } else {
            c
        };
    if i < b.len() {
        lemma_plain_decodes(b, i + 1, plus);
        assert(b.skip(i).map_values(turned) =~= seq![turned(b[i])] + b.skip(i + 1).map_values(turned));
    } else {
        assert(b.skip(i).map_values(turned) =~= Seq::empty());
    }
}

/// A text without escapes stands for itself, but that in a query a plus stands for a space.
pub proof fn law_a_plus_is_a_space_in_a_query(t: Seq<char>)
    requires
        is_ascii_chars(t),
        !t.contains('%'),
    ensures
        clean(t),
        decoded(t, false) == t,
        decoded(t, true) == crate::text::with_char(t, '+', ' '),
{
    lemma_ascii_is_clean(t);
    let b = encode_utf8(t);
    vstd::utf8::is_ascii_chars_encode_utf8(t);
    assert forall|j: int| 0 <= j < b.len() implies #[trigger] b[j] != 37 by {
        assert(t.contains(t[j]));
        assert(b[j] == t[j] as u8);
    }
    lemma_plain_decodes(b, 0, false);
    lemma_plain_decodes(b, 0, true);
    let w = crate::text::with_char(t, '+', ' ');
    assert(is_ascii_chars(w));
    vstd::utf8::is_ascii_chars_encode_utf8(w);
    assert(decoded_from(b, 0, false) =~= b);
    assert forall|j: int| 0 <= j < b.len() implies decoded_from(b, 0, true)[j] == #[trigger] encode_utf8(w)[j] by {
        assert(b[j] == t[j] as u8);
        assert(encode_utf8(w)[j] == w[j] as u8);
    }
    assert(decoded_from(b, 0, true) =~= encode_utf8(w));
    vstd::utf8::encode_utf8_valid_utf8(t);
    vstd::utf8::encode_utf8_decode_utf8(t);
    vstd::utf8::encode_utf8_valid_utf8(w);
    vstd::utf8::encode_utf8_decode_utf8(w);
}

} // verus!
