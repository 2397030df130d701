//! Entry identifiers: 7-character BASE32 texts of a 35-bit integer,
//! produced and read by the `caretta_id` crate.
use vstd::prelude::*;

use caretta_id::CarettaId;

use crate::text::text_before;

verus! {

/// Number of distinct identifiers (32 to the 7th power).
pub const ID_LIMIT: u64 = 34_359_738_368;

/// The character `caretta_id` writes for a five-bit digit `d`, after its
/// encoding table: `0` to `9`, then the lower-case letters without `i`,
/// `l`, `o` and `u`.
pub open spec fn id_char(d: int) -> char {
    if d < 10 {
        (48 + d) as char
    } else if d < 18 {
        (97 + d - 10) as char
    } else if d < 20 {
        (106 + d - 18) as char
    } else if d < 22 {
        (109 + d - 20) as char
    } else if d < 27 {
        (112 + d - 22) as char
    } else {
        (118 + d - 27) as char
    }
}

/// The five-bit digit at position `i` (0 to 6, most significant first) of
/// the identifier whose integer is `value`.
pub open spec fn id_digit(value: u64, i: int) -> u64 {
    (value >> ((30 - 5 * i) as u64)) & 31u64
}

/// The seven characters `caretta_id` displays for the identifier whose
/// integer is `value` (taken modulo [`ID_LIMIT`]).
pub open spec fn id_text(value: u64) -> Seq<char> {
    Seq::new(7, |i: int| id_char(id_digit(value, i) as int))
}

/// The five-bit value `caretta_id`'s decoding table gives a character:
/// digits, and letters of either case, with `i` and `l` read as 1, `o` as
/// 0 and `u` as `v`; `None` for every other character.
pub open spec fn id_char_value(c: char) -> Option<int> {
    let u = c as u32 as int;
    let l = if 65 <= u <= 90 {
        u + 32
    } else {
        u
    };
    if 48 <= l <= 57 {
        Some(l - 48)
    } else if 97 <= l <= 104 {
        Some(l - 87)
    } else if l == 105 || l == 108 {
        Some(1)
    } else if l == 106 || l == 107 {
        Some(l - 88)
    } else if l == 109 || l == 110 {
        Some(l - 89)
    } else if l == 111 {
        Some(0)
    } else if 112 <= l <= 116 {
        Some(l - 90)
    } else if l == 117 || l == 118 {
        Some(27)
    } else if 119 <= l <= 122 {
        Some(l - 91)
    } else {
        None
    }
}

/// The value of a decodable character (0 when it is not one).
pub open spec fn id_char_val(c: char) -> int {
    match id_char_value(c) {
        Some(v) => v,
        None => 0,
    }
}

/// The integer of the identifier that `caretta_id` reads from `text`: a
/// text of seven decodable characters gives its base-32 value, most
/// significant digit first; anything else is rejected (`None`).
#[verifier::opaque]
pub open spec fn caretta_id_parse(text: Seq<char>) -> Option<u64> {
    if text.len() == 7 && forall|i: int| 0 <= i < 7 ==> (#[trigger] id_char_value(text[i])) is Some {
        Some(
            (id_char_val(text[0]) * 1073741824 + id_char_val(text[1]) * 33554432 + id_char_val(text[2])
                * 1048576 + id_char_val(text[3]) * 32768 + id_char_val(text[4]) * 1024 + id_char_val(
                text[5],
            ) * 32 + id_char_val(text[6])) as u64,
        )
    } else {
        None
    }
}

/// Reading back an identifier's text gives the identifier, below
/// [`ID_LIMIT`].
pub proof fn lemma_id_text_parse(value: u64)
    requires
        value < ID_LIMIT,
    ensures
        caretta_id_parse(id_text(value)) == Some(value),
{
    reveal(caretta_id_parse);
    let t = id_text(value);
    assert forall|i: int| 0 <= i < 7 implies id_char_value(#[trigger] t[i]) == Some(id_digit(value, i) as int) by {
        lemma_digit_bound(value, (30 - 5 * i) as u64);
    };
    assert(id_char_value(t[0]) is Some && id_char_value(t[1]) is Some && id_char_value(t[2]) is Some
        && id_char_value(t[3]) is Some && id_char_value(t[4]) is Some && id_char_value(t[5]) is Some
        && id_char_value(t[6]) is Some);
    assert(value == ((value >> 30u64) & 31u64) * 1073741824 + ((value >> 25u64) & 31u64) * 33554432
        + ((value >> 20u64) & 31u64) * 1048576 + ((value >> 15u64) & 31u64) * 32768 + ((value >> 10u64)
        & 31u64) * 1024 + ((value >> 5u64) & 31u64) * 32 + ((value >> 0u64) & 31u64)) by (bit_vector)
        requires
            value < 34_359_738_368u64,
    ;
}

/// A text accepted as an identifier has seven characters and a value
/// below [`ID_LIMIT`].
pub proof fn lemma_id_parse_bound(text: Seq<char>)
    ensures
        caretta_id_parse(text) matches Some(v) ==> text.len() == 7 && v < ID_LIMIT,
{
    reveal(caretta_id_parse);
    if caretta_id_parse(text) is Some {
        assert forall|i: int| 0 <= i < 7 implies 0 <= id_char_val(#[trigger] text[i]) < 32 by {
            assert(id_char_value(text[i]) is Some);
        };
        assert(0 <= id_char_val(text[0]) < 32 && 0 <= id_char_val(text[1]) < 32 && 0 <= id_char_val(text[2]) < 32
            && 0 <= id_char_val(text[3]) < 32 && 0 <= id_char_val(text[4]) < 32 && 0 <= id_char_val(text[5]) < 32
            && 0 <= id_char_val(text[6]) < 32);
    }
}

/// A character of the identifier alphabet: an ASCII digit or lower-case
/// letter.
pub open spec fn is_id_char(c: char) -> bool {
    ('0' <= c <= '9') || ('a' <= c <= 'z')
}

proof fn lemma_digit_bound(value: u64, s: u64)
    ensures
        (value >> s) & 31u64 <= 31,
{
    assert((value >> s) & 31u64 <= 31) by (bit_vector);
}

/// An identifier's text has seven characters from the identifier alphabet.
pub proof fn lemma_id_text_shape(value: u64)
    ensures
        id_text(value).len() == 7,
        forall|i: int| 0 <= i < 7 ==> is_id_char(#[trigger] id_text(value)[i]),
        forall|i: int| 0 <= i < 7 ==> (#[trigger] id_text(value)[i] as u32) < 0x80,
{
    assert forall|i: int| 0 <= i < 7 implies is_id_char(#[trigger] id_text(value)[i]) && (
    id_text(value)[i] as u32) < 0x80 by {
        lemma_digit_bound(value, (30 - 5 * i) as u64);
    };
}

proof fn lemma_id_char_order(d: int, e: int)
    requires
        0 <= d < e < 32,
    ensures
        (id_char(d) as u32) < (id_char(e) as u32),
{
}

proof fn lemma_digit_step(v: u64, w: u64, t: u64)
    requires
        t <= 30,
    ensures
        ((v >> (t + 5)) == (w >> (t + 5)) && ((v >> t) & 31u64) == ((w >> t) & 31u64)) ==> (v >> t)
            == (w >> t),
        ((v >> (t + 5)) == (w >> (t + 5)) && ((v >> t) & 31u64) != ((w >> t) & 31u64) && v < w) ==> ((
        v >> t) & 31u64) < ((w >> t) & 31u64),
{
    assert(((v >> (t + 5)) == (w >> (t + 5)) && ((v >> t) & 31u64) == ((w >> t) & 31u64)) ==> (v
        >> t) == (w >> t)) by (bit_vector)
        requires
            t <= 30,
    ;
    assert(((v >> (t + 5)) == (w >> (t + 5)) && ((v >> t) & 31u64) != ((w >> t) & 31u64) && v < w)
        ==> ((v >> t) & 31u64) < ((w >> t) & 31u64)) by (bit_vector)
        requires
            t <= 30,
    ;
}

/// The first digit position, from `i` on, where two identifiers differ; the
/// smaller identifier has the smaller digit there.
proof fn lemma_first_digit_diff(a: u64, b: u64, i: int) -> (j: int)
    requires
        0 <= i <= 7,
        a < b < ID_LIMIT,
        (a >> ((35 - 5 * i) as u64)) == (b >> ((35 - 5 * i) as u64)),
        forall|k: int| 0 <= k < i ==> id_digit(a, k) == id_digit(b, k),
    ensures
        i <= j < 7,
        forall|k: int| 0 <= k < j ==> id_digit(a, k) == id_digit(b, k),
        id_digit(a, j) < id_digit(b, j),
    decreases 7 - i,
{
    if i == 7 {
        assert(a >> 0u64 == a && b >> 0u64 == b) by (bit_vector);
        assert(false);
        0
    } else {
        let t = (30 - 5 * i) as u64;
        assert((35 - 5 * i) as u64 == t + 5);
        lemma_digit_step(a, b, t);
        if id_digit(a, i) == id_digit(b, i) {
            lemma_first_digit_diff(a, b, i + 1)
        } else {
            i
        }
    }
}

/// Identifier texts sort like the integers: below [`ID_LIMIT`], a smaller
/// identifier has a text that comes first in character order.
pub proof fn lemma_id_text_order(a: u64, b: u64)
    requires
        a < b < ID_LIMIT,
    ensures
        text_before(id_text(a), id_text(b)),
{
    assert(a >> 35u64 == 0 && b >> 35u64 == 0) by (bit_vector)
        requires
            a < 34_359_738_368u64,
            b < 34_359_738_368u64,
    ;
    let j = lemma_first_digit_diff(a, b, 0);
    lemma_digit_bound(b, (30 - 5 * j) as u64);
    lemma_id_char_order(id_digit(a, j) as int, id_digit(b, j) as int);
    let x = id_text(a);
    let y = id_text(b);
    assert(x.subrange(0, j) =~= y.subrange(0, j));
    assert((x[j] as u32) < (y[j] as u32));
}

/// Displays an identifier through `CarettaId`'s `Display` impl (built with
/// `CarettaId::from_u64_lossy`). Claimed: the text is seven characters, the
/// encoding-table characters of the integer's five-bit digits, most
/// significant first (as `CarettaId::to_chars` writes them).
#[verifier::external_body]
pub(crate) fn id_to_string(value: u64) -> (r: String)
    ensures
        r@ == id_text(value),
{
    CarettaId::from_u64_lossy(value).to_string()
}

/// Reads an identifier through `CarettaId`'s `FromStr` impl. Claimed: the
/// result is [`caretta_id_parse`] of the text (a seven-byte text decoded
/// character by character through `alphabet::DECODE_TABLE` and combined
/// as seven five-bit digits). The text is required to be ASCII, for on a
/// seven-byte text with fewer than seven characters the crate panics.
#[verifier::external_body]
pub(crate) fn id_parse(text: &str) -> (r: Option<u64>)
    requires
        forall|i: int| 0 <= i < text@.len() ==> (text@[i] as u32) < 0x80,
    ensures
        r == caretta_id_parse(text@),
{
    match text.parse::<CarettaId>() {
        Ok(id) => Some(id.to_u64()),
        Err(_) => None,
    }
}

/// An identifier from the current system time in tenths of a second since
/// the Unix epoch (`CarettaId::now_unix`). Claimed: it is below
/// [`ID_LIMIT`]; which value comes back depends on the clock.
#[verifier::external_body]
pub(crate) fn id_now() -> (r: u64)
    ensures
        r < ID_LIMIT,
{
    CarettaId::now_unix().to_u64()
}

} // verus!
