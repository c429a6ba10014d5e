//! The order of texts by code point is the order of their UTF-8 bytes.

use vstd::prelude::*;
use vstd::utf8;
use crate::text;

verus! {

/// Strict lexicographic order of bytes.
pub open spec fn bytes_less(a: Seq<u8>, b: Seq<u8>) -> bool
    decreases a.len(),
{
    if b.len() == 0 {
        false
    } else if a.len() == 0 {
        true
    } else if a.first() != b.first() {
        a.first() < b.first()
    } else {
        bytes_less(a.drop_first(), b.drop_first())
    }
}

/// `a` and `b` first differ at `at`.
spec fn first_differ_at(a: Seq<u8>, b: Seq<u8>, at: int) -> bool {
    &&& 0 <= at < a.len()
    &&& at < b.len()
    &&& a[at] != b[at]
    &&& forall|i: int| 0 <= i < at ==> a[i] == b[i]
}

/// The first difference decides.
proof fn lemma_first_difference_decides(a: Seq<u8>, b: Seq<u8>, at: int)
    requires
        first_differ_at(a, b, at),
    ensures
        bytes_less(a, b) == (a[at] < b[at]),
    decreases at,
{
    if at > 0 {
        assert(a[0] == b[0]);
        lemma_first_difference_decides(a.drop_first(), b.drop_first(), at - 1);
    }
}

/// A common start makes no difference.
proof fn lemma_common_start(start: Seq<u8>, a: Seq<u8>, b: Seq<u8>)
    ensures
        bytes_less(start + a, start + b) == bytes_less(a, b),
    decreases start.len(),
{
    if start.len() == 0 {
        assert(start + a =~= a);
        assert(start + b =~= b);
    } else {
        lemma_common_start(start.drop_first(), a, b);
        assert((start + a).drop_first() =~= start.drop_first() + a);
        assert((start + b).drop_first() =~= start.drop_first() + b);
    }
}

/// The encoding of a smaller code point comes before that of a larger one, whatever follows them.
proof fn lemma_encoding_keeps_order(x: u32, y: u32, after_x: Seq<u8>, after_y: Seq<u8>)
    requires
        utf8::is_scalar(x),
        utf8::is_scalar(y),
        x < y,
    ensures
        bytes_less(utf8::encode_scalar(x) + after_x, utf8::encode_scalar(y) + after_y),
        !bytes_less(utf8::encode_scalar(y) + after_y, utf8::encode_scalar(x) + after_x),
{
    let a = utf8::encode_scalar(x) + after_x;
    let b = utf8::encode_scalar(y) + after_y;
    lemma_lead_bytes(x);
    lemma_lead_bytes(y);
    let at = if utf8::has_width_1_encoding(x) || utf8::has_width_1_encoding(y)
        || utf8::has_width_2_encoding(x) != utf8::has_width_2_encoding(y)
        || utf8::has_width_3_encoding(x) != utf8::has_width_3_encoding(y) {
        if utf8::has_width_1_encoding(x) && utf8::has_width_1_encoding(y) {
            assert(((x & 0x7F) as u8) < ((y & 0x7F) as u8)) by (bit_vector)
                requires
                    x < y,
                    y <= 0x7F,
            ;
        }
        0
    } else if utf8::has_width_2_encoding(x) {
        assert({
            let x1 = 0xC0u8 | ((x >> 6) & 0x1F) as u8;
            let y1 = 0xC0u8 | ((y >> 6) & 0x1F) as u8;
            let x2 = 0x80u8 | (x & 0x3F) as u8;
            let y2 = 0x80u8 | (y & 0x3F) as u8;
            x1 < y1 || (x1 == y1 && x2 < y2)
        }) by (bit_vector)
            requires
                x < y,
                y <= 0x7FF,
        ;
        if a[0] != b[0] {
            0
        } else {
            1int
        }
    } else if utf8::has_width_3_encoding(x) {
        assert({
            let x1 = 0xE0u8 | ((x >> 12) & 0x0F) as u8;
            let y1 = 0xE0u8 | ((y >> 12) & 0x0F) as u8;
            let x2 = 0x80u8 | ((x >> 6) & 0x3F) as u8;
            let y2 = 0x80u8 | ((y >> 6) & 0x3F) as u8;
            let x3 = 0x80u8 | (x & 0x3F) as u8;
            let y3 = 0x80u8 | (y & 0x3F) as u8;
            x1 < y1 || (x1 == y1 && (x2 < y2 || (x2 == y2 && x3 < y3)))
        }) by (bit_vector)
            requires
                x < y,
                y <= 0xFFFF,
        ;
        if a[0] != b[0] {
            0
        } else if a[1] != b[1] {
            1
        } else {
            2int
        }
    } else {
        assert({
            let x1 = 0xF0u8 | ((x >> 18) & 0x7) as u8;
            let y1 = 0xF0u8 | ((y >> 18) & 0x7) as u8;
            let x2 = 0x80u8 | ((x >> 12) & 0x3F) as u8;
            let y2 = 0x80u8 | ((y >> 12) & 0x3F) as u8;
            let x3 = 0x80u8 | ((x >> 6) & 0x3F) as u8;
            let y3 = 0x80u8 | ((y >> 6) & 0x3F) as u8;
            let x4 = 0x80u8 | (x & 0x3F) as u8;
            let y4 = 0x80u8 | (y & 0x3F) as u8;
            x1 < y1 || (x1 == y1 && (x2 < y2 || (x2 == y2 && (x3 < y3 || (x3 == y3 && x4 < y4)))))
        }) by (bit_vector)
            requires
                x < y,
                y <= 0x10FFFF,
        ;
        if a[0] != b[0] {
            0
        } else if a[1] != b[1] {
            1
        } else if a[2] != b[2] {
            2
        } else {
            3int
        }
    };
    assert(first_differ_at(a, b, at));
    lemma_first_difference_decides(a, b, at);
    lemma_first_difference_decides(b, a, at);
}

/// The first byte of an encoding tells its length: a longer one starts with a larger byte.
proof fn lemma_lead_bytes(x: u32)
    requires
        utf8::is_scalar(x),
    ensures
        utf8::encode_scalar(x).len() > 0,
        utf8::has_width_1_encoding(x) ==> utf8::encode_scalar(x)[0] < 0xC0,
        utf8::has_width_2_encoding(x) ==> 0xC0 <= utf8::encode_scalar(x)[0] < 0xE0,
        utf8::has_width_3_encoding(x) ==> 0xE0 <= utf8::encode_scalar(x)[0] < 0xF0,
        utf8::has_width_4_encoding(x) ==> 0xF0 <= utf8::encode_scalar(x)[0],
{
    assert((x & 0x7F) as u8 <= 0x7F) by (bit_vector);
    assert(0xC0 <= 0xC0u8 | ((x >> 6) & 0x1F) as u8 && 0xC0u8 | ((x >> 6) & 0x1F) as u8 <= 0xDF)
        by (bit_vector);
    assert(0xE0 <= 0xE0u8 | ((x >> 12) & 0x0F) as u8 && 0xE0u8 | ((x >> 12) & 0x0F) as u8 <= 0xEF)
        by (bit_vector);
    assert(0xF0 <= 0xF0u8 | ((x >> 18) & 0x7) as u8) by (bit_vector);
}

/// The same for characters.
proof fn lemma_character_keeps_order(x: char, y: char, after_x: Seq<u8>, after_y: Seq<u8>)
    requires
        x != y,
    ensures
        bytes_less(
            utf8::encode_scalar(x as u32) + after_x,
            utf8::encode_scalar(y as u32) + after_y,
        ) == ((x as int) < (y as int)),
{
    utf8::char_is_scalar(x);
    utf8::char_is_scalar(y);
    if (x as int) < (y as int) {
        lemma_encoding_keeps_order(x as u32, y as u32, after_x, after_y);
    } else {
        lemma_encoding_keeps_order(y as u32, x as u32, after_y, after_x);
    }
}

/// Ordering texts by code point is ordering them by the bytes of their UTF-8 encoding.
pub proof fn law_text_order_is_byte_order(a: Seq<char>, b: Seq<char>)
    ensures
        text::text_less(a, b) == bytes_less(utf8::encode_utf8(a), utf8::encode_utf8(b)),
    decreases a.len(),
{
    if b.len() > 0 {
        if a.len() > 0 {
            let rest_a = utf8::encode_utf8(a.drop_first());
            let rest_b = utf8::encode_utf8(b.drop_first());
            if a[0] == b[0] {
                law_text_order_is_byte_order(a.drop_first(), b.drop_first());
                lemma_common_start(utf8::encode_scalar(a[0] as u32), rest_a, rest_b);
            } else {
                lemma_character_keeps_order(a[0], b[0], rest_a, rest_b);
            }
        }
    }
}

} // verus!
