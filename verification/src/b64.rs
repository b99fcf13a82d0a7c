//! Standard base64 with padding, as a mathematical function on byte
//! strings, and its injectivity. The stored credential digest is base64
//! text; injectivity is what lets a mismatch of digests stand for a
//! mismatch of derived keys.

use vstd::prelude::*;

verus! {

/// Code point of the digit for a 6-bit value: `A`..`Z`, `a`..`z`,
/// `0`..`9`, `+`, `/`.
pub open spec fn b64_code(v: int) -> int {
    if v < 26 {
        65 + v
    } else if v < 52 {
        71 + v
    } else if v < 62 {
        v - 4
    } else if v == 62 {
        43
    } else {
        47
    }
}

/// The digit character for a 6-bit value.
pub open spec fn b64_digit(v: int) -> char {
    (b64_code(v) as u8) as char
}

/// The last four characters when one byte is left over.
pub open spec fn b64_tail1(b0: u8) -> Seq<char> {
    seq![b64_digit(b0 as int / 4), b64_digit((b0 as int % 4) * 16), '=', '=']
}

/// The last four characters when two bytes are left over.
pub open spec fn b64_tail2(b0: u8, b1: u8) -> Seq<char> {
    seq![
        b64_digit(b0 as int / 4),
        b64_digit((b0 as int % 4) * 16 + b1 as int / 16),
        b64_digit((b1 as int % 16) * 4),
        '=',
    ]
}

/// Four digits for a full three-byte group.
pub open spec fn b64_group(b0: u8, b1: u8, b2: u8) -> Seq<char> {
    seq![
        b64_digit(b0 as int / 4),
        b64_digit((b0 as int % 4) * 16 + b1 as int / 16),
        b64_digit((b1 as int % 16) * 4 + b2 as int / 64),
        b64_digit(b2 as int % 64),
    ]
}

/// The padded standard base64 text of a byte string.
pub open spec fn b64_chars(s: Seq<u8>) -> Seq<char>
    decreases s.len(),
{
    if s.len() == 0 {
        Seq::empty()
    } else if s.len() == 1 {
        b64_tail1(s[0])
    } else if s.len() == 2 {
        b64_tail2(s[0], s[1])
    } else {
        b64_group(s[0], s[1], s[2]) + b64_chars(s.skip(3))
    }
}

/// Encoded length: four characters for every started three-byte group.
pub proof fn lemma_b64_len(s: Seq<u8>)
    ensures
        b64_chars(s).len() == 4 * ((s.len() + 2) / 3),
    decreases s.len(),
{
    if s.len() >= 3 {
        lemma_b64_len(s.skip(3));
    }
}

/// Digits read back as their code points.
pub proof fn lemma_b64_digit_code(v: int)
    requires
        0 <= v < 64,
    ensures
        b64_digit(v) as u32 == b64_code(v),
        b64_digit(v) != '=',
{
    assert(0 <= b64_code(v) < 256);
    assert(b64_digit(v) as u32 == b64_code(v));
    assert('=' as u32 == 61);
    assert(b64_code(v) != 61);
}

/// No two 6-bit values share a digit.
pub proof fn lemma_b64_digit_injective(v: int, w: int)
    requires
        0 <= v < 64,
        0 <= w < 64,
        b64_digit(v) == b64_digit(w),
    ensures
        v == w,
{
    lemma_b64_digit_code(v);
    lemma_b64_digit_code(w);
    assert(b64_code(v) == b64_code(w));
}

/// A full group's digits pin the three bytes down.
pub proof fn lemma_b64_group_injective(x0: u8, x1: u8, x2: u8, y0: u8, y1: u8, y2: u8)
    requires
        b64_group(x0, x1, x2) == b64_group(y0, y1, y2),
    ensures
        x0 == y0,
        x1 == y1,
        x2 == y2,
{
    let gx = b64_group(x0, x1, x2);
    let gy = b64_group(y0, y1, y2);
    assert(gx[0] == gy[0] && gx[1] == gy[1] && gx[2] == gy[2] && gx[3] == gy[3]);
    lemma_b64_digit_injective(x0 as int / 4, y0 as int / 4);
    lemma_b64_digit_injective(
        (x0 as int % 4) * 16 + x1 as int / 16,
        (y0 as int % 4) * 16 + y1 as int / 16,
    );
    lemma_b64_digit_injective(
        (x1 as int % 16) * 4 + x2 as int / 64,
        (y1 as int % 16) * 4 + y2 as int / 64,
    );
    lemma_b64_digit_injective(x2 as int % 64, y2 as int % 64);
    assert(x0 as int % 4 == y0 as int % 4 && x1 as int / 16 == y1 as int / 16);
    assert(x1 as int % 16 == y1 as int % 16 && x2 as int / 64 == y2 as int / 64);
}

/// A one-byte tail's digits pin the byte down.
pub proof fn lemma_b64_tail1_injective(x0: u8, y0: u8)
    requires
        b64_tail1(x0) == b64_tail1(y0),
    ensures
        x0 == y0,
{
    let gx = b64_tail1(x0);
    let gy = b64_tail1(y0);
    assert(gx[0] == gy[0] && gx[1] == gy[1]);
    lemma_b64_digit_injective(x0 as int / 4, y0 as int / 4);
    lemma_b64_digit_injective((x0 as int % 4) * 16, (y0 as int % 4) * 16);
}

/// A two-byte tail's digits pin the bytes down.
pub proof fn lemma_b64_tail2_injective(x0: u8, x1: u8, y0: u8, y1: u8)
    requires
        b64_tail2(x0, x1) == b64_tail2(y0, y1),
    ensures
        x0 == y0,
        x1 == y1,
{
    let gx = b64_tail2(x0, x1);
    let gy = b64_tail2(y0, y1);
    assert(gx[0] == gy[0] && gx[1] == gy[1] && gx[2] == gy[2]);
    lemma_b64_digit_injective(x0 as int / 4, y0 as int / 4);
    lemma_b64_digit_injective(
        (x0 as int % 4) * 16 + x1 as int / 16,
        (y0 as int % 4) * 16 + y1 as int / 16,
    );
    lemma_b64_digit_injective((x1 as int % 16) * 4, (y1 as int % 16) * 4);
    assert(x0 as int % 4 == y0 as int % 4 && x1 as int / 16 == y1 as int / 16);
}

/// No byte string shares its base64 text with another: the padded
/// encoding is injective.
pub proof fn lemma_b64_injective(x: Seq<u8>, y: Seq<u8>)
    requires
        b64_chars(x) == b64_chars(y),
    ensures
        x == y,
    decreases x.len(),
{
    lemma_b64_len(x);
    lemma_b64_len(y);
    if x.len() == 0 {
        assert(y.len() == 0);
        assert(x =~= y);
    } else if x.len() == 1 {
        assert(y.len() == 1 || y.len() == 2 || y.len() == 3);
        if y.len() == 1 {
            lemma_b64_tail1_injective(x[0], y[0]);
            assert(x =~= y);
        } else if y.len() == 2 {
            assert(b64_chars(x)[2] == '=');
            lemma_b64_digit_code((y[1] as int % 16) * 4);
            assert(b64_chars(y)[2] != '=');
        } else {
            assert(b64_chars(x)[3] == '=');
            assert(b64_chars(y)[3] == b64_group(y[0], y[1], y[2])[3]);
            lemma_b64_digit_code(y[2] as int % 64);
            assert(b64_chars(y)[3] != '=');
        }
    } else if x.len() == 2 {
        assert(y.len() == 1 || y.len() == 2 || y.len() == 3);
        if y.len() == 1 {
            assert(b64_chars(y)[2] == '=');
            lemma_b64_digit_code((x[1] as int % 16) * 4);
            assert(b64_chars(x)[2] != '=');
        } else if y.len() == 2 {
            lemma_b64_tail2_injective(x[0], x[1], y[0], y[1]);
            assert(x =~= y);
        } else {
            assert(b64_chars(x)[3] == '=');
            assert(b64_chars(y)[3] == b64_group(y[0], y[1], y[2])[3]);
            lemma_b64_digit_code(y[2] as int % 64);
            assert(b64_chars(y)[3] != '=');
        }
    } else {
        if y.len() == 1 {
            assert(b64_chars(y)[3] == '=');
            assert(b64_chars(x)[3] == b64_group(x[0], x[1], x[2])[3]);
            lemma_b64_digit_code(x[2] as int % 64);
            assert(b64_chars(x)[3] != '=');
            assert(false);
        } else if y.len() == 2 {
            assert(b64_chars(y)[3] == '=');
            assert(b64_chars(x)[3] == b64_group(x[0], x[1], x[2])[3]);
            lemma_b64_digit_code(x[2] as int % 64);
            assert(b64_chars(x)[3] != '=');
            assert(false);
        } else {
            assert(b64_chars(x)[0] == b64_group(x[0], x[1], x[2])[0]);
            assert(b64_chars(x)[1] == b64_group(x[0], x[1], x[2])[1]);
            assert(b64_chars(x)[2] == b64_group(x[0], x[1], x[2])[2]);
            assert(b64_chars(x)[3] == b64_group(x[0], x[1], x[2])[3]);
            assert(b64_group(x[0], x[1], x[2]) =~= b64_group(y[0], y[1], y[2]));
            lemma_b64_group_injective(x[0], x[1], x[2], y[0], y[1], y[2]);
            assert(b64_chars(x.skip(3)) =~= b64_chars(x).subrange(4, b64_chars(x).len() as int));
            assert(b64_chars(y.skip(3)) =~= b64_chars(y).subrange(4, b64_chars(y).len() as int));
            lemma_b64_injective(x.skip(3), y.skip(3));
            assert(x =~= x.take(3) + x.skip(3));
            assert(y =~= y.take(3) + y.skip(3));
            assert(x.take(3) =~= y.take(3));
        }
    }
}

} // verus!
