//! Building text: decimal numbers and padding.

use vstd::prelude::*;
use vstd::string::StringSliceAdditionalSpecFns;
use vstd::utf8::{decode_utf8, encode_utf8, is_ascii_chars, is_char_boundary, valid_utf8};

verus! {

/// `String::push` appends one character.
pub assume_specification[ String::push ](s: &mut String, c: char)
    ensures
        final(s)@ == old(s)@.push(c),
;

/// The character of a decimal digit.
pub open spec fn digit_char(d: nat) -> char
    recommends
        d < 10,
{
    ((48 + d) as u8) as char
}

/// The decimal digits of a number, most significant first, without leading
/// zeros.
pub open spec fn decimal_digits(n: nat) -> Seq<char>
    decreases n,
{
    if n < 10 {
        seq![digit_char(n)]
    } else {
        decimal_digits(n / 10).push(digit_char(n % 10))
    }
}

/// The decimal digits of a number, filled up with leading zeros to at least
/// `width` digits.
pub open spec fn zero_padded(n: nat, width: nat) -> Seq<char>
    decreases width,
{
    if width <= decimal_digits(n).len() {
        decimal_digits(n)
    } else {
        seq!['0'] + zero_padded(n, (width - 1) as nat)
    }
}

/// The character of a decimal digit.
pub fn digit(d: u8) -> (c: char)
    requires
        d < 10,
    ensures
        c == digit_char(d as nat),
{
    (48u8 + d) as char
}

/// Appends the decimal digits of `n` to `out`.
pub fn push_decimal(out: &mut String, n: u64)
    ensures
        final(out)@ == old(out)@ + decimal_digits(n as nat),
    decreases n,
{
    if n >= 10 {
        push_decimal(out, n / 10);
    }
    out.push(digit((n % 10) as u8));
    proof {
        if n >= 10 {
            assert(old(out)@ + decimal_digits(n as nat) =~= (old(out)@
                + decimal_digits((n / 10) as nat)).push(
                digit_char((n % 10) as nat),
            ));
        } else {
            assert(old(out)@ + decimal_digits(n as nat) =~= old(out)@.push(digit_char(n as nat)));
        }
    }
}

/// The decimal digits of `n` as text.
pub fn decimal(n: u64) -> (out: String)
    ensures
        out@ == decimal_digits(n as nat),
{
    let mut out = String::new();
    push_decimal(&mut out, n);
    proof {
        assert(Seq::<char>::empty() + decimal_digits(n as nat) =~= decimal_digits(n as nat));
    }
    out
}

/// A number has at least one digit.
pub proof fn lemma_decimal_digits_len(n: nat)
    ensures
        decimal_digits(n).len() >= 1,
        n >= 10 ==> decimal_digits(n).len() >= 2,
    decreases n,
{
    if n >= 10 {
        lemma_decimal_digits_len(n / 10);
    }
}

/// Appends the decimal digits of `n` to `out`, with a leading zero if there
/// is only one.
pub fn push_two_digits(out: &mut String, n: u64)
    ensures
        final(out)@ == old(out)@ + zero_padded(n as nat, 2),
{
    proof {
        lemma_decimal_digits_len(n as nat);
        reveal_with_fuel(zero_padded, 3);
    }
    if n < 10 {
        out.push('0');
        push_decimal(out, n);
        proof {
            assert(old(out)@.push('0') + decimal_digits(n as nat) =~= old(out)@ + (seq!['0'] + decimal_digits(
                n as nat,
            )));
        }
    } else {
        push_decimal(out, n);
    }
}

/// The greatest character boundary of `bytes` that is not above `index`.
pub open spec fn floor_boundary(bytes: Seq<u8>, index: int) -> int
    decreases index,
{
    if index <= 0 {
        0
    } else if is_char_boundary(bytes, index) {
        index
    } else {
        floor_boundary(bytes, index - 1)
    }
}

/// The least character boundary of `bytes` that is not below `index`, or the
/// length of `bytes` if `index` lies beyond it.
pub open spec fn ceil_boundary(bytes: Seq<u8>, index: int) -> int
    decreases bytes.len() - index,
{
    if index >= bytes.len() {
        bytes.len() as int
    } else if is_char_boundary(bytes, index) {
        index
    } else {
        ceil_boundary(bytes, index + 1)
    }
}

/// The text of the first bytes of `text`, up to the greatest character
/// boundary that is not above `limit`.
pub open spec fn head_text(text: Seq<char>, limit: int) -> Seq<char> {
    let bytes = encode_utf8(text);
    decode_utf8(bytes.subrange(0, floor_boundary(bytes, limit)))
}

/// The text of the last bytes of `text`, from the least character boundary
/// that is not below `start`.
pub open spec fn tail_text(text: Seq<char>, start: int) -> Seq<char> {
    let bytes = encode_utf8(text);
    decode_utf8(bytes.subrange(ceil_boundary(bytes, start), bytes.len() as int))
}

/// Above the end of `bytes` there is no character boundary.
proof fn lemma_floor_boundary_beyond(bytes: Seq<u8>, index: int)
    requires
        valid_utf8(bytes),
        index >= bytes.len(),
    ensures
        floor_boundary(bytes, index) == bytes.len(),
    decreases index,
{
    vstd::utf8::is_char_boundary_start_end_of_seq(bytes);
    if index > bytes.len() {
        lemma_floor_boundary_beyond(bytes, index - 1);
    }
}

/// The part of `text` that ends at the greatest character boundary not above
/// the byte offset `limit`.
pub fn head<'a>(text: &'a str, limit: usize) -> (out: &'a str)
    ensures
        out@ == head_text(text@, limit as int),
{
    broadcast use vstd::utf8::encode_utf8_valid_utf8;
    broadcast use vstd::utf8::encode_utf8_decode_utf8;

    let ghost bytes = text.spec_bytes();
    let total: usize = text.as_bytes().len();
    let mut cut: usize = if limit <= total { limit } else { total };
    proof {
        if limit > total {
            lemma_floor_boundary_beyond(bytes, limit as int);
            lemma_floor_boundary_beyond(bytes, total as int);
        }
    }
    while !text.is_char_boundary(cut)
        invariant
            bytes == text.spec_bytes(),
            valid_utf8(bytes),
            cut <= bytes.len(),
            floor_boundary(bytes, cut as int) == floor_boundary(bytes, limit as int),
        decreases cut,
    {
        cut = cut - 1;
    }
    let (kept, _) = text.split_at(cut);
    proof {
        assert(decode_utf8(encode_utf8(kept@)) == kept@);
    }
    kept
}

/// The part of `text` that starts at the least character boundary not below
/// the byte offset `start`.
pub fn tail<'a>(text: &'a str, start: usize) -> (out: &'a str)
    ensures
        out@ == tail_text(text@, start as int),
{
    broadcast use vstd::utf8::encode_utf8_valid_utf8;
    broadcast use vstd::utf8::encode_utf8_decode_utf8;

    let ghost bytes = text.spec_bytes();
    let total: usize = text.as_bytes().len();
    let mut cut: usize = if start <= total { start } else { total };
    proof {
        vstd::utf8::is_char_boundary_start_end_of_seq(bytes);
        assert(ceil_boundary(bytes, bytes.len() as int) == bytes.len());
        assert(ceil_boundary(bytes, cut as int) == ceil_boundary(bytes, start as int));
    }
    while !text.is_char_boundary(cut)
        invariant
            bytes == text.spec_bytes(),
            valid_utf8(bytes),
            is_char_boundary(bytes, bytes.len() as int),
            bytes.len() == total,
            cut <= total,
            ceil_boundary(bytes, cut as int) == ceil_boundary(bytes, start as int),
        decreases bytes.len() - cut,
    {
        cut = cut + 1;
    }
    let (_, kept) = text.split_at(cut);
    proof {
        assert(decode_utf8(encode_utf8(kept@)) == kept@);
    }
    kept
}

/// In text of ASCII characters every byte is a character: each offset up to
/// the length is a character boundary, and the first bytes are the first
/// characters.
proof fn lemma_ascii_bytes(text: Seq<char>, at: int)
    requires
        is_ascii_chars(text),
        0 <= at <= text.len(),
    ensures
        encode_utf8(text).len() == text.len(),
        is_char_boundary(encode_utf8(text), at),
        decode_utf8(encode_utf8(text).subrange(0, at)) == text.take(at),
        decode_utf8(encode_utf8(text).subrange(at, text.len() as int)) == text.skip(at),
{
    let bytes = encode_utf8(text);
    vstd::utf8::is_ascii_chars_encode_utf8(text);
    vstd::utf8::encode_utf8_valid_utf8(text);
    vstd::utf8::is_char_boundary_start_end_of_seq(bytes);
    if 0 < at < text.len() {
        vstd::utf8::is_char_boundary_iff_not_is_continuation_byte(bytes, at);
        assert(text[at] as u8 == bytes[at]);
        assert('\0' <= text[at] <= '\u{7f}');
    }
    let first = text.take(at);
    let rest = text.skip(at);
    assert(is_ascii_chars(first));
    assert(is_ascii_chars(rest)) by {
        assert forall|i: int| 0 <= i < rest.len() implies '\0' <= #[trigger] rest[i] <= '\u{7f}' by {
            assert(rest[i] == text[at + i]);
        }
    }
    vstd::utf8::is_ascii_chars_encode_utf8(first);
    vstd::utf8::is_ascii_chars_encode_utf8(rest);
    assert(encode_utf8(first) =~= bytes.subrange(0, at)) by {
        assert forall|i: int| 0 <= i < at implies encode_utf8(first)[i] == bytes[i] by {
            assert(first[i] == text[i]);
            assert(first[i] as u8 == encode_utf8(first)[i]);
            assert(text[i] as u8 == bytes[i]);
        }
    }
    assert(encode_utf8(rest) =~= bytes.subrange(at, text.len() as int)) by {
        assert forall|i: int| 0 <= i < rest.len() implies encode_utf8(rest)[i] == bytes[at + i] by {
            assert(rest[i] == text[at + i]);
            assert(rest[i] as u8 == encode_utf8(rest)[i]);
            assert(text[at + i] as u8 == bytes[at + i]);
        }
    }
    vstd::utf8::encode_utf8_decode_utf8(first);
    vstd::utf8::encode_utf8_decode_utf8(rest);
}

/// Of text of ASCII characters, the head up to a byte offset is its first
/// characters up to that offset.
pub proof fn lemma_head_text_ascii(text: Seq<char>, limit: int)
    requires
        is_ascii_chars(text),
        0 <= limit <= text.len(),
    ensures
        encode_utf8(text).len() == text.len(),
        head_text(text, limit) == text.take(limit),
{
    lemma_ascii_bytes(text, limit);
}

/// Of text of ASCII characters, the tail from a byte offset is its
/// characters from that offset on; beyond the end it is empty.
pub proof fn lemma_tail_text_ascii(text: Seq<char>, start: int)
    requires
        is_ascii_chars(text),
        0 <= start,
    ensures
        encode_utf8(text).len() == text.len(),
        tail_text(text, start) == if start <= text.len() {
            text.skip(start)
        } else {
            Seq::empty()
        },
{
    if start <= text.len() {
        lemma_ascii_bytes(text, start);
        if start == text.len() {
            assert(ceil_boundary(encode_utf8(text), start) == start);
        }
    } else {
        lemma_ascii_bytes(text, text.len() as int);
        assert(text.skip(text.len() as int) =~= Seq::<char>::empty());
    }
}

} // verus!
