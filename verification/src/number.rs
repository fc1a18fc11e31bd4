use vstd::prelude::*;
use vstd::string::StrSliceExecFns;
use vstd::string::StringExecFns;

use crate::sink::Sink;
use crate::sink::WriteFailure;

verus! {

/// The decimal digit character standing for `d`, for `d < 10`.
pub open spec fn decimal_digit(d: nat) -> char {
    if d == 0 {
        '0'
    } else if d == 1 {
        '1'
    } else if d == 2 {
        '2'
    } else if d == 3 {
        '3'
    } else if d == 4 {
        '4'
    } else if d == 5 {
        '5'
    } else if d == 6 {
        '6'
    } else if d == 7 {
        '7'
    } else if d == 8 {
        '8'
    } else {
        '9'
    }
}

/// The minimal decimal text for the natural number `n`: no leading zeros,
/// no sign, no grouping.
pub open spec fn uint_text(n: nat) -> Seq<char>
    decreases n,
{
    if n < 10 {
        seq![decimal_digit(n)]
    } else {
        uint_text(n / 10).push(decimal_digit(n % 10))
    }
}

/// The minimal decimal text for the integer `i`: a leading '-' exactly when
/// `i` is negative.
pub open spec fn int_text(i: int) -> Seq<char> {
    if i < 0 {
        seq!['-'] + uint_text((-i) as nat)
    } else {
        uint_text(i as nat)
    }
}

/// Relies on itoa::Buffer::format, which prints an unsigned integer as its
/// plain decimal digits, exactly as core's formatting does.
#[verifier::external_body]
fn format_u64(value: u64) -> (r: String)
    ensures
        r@ == uint_text(value as nat),
{
    let mut buffer = itoa::Buffer::new();
    buffer.format(value).to_owned()
}

/// Relies on itoa::Buffer::format, which prints a signed integer as its
/// plain decimal digits with a leading '-' exactly when it is negative,
/// exactly as core's formatting does.
#[verifier::external_body]
fn format_i64(value: i64) -> (r: String)
    ensures
        r@ == int_text(value as int),
{
    let mut buffer = itoa::Buffer::new();
    buffer.format(value).to_owned()
}

/// Appends the decimal text of an unsigned integer.
pub(crate) fn write_u64<W: Sink>(output_buffer: &mut W, value: u64) -> (r: Result<
    (),
    WriteFailure,
>)
    ensures
        (*final(output_buffer)).infallible() == old(output_buffer).infallible(),
        r is Ok ==> (*final(output_buffer)).content() == old(output_buffer).content() + uint_text(
            value as nat,
        ),
        r is Err ==> old(output_buffer).content().is_prefix_of((*final(output_buffer)).content())
            && !old(output_buffer).infallible(),
        old(output_buffer).infallible() ==> r is Ok,
{
    let text = format_u64(value);
    let r = output_buffer.append_str(text.as_str());
    proof {
        if r is Err {
            crate::text::lemma_extends(old(output_buffer).content(), Seq::empty());
            assert(old(output_buffer).content() + Seq::<char>::empty() =~= old(
                output_buffer,
            ).content());
        }
    }
    r
}

/// Appends the decimal text of a signed integer.
pub(crate) fn write_i64<W: Sink>(output_buffer: &mut W, value: i64) -> (r: Result<
    (),
    WriteFailure,
>)
    ensures
        (*final(output_buffer)).infallible() == old(output_buffer).infallible(),
        r is Ok ==> (*final(output_buffer)).content() == old(output_buffer).content() + int_text(
            value as int,
        ),
        r is Err ==> old(output_buffer).content().is_prefix_of((*final(output_buffer)).content())
            && !old(output_buffer).infallible(),
        old(output_buffer).infallible() ==> r is Ok,
{
    let text = format_i64(value);
    let r = output_buffer.append_str(text.as_str());
    proof {
        if r is Err {
            crate::text::lemma_extends(old(output_buffer).content(), Seq::empty());
            assert(old(output_buffer).content() + Seq::<char>::empty() =~= old(
                output_buffer,
            ).content());
        }
    }
    r
}

/// Whether the 64-bit float with these bits is finite: its exponent field
/// is not all ones (which marks an infinity or a NaN).
pub open spec fn float_bits_finite(bits: u64) -> bool {
    (bits >> 52) & 0x7ff != 0x7ff
}

/// The float text with a trailing ".0" stripped, so integral floats render
/// as bare integers.
pub open spec fn normalized_float_text(s: Seq<char>) -> Seq<char> {
    if s.len() >= 2 && s[s.len() - 1] == '0' && s[s.len() - 2] == '.' {
        s.take(s.len() - 2)
    } else {
        s
    }
}

/// The text written for a 64-bit float with the given bits whose decimal
/// rendering, when finite, is `text`: the normalized rendering, or the
/// literal `null` for a NaN or an infinity, which JSON has no token for.
pub open spec fn float_json_text(bits: u64, text: Seq<char>) -> Seq<char> {
    if float_bits_finite(bits) {
        normalized_float_text(text)
    } else {
        seq!['n', 'u', 'l', 'l']
    }
}

/// A 64-bit float prepared for encoding: its raw bits together with a
/// decimal rendering of its value, produced outside this crate (floating
/// point cannot enter the verified core). The rendering is consulted only
/// when the bits are finite; a NaN or an infinity encodes as `null`
/// whatever the rendering holds.
pub struct PreparedFloat {
    pub bits: u64,
    pub text: String,
}

/// Appends the JSON number text for a 64-bit float given as its raw bits
/// together with a decimal rendering of its value; `text` is consulted only
/// when the bits are finite.
pub(crate) fn write_float_parts<W: Sink>(output_buffer: &mut W, bits: u64, text: &str) -> (r:
    Result<(), WriteFailure>)
    ensures
        (*final(output_buffer)).infallible() == old(output_buffer).infallible(),
        r is Ok ==> (*final(output_buffer)).content() == old(output_buffer).content()
            + float_json_text(bits, text@),
        r is Err ==> old(output_buffer).content().is_prefix_of((*final(output_buffer)).content())
            && !old(output_buffer).infallible(),
        old(output_buffer).infallible() ==> r is Ok,
{
    let exponent_mask: u64 = 0x7ff;
    let is_finite = ((bits >> 52u64) & exponent_mask) != exponent_mask;
    let r = if is_finite {
        let n = text.unicode_len();
        if n >= 2 && text.get_char(n - 1) == '0' && text.get_char(n - 2) == '.' {
            let stripped = text.substring_char(0, n - 2);
            proof {
                assert(stripped@ =~= normalized_float_text(text@));
            }
            output_buffer.append_str(stripped)
        } else {
            output_buffer.append_str(text)
        }
    } else {
        let r = output_buffer.append_str("null");
        proof {
            reveal_strlit("null");
            assert("null"@ =~= seq!['n', 'u', 'l', 'l']);
        }
        r
    };
    proof {
        if r is Err {
            crate::text::lemma_extends(old(output_buffer).content(), Seq::empty());
            assert(old(output_buffer).content() + Seq::<char>::empty() =~= old(
                output_buffer,
            ).content());
        }
    }
    r
}

} // verus!
