use vstd::prelude::*;

use crate::text::escape_of;
use crate::text::escaped;
use crate::text::hex_digit;
use crate::number::decimal_digit;
use crate::number::int_text;
use crate::number::uint_text;
use crate::value::array_text;
use crate::value::join_comma;
use crate::value::object_text;
use crate::text::quoted;

verus! {

/// Every control character below 0x20 is escaped: the escaped form of a
/// one-character text holding such a character begins with a backslash,
/// followed either by one of the five short escape letters or by a "u00XX"
/// escape whose uppercase hex digits spell the character's code.
pub proof fn lemma_control_characters_escaped(c: char)
    requires
        (c as u32) < 0x20,
    ensures
        escaped(seq![c]) == escape_of(c),
        escape_of(c).len() >= 2,
        escape_of(c)[0] == '\\',
        escape_of(c)[1] == 'b' || escape_of(c)[1] == 'f' || escape_of(c)[1] == 'n' || escape_of(
            c,
        )[1] == 'r' || escape_of(c)[1] == 't' || (escape_of(c).len() == 6 && escape_of(c)[1] == 'u'
            && escape_of(c)[2] == '0' && escape_of(c)[3] == '0' && escape_of(c)[4] == hex_digit(
            ((c as u32) / 16) as nat,
        ) && escape_of(c)[5] == hex_digit(((c as u32) % 16) as nat)),
{
    reveal_with_fuel(escaped, 2);
    assert(seq![c].drop_first() =~= Seq::<char>::empty());
    assert(escaped(seq![c]) =~= escape_of(c));
}

/// The value of an uppercase hexadecimal digit character, or 16 for any
/// other character.
pub open spec fn hex_val(c: char) -> nat {
    if c == '0' {
        0
    } else if c == '1' {
        1
    } else if c == '2' {
        2
    } else if c == '3' {
        3
    } else if c == '4' {
        4
    } else if c == '5' {
        5
    } else if c == '6' {
        6
    } else if c == '7' {
        7
    } else if c == '8' {
        8
    } else if c == '9' {
        9
    } else if c == 'A' {
        10
    } else if c == 'B' {
        11
    } else if c == 'C' {
        12
    } else if c == 'D' {
        13
    } else if c == 'E' {
        14
    } else if c == 'F' {
        15
    } else {
        16
    }
}

/// The character a short escape letter stands for, if it is one.
pub open spec fn short_unescape(c: char) -> Option<char> {
    if c == '"' {
        Some('"')
    } else if c == '\\' {
        Some('\\')
    } else if c == '/' {
        Some('/')
    } else if c == 'b' {
        Some('\u{0008}')
    } else if c == 'f' {
        Some('\u{000C}')
    } else if c == 'n' {
        Some('\n')
    } else if c == 'r' {
        Some('\r')
    } else if c == 't' {
        Some('\t')
    } else {
        None
    }
}

/// Reads a JSON string literal body back into the text it stands for:
/// the inverse of `escaped`. Yields nothing where the text does not parse
/// as a sequence of this library's escapes and plain characters.
pub open spec fn unescaped(s: Seq<char>) -> Option<Seq<char>>
    decreases s.len(),
{
    if s.len() == 0 {
        Some(Seq::empty())
    } else if s[0] == '\\' {
        if s.len() >= 2 && short_unescape(s[1]) is Some {
            match unescaped(s.skip(2)) {
                Option::None => None,
                Option::Some(t) => Some(seq![short_unescape(s[1]).unwrap()] + t),
            }
        } else if s.len() >= 6 && s[1] == 'u' && s[2] == '0' && s[3] == '0' && hex_val(s[4]) < 16
            && hex_val(s[5]) < 16 {
            match unescaped(s.skip(6)) {
                Option::None => None,
                Option::Some(t) => Some(
                    seq![((hex_val(s[4]) * 16 + hex_val(s[5])) as char)] + t,
                ),
            }
        } else {
            None
        }
    } else {
        match unescaped(s.skip(1)) {
            Option::None => None,
            Option::Some(t) => Some(seq![s[0]] + t),
        }
    }
}

/// A character below 0x20 is recovered from its numeric code.
proof fn lemma_char_from_code(c: char, v: nat)
    requires
        v == c as u32,
        v < 0x20,
    ensures
        (v as char) == c,
{
    assert(c as int == c as u32 as int);
    assert((c as int) as char == c);
    assert(v as int == c as int);
}

/// Round trip: reading an escaped text back yields exactly the original
/// text, for every text. Together with the encoder's contracts, what is
/// written for a string value parses back to that string.
pub proof fn lemma_escape_round_trip(s: Seq<char>)
    ensures
        unescaped(escaped(s)) == Some(s),
    decreases s.len(),
{
    if s.len() == 0 {
    } else {
        let c = s[0];
        let rest = s.drop_first();
        lemma_escape_round_trip(rest);
        let e = escape_of(c);
        assert(escaped(s) == e + escaped(rest));
        if e.len() == 2 && short_unescape(e[1]) is Some {
            // one of the eight short escapes
            assert((e + escaped(rest)).skip(2) =~= escaped(rest));
            assert(short_unescape(e[1]) == Some(c));
            assert(seq![c] + rest =~= s);
        } else if (c as u32) < 0x20 {
            // a "\u00XX" escape
            let hi = hex_digit(((c as u32) / 16) as nat);
            let lo = hex_digit(((c as u32) % 16) as nat);
            assert(hex_val(hi) == (c as u32) / 16 && hex_val(lo) == (c as u32) % 16);
            assert((e + escaped(rest)).skip(6) =~= escaped(rest));
            assert(hex_val(hi) * 16 + hex_val(lo) == c as u32);
            lemma_char_from_code(c, hex_val(hi) * 16 + hex_val(lo));
            assert(((hex_val(hi) * 16 + hex_val(lo)) as char) == c);
            assert(seq![c] + rest =~= s);
        } else {
            // an unescaped character; it is not a backslash, so reading
            // it back takes it verbatim
            assert(e =~= seq![c]);
            assert((e + escaped(rest)).skip(1) =~= escaped(rest));
            assert(seq![c] + rest =~= s);
        }
    }
}

/// Reads a JSON string literal body up to and including its closing
/// quote: the text the body stands for and how many characters were
/// consumed. Yields nothing where the input does not continue as a
/// sequence of this library's escapes and plain characters closed by a
/// quote.
pub open spec fn read_string_body(s: Seq<char>) -> Option<(Seq<char>, int)>
    decreases s.len(),
{
    if s.len() == 0 {
        None
    } else if s[0] == '"' {
        Some((Seq::empty(), 1int))
    } else if s[0] == '\\' {
        if s.len() >= 2 && short_unescape(s[1]) is Some {
            match read_string_body(s.skip(2)) {
                Option::None => None,
                Option::Some(p) => Some((seq![short_unescape(s[1]).unwrap()] + p.0, p.1 + 2)),
            }
        } else if s.len() >= 6 && s[1] == 'u' && s[2] == '0' && s[3] == '0' && hex_val(s[4]) < 16
            && hex_val(s[5]) < 16 {
            match read_string_body(s.skip(6)) {
                Option::None => None,
                Option::Some(p) => Some(
                    (seq![((hex_val(s[4]) * 16 + hex_val(s[5])) as char)] + p.0, p.1 + 6),
                ),
            }
        } else {
            None
        }
    } else {
        match read_string_body(s.skip(1)) {
            Option::None => None,
            Option::Some(p) => Some((seq![s[0]] + p.0, p.1 + 1)),
        }
    }
}

/// Reads a complete JSON string literal from the front of the input: the
/// text it stands for and how many characters it took.
pub open spec fn read_string_literal(s: Seq<char>) -> Option<(Seq<char>, int)> {
    if s.len() >= 1 && s[0] == '"' {
        match read_string_body(s.skip(1)) {
            Option::None => None,
            Option::Some(p) => Some((p.0, p.1 + 1)),
        }
    } else {
        None
    }
}

proof fn lemma_read_string_body(t: Seq<char>, rest: Seq<char>)
    ensures
        read_string_body(escaped(t) + (seq!['"'] + rest)) == Some(
            (t, escaped(t).len() + 1int),
        ),
    decreases t.len(),
{
    let s = escaped(t) + (seq!['"'] + rest);
    if t.len() == 0 {
        assert(s[0] == '"');
        assert(t =~= Seq::<char>::empty());
    } else {
        let c = t[0];
        let t1 = t.drop_first();
        lemma_read_string_body(t1, rest);
        let e = escape_of(c);
        let s1 = escaped(t1) + (seq!['"'] + rest);
        assert(escaped(t) == e + escaped(t1));
        if e.len() == 2 && short_unescape(e[1]) is Some {
            assert(s.skip(2) =~= s1);
            assert(short_unescape(e[1]) == Some(c));
            assert(seq![c] + t1 =~= t);
        } else if (c as u32) < 0x20 {
            let hi = hex_digit(((c as u32) / 16) as nat);
            let lo = hex_digit(((c as u32) % 16) as nat);
            assert(hex_val(hi) == (c as u32) / 16 && hex_val(lo) == (c as u32) % 16);
            assert(s.skip(6) =~= s1);
            assert(hex_val(hi) * 16 + hex_val(lo) == c as u32);
            lemma_char_from_code(c, hex_val(hi) * 16 + hex_val(lo));
            assert(seq![c] + t1 =~= t);
        } else {
            // a plain character: it is neither a backslash nor a quote
            // (both are escaped), so the scan neither ends nor decodes
            assert(e =~= seq![c]);
            assert(s.skip(1) =~= s1);
            assert(seq![c] + t1 =~= t);
        }
    }
}

/// Round trip for whole string literals: wherever the encoder's quoted
/// text stands in front of anything else, reading one string literal
/// consumes exactly it and yields exactly the original text. In
/// particular the escaped body never ends the literal early, whatever
/// quotes or backslashes the original text held.
pub proof fn lemma_string_literal_round_trip(t: Seq<char>, rest: Seq<char>)
    ensures
        read_string_literal(quoted(t) + rest) == Some((t, quoted(t).len() as int)),
{
    let s = quoted(t) + rest;
    assert(s[0] == '"');
    assert(s.skip(1) =~= escaped(t) + (seq!['"'] + rest));
    lemma_read_string_body(t, rest);
}

/// The numeric value of a decimal digit character, or 10 for any other
/// character.
pub open spec fn digit_val(c: char) -> nat {
    if c == '0' {
        0
    } else if c == '1' {
        1
    } else if c == '2' {
        2
    } else if c == '3' {
        3
    } else if c == '4' {
        4
    } else if c == '5' {
        5
    } else if c == '6' {
        6
    } else if c == '7' {
        7
    } else if c == '8' {
        8
    } else if c == '9' {
        9
    } else {
        10
    }
}

/// The natural number a sequence of decimal digit characters spells.
pub open spec fn digits_value(s: Seq<char>) -> nat
    decreases s.len(),
{
    if s.len() == 0 {
        0
    } else {
        digits_value(s.drop_last()) * 10 + digit_val(s.last())
    }
}

/// Round trip: the decimal text written for a natural number reads back as
/// that number.
pub proof fn lemma_uint_text_round_trip(n: nat)
    ensures
        digits_value(uint_text(n)) == n,
    decreases n,
{
    if n < 10 {
        reveal_with_fuel(digits_value, 2);
        assert(seq![decimal_digit(n)].drop_last() =~= Seq::<char>::empty());
        assert(seq![decimal_digit(n)].last() == decimal_digit(n));
        assert(digit_val(decimal_digit(n)) == n);
    } else {
        lemma_uint_text_round_trip(n / 10);
        assert(uint_text(n).drop_last() =~= uint_text(n / 10));
        assert(digits_value(uint_text(n)) == (n / 10) * 10 + n % 10);
        assert((n / 10) * 10 + n % 10 == n) by (nonlinear_arith);
    }
}

/// Round trip: the decimal text written for an integer reads back as that
/// integer: the digits after a leading '-' spell its negation, and the
/// digits of a number that is not negative spell it directly.
pub proof fn lemma_int_text_round_trip(i: int)
    ensures
        i < 0 ==> int_text(i)[0] == '-' && digits_value(int_text(i).drop_first()) == -i,
        i >= 0 ==> digits_value(int_text(i)) == i,
{
    if i < 0 {
        lemma_uint_text_round_trip((-i) as nat);
        assert((seq!['-'] + uint_text((-i) as nat)).drop_first() =~= uint_text((-i) as nat));
    } else {
        lemma_uint_text_round_trip(i as nat);
    }
}

/// The total length of the given member texts.
pub open spec fn total_len(elems: Seq<Seq<char>>) -> nat
    decreases elems.len(),
{
    if elems.len() == 0 {
        0
    } else {
        total_len(elems.drop_last()) + elems.last().len()
    }
}

/// The predicate holding exactly on the character `c`.
pub open spec fn is_char(c: char) -> spec_fn(char) -> bool {
    |x: char| x == c
}

/// How many times the character `c` occurs in `s`.
pub open spec fn count_of(s: Seq<char>, c: char) -> nat {
    s.filter(is_char(c)).len()
}

/// Occurrences of `c` summed over all member texts.
pub open spec fn total_count(elems: Seq<Seq<char>>, c: char) -> nat
    decreases elems.len(),
{
    if elems.len() == 0 {
        0
    } else {
        total_count(elems.drop_last(), c) + count_of(elems.last(), c)
    }
}

proof fn lemma_count_of_add(a: Seq<char>, b: Seq<char>, c: char)
    ensures
        count_of(a + b, c) == count_of(a, c) + count_of(b, c),
{
    Seq::<char>::filter_distributes_over_add(a, b, is_char(c));
}

proof fn lemma_count_of_single(d: char, c: char)
    ensures
        count_of(seq![d], c) == (if d == c {
            1nat
        } else {
            0nat
        }),
{
    reveal(Seq::filter);
    assert(seq![d].drop_last() =~= Seq::<char>::empty());
    assert(Seq::<char>::empty().filter(is_char(c)) =~= Seq::<char>::empty());
}

proof fn lemma_join_comma_count(elems: Seq<Seq<char>>, c: char)
    requires
        c != ',',
    ensures
        count_of(join_comma(elems), c) == total_count(elems, c),
    decreases elems.len(),
{
    if elems.len() == 0 {
        reveal(Seq::filter);
        assert(Seq::<char>::empty().filter(is_char(c)) =~= Seq::<char>::empty());
    } else if elems.len() == 1 {
        assert(total_count(elems.drop_last(), c) == 0);
    } else {
        lemma_join_comma_count(elems.drop_last(), c);
        lemma_count_of_add(join_comma(elems.drop_last()), seq![','], c);
        lemma_count_of_add(join_comma(elems.drop_last()) + seq![','], elems.last(), c);
        lemma_count_of_single(',', c);
    }
}

/// Bracket balance: the text of an array is its element texts joined by
/// commas with exactly one '[' and one ']' added, and the separators add
/// none. So every completed array contributes equal numbers of opening
/// and closing brackets, and a document whose element texts each hold
/// balanced bracket counts holds balanced counts as a whole. A bracket
/// character inside a string literal is text, not structure: it enters
/// through the element's own count on both sides of the equation.
pub proof fn lemma_array_bracket_balance(elems: Seq<Seq<char>>, c: char)
    requires
        c != ',',
    ensures
        count_of(array_text(elems), c) == total_count(elems, c) + (if c == '[' || c == ']' {
            1nat
        } else {
            0nat
        }),
{
    lemma_join_comma_count(elems, c);
    lemma_count_of_single('[', c);
    lemma_count_of_single(']', c);
    lemma_count_of_add(seq!['['], join_comma(elems), c);
    lemma_count_of_add(seq!['['] + join_comma(elems), seq![']'], c);
    assert(seq!['['] + join_comma(elems) + seq![']'] =~= (seq!['['] + join_comma(elems))
        + seq![']']);
}

/// Bracket balance for objects: the text of an object is its member texts
/// (each a quoted key, a colon and the value's text) joined by commas with
/// exactly one '{' and one '}' added.
pub proof fn lemma_object_bracket_balance(members: Seq<(Seq<char>, Seq<char>)>, c: char)
    requires
        c != ',',
    ensures
        count_of(object_text(members), c) == total_count(
            members.map_values(|m: (Seq<char>, Seq<char>)| quoted(m.0) + seq![':'] + m.1),
            c,
        ) + (if c == '{' || c == '}' {
            1nat
        } else {
            0nat
        }),
{
    let keyed = members.map_values(|m: (Seq<char>, Seq<char>)| quoted(m.0) + seq![':'] + m.1);
    lemma_join_comma_count(keyed, c);
    lemma_count_of_single('{', c);
    lemma_count_of_single('}', c);
    lemma_count_of_add(seq!['{'], join_comma(keyed), c);
    lemma_count_of_add(seq!['{'] + join_comma(keyed), seq!['}'], c);
    assert(seq!['{'] + join_comma(keyed) + seq!['}'] =~= (seq!['{'] + join_comma(keyed))
        + seq!['}']);
}

/// Separator correctness: joining N member texts inserts exactly N - 1
/// separator characters, each a comma between two neighbouring members:
/// the joined text is the first member, then for each further member a
/// comma and that member, so no comma stands before the first member or
/// after the last.
pub proof fn lemma_separator_count(elems: Seq<Seq<char>>)
    requires
        elems.len() > 0,
    ensures
        join_comma(elems).len() == total_len(elems) + elems.len() - 1,
        elems[0].is_prefix_of(join_comma(elems)),
        elems.len() > 1 ==> join_comma(elems) == join_comma(elems.drop_last()) + seq![',']
            + elems.last(),
    decreases elems.len(),
{
    if elems.len() == 1 {
        assert(total_len(elems.drop_last()) == 0);
        assert(elems[0] =~= join_comma(elems).subrange(0, elems[0].len() as int));
    } else {
        lemma_separator_count(elems.drop_last());
        assert(elems.drop_last()[0] == elems[0]);
        let joined = join_comma(elems.drop_last()) + seq![','] + elems.last();
        assert(join_comma(elems.drop_last()).is_prefix_of(joined)) by {
            assert(join_comma(elems.drop_last()) =~= joined.subrange(
                0,
                join_comma(elems.drop_last()).len() as int,
            ));
        }
        crate::text::lemma_prefix_trans(elems[0], join_comma(elems.drop_last()), joined);
    }
}

} // verus!
