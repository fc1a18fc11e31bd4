use vstd::prelude::*;
use vstd::string::StrSliceExecFns;

use crate::sink::Sink;
use crate::sink::WriteFailure;

verus! {

/// The uppercase hexadecimal digit standing for `d`, for `d < 16`.
pub open spec fn hex_digit(d: nat) -> char {
    if d == 0 {
        '0'
    } else if d == 1 {
        '1'
    } else if d == 2 {
        '2'
    } else if d == 3 {
        '3'
    } else if d == 4 {
        '4'
    } else if d == 5 {
        '5'
    } else if d == 6 {
        '6'
    } else if d == 7 {
        '7'
    } else if d == 8 {
        '8'
    } else if d == 9 {
        '9'
    } else if d == 10 {
        'A'
    } else if d == 11 {
        'B'
    } else if d == 12 {
        'C'
    } else if d == 13 {
        'D'
    } else if d == 14 {
        'E'
    } else {
        'F'
    }
}

/// The text that stands for one character inside a JSON string literal.
///
/// The quote, the backslash and the slash get two-character escapes (the
/// slash defensively, so that "</script>" never appears verbatim); the five
/// control characters with short names get theirs; every other control
/// character below 0x20 gets a "\u00XX" escape with uppercase hex digits;
/// everything else stands for itself.
pub open spec fn escape_of(c: char) -> Seq<char> {
    if c == '"' {
        seq!['\\', '"']
    } else if c == '\\' {
        seq!['\\', '\\']
    } else if c == '/' {
        seq!['\\', '/']
    } else if c == '\u{0008}' {
        seq!['\\', 'b']
    } else if c == '\u{000C}' {
        seq!['\\', 'f']
    } else if c == '\n' {
        seq!['\\', 'n']
    } else if c == '\r' {
        seq!['\\', 'r']
    } else if c == '\t' {
        seq!['\\', 't']
    } else if (c as u32) < 0x20 {
        seq!['\\', 'u', '0', '0', hex_digit(((c as u32) / 16) as nat), hex_digit(
            ((c as u32) % 16) as nat,
        )]
    } else {
        seq![c]
    }
}

/// The body of the JSON string literal for the text `s`: each character
/// replaced by its escape.
pub open spec fn escaped(s: Seq<char>) -> Seq<char>
    decreases s.len(),
{
    if s.len() == 0 {
        Seq::empty()
    } else {
        escape_of(s[0]) + escaped(s.drop_first())
    }
}

/// The complete JSON string literal for the text `s`.
pub open spec fn quoted(s: Seq<char>) -> Seq<char> {
    seq!['"'] + escaped(s) + seq!['"']
}

/// A sequence is a prefix of itself.
pub proof fn lemma_prefix_refl(a: Seq<char>)
    ensures
        a.is_prefix_of(a),
{
    assert(a =~= a.subrange(0, a.len() as int));
}

/// A sequence is a prefix of itself extended by anything.
pub proof fn lemma_extends(a: Seq<char>, b: Seq<char>)
    ensures
        a.is_prefix_of(a + b),
{
    assert(a =~= (a + b).subrange(0, a.len() as int));
}

/// Escaping a text one character longer appends that character's escape.
pub proof fn lemma_escaped_push(s: Seq<char>, c: char)
    ensures
        escaped(s.push(c)) == escaped(s) + escape_of(c),
    decreases s.len(),
{
    if s.len() == 0 {
        reveal_with_fuel(escaped, 2);
        assert(s.push(c)[0] == c);
        assert(s.push(c).drop_first() =~= Seq::<char>::empty());
        assert(escaped(s.push(c)) =~= escaped(s) + escape_of(c));
    } else {
        assert(s.push(c)[0] == s[0]);
        assert(s.push(c).drop_first() =~= s.drop_first().push(c));
        lemma_escaped_push(s.drop_first(), c);
        assert((escape_of(s[0]) + escaped(s.drop_first())) + escape_of(c) =~= escape_of(s[0]) + (
        escaped(s.drop_first()) + escape_of(c)));
        assert(escaped(s.push(c)) =~= escaped(s) + escape_of(c));
    }
}

/// Being a prefix is transitive.
pub proof fn lemma_prefix_trans(a: Seq<char>, b: Seq<char>, c: Seq<char>)
    requires
        a.is_prefix_of(b),
        b.is_prefix_of(c),
    ensures
        a.is_prefix_of(c),
{
    assert(a =~= c.subrange(0, a.len() as int));
}

/// The uppercase hexadecimal digit character for `d`.
fn hex_digit_char(d: u32) -> (c: char)
    requires
        d < 16,
    ensures
        c == hex_digit(d as nat),
{
    if d == 0 {
        '0'
    } else if d == 1 {
        '1'
    } else if d == 2 {
        '2'
    } else if d == 3 {
        '3'
    } else if d == 4 {
        '4'
    } else if d == 5 {
        '5'
    } else if d == 6 {
        '6'
    } else if d == 7 {
        '7'
    } else if d == 8 {
        '8'
    } else if d == 9 {
        '9'
    } else if d == 10 {
        'A'
    } else if d == 11 {
        'B'
    } else if d == 12 {
        'C'
    } else if d == 13 {
        'D'
    } else if d == 14 {
        'E'
    } else {
        'F'
    }
}

/// Appends a backslash followed by the given escape letter.
fn write_backslash_pair<W: Sink>(output_buffer: &mut W, letter: char) -> (r: Result<
    (),
    WriteFailure,
>)
    ensures
        (*final(output_buffer)).infallible() == old(output_buffer).infallible(),
        r is Ok ==> (*final(output_buffer)).content() == old(output_buffer).content() + seq![
            '\\',
            letter,
        ],
        r is Err ==> old(output_buffer).content().is_prefix_of((*final(output_buffer)).content())
            && !old(output_buffer).infallible(),
        old(output_buffer).infallible() ==> r is Ok,
{
    let ghost pre = output_buffer.content();
    match output_buffer.append_char('\\') {
        Ok(_) => {}
        Err(failure) => {
            proof {
                lemma_extends(pre, Seq::empty());
                assert(pre + Seq::<char>::empty() =~= pre);
            }
            return Err(failure);
        }
    }
    match output_buffer.append_char(letter) {
        Ok(_) => {}
        Err(failure) => {
            proof {
                lemma_extends(pre, seq!['\\']);
                assert(pre + seq!['\\'] =~= pre.push('\\'));
            }
            return Err(failure);
        }
    }
    proof {
        assert(pre.push('\\').push(letter) =~= pre + seq!['\\', letter]);
    }
    Ok(())
}

/// Appends the escape of the single character `c`.
fn write_escaped_char<W: Sink>(output_buffer: &mut W, c: char) -> (r: Result<(), WriteFailure>)
    ensures
        (*final(output_buffer)).infallible() == old(output_buffer).infallible(),
        r is Ok ==> (*final(output_buffer)).content() == old(output_buffer).content() + escape_of(
            c,
        ),
        r is Err ==> old(output_buffer).content().is_prefix_of((*final(output_buffer)).content())
            && !old(output_buffer).infallible(),
        old(output_buffer).infallible() ==> r is Ok,
{
    let ghost pre = output_buffer.content();
    if c == '"' {
        write_backslash_pair(output_buffer, '"')
    } else if c == '\\' {
        write_backslash_pair(output_buffer, '\\')
    } else if c == '/' {
        write_backslash_pair(output_buffer, '/')
    } else if c == '\u{0008}' {
        write_backslash_pair(output_buffer, 'b')
    } else if c == '\u{000C}' {
        write_backslash_pair(output_buffer, 'f')
    } else if c == '\n' {
        write_backslash_pair(output_buffer, 'n')
    } else if c == '\r' {
        write_backslash_pair(output_buffer, 'r')
    } else if c == '\t' {
        write_backslash_pair(output_buffer, 't')
    } else if (c as u32) < 0x20 {
        let code = c as u32;
        match write_backslash_pair(output_buffer, 'u') {
            Ok(_) => {}
            Err(failure) => {
                return Err(failure);
            }
        }
        match output_buffer.append_char('0') {
            Ok(_) => {}
            Err(failure) => {
                proof {
                    assert(output_buffer.content() =~= pre + seq!['\\', 'u']);
                    lemma_extends(pre, seq!['\\', 'u']);
                }
                return Err(failure);
            }
        }
        match output_buffer.append_char('0') {
            Ok(_) => {}
            Err(failure) => {
                proof {
                    assert(output_buffer.content() =~= pre + seq!['\\', 'u', '0']);
                    lemma_extends(pre, seq!['\\', 'u', '0']);
                }
                return Err(failure);
            }
        }
        let hi = hex_digit_char(code / 16);
        match output_buffer.append_char(hi) {
            Ok(_) => {}
            Err(failure) => {
                proof {
                    assert(output_buffer.content() =~= pre + seq!['\\', 'u', '0', '0']);
                    lemma_extends(pre, seq!['\\', 'u', '0', '0']);
                }
                return Err(failure);
            }
        }
        let lo = hex_digit_char(code % 16);
        match output_buffer.append_char(lo) {
            Ok(_) => {}
            Err(failure) => {
                proof {
                    assert(output_buffer.content() =~= pre + seq!['\\', 'u', '0', '0', hex_digit(
                        (code / 16) as nat,
                    )]);
                    lemma_extends(pre, seq!['\\', 'u', '0', '0', hex_digit((code / 16) as nat)]);
                }
                return Err(failure);
            }
        }
        proof {
            assert(output_buffer.content() =~= pre + escape_of(c));
        }
        Ok(())
    } else {
        output_buffer.append_char(c)
    }
}

/// Escapes `input` and appends the result to `output_buffer` without adding
/// quotes.
///
/// A caller composing JSON by hand is responsible for the surrounding
/// grammar; `write_value` with a string argument writes a complete string
/// literal instead.
pub fn write_part_of_string<W: Sink>(output_buffer: &mut W, input: &str) -> (r: Result<
    (),
    WriteFailure,
>)
    ensures
        (*final(output_buffer)).infallible() == old(output_buffer).infallible(),
        r is Ok ==> (*final(output_buffer)).content() == old(output_buffer).content() + escaped(
            input@,
        ),
        r is Err ==> old(output_buffer).content().is_prefix_of((*final(output_buffer)).content())
            && !old(output_buffer).infallible(),
        old(output_buffer).infallible() ==> r is Ok,
{
    let n = input.unicode_len();
    let mut i: usize = 0;
    while i < n
        invariant
            i <= n,
            n == input@.len(),
            output_buffer.infallible() == old(output_buffer).infallible(),
            output_buffer.content() == old(output_buffer).content() + escaped(
                input@.take(i as int),
            ),
        decreases n - i,
    {
        let ghost pre = output_buffer.content();
        let c = input.get_char(i);
        proof {
            assert(input@.take(i as int).push(c) =~= input@.take(i + 1));
            lemma_escaped_push(input@.take(i as int), c);
        }
        match write_escaped_char(output_buffer, c) {
            Ok(_) => {}
            Err(failure) => {
                proof {
                    lemma_extends(old(output_buffer).content(), escaped(input@.take(i as int)));
                    lemma_prefix_trans(
                        old(output_buffer).content(),
                        pre,
                        output_buffer.content(),
                    );
                }
                return Err(failure);
            }
        }
        proof {
            assert(old(output_buffer).content() + escaped(input@.take(i as int)) + escape_of(c)
                =~= old(output_buffer).content() + escaped(input@.take(i + 1)));
        }
        i += 1;
    }
    proof {
        assert(input@.take(n as int) =~= input@);
    }
    Ok(())
}

/// Quotes and escapes `input` and appends the result to `output_buffer`.
pub(crate) fn write_string<W: Sink>(output_buffer: &mut W, input: &str) -> (r: Result<
    (),
    WriteFailure,
>)
    ensures
        (*final(output_buffer)).infallible() == old(output_buffer).infallible(),
        r is Ok ==> (*final(output_buffer)).content() == old(output_buffer).content() + quoted(
            input@,
        ),
        r is Err ==> old(output_buffer).content().is_prefix_of((*final(output_buffer)).content())
            && !old(output_buffer).infallible(),
        old(output_buffer).infallible() ==> r is Ok,
{
    let ghost pre = output_buffer.content();
    match output_buffer.append_char('"') {
        Ok(_) => {}
        Err(failure) => {
            proof {
                lemma_extends(pre, Seq::empty());
                assert(pre + Seq::<char>::empty() =~= pre);
            }
            return Err(failure);
        }
    }
    match write_part_of_string(output_buffer, input) {
        Ok(_) => {}
        Err(failure) => {
            proof {
                lemma_extends(pre, seq!['"']);
                assert(pre + seq!['"'] =~= pre.push('"'));
                lemma_prefix_trans(pre, pre.push('"'), output_buffer.content());
            }
            return Err(failure);
        }
    }
    match output_buffer.append_char('"') {
        Ok(_) => {}
        Err(failure) => {
            proof {
                assert(output_buffer.content() =~= pre + (seq!['"'] + escaped(input@)));
                lemma_extends(pre, seq!['"'] + escaped(input@));
            }
            return Err(failure);
        }
    }
    proof {
        assert(output_buffer.content() =~= pre + quoted(input@));
    }
    Ok(())
}

} // verus!
