use vstd::prelude::*;

use crate::number::float_json_text;
use crate::number::int_text;
use crate::number::uint_text;
use crate::number::write_float_parts;
use crate::number::write_i64;
use crate::number::write_u64;
use crate::number::PreparedFloat;
use crate::sink::Sink;
use crate::sink::WriteFailure;
use crate::text::lemma_extends;
use crate::text::lemma_prefix_refl;
use crate::text::lemma_prefix_trans;
use crate::text::quoted;
use crate::text::write_string;
use crate::writer::comma_sep;
use crate::writer::JSONArrayWriter;

verus! {

/// Represents the null value in JSON.
///
/// Note: `Option::None` may be used instead in most cases.
#[derive(Debug, Copy, Clone)]
pub struct Null;

/// The members or elements of a bracketed structure joined by single
/// commas: none before the first and none after the last.
pub open spec fn join_comma(elems: Seq<Seq<char>>) -> Seq<char>
    decreases elems.len(),
{
    if elems.len() == 0 {
        Seq::empty()
    } else if elems.len() == 1 {
        elems[0]
    } else {
        join_comma(elems.drop_last()) + seq![','] + elems.last()
    }
}

/// The JSON array holding the given element texts.
pub open spec fn array_text(elems: Seq<Seq<char>>) -> Seq<char> {
    seq!['['] + join_comma(elems) + seq![']']
}

/// Types with this trait can be converted to JSON.
///
/// `json_text` is the exact text that stands for the value;
/// `write_json` appends it to a sink.
pub trait JSONWriterValue: Sized {
    /// The JSON text that stands for this value.
    spec fn json_text(&self) -> Seq<char>;

    /// Appends the JSON representation of `self` to the output buffer.
    fn write_json<W: Sink>(self, output_buffer: &mut W) -> (r: Result<(), WriteFailure>)
        ensures
            (*final(output_buffer)).infallible() == old(output_buffer).infallible(),
            r is Ok ==> (*final(output_buffer)).content() == old(output_buffer).content()
                + self.json_text(),
            r is Err ==> old(output_buffer).content().is_prefix_of(
                (*final(output_buffer)).content(),
            ) && !old(output_buffer).infallible(),
            old(output_buffer).infallible() ==> r is Ok,
    ;
}

/// Serializes as a JSON string.
impl JSONWriterValue for &str {
    open spec fn json_text(&self) -> Seq<char> {
        quoted(self@)
    }

    fn write_json<W: Sink>(self, output_buffer: &mut W) -> (r: Result<(), WriteFailure>) {
        write_string(output_buffer, self)
    }
}

/// Serializes as a JSON string.
impl JSONWriterValue for &String {
    open spec fn json_text(&self) -> Seq<char> {
        quoted(self@)
    }

    fn write_json<W: Sink>(self, output_buffer: &mut W) -> (r: Result<(), WriteFailure>) {
        write_string(output_buffer, self.as_str())
    }
}

/// Serializes as a JSON number.
impl JSONWriterValue for u32 {
    open spec fn json_text(&self) -> Seq<char> {
        uint_text(*self as nat)
    }

    fn write_json<W: Sink>(self, output_buffer: &mut W) -> (r: Result<(), WriteFailure>) {
        write_u64(output_buffer, self as u64)
    }
}

/// Serializes as a JSON number.
impl JSONWriterValue for i32 {
    open spec fn json_text(&self) -> Seq<char> {
        int_text(*self as int)
    }

    fn write_json<W: Sink>(self, output_buffer: &mut W) -> (r: Result<(), WriteFailure>) {
        write_i64(output_buffer, self as i64)
    }
}

/// Serializes as a JSON number.
impl JSONWriterValue for u16 {
    open spec fn json_text(&self) -> Seq<char> {
        uint_text(*self as nat)
    }

    fn write_json<W: Sink>(self, output_buffer: &mut W) -> (r: Result<(), WriteFailure>) {
        write_u64(output_buffer, self as u64)
    }
}

/// Serializes as a JSON number.
impl JSONWriterValue for i16 {
    open spec fn json_text(&self) -> Seq<char> {
        int_text(*self as int)
    }

    fn write_json<W: Sink>(self, output_buffer: &mut W) -> (r: Result<(), WriteFailure>) {
        write_i64(output_buffer, self as i64)
    }
}

/// Serializes as a JSON number.
impl JSONWriterValue for u8 {
    open spec fn json_text(&self) -> Seq<char> {
        uint_text(*self as nat)
    }

    fn write_json<W: Sink>(self, output_buffer: &mut W) -> (r: Result<(), WriteFailure>) {
        write_u64(output_buffer, self as u64)
    }
}

/// Serializes as a JSON number.
impl JSONWriterValue for i8 {
    open spec fn json_text(&self) -> Seq<char> {
        int_text(*self as int)
    }

    fn write_json<W: Sink>(self, output_buffer: &mut W) -> (r: Result<(), WriteFailure>) {
        write_i64(output_buffer, self as i64)
    }
}

/// Serializes as a JSON boolean.
impl JSONWriterValue for bool {
    open spec fn json_text(&self) -> Seq<char> {
        if *self {
            seq!['t', 'r', 'u', 'e']
        } else {
            seq!['f', 'a', 'l', 's', 'e']
        }
    }

    fn write_json<W: Sink>(self, output_buffer: &mut W) -> (r: Result<(), WriteFailure>) {
        let r = if self {
            let r = output_buffer.append_str("true");
            proof {
                reveal_strlit("true");
                assert("true"@ =~= seq!['t', 'r', 'u', 'e']);
            }
            r
        } else {
            let r = output_buffer.append_str("false");
            proof {
                reveal_strlit("false");
                assert("false"@ =~= seq!['f', 'a', 'l', 's', 'e']);
            }
            r
        };
        proof {
            if r is Err {
                lemma_prefix_refl(old(output_buffer).content());
            }
        }
        r
    }
}

/// Serializes as a JSON null.
impl JSONWriterValue for Null {
    open spec fn json_text(&self) -> Seq<char> {
        seq!['n', 'u', 'l', 'l']
    }

    fn write_json<W: Sink>(self, output_buffer: &mut W) -> (r: Result<(), WriteFailure>) {
        let r = output_buffer.append_str("null");
        proof {
            reveal_strlit("null");
            assert("null"@ =~= seq!['n', 'u', 'l', 'l']);
            if r is Err {
                lemma_prefix_refl(old(output_buffer).content());
            }
        }
        r
    }
}

/// Serializes as a JSON number, or as a JSON null when the bits mark a NaN
/// or an infinity.
impl JSONWriterValue for PreparedFloat {
    open spec fn json_text(&self) -> Seq<char> {
        float_json_text(self.bits, self.text@)
    }

    fn write_json<W: Sink>(self, output_buffer: &mut W) -> (r: Result<(), WriteFailure>) {
        write_float_parts(output_buffer, self.bits, self.text.as_str())
    }
}

/// Serializes as the referenced value does.
impl<T: JSONWriterValue + Copy> JSONWriterValue for &T {
    open spec fn json_text(&self) -> Seq<char> {
        (**self).json_text()
    }

    fn write_json<W: Sink>(self, output_buffer: &mut W) -> (r: Result<(), WriteFailure>) {
        (*self).write_json(output_buffer)
    }
}

/// Serializes either as a JSON null or as the encapsulated value.
impl<T: JSONWriterValue> JSONWriterValue for Option<T> {
    open spec fn json_text(&self) -> Seq<char> {
        match self {
            Option::None => seq!['n', 'u', 'l', 'l'],
            Option::Some(value) => value.json_text(),
        }
    }

    fn write_json<W: Sink>(self, output_buffer: &mut W) -> (r: Result<(), WriteFailure>) {
        match self {
            Option::None => {
                let r = output_buffer.append_str("null");
                proof {
                    reveal_strlit("null");
                    assert("null"@ =~= seq!['n', 'u', 'l', 'l']);
                    if r is Err {
                        lemma_prefix_refl(old(output_buffer).content());
                    }
                }
                r
            }
            Option::Some(value) => value.write_json(output_buffer),
        }
    }
}

/// The element texts of a sequence of encodable values, in order.
pub open spec fn element_texts<Item: JSONWriterValue>(items: Seq<Item>) -> Seq<Seq<char>> {
    items.map_values(|x: Item| x.json_text())
}

/// Writes a complete JSON array from a slice, element by element in
/// order.
///
/// On a sink failure the elements before the failing one stand whole in
/// the output, and the closing bracket is still attempted as best-effort
/// cleanup (its own failure on that path is discarded, as no result
/// channel is left); the element's failure is what is reported.
pub fn write_slice<W: Sink, Item: JSONWriterValue + Copy>(
    output_buffer: &mut W,
    items: &[Item],
) -> (r: Result<(), WriteFailure>)
    ensures
        (*final(output_buffer)).infallible() == old(output_buffer).infallible(),
        r is Ok ==> (*final(output_buffer)).content() == old(output_buffer).content() + array_text(
            element_texts(items@),
        ),
        r is Err ==> !old(output_buffer).infallible() && ((*final(output_buffer)).content() == old(
            output_buffer,
        ).content() || (exists|i: int|
            0 <= i <= items@.len() && (old(output_buffer).content() + seq!['['] + join_comma(
                (#[trigger] element_texts(items@).take(i)),
            )).is_prefix_of((*final(output_buffer)).content()))),
        old(output_buffer).infallible() ==> r is Ok,
{
    let ghost pre = old(output_buffer).content();
    let ghost texts = element_texts(items@);
    let mut array = match JSONArrayWriter::new(&mut *output_buffer) {
        Ok(w) => w,
        Err(failure) => {
            return Err(failure);
        }
    };
    let ghost fut_sink: W = mut_ref_future(array.writer);
    let n = items.len();
    let mut i: usize = 0;
    let mut failure_seen: Option<WriteFailure> = None;
    let ghost mut fail_at: int = 0;
    while i < n && failure_seen.is_none()
        invariant
            i <= n,
            n == items@.len(),
            texts == element_texts(items@),
            array.infallible() == old(output_buffer).infallible(),
            mut_ref_future(array.writer) == fut_sink,
            failure_seen is None ==> array.empty == (i == 0),
            failure_seen is None ==> array.content() == pre + seq!['['] + join_comma(
                texts.take(i as int),
            ),
            failure_seen is Some ==> 0 <= fail_at <= n && (pre + seq!['['] + join_comma(
                texts.take(fail_at),
            )).is_prefix_of(array.content()) && !old(output_buffer).infallible(),
        decreases n - i,
    {
        let ghost loop_pre = array.content();
        let item = items[i];
        match array.value(item) {
            Ok(_) => {
                proof {
                    let prior = texts.take(i as int);
                    let now = texts.take(i + 1);
                    assert(now.drop_last() =~= prior);
                    assert(now.last() == texts[i as int]);
                    if i == 0 {
                        assert(join_comma(now) == texts[0]);
                        assert(pre + seq!['['] + Seq::<char>::empty() + texts[0] =~= pre
                            + seq!['['] + join_comma(now));
                    } else {
                        let entry = texts[i as int];
                        assert(join_comma(now) == join_comma(prior) + seq![','] + entry);
                        assert(pre + seq!['['] + join_comma(prior) + seq![','] + entry =~= pre
                            + seq!['['] + join_comma(now));
                    }
                }
            }
            Err(failure) => {
                failure_seen = Some(failure);
                proof {
                    fail_at = i as int;
                    lemma_prefix_refl(loop_pre);
                    lemma_prefix_trans(loop_pre, loop_pre, array.content());
                }
            }
        }
        i += 1;
    }
    let ghost closing = array.content();
    // On a failed element the closing bracket is still written, as
    // best-effort cleanup; the element's failure is what is reported.
    let close = array.end();
    match failure_seen {
        None => {
            match close {
                Ok(_) => {
                    proof {
                        assert(texts.take(n as int) =~= texts);
                        assert((pre + seq!['['] + join_comma(texts)).push(']') =~= pre
                            + array_text(texts));
                    }
                    Ok(())
                }
                Err(failure) => {
                    proof {
                        lemma_prefix_refl(closing);
                        assert(closing =~= pre + seq!['['] + join_comma(texts.take(n as int)));
                    }
                    Err(failure)
                }
            }
        }
        Some(failure) => {
            proof {
                let done = pre + seq!['['] + join_comma(texts.take(fail_at));
                if close is Ok {
                    lemma_extends(closing, seq![']']);
                    assert(closing.push(']') =~= closing + seq![']']);
                    lemma_prefix_trans(done, closing, closing.push(']'));
                }
            }
            Err(failure)
        }
    }
}

/// The element texts of a sequence of strings: each a quoted literal.
pub open spec fn string_texts(items: Seq<String>) -> Seq<Seq<char>> {
    items.map_values(|s: String| quoted(s@))
}

/// Writes a complete JSON array of string values from a slice of strings,
/// in order.
///
/// Strings are not copyable, so they cannot pass through the by-value
/// element dispatch; this function encodes them by reference. Its failure
/// behaviour is that of [`write_slice`].
pub fn write_string_slice<W: Sink>(output_buffer: &mut W, items: &[String]) -> (r: Result<
    (),
    WriteFailure,
>)
    ensures
        (*final(output_buffer)).infallible() == old(output_buffer).infallible(),
        r is Ok ==> (*final(output_buffer)).content() == old(output_buffer).content() + array_text(
            string_texts(items@),
        ),
        r is Err ==> !old(output_buffer).infallible() && ((*final(output_buffer)).content() == old(
            output_buffer,
        ).content() || (exists|i: int|
            0 <= i <= items@.len() && (old(output_buffer).content() + seq!['['] + join_comma(
                (#[trigger] string_texts(items@).take(i)),
            )).is_prefix_of((*final(output_buffer)).content()))),
        old(output_buffer).infallible() ==> r is Ok,
{
    let ghost pre = old(output_buffer).content();
    let ghost texts = string_texts(items@);
    let mut array = match JSONArrayWriter::new(&mut *output_buffer) {
        Ok(w) => w,
        Err(failure) => {
            return Err(failure);
        }
    };
    let ghost fut_sink: W = mut_ref_future(array.writer);
    let n = items.len();
    let mut i: usize = 0;
    let mut failure_seen: Option<WriteFailure> = None;
    let ghost mut fail_at: int = 0;
    while i < n && failure_seen.is_none()
        invariant
            i <= n,
            n == items@.len(),
            texts == string_texts(items@),
            array.infallible() == old(output_buffer).infallible(),
            mut_ref_future(array.writer) == fut_sink,
            failure_seen is None ==> array.empty == (i == 0),
            failure_seen is None ==> array.content() == pre + seq!['['] + join_comma(
                texts.take(i as int),
            ),
            failure_seen is Some ==> 0 <= fail_at <= n && (pre + seq!['['] + join_comma(
                texts.take(fail_at),
            )).is_prefix_of(array.content()) && !old(output_buffer).infallible(),
        decreases n - i,
    {
        let ghost loop_pre = array.content();
        let item = &items[i];
        match array.value(item) {
            Ok(_) => {
                proof {
                    let prior = texts.take(i as int);
                    let now = texts.take(i + 1);
                    assert(now.drop_last() =~= prior);
                    assert(now.last() == texts[i as int]);
                    if i == 0 {
                        assert(join_comma(now) == texts[0]);
                        assert(pre + seq!['['] + Seq::<char>::empty() + texts[0] =~= pre
                            + seq!['['] + join_comma(now));
                    } else {
                        let entry = texts[i as int];
                        assert(join_comma(now) == join_comma(prior) + seq![','] + entry);
                        assert(pre + seq!['['] + join_comma(prior) + seq![','] + entry =~= pre
                            + seq!['['] + join_comma(now));
                    }
                }
            }
            Err(failure) => {
                failure_seen = Some(failure);
                proof {
                    fail_at = i as int;
                    lemma_prefix_refl(loop_pre);
                    lemma_prefix_trans(loop_pre, loop_pre, array.content());
                }
            }
        }
        i += 1;
    }
    let ghost closing = array.content();
    // On a failed element the closing bracket is still written, as
    // best-effort cleanup; the element's failure is what is reported.
    let close = array.end();
    match failure_seen {
        None => {
            match close {
                Ok(_) => {
                    proof {
                        assert(texts.take(n as int) =~= texts);
                        assert((pre + seq!['['] + join_comma(texts)).push(']') =~= pre
                            + array_text(texts));
                    }
                    Ok(())
                }
                Err(failure) => {
                    proof {
                        lemma_prefix_refl(closing);
                        assert(closing =~= pre + seq!['['] + join_comma(texts.take(n as int)));
                    }
                    Err(failure)
                }
            }
        }
        Some(failure) => {
            proof {
                let done = pre + seq!['['] + join_comma(texts.take(fail_at));
                if close is Ok {
                    lemma_extends(closing, seq![']']);
                    assert(closing.push(']') =~= closing + seq![']']);
                    lemma_prefix_trans(done, closing, closing.push(']'));
                }
            }
            Err(failure)
        }
    }
}

/// Serializes as a JSON array, element by element in order.
impl<Item: JSONWriterValue + Copy> JSONWriterValue for &[Item] {
    open spec fn json_text(&self) -> Seq<char> {
        array_text(self@.map_values(|x: Item| x.json_text()))
    }

    fn write_json<W: Sink>(self, output_buffer: &mut W) -> (r: Result<(), WriteFailure>) {
        let r = write_slice(output_buffer, self);
        proof {
            if r is Err {
                lemma_prefix_refl(old(output_buffer).content());
            }
        }
        r
    }
}

/// Serializes as a JSON array, element by element in order.
impl<Item: JSONWriterValue + Copy> JSONWriterValue for &Vec<Item> {
    open spec fn json_text(&self) -> Seq<char> {
        array_text(self@.map_values(|x: Item| x.json_text()))
    }

    fn write_json<W: Sink>(self, output_buffer: &mut W) -> (r: Result<(), WriteFailure>) {
        let r = write_slice(output_buffer, self.as_slice());
        proof {
            if r is Err {
                lemma_prefix_refl(old(output_buffer).content());
            }
        }
        r
    }
}

/// The JSON object holding the given members, each a key (to be quoted and
/// escaped) with the text of its value.
pub open spec fn object_text(members: Seq<(Seq<char>, Seq<char>)>) -> Seq<char> {
    seq!['{'] + join_comma(
        members.map_values(|m: (Seq<char>, Seq<char>)| quoted(m.0) + seq![':'] + m.1),
    ) + seq!['}']
}

/// The member texts of a list of key/value pairs: each a quoted key, a
/// colon and the quoted value, in order.
pub open spec fn member_texts(pairs: Seq<(String, String)>) -> Seq<Seq<char>> {
    pairs.map_values(|p: (String, String)| quoted(p.0@) + seq![':'] + quoted(p.1@))
}

/// Writes a complete JSON object from a list of key/value pairs, in the
/// list's order, one member per pair; a repeated key yields one member per
/// occurrence, none of them dropped.
///
/// A map whose iteration order is its own (a hash map, an ordered map)
/// is encoded by handing its pairs over in that order. On a sink failure
/// the members before the failing one stand whole in the output, and the
/// closing bracket is still attempted as best-effort cleanup (its own
/// failure on that path is discarded); the member's failure is what is
/// reported.
pub fn write_members<W: Sink>(output_buffer: &mut W, pairs: &Vec<(String, String)>) -> (r: Result<
    (),
    WriteFailure,
>)
    ensures
        (*final(output_buffer)).infallible() == old(output_buffer).infallible(),
        r is Ok ==> (*final(output_buffer)).content() == old(output_buffer).content()
            + object_text(pairs@.map_values(|p: (String, String)| (p.0@, quoted(p.1@)))),
        r is Err ==> !old(output_buffer).infallible() && ((*final(output_buffer)).content() == old(
            output_buffer,
        ).content() || (exists|i: int|
            0 <= i <= pairs@.len() && (old(output_buffer).content() + seq!['{'] + join_comma(
                (#[trigger] member_texts(pairs@).take(i)),
            )).is_prefix_of((*final(output_buffer)).content()))),
        old(output_buffer).infallible() ==> r is Ok,
{
    let ghost pre = old(output_buffer).content();
    let ghost mtexts = member_texts(pairs@);
    let mut object = match crate::writer::JSONObjectWriter::new(&mut *output_buffer) {
        Ok(w) => w,
        Err(failure) => {
            return Err(failure);
        }
    };
    let ghost fut_sink: W = mut_ref_future(object.writer);
    let n = pairs.len();
    let mut i: usize = 0;
    let mut failure_seen: Option<WriteFailure> = None;
    let ghost mut fail_at: int = 0;
    while i < n && failure_seen.is_none()
        invariant
            i <= n,
            n == pairs@.len(),
            mtexts == member_texts(pairs@),
            object.infallible() == old(output_buffer).infallible(),
            mut_ref_future(object.writer) == fut_sink,
            failure_seen is None ==> object.empty == (i == 0),
            failure_seen is None ==> object.content() == pre + seq!['{'] + join_comma(
                mtexts.take(i as int),
            ),
            failure_seen is Some ==> 0 <= fail_at <= n && (pre + seq!['{'] + join_comma(
                mtexts.take(fail_at),
            )).is_prefix_of(object.content()) && !old(output_buffer).infallible(),
        decreases n - i,
    {
        let ghost loop_pre = object.content();
        let pair = &pairs[i];
        match object.member(pair.0.as_str(), &pair.1) {
            Ok(_) => {
                proof {
                    let prior = mtexts.take(i as int);
                    let now = mtexts.take(i + 1);
                    assert(now.drop_last() =~= prior);
                    assert(now.last() == mtexts[i as int]);
                    let entry = mtexts[i as int];
                    assert(loop_pre + crate::writer::member_prefix(i == 0, pair.0@) + quoted(
                        pair.1@,
                    ) =~= loop_pre + comma_sep(i == 0) + entry);
                    if i == 0 {
                        assert(join_comma(now) == entry);
                        assert(pre + seq!['{'] + Seq::<char>::empty() + entry =~= pre + seq!['{']
                            + join_comma(now));
                    } else {
                        assert(join_comma(now) == join_comma(prior) + seq![','] + entry);
                        assert(pre + seq!['{'] + join_comma(prior) + seq![','] + entry =~= pre
                            + seq!['{'] + join_comma(now));
                    }
                }
            }
            Err(failure) => {
                failure_seen = Some(failure);
                proof {
                    fail_at = i as int;
                    lemma_prefix_refl(loop_pre);
                    lemma_prefix_trans(loop_pre, loop_pre, object.content());
                }
            }
        }
        i += 1;
    }
    let ghost closing = object.content();
    // On a failed member the closing bracket is still written, as
    // best-effort cleanup; the member's failure is what is reported.
    let close = object.end();
    match failure_seen {
        None => {
            match close {
                Ok(_) => {
                    proof {
                        assert(mtexts.take(n as int) =~= mtexts);
                        assert(pairs@.map_values(
                            |p: (String, String)| (p.0@, quoted(p.1@)),
                        ).map_values(|m: (Seq<char>, Seq<char>)| quoted(m.0) + seq![':'] + m.1)
                            =~= mtexts);
                        assert((pre + seq!['{'] + join_comma(mtexts)).push('}') =~= pre
                            + object_text(
                            pairs@.map_values(|p: (String, String)| (p.0@, quoted(p.1@))),
                        ));
                    }
                    Ok(())
                }
                Err(failure) => {
                    proof {
                        lemma_prefix_refl(closing);
                        assert(closing =~= pre + seq!['{'] + join_comma(mtexts.take(n as int)));
                    }
                    Err(failure)
                }
            }
        }
        Some(failure) => {
            proof {
                let done = pre + seq!['{'] + join_comma(mtexts.take(fail_at));
                if close is Ok {
                    lemma_extends(closing, seq!['}']);
                    assert(closing.push('}') =~= closing + seq!['}']);
                    lemma_prefix_trans(done, closing, closing.push('}'));
                }
            }
            Err(failure)
        }
    }
}

/// The member texts of pairs whose values are copyable encodable values.
pub open spec fn pair_texts<V: JSONWriterValue>(pairs: Seq<(String, V)>) -> Seq<Seq<char>> {
    pairs.map_values(|p: (String, V)| quoted(p.0@) + seq![':'] + p.1.json_text())
}

/// Writes a complete JSON object from a slice of key/value pairs whose
/// values are any copyable encodable values, in the slice's order, one
/// member per pair; repeated keys are all kept.
///
/// Its failure behaviour is that of [`write_members`].
pub fn write_pairs<W: Sink, V: JSONWriterValue + Copy>(
    output_buffer: &mut W,
    pairs: &[(String, V)],
) -> (r: Result<(), WriteFailure>)
    ensures
        (*final(output_buffer)).infallible() == old(output_buffer).infallible(),
        r is Ok ==> (*final(output_buffer)).content() == old(output_buffer).content() + seq!['{']
            + join_comma(pair_texts(pairs@)) + seq!['}'],
        r is Err ==> !old(output_buffer).infallible() && ((*final(output_buffer)).content() == old(
            output_buffer,
        ).content() || (exists|i: int|
            0 <= i <= pairs@.len() && (old(output_buffer).content() + seq!['{'] + join_comma(
                (#[trigger] pair_texts(pairs@).take(i)),
            )).is_prefix_of((*final(output_buffer)).content()))),
        old(output_buffer).infallible() ==> r is Ok,
{
    let ghost pre = old(output_buffer).content();
    let ghost mtexts = pair_texts(pairs@);
    let mut object = match crate::writer::JSONObjectWriter::new(&mut *output_buffer) {
        Ok(w) => w,
        Err(failure) => {
            return Err(failure);
        }
    };
    let ghost fut_sink: W = mut_ref_future(object.writer);
    let n = pairs.len();
    let mut i: usize = 0;
    let mut failure_seen: Option<WriteFailure> = None;
    let ghost mut fail_at: int = 0;
    while i < n && failure_seen.is_none()
        invariant
            i <= n,
            n == pairs@.len(),
            mtexts == pair_texts(pairs@),
            object.infallible() == old(output_buffer).infallible(),
            mut_ref_future(object.writer) == fut_sink,
            failure_seen is None ==> object.empty == (i == 0),
            failure_seen is None ==> object.content() == pre + seq!['{'] + join_comma(
                mtexts.take(i as int),
            ),
            failure_seen is Some ==> 0 <= fail_at <= n && (pre + seq!['{'] + join_comma(
                mtexts.take(fail_at),
            )).is_prefix_of(object.content()) && !old(output_buffer).infallible(),
        decreases n - i,
    {
        let ghost loop_pre = object.content();
        let pair = &pairs[i];
        match object.member(pair.0.as_str(), pair.1) {
            Ok(_) => {
                proof {
                    let prior = mtexts.take(i as int);
                    let now = mtexts.take(i + 1);
                    assert(now.drop_last() =~= prior);
                    assert(now.last() == mtexts[i as int]);
                    let entry = mtexts[i as int];
                    assert(loop_pre + crate::writer::member_prefix(i == 0, pair.0@)
                        + pair.1.json_text() =~= loop_pre + comma_sep(i == 0) + entry);
                    if i == 0 {
                        assert(join_comma(now) == entry);
                        assert(pre + seq!['{'] + Seq::<char>::empty() + entry =~= pre + seq!['{']
                            + join_comma(now));
                    } else {
                        assert(join_comma(now) == join_comma(prior) + seq![','] + entry);
                        assert(pre + seq!['{'] + join_comma(prior) + seq![','] + entry =~= pre
                            + seq!['{'] + join_comma(now));
                    }
                }
            }
            Err(failure) => {
                failure_seen = Some(failure);
                proof {
                    fail_at = i as int;
                    lemma_prefix_refl(loop_pre);
                    lemma_prefix_trans(loop_pre, loop_pre, object.content());
                }
            }
        }
        i += 1;
    }
    let ghost closing = object.content();
    // On a failed member the closing bracket is still written, as
    // best-effort cleanup; the member's failure is what is reported.
    let close = object.end();
    match failure_seen {
        None => {
            match close {
                Ok(_) => {
                    proof {
                        assert(mtexts.take(n as int) =~= mtexts);
                        assert((pre + seq!['{'] + join_comma(mtexts)).push('}') =~= pre + seq!['{']
                            + join_comma(mtexts) + seq!['}']);
                    }
                    Ok(())
                }
                Err(failure) => {
                    proof {
                        lemma_prefix_refl(closing);
                        assert(closing =~= pre + seq!['{'] + join_comma(mtexts.take(n as int)));
                    }
                    Err(failure)
                }
            }
        }
        Some(failure) => {
            proof {
                let done = pre + seq!['{'] + join_comma(mtexts.take(fail_at));
                if close is Ok {
                    lemma_extends(closing, seq!['}']);
                    assert(closing.push('}') =~= closing + seq!['}']);
                    lemma_prefix_trans(done, closing, closing.push('}'));
                }
            }
            Err(failure)
        }
    }
}

/// Serializes the given `value` to JSON, in a fresh string.
///
/// This is the same as calling [`write_value`] with an empty `String` as
/// the buffer; a `String` never rejects an append, so no failure can
/// arise.
pub fn to_json_string<T: JSONWriterValue>(value: T) -> (r: String)
    ensures
        r@ == value.json_text(),
{
    let mut result = String::new();
    match value.write_json(&mut result) {
        Ok(_) => {}
        Err(_) => {
            // unreachable: a String sink is infallible
            assert(false);
        }
    }
    result
}

/// Writes the `value` as JSON to the `output_buffer`.
pub fn write_value<W: Sink, T: JSONWriterValue>(output_buffer: &mut W, value: T) -> (r: Result<
    (),
    WriteFailure,
>)
    ensures
        (*final(output_buffer)).infallible() == old(output_buffer).infallible(),
        r is Ok ==> (*final(output_buffer)).content() == old(output_buffer).content()
            + value.json_text(),
        r is Err ==> old(output_buffer).content().is_prefix_of((*final(output_buffer)).content())
            && !old(output_buffer).infallible(),
        old(output_buffer).infallible() ==> r is Ok,
{
    value.write_json(output_buffer)
}

} // verus!
