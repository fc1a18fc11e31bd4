use vstd::prelude::*;

use crate::sink::Sink;
use crate::sink::WriteFailure;
use crate::text::lemma_extends;
use crate::text::lemma_prefix_trans;
use crate::text::quoted;
use crate::text::write_string;
use crate::value::JSONWriterValue;

verus! {

/// The separator written before a member or element: a comma, unless it is
/// the first one at its nesting level.
pub open spec fn comma_sep(empty: bool) -> Seq<char> {
    if empty {
        Seq::empty()
    } else {
        seq![',']
    }
}

/// The text written before an object member's value: the separator, the
/// quoted and escaped key, and a colon.
pub open spec fn member_prefix(empty: bool, key: Seq<char>) -> Seq<char> {
    comma_sep(empty) + quoted(key) + seq![':']
}

/// Helper for appending a JSON object to the borrowed sink.
///
/// Can be created with [`write_object`].
///
/// Appends '{' on creation.
/// Appends '}' when closed with [`JSONObjectWriter::end`].
pub struct JSONObjectWriter<'a, W: Sink> {
    pub writer: &'a mut W,
    pub empty: bool,
}

/// Helper for appending a JSON array to the borrowed sink.
///
/// Can be created with [`write_array`].
///
/// Appends '[' on creation.
/// Appends ']' when closed with [`JSONArrayWriter::end`].
pub struct JSONArrayWriter<'a, W: Sink> {
    pub writer: &'a mut W,
    pub empty: bool,
}

impl<'a, W: Sink> JSONObjectWriter<'a, W> {
    /// The text the sink holds at present.
    pub open spec fn content(&self) -> Seq<char> {
        mut_ref_current(self.writer).content()
    }

    /// Whether the sink is one whose appends always succeed.
    pub open spec fn infallible(&self) -> bool {
        mut_ref_current(self.writer).infallible()
    }

    /// Creates a new JSONObjectWriter that writes to the given buffer.
    ///
    /// Writes '{' to the buffer immediately.
    pub(crate) fn new(buffer: &'a mut W) -> (r: Result<JSONObjectWriter<'a, W>, WriteFailure>)
        ensures
            match r {
                Ok(w) => {
                    &&& w.content() == old(buffer).content().push('{')
                    &&& w.empty
                    &&& w.infallible() == old(buffer).infallible()
                    &&& mut_ref_future(w.writer) == *final(buffer)
                },
                Err(_) => {
                    &&& (*final(buffer)).content() == old(buffer).content()
                    &&& (*final(buffer)).infallible() == old(buffer).infallible()
                    &&& !old(buffer).infallible()
                },
            },
    {
        match buffer.append_char('{') {
            Ok(_) => Ok(JSONObjectWriter { writer: buffer, empty: true }),
            Err(failure) => Err(failure),
        }
    }

    /// Starts writing a nested object with the given key.
    ///
    /// Escapes the key, writes ",\"key\":{" and returns a JSONObjectWriter
    /// for the nested object. The ',' is left out for the first member.
    /// While the returned writer is alive, this writer is unusable; once the
    /// nested writer is finished, this writer's sink resumes at whatever the
    /// nested writer left behind.
    pub fn object<'b>(&'b mut self, key: &str) -> (r: Result<
        JSONObjectWriter<'b, W>,
        WriteFailure,
    >)
        ensures
            mut_ref_future(final(self).writer) == mut_ref_future(old(self).writer),
            match r {
                Ok(child) => {
                    &&& child.content() == old(self).content() + member_prefix(
                        old(self).empty,
                        key@,
                    ) + seq!['{']
                    &&& child.empty
                    &&& child.infallible() == old(self).infallible()
                    &&& mut_ref_current(final(self).writer) == mut_ref_future(child.writer)
                    &&& !final(self).empty
                },
                Err(_) => {
                    &&& old(self).content().is_prefix_of(final(self).content())
                    &&& final(self).infallible() == old(self).infallible()
                    &&& !old(self).infallible()
                },
            },
    {
        match self.write_key(key) {
            Ok(_) => {}
            Err(failure) => {
                return Err(failure);
            }
        }
        let r = JSONObjectWriter::new(&mut *self.writer);
        match r {
            Ok(child) => Ok(child),
            Err(failure) => Err(failure),
        }
    }

    /// Starts writing a nested array with the given key.
    ///
    /// Escapes the key, writes ",\"key\":[" and returns a JSONArrayWriter
    /// for the nested array. The ',' is left out for the first member.
    pub fn array<'b>(&'b mut self, key: &str) -> (r: Result<
        JSONArrayWriter<'b, W>,
        WriteFailure,
    >)
        ensures
            mut_ref_future(final(self).writer) == mut_ref_future(old(self).writer),
            match r {
                Ok(child) => {
                    &&& child.content() == old(self).content() + member_prefix(
                        old(self).empty,
                        key@,
                    ) + seq!['[']
                    &&& child.empty
                    &&& child.infallible() == old(self).infallible()
                    &&& mut_ref_current(final(self).writer) == mut_ref_future(child.writer)
                    &&& !final(self).empty
                },
                Err(_) => {
                    &&& old(self).content().is_prefix_of(final(self).content())
                    &&& final(self).infallible() == old(self).infallible()
                    &&& !old(self).infallible()
                },
            },
    {
        match self.write_key(key) {
            Ok(_) => {}
            Err(failure) => {
                return Err(failure);
            }
        }
        let r = JSONArrayWriter::new(&mut *self.writer);
        match r {
            Ok(child) => Ok(child),
            Err(failure) => Err(failure),
        }
    }

    /// Appends a new object member to the buffer.
    ///
    /// Escapes the key and writes ",\"key\":value" to the buffer.
    /// The ',' is left out for the first member.
    pub fn member<T: JSONWriterValue>(&mut self, key: &str, value: T) -> (r: Result<
        (),
        WriteFailure,
    >)
        ensures
            mut_ref_future(final(self).writer) == mut_ref_future(old(self).writer),
            final(self).infallible() == old(self).infallible(),
            match r {
                Ok(_) => {
                    &&& final(self).content() == old(self).content() + member_prefix(
                        old(self).empty,
                        key@,
                    ) + value.json_text()
                    &&& !final(self).empty
                },
                Err(_) => {
                    &&& old(self).content().is_prefix_of(final(self).content())
                    &&& !old(self).infallible()
                },
            },
    {
        let ghost pre = self.content();
        match self.write_key(key) {
            Ok(_) => {}
            Err(failure) => {
                return Err(failure);
            }
        }
        let r = value.write_json(&mut *self.writer);
        proof {
            if r is Err {
                lemma_extends(pre, member_prefix(old(self).empty, key@));
                lemma_prefix_trans(pre, pre + member_prefix(old(self).empty, key@), self.content());
            }
        }
        r
    }

    /// Writes a key without any value.
    ///
    /// Escapes the key and writes ",\"key\":"; the ',' is left out for the
    /// first key. A caller using this directly has to write the member's
    /// value itself afterwards.
    pub fn write_key(&mut self, key: &str) -> (r: Result<(), WriteFailure>)
        ensures
            mut_ref_future(final(self).writer) == mut_ref_future(old(self).writer),
            final(self).infallible() == old(self).infallible(),
            match r {
                Ok(_) => {
                    &&& final(self).content() == old(self).content() + member_prefix(
                        old(self).empty,
                        key@,
                    )
                    &&& !final(self).empty
                },
                Err(_) => {
                    &&& old(self).content().is_prefix_of(final(self).content())
                    &&& !old(self).infallible()
                },
            },
    {
        let ghost pre = self.content();
        match self.write_comma() {
            Ok(_) => {}
            Err(failure) => {
                proof {
                    lemma_extends(pre, Seq::empty());
                    assert(pre + Seq::<char>::empty() =~= pre);
                }
                return Err(failure);
            }
        }
        let ghost sep = comma_sep(old(self).empty);
        match write_string(&mut *self.writer, key) {
            Ok(_) => {}
            Err(failure) => {
                proof {
                    lemma_extends(pre, sep);
                    lemma_prefix_trans(pre, pre + sep, self.content());
                }
                return Err(failure);
            }
        }
        match self.writer.append_char(':') {
            Ok(_) => {}
            Err(failure) => {
                proof {
                    lemma_extends(pre, sep + quoted(key@));
                    assert(pre + sep + quoted(key@) =~= pre + (sep + quoted(key@)));
                }
                return Err(failure);
            }
        }
        proof {
            assert((pre + sep + quoted(key@)).push(':') =~= pre + member_prefix(
                old(self).empty,
                key@,
            ));
        }
        Ok(())
    }

    /// Writes a comma unless at the beginning of the object.
    ///
    /// A caller using this directly has to write the member itself
    /// afterwards, or the comma bookkeeping is violated.
    pub fn write_comma(&mut self) -> (r: Result<(), WriteFailure>)
        ensures
            mut_ref_future(final(self).writer) == mut_ref_future(old(self).writer),
            final(self).infallible() == old(self).infallible(),
            !final(self).empty,
            old(self).empty ==> r is Ok,
            match r {
                Ok(_) => final(self).content() == old(self).content() + comma_sep(
                    old(self).empty,
                ),
                Err(_) => {
                    &&& final(self).content() == old(self).content()
                    &&& !old(self).infallible()
                },
            },
    {
        if self.empty {
            self.empty = false;
            proof {
                assert(self.content() + Seq::<char>::empty() =~= self.content());
            }
            Ok(())
        } else {
            let r = self.writer.append_char(',');
            proof {
                if r is Ok {
                    assert(old(self).content().push(',') =~= old(self).content() + seq![',']);
                }
            }
            r
        }
    }

    /// Returns a borrow of the encapsulated writer.
    pub fn writer(&self) -> (r: &W)
        ensures
            *r == mut_ref_current(self.writer),
    {
        &*self.writer
    }

    /// Returns a mutable borrow of the encapsulated writer.
    ///
    /// A caller appending members through it directly has to use
    /// `write_comma` first to keep the separator bookkeeping intact.
    pub fn writer_mut<'b>(&'b mut self) -> (r: &'b mut W)
        ensures
            *r == mut_ref_current(old(self).writer),
            mut_ref_current(final(self).writer) == *final(r),
            mut_ref_future(final(self).writer) == mut_ref_future(old(self).writer),
            final(self).empty == old(self).empty,
    {
        &mut *self.writer
    }

    /// Consumes this writer and writes '}' to the encapsulated writer,
    /// surfacing a sink failure at this exact point.
    pub fn end(self) -> (r: Result<(), WriteFailure>)
        ensures
            match r {
                Ok(_) => {
                    &&& (mut_ref_future(self.writer)).content() == self.content().push('}')
                    &&& (mut_ref_future(self.writer)).infallible() == self.infallible()
                },
                Err(_) => {
                    &&& (mut_ref_future(self.writer)).content() == self.content()
                    &&& (mut_ref_future(self.writer)).infallible() == mut_ref_current(
                        self.writer,
                    ).infallible()
                    &&& !self.infallible()
                },
            },
    {
        self.writer.append_char('}')
    }
}

impl<'a, W: Sink> JSONArrayWriter<'a, W> {
    /// The text the sink holds at present.
    pub open spec fn content(&self) -> Seq<char> {
        mut_ref_current(self.writer).content()
    }

    /// Whether the sink is one whose appends always succeed.
    pub open spec fn infallible(&self) -> bool {
        mut_ref_current(self.writer).infallible()
    }

    /// Creates a new JSONArrayWriter that writes to the given buffer.
    ///
    /// Writes '[' to the buffer immediately.
    pub(crate) fn new(buffer: &'a mut W) -> (r: Result<JSONArrayWriter<'a, W>, WriteFailure>)
        ensures
            match r {
                Ok(w) => {
                    &&& w.content() == old(buffer).content().push('[')
                    &&& w.empty
                    &&& w.infallible() == old(buffer).infallible()
                    &&& mut_ref_future(w.writer) == *final(buffer)
                },
                Err(_) => {
                    &&& (*final(buffer)).content() == old(buffer).content()
                    &&& (*final(buffer)).infallible() == old(buffer).infallible()
                    &&& !old(buffer).infallible()
                },
            },
    {
        match buffer.append_char('[') {
            Ok(_) => Ok(JSONArrayWriter { writer: buffer, empty: true }),
            Err(failure) => Err(failure),
        }
    }

    /// Starts writing a nested object as an array entry.
    ///
    /// Writes the separator and '{' and returns a JSONObjectWriter.
    pub fn object<'b>(&'b mut self) -> (r: Result<JSONObjectWriter<'b, W>, WriteFailure>)
        ensures
            mut_ref_future(final(self).writer) == mut_ref_future(old(self).writer),
            match r {
                Ok(child) => {
                    &&& child.content() == old(self).content() + comma_sep(old(self).empty)
                        + seq!['{']
                    &&& child.empty
                    &&& child.infallible() == old(self).infallible()
                    &&& mut_ref_current(final(self).writer) == mut_ref_future(child.writer)
                    &&& !final(self).empty
                },
                Err(_) => {
                    &&& old(self).content().is_prefix_of(final(self).content())
                    &&& final(self).infallible() == old(self).infallible()
                    &&& !old(self).infallible()
                },
            },
    {
        let ghost pre = self.content();
        match self.write_comma() {
            Ok(_) => {}
            Err(failure) => {
                proof {
                    lemma_extends(pre, Seq::empty());
                    assert(pre + Seq::<char>::empty() =~= pre);
                }
                return Err(failure);
            }
        }
        let r = JSONObjectWriter::new(&mut *self.writer);
        match r {
            Ok(child) => {
                proof {
                    assert((pre + comma_sep(old(self).empty)).push('{') =~= pre + comma_sep(
                        old(self).empty,
                    ) + seq!['{']);
                }
                Ok(child)
            }
            Err(failure) => {
                proof {
                    lemma_extends(pre, comma_sep(old(self).empty));
                }
                Err(failure)
            }
        }
    }

    /// Starts writing a nested array as an array entry.
    ///
    /// Writes the separator and '[' and returns a JSONArrayWriter.
    pub fn array<'b>(&'b mut self) -> (r: Result<JSONArrayWriter<'b, W>, WriteFailure>)
        ensures
            mut_ref_future(final(self).writer) == mut_ref_future(old(self).writer),
            match r {
                Ok(child) => {
                    &&& child.content() == old(self).content() + comma_sep(old(self).empty)
                        + seq!['[']
                    &&& child.empty
                    &&& child.infallible() == old(self).infallible()
                    &&& mut_ref_current(final(self).writer) == mut_ref_future(child.writer)
                    &&& !final(self).empty
                },
                Err(_) => {
                    &&& old(self).content().is_prefix_of(final(self).content())
                    &&& final(self).infallible() == old(self).infallible()
                    &&& !old(self).infallible()
                },
            },
    {
        let ghost pre = self.content();
        match self.write_comma() {
            Ok(_) => {}
            Err(failure) => {
                proof {
                    lemma_extends(pre, Seq::empty());
                    assert(pre + Seq::<char>::empty() =~= pre);
                }
                return Err(failure);
            }
        }
        let r = JSONArrayWriter::new(&mut *self.writer);
        match r {
            Ok(child) => {
                proof {
                    assert((pre + comma_sep(old(self).empty)).push('[') =~= pre + comma_sep(
                        old(self).empty,
                    ) + seq!['[']);
                }
                Ok(child)
            }
            Err(failure) => {
                proof {
                    lemma_extends(pre, comma_sep(old(self).empty));
                }
                Err(failure)
            }
        }
    }

    /// Writes the given value as an array entry.
    ///
    /// Writes ",value" to the buffer; the ',' is left out for the first
    /// entry.
    pub fn value<T: JSONWriterValue>(&mut self, value: T) -> (r: Result<(), WriteFailure>)
        ensures
            mut_ref_future(final(self).writer) == mut_ref_future(old(self).writer),
            final(self).infallible() == old(self).infallible(),
            match r {
                Ok(_) => {
                    &&& final(self).content() == old(self).content() + comma_sep(old(self).empty)
                        + value.json_text()
                    &&& !final(self).empty
                },
                Err(_) => {
                    &&& old(self).content().is_prefix_of(final(self).content())
                    &&& !old(self).infallible()
                },
            },
    {
        let ghost pre = self.content();
        match self.write_comma() {
            Ok(_) => {}
            Err(failure) => {
                proof {
                    lemma_extends(pre, Seq::empty());
                    assert(pre + Seq::<char>::empty() =~= pre);
                }
                return Err(failure);
            }
        }
        let r = value.write_json(&mut *self.writer);
        proof {
            if r is Err {
                lemma_extends(pre, comma_sep(old(self).empty));
                lemma_prefix_trans(pre, pre + comma_sep(old(self).empty), self.content());
            } else {
                assert(pre + comma_sep(old(self).empty) + value.json_text() =~= pre + (comma_sep(
                    old(self).empty,
                ) + value.json_text()));
            }
        }
        r
    }

    /// Writes a comma unless at the beginning of the array.
    ///
    /// A caller using this directly has to write the entry itself
    /// afterwards, or the separator bookkeeping is violated.
    pub fn write_comma(&mut self) -> (r: Result<(), WriteFailure>)
        ensures
            mut_ref_future(final(self).writer) == mut_ref_future(old(self).writer),
            final(self).infallible() == old(self).infallible(),
            !final(self).empty,
            old(self).empty ==> r is Ok,
            match r {
                Ok(_) => final(self).content() == old(self).content() + comma_sep(
                    old(self).empty,
                ),
                Err(_) => {
                    &&& final(self).content() == old(self).content()
                    &&& !old(self).infallible()
                },
            },
    {
        if self.empty {
            self.empty = false;
            proof {
                assert(self.content() + Seq::<char>::empty() =~= self.content());
            }
            Ok(())
        } else {
            let r = self.writer.append_char(',');
            proof {
                if r is Ok {
                    assert(old(self).content().push(',') =~= old(self).content() + seq![',']);
                }
            }
            r
        }
    }

    /// Returns a borrow of the encapsulated writer.
    pub fn writer(&self) -> (r: &W)
        ensures
            *r == mut_ref_current(self.writer),
    {
        &*self.writer
    }

    /// Returns a mutable borrow of the encapsulated writer.
    ///
    /// A caller appending entries through it directly has to use
    /// `write_comma` first to keep the separator bookkeeping intact.
    pub fn writer_mut<'b>(&'b mut self) -> (r: &'b mut W)
        ensures
            *r == mut_ref_current(old(self).writer),
            mut_ref_current(final(self).writer) == *final(r),
            mut_ref_future(final(self).writer) == mut_ref_future(old(self).writer),
            final(self).empty == old(self).empty,
    {
        &mut *self.writer
    }

    /// Consumes this writer and writes ']' to the encapsulated writer,
    /// surfacing a sink failure at this exact point.
    pub fn end(self) -> (r: Result<(), WriteFailure>)
        ensures
            match r {
                Ok(_) => {
                    &&& (mut_ref_future(self.writer)).content() == self.content().push(']')
                    &&& (mut_ref_future(self.writer)).infallible() == self.infallible()
                },
                Err(_) => {
                    &&& (mut_ref_future(self.writer)).content() == self.content()
                    &&& (mut_ref_future(self.writer)).infallible() == mut_ref_current(
                        self.writer,
                    ).infallible()
                    &&& !self.infallible()
                },
            },
    {
        self.writer.append_char(']')
    }
}

/// Borrows the output buffer and starts writing an object.
///
/// Creates and returns a new [`JSONObjectWriter`] that writes to the given
/// buffer; writes '{' to the buffer immediately.
pub fn write_object<'a, W: Sink>(output_buffer: &'a mut W) -> (r: Result<
    JSONObjectWriter<'a, W>,
    WriteFailure,
>)
    ensures
        match r {
            Ok(w) => {
                &&& w.content() == old(output_buffer).content().push('{')
                &&& w.empty
                &&& w.infallible() == old(output_buffer).infallible()
                &&& mut_ref_future(w.writer) == *final(output_buffer)
            },
            Err(_) => {
                &&& (*final(output_buffer)).content() == old(output_buffer).content()
                &&& (*final(output_buffer)).infallible() == old(output_buffer).infallible()
                &&& !old(output_buffer).infallible()
            },
        },
{
    JSONObjectWriter::new(output_buffer)
}

/// Borrows the output buffer and starts writing an array.
///
/// Creates and returns a new [`JSONArrayWriter`] that writes to the given
/// buffer; writes '[' to the buffer immediately.
pub fn write_array<'a, W: Sink>(output_buffer: &'a mut W) -> (r: Result<
    JSONArrayWriter<'a, W>,
    WriteFailure,
>)
    ensures
        match r {
            Ok(w) => {
                &&& w.content() == old(output_buffer).content().push('[')
                &&& w.empty
                &&& w.infallible() == old(output_buffer).infallible()
                &&& mut_ref_future(w.writer) == *final(output_buffer)
            },
            Err(_) => {
                &&& (*final(output_buffer)).content() == old(output_buffer).content()
                &&& (*final(output_buffer)).infallible() == old(output_buffer).infallible()
                &&& !old(output_buffer).infallible()
            },
        },
{
    JSONArrayWriter::new(output_buffer)
}

} // verus!
