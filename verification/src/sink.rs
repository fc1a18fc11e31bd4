use vstd::prelude::*;
use vstd::string::StrSliceExecFns;
use vstd::string::StringExecFns;

verus! {

/// Signal that the sink rejected an append.
///
/// The encoder treats the failure as opaque: it carries no detail and is
/// handed back unchanged to whichever operation triggered the write.
#[derive(Debug, Copy, Clone)]
pub struct WriteFailure;

/// An append-only text destination the encoder writes through.
///
/// `content` is the text held so far, as a sequence of characters; every
/// successful append extends it and nothing ever removes from it through
/// this trait. A sink for which `infallible` holds never rejects an append.
pub trait Sink {
    /// The text this sink holds.
    spec fn content(&self) -> Seq<char>;

    /// Whether appends to this sink always succeed.
    spec fn infallible(&self) -> bool;

    /// Appends a single character.
    fn append_char(&mut self, c: char) -> (r: Result<(), WriteFailure>)
        ensures
            final(self).infallible() == old(self).infallible(),
            r is Ok ==> final(self).content() == old(self).content().push(c),
            r is Err ==> final(self).content() == old(self).content(),
            old(self).infallible() ==> r is Ok,
    ;

    /// Appends a string slice.
    fn append_str(&mut self, s: &str) -> (r: Result<(), WriteFailure>)
        ensures
            final(self).infallible() == old(self).infallible(),
            r is Ok ==> final(self).content() == old(self).content() + s@,
            r is Err ==> final(self).content() == old(self).content(),
            old(self).infallible() ==> r is Ok,
    ;
}

/// Relies on String::push: appends the given character to the end of the string.
pub assume_specification[ String::push ](s: &mut String, c: char)
    ensures
        final(s)@ == old(s)@.push(c),
;

impl Sink for String {
    open spec fn content(&self) -> Seq<char> {
        self@
    }

    open spec fn infallible(&self) -> bool {
        true
    }

    fn append_char(&mut self, c: char) -> (r: Result<(), WriteFailure>) {
        self.push(c);
        Ok(())
    }

    fn append_str(&mut self, s: &str) -> (r: Result<(), WriteFailure>) {
        self.append(s);
        Ok(())
    }
}

/// A sink holding at most `capacity` characters. It gives callers a
/// destination whose writes genuinely fail, for driving a bounded buffer.
///
/// Exactly when an append would take the text past the capacity, it is
/// rejected and the text stays unchanged: the inherent `try_append_char`
/// and `try_append_str` state that as an if-and-only-if, and the `Sink`
/// methods forward to them (the trait itself promises only the
/// append-or-unchanged behaviour common to every sink).
pub struct BoundedSink {
    pub text: String,
    pub capacity: usize,
}

impl BoundedSink {
    /// Creates an empty bounded sink with the given capacity in characters.
    pub fn new(capacity: usize) -> (r: BoundedSink)
        ensures
            r.text@ == Seq::<char>::empty(),
            r.capacity == capacity,
    {
        BoundedSink { text: String::new(), capacity }
    }

    /// Appends one character, exactly when there is room for it.
    pub fn try_append_char(&mut self, c: char) -> (r: Result<(), WriteFailure>)
        ensures
            final(self).capacity == old(self).capacity,
            r is Ok <==> old(self).text@.len() < old(self).capacity,
            r is Ok ==> final(self).text@ == old(self).text@.push(c),
            r is Err ==> final(self).text@ == old(self).text@,
    {
        let used = self.text.as_str().unicode_len();
        if used < self.capacity {
            self.text.push(c);
            Ok(())
        } else {
            Err(WriteFailure)
        }
    }

    /// Appends a string slice, exactly when there is room for the whole of
    /// it.
    pub fn try_append_str(&mut self, s: &str) -> (r: Result<(), WriteFailure>)
        ensures
            final(self).capacity == old(self).capacity,
            r is Ok <==> old(self).text@.len() + s@.len() <= old(self).capacity,
            r is Ok ==> final(self).text@ == old(self).text@ + s@,
            r is Err ==> final(self).text@ == old(self).text@,
    {
        let used = self.text.as_str().unicode_len();
        let extra = s.unicode_len();
        if used <= self.capacity && extra <= self.capacity - used {
            self.text.append(s);
            Ok(())
        } else {
            Err(WriteFailure)
        }
    }
}

impl Sink for BoundedSink {
    open spec fn content(&self) -> Seq<char> {
        self.text@
    }

    open spec fn infallible(&self) -> bool {
        false
    }

    fn append_char(&mut self, c: char) -> (r: Result<(), WriteFailure>) {
        self.try_append_char(c)
    }

    fn append_str(&mut self, s: &str) -> (r: Result<(), WriteFailure>) {
        self.try_append_str(s)
    }
}

} // verus!
