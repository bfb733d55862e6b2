use vstd::prelude::*;
use vstd::string::StringExecFns;

verus! {

/// The opaque failure a text sink may report on a write.
#[derive(Clone, Copy, Debug, PartialEq, Eq)]
pub struct WriteError;

/// A line-oriented text sink: `Print` hands it one rendering per call and
/// it appends that text and a newline, or fails with an opaque error. On
/// failure the text it holds is unspecified.
pub trait OutSink {
    /// The text the sink has accepted so far.
    spec fn text(&self) -> Seq<char>;

    /// Whether this kind of sink accepts every write.
    spec fn never_fails() -> bool;

    /// Writes `s` followed by one newline.
    fn write_line(&mut self, s: &str) -> (r: Result<(), WriteError>)
        ensures
            r is Ok ==> final(self).text() == old(self).text() + s@ + "\n"@,
            Self::never_fails() ==> r is Ok,
    ;
}

/// A sink that appends everything to an owned string and never fails.
#[derive(Debug)]
pub struct StringSink {
    buffer: String,
}

impl StringSink {
    /// An empty sink.
    pub fn new() -> (r: StringSink)
        ensures
            r.text() == Seq::<char>::empty(),
    {
        StringSink { buffer: String::new() }
    }

    /// Hands the accumulated text out.
    pub fn into_string(self) -> (r: String)
        ensures
            r@ == self.text(),
    {
        self.buffer
    }
}

impl OutSink for StringSink {
    closed spec fn text(&self) -> Seq<char> {
        self.buffer@
    }

    open spec fn never_fails() -> bool {
        true
    }

    fn write_line(&mut self, s: &str) -> (r: Result<(), WriteError>)
        ensures
            r is Ok,
            final(self).text() == old(self).text() + s@ + "\n"@,
    {
        self.buffer.append(s);
        self.buffer.append("\n");
        Ok(())
    }
}

/// A sink that refuses every write, for exercising error propagation.
#[derive(Debug)]
pub struct FailingSink;

impl OutSink for FailingSink {
    open spec fn text(&self) -> Seq<char> {
        Seq::empty()
    }

    open spec fn never_fails() -> bool {
        false
    }

    fn write_line(&mut self, _s: &str) -> (r: Result<(), WriteError>)
        ensures
            r is Err,
    {
        Err(WriteError)
    }
}

} // verus!
