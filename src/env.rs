use vstd::prelude::*;

verus! {

/// A write to an output sink was refused.
#[derive(Debug, Clone, Copy, PartialEq, Eq)]
pub struct WriteError;

/// An output sink that accepts text incrementally, one write at a time.
///
/// `text` is everything the sink has accepted so far and `failures` counts the
/// writes it has refused. A write is accepted whole or refused whole. Any
/// destination that reports acceptance per write becomes one through
/// `SinkEnv`.
pub trait HtmlEnv: Sized {
    spec fn text(&self) -> Seq<char>;

    spec fn failures(&self) -> nat;

    fn write_str(&mut self, s: &str) -> (r: Result<(), WriteError>)
        ensures
            r is Ok ==> final(self).text() == old(self).text() + s@ && final(self).failures()
                == old(self).failures(),
            r is Err ==> final(self).text() == old(self).text() && final(self).failures()
                == old(self).failures() + 1,
    ;

    /// Writes the HTML5 doctype.
    fn doctype(&mut self) -> (r: Result<(), WriteError>)
        ensures
            r is Ok ==> final(self).text() == old(self).text() + "<!DOCTYPE html>"@
                && final(self).failures() == old(self).failures(),
            r is Err ==> final(self).text() == old(self).text() && final(self).failures()
                == old(self).failures() + 1,
    {
        self.write_str("<!DOCTYPE html>")
    }
}

/// `after` is `before` with all of `h` accepted and no write refused.
pub open spec fn wrote<E: HtmlEnv>(before: E, after: E, h: Seq<char>) -> bool {
    &&& after.text() == before.text() + h
    &&& after.failures() == before.failures()
}

/// The sink accepted `h[..m]`, then refused the single write that would have
/// brought it to `h[..n]`, and nothing else was written.
pub open spec fn failed_write<E: HtmlEnv>(before: E, after: E, h: Seq<char>, m: int, n: int) -> bool {
    &&& 0 <= m <= n <= h.len()
    &&& 0 < n
    &&& after.text() == before.text() + h.take(m)
    &&& after.failures() == before.failures() + 1
}

/// Output kept in memory; it never refuses a write.
impl HtmlEnv for String {
    open spec fn text(&self) -> Seq<char> {
        self@
    }

    open spec fn failures(&self) -> nat {
        0
    }

    fn write_str(&mut self, s: &str) -> (r: Result<(), WriteError>) {
        self.append(s);
        Ok(())
    }
}

/// A destination for text, such as a buffer, a file or a socket, that
/// reports for each write whether it took the text.
pub trait TextSink {
    /// Offers `s`; `true` when the destination took it.
    fn try_write(&mut self, s: &str) -> bool;
}

/// Any text destination used as an output sink. What the destination took is
/// recorded, as ghost state, from what it reported.
pub struct SinkEnv<S: TextSink> {
    sink: S,
    accepted: Ghost<Seq<char>>,
    refused: Ghost<nat>,
}

impl<S: TextSink> SinkEnv<S> {
    pub fn new(sink: S) -> (r: Self)
        ensures
            r.text() == Seq::<char>::empty(),
            r.failures() == 0,
    {
        SinkEnv { sink, accepted: Ghost(Seq::empty()), refused: Ghost(0) }
    }

    /// The destination.
    pub fn sink(&self) -> &S {
        &self.sink
    }

    /// The destination, given back.
    pub fn into_inner(self) -> S {
        self.sink
    }
}

impl<S: TextSink> HtmlEnv for SinkEnv<S> {
    closed spec fn text(&self) -> Seq<char> {
        self.accepted@
    }

    closed spec fn failures(&self) -> nat {
        self.refused@
    }

    fn write_str(&mut self, s: &str) -> (r: Result<(), WriteError>) {
        if self.sink.try_write(s) {
            self.accepted = Ghost(self.accepted@ + s@);
            Ok(())
        } else {
            self.refused = Ghost(self.refused@ + 1);
            Err(WriteError)
        }
    }
}

} // verus!
