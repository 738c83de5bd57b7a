//! Rendering a borrowed byte string as escaped text.
use vstd::prelude::*;

use crate::sink::{CharSink, StringSink, WriteError};
use crate::table::{
    escape_all, escape_of, escaped_char, escaped_len, lemma_escape_all_prefix,
    lemma_escape_all_push,
};

verus! {

/// A byte string, borrowed, that renders as its escaped text.
#[derive(Debug, Eq, PartialEq, Hash)]
pub struct EscapeDefaultFmt<'a> {
    inner: &'a [u8],
}

impl<'a> View for EscapeDefaultFmt<'a> {
    type V = Seq<u8>;

    closed spec fn view(&self) -> Seq<u8> {
        self.inner@
    }
}

/// Wraps a byte string for rendering; nothing is copied.
pub fn format_escape_default<'a>(i: &'a [u8]) -> (r: EscapeDefaultFmt<'a>)
    ensures
        r@ == i@,
{
    EscapeDefaultFmt { inner: i }
}

impl<'a> EscapeDefaultFmt<'a> {
    /// Writes the escaped text to `sink`, one character at a time, and stops
    /// at the first character the sink refuses.
    pub fn render<S: CharSink>(&self, sink: &mut S) -> (r: Result<(), WriteError>)
        ensures
            r is Ok ==> {
                &&& final(sink).offered() == old(sink).offered() + escape_all(self@)
                &&& final(sink).accepted() == old(sink).accepted() + escape_all(self@)
            },
            r is Err ==> exists|k: int|
                {
                    &&& 0 <= k < escape_all(self@).len()
                    &&& final(sink).offered() == old(sink).offered() + escape_all(self@).take(
                        k + 1,
                    )
                    &&& final(sink).accepted() == old(sink).accepted() + escape_all(self@).take(k)
                },
    {
        let bytes = self.inner;
        let n = bytes.len();
        let mut i: usize = 0;
        while i < n
            invariant
                0 <= i <= n,
                n == self@.len(),
                bytes@ == self@,
                sink.offered() == old(sink).offered() + escape_all(self@.take(i as int)),
                sink.accepted() == old(sink).accepted() + escape_all(self@.take(i as int)),
            decreases n - i,
        {
            let b = bytes[i];
            let m = escaped_len(b);
            let mut j: usize = 0;
            while j < m
                invariant
                    0 <= i < n,
                    0 <= j <= m,
                    n == self@.len(),
                    bytes@ == self@,
                    b == self@[i as int],
                    m == escape_of(b).len(),
                    sink.offered() == old(sink).offered() + escape_all(self@.take(i as int))
                        + escape_of(b).take(j as int),
                    sink.accepted() == old(sink).accepted() + escape_all(self@.take(i as int))
                        + escape_of(b).take(j as int),
                decreases m - j,
            {
                let c = escaped_char(b, j);
                match sink.write_char(c) {
                    Ok(()) => {
                        assert(escape_of(b).take(j as int).push(c) =~= escape_of(b).take(
                            j + 1,
                        ));
                        assert(sink.offered() =~= old(sink).offered() + escape_all(
                            self@.take(i as int),
                        ) + escape_of(b).take(j + 1));
                        assert(sink.accepted() =~= old(sink).accepted() + escape_all(
                            self@.take(i as int),
                        ) + escape_of(b).take(j + 1));
                    },
                    Err(e) => {
                        proof {
                            let done = escape_all(self@.take(i as int));
                            let k = done.len() + j;
                            lemma_escape_all_prefix(self@, i as int, j as int);
                            lemma_escape_all_prefix(self@, i as int, j + 1);
                            assert(escape_of(b).take(j as int).push(c) =~= escape_of(b).take(
                                j + 1,
                            ));
                            assert(sink.offered() =~= old(sink).offered() + escape_all(
                                self@,
                            ).take(k + 1));
                            assert(sink.accepted() =~= old(sink).accepted() + escape_all(
                                self@,
                            ).take(k));
                            assert(0 <= k < escape_all(self@).len());
                        }
                        return Err(e);
                    },
                }
                j = j + 1;
            }
            proof {
                assert(self@.take(i + 1) =~= self@.take(i as int).push(b));
                lemma_escape_all_push(self@.take(i as int), b);
                assert(escape_of(b).take(m as int) =~= escape_of(b));
                assert(sink.offered() =~= old(sink).offered() + escape_all(self@.take(i + 1)));
                assert(sink.accepted() =~= old(sink).accepted() + escape_all(self@.take(i + 1)));
            }
            i = i + 1;
        }
        assert(self@.take(n as int) =~= self@);
        Ok(())
    }

    /// The escaped text as an owned string.
    pub fn to_string(&self) -> (r: String)
        ensures
            r@ == escape_all(self@),
    {
        let mut sink = StringSink::new();
        let res = self.render(&mut sink);
        // A string sink takes every character, so rendering into it cannot fail.
        match res {
            Ok(()) => {},
            Err(_) => {
                assert(false);
            },
        }
        assert(sink@ =~= escape_all(self@));
        sink.into_string()
    }
}

/// The escaped text of `bytes` as an owned string.
pub fn to_escaped_string(bytes: &[u8]) -> (r: String)
    ensures
        r@ == escape_all(bytes@),
{
    format_escape_default(bytes).to_string()
}

} // verus!
