//! Where rendered characters go.
use vstd::prelude::*;

verus! {

/// The one failure of rendering: the sink refused a character.
#[derive(Debug, Clone, Copy, PartialEq, Eq, Structural)]
pub struct WriteError;

/// Something that takes characters one at a time and may refuse one.
///
/// `offered` is every character handed to `write_char`, in order, whether
/// taken or not; `accepted` is the characters the sink took.
pub trait CharSink {
    /// Every character handed to the sink so far.
    spec fn offered(&self) -> Seq<char>;

    /// The characters the sink took so far.
    spec fn accepted(&self) -> Seq<char>;

    /// Hands one character to the sink, which either takes it or refuses it.
    fn write_char(&mut self, c: char) -> (r: Result<(), WriteError>)
        ensures
            final(self).offered() == old(self).offered().push(c),
            r is Ok ==> final(self).accepted() == old(self).accepted().push(c),
            r is Err ==> final(self).accepted() == old(self).accepted(),
    ;
}

/// Relies on `String::push`: it appends the character to the end of the string.
#[verifier::external_body]
fn push_char(s: &mut String, c: char)
    ensures
        final(s)@ == old(s)@.push(c),
{
    s.push(c)
}

/// An in-memory sink that takes every character.
pub struct StringSink {
    text: String,
}

impl View for StringSink {
    type V = Seq<char>;

    closed spec fn view(&self) -> Seq<char> {
        self.text@
    }
}

impl StringSink {
    pub fn new() -> (s: StringSink)
        ensures
            s@ == Seq::<char>::empty(),
    {
        StringSink { text: String::new() }
    }

    /// The characters taken so far.
    pub fn into_string(self) -> (r: String)
        ensures
            r@ == self@,
    {
        self.text
    }
}

impl CharSink for StringSink {
    open spec fn offered(&self) -> Seq<char> {
        self@
    }

    open spec fn accepted(&self) -> Seq<char> {
        self@
    }

    fn write_char(&mut self, c: char) -> (r: Result<(), WriteError>) {
        push_char(&mut self.text, c);
        Ok(())
    }
}

/// An in-memory sink that takes at most `capacity` characters and refuses
/// every character after that.
pub struct BoundedSink {
    text: String,
    count: usize,
    capacity: usize,
    tried: Ghost<Seq<char>>,
}

impl BoundedSink {
    /// How many characters the sink takes in all.
    pub closed spec fn limit(&self) -> nat {
        self.capacity as nat
    }

    /// How many characters the sink has taken.
    pub closed spec fn taken(&self) -> nat {
        self.count as nat
    }

    pub fn new(capacity: usize) -> (s: BoundedSink)
        ensures
            s.limit() == capacity,
            s.taken() == 0,
            s.offered() == Seq::<char>::empty(),
            s.accepted() == Seq::<char>::empty(),
    {
        BoundedSink { text: String::new(), count: 0, capacity, tried: Ghost(Seq::empty()) }
    }

    /// The characters taken so far.
    pub fn received(&self) -> (r: &str)
        ensures
            r@ == self.accepted(),
    {
        self.text.as_str()
    }

    /// Whether the sink refuses further characters.
    pub fn is_full(&self) -> (r: bool)
        ensures
            r == (self.taken() >= self.limit()),
    {
        self.count >= self.capacity
    }
}

impl CharSink for BoundedSink {
    closed spec fn offered(&self) -> Seq<char> {
        self.tried@
    }

    closed spec fn accepted(&self) -> Seq<char> {
        self.text@
    }

    fn write_char(&mut self, c: char) -> (r: Result<(), WriteError>)
        ensures
            r is Ok <==> old(self).taken() < old(self).limit(),
            final(self).limit() == old(self).limit(),
            final(self).taken() == old(self).taken() + if r is Ok { 1nat } else { 0nat },
    {
        self.tried = Ghost(self.tried@.push(c));
        if self.count < self.capacity {
            push_char(&mut self.text, c);
            self.count = self.count + 1;
            Ok(())
        } else {
            Err(WriteError)
        }
    }
}

} // verus!
