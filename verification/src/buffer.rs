//! A text buffer with a fixed capacity in bytes.

use crate::error::Error;
use crate::text::{
    byte_len, char_width, lemma_byte_len_add, lemma_byte_len_push, lines, lines_of,
    str_byte_len, views, width_of,
};
use vstd::prelude::*;

verus! {

/// `String::push` of std: the character is appended at the end, and nothing
/// else changes.
pub assume_specification[ String::push ](s: &mut String, ch: char)
    ensures
        final(s)@ == old(s)@.push(ch),
;

/// A text of at most `CAP` bytes in UTF-8. An operation that would take it
/// past `CAP` fails and leaves it as it was.
#[derive(Debug, PartialEq, Eq)]
pub struct BoundedString<const CAP: usize> {
    text: String,
}

impl<const CAP: usize> View for BoundedString<CAP> {
    type V = Seq<char>;

    closed spec fn view(&self) -> Seq<char> {
        self.text@
    }
}

impl<const CAP: usize> Clone for BoundedString<CAP> {
    fn clone(&self) -> (copy: Self)
        ensures
            copy@ == self@,
    {
        proof {
            use_type_invariant(self);
        }
        BoundedString { text: self.text.clone() }
    }
}

impl<const CAP: usize> BoundedString<CAP> {
    /// The text never takes more than `CAP` bytes.
    #[verifier::type_invariant]
    pub open spec fn within_capacity(self) -> bool {
        byte_len(self@) <= CAP
    }

    /// The empty buffer.
    pub fn new() -> (buf: Self)
        ensures
            buf@ == Seq::<char>::empty(),
    {
        BoundedString { text: String::new() }
    }

    /// A buffer that holds `s`, if `s` fits.
    pub fn from(s: &str) -> (made: Result<Self, Error>)
        ensures
            byte_len(s@) <= CAP ==> made is Ok && made->Ok_0@ == s@,
            byte_len(s@) > CAP ==> made == Err::<Self, Error>(Error::BufferOverflow),
    {
        if str_byte_len(s) <= CAP {
            Ok(BoundedString { text: String::from_str(s) })
        } else {
            Err(Error::BufferOverflow)
        }
    }

    /// The number of bytes in use.
    pub fn len(&self) -> (n: usize)
        ensures
            n == byte_len(self@),
            n <= CAP,
    {
        proof {
            use_type_invariant(self);
        }
        str_byte_len(self.text.as_str())
    }

    /// The number of bytes that the buffer can hold.
    pub fn capacity(&self) -> (n: usize)
        ensures
            n == CAP,
    {
        CAP
    }

    /// Whether the buffer holds no character.
    pub fn is_empty(&self) -> (empty: bool)
        ensures
            empty == (self@.len() == 0),
    {
        self.text.as_str().is_empty()
    }

    /// Appends `s`, if the result fits.
    pub fn try_push_str(&mut self, s: &str) -> (pushed: Result<(), Error>)
        ensures
            byte_len(old(self)@) + byte_len(s@) <= CAP ==> pushed is Ok && final(self)@ == old(self)@
                + s@,
            byte_len(old(self)@) + byte_len(s@) > CAP ==> pushed == Err::<(), Error>(
                Error::BufferOverflow,
            ) && final(self)@ == old(self)@,
    {
        let used = self.len();
        if str_byte_len(s) <= CAP - used {
            proof {
                lemma_byte_len_add(self.text@, s@);
            }
            let mut text = String::new();
            core::mem::swap(&mut self.text, &mut text);
            text.append(s);
            self.text = text;
            Ok(())
        } else {
            Err(Error::BufferOverflow)
        }
    }

    /// Appends `ch`, if the result fits.
    pub fn try_push(&mut self, ch: char) -> (pushed: Result<(), Error>)
        ensures
            byte_len(old(self)@) + char_width(ch) <= CAP ==> pushed is Ok && final(self)@ == old(
                self,
            )@.push(ch),
            byte_len(old(self)@) + char_width(ch) > CAP ==> pushed == Err::<(), Error>(
                Error::BufferOverflow,
            ) && final(self)@ == old(self)@,
    {
        let used = self.len();
        if width_of(ch) <= CAP - used {
            proof {
                lemma_byte_len_push(self.text@, ch);
            }
            let mut text = String::new();
            core::mem::swap(&mut self.text, &mut text);
            text.push(ch);
            self.text = text;
            Ok(())
        } else {
            Err(Error::BufferOverflow)
        }
    }

    /// Empties the buffer.
    pub fn clear(&mut self)
        ensures
            final(self)@ == Seq::<char>::empty(),
    {
        self.text = String::new();
    }

    /// The text as a string slice.
    pub fn as_str(&self) -> (s: &str)
        ensures
            s@ == self@,
    {
        self.text.as_str()
    }

    /// The lines of the text, as slices of it.
    pub fn lines(&self) -> (out: Vec<&str>)
        ensures
            views(out@) == lines_of(self@),
    {
        lines(self.text.as_str())
    }
}

/// A text as far as it fits `cap` bytes: itself, or `BufferOverflow`.
pub open spec fn fitted(text: Result<Seq<char>, Error>, cap: int) -> Result<Seq<char>, Error> {
    match text {
        Ok(t) => if byte_len(t) <= cap {
            Ok(t)
        } else {
            Err(Error::BufferOverflow)
        },
        Err(e) => Err(e),
    }
}

/// The text of an answer, or its error.
pub open spec fn text_of<const N: usize>(answer: Result<BoundedString<N>, Error>) -> Result<
    Seq<char>,
    Error,
> {
    match answer {
        Ok(buf) => Ok(buf@),
        Err(e) => Err(e),
    }
}

/// Whether `piece` was appended: on success the buffer holds it behind what
/// it held, and a failure is an overflow that the whole would be too.
pub open spec fn appended<const N: usize>(
    before: Seq<char>,
    after: Seq<char>,
    piece: Seq<char>,
    done: Result<(), Error>,
) -> bool {
    &&& done is Ok ==> after == before + piece
    &&& done is Err ==> done == Err::<(), Error>(Error::BufferOverflow) && byte_len(before + piece)
        > N
}

/// What overflows keeps overflowing when more is to follow.
pub proof fn lemma_overflow_grows(before: Seq<char>, part: Seq<char>, whole: Seq<char>, cap: int)
    requires
        part.is_prefix_of(whole),
        byte_len(before + part) > cap,
    ensures
        byte_len(before + whole) > cap,
{
    let rest = whole.skip(part.len() as int);
    assert(before + whole =~= (before + part) + rest);
    lemma_byte_len_add(before + part, rest);
}

} // verus!
