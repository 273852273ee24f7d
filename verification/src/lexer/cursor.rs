use vstd::prelude::*;
use crate::text::split_first;

verus! {

/// What `peek` and `second` answer when no character is left to look at.
pub const EOF: char = '\0';

/// How many newline characters `s` holds.
pub open spec fn newlines(s: Seq<char>) -> nat
    decreases s.len(),
{
    if s.len() == 0 {
        0
    } else {
        newlines(s.drop_last()) + if s.last() == '\n' {
            1nat
        } else {
            0nat
        }
    }
}

/// The character at index `i` of `s`, or `EOF` when `s` has no such index.
pub open spec fn char_at(s: Seq<char>, i: int) -> char {
    if 0 <= i < s.len() {
        s[i]
    } else {
        EOF
    }
}

/// A text holds no more newlines than characters.
pub proof fn lemma_newlines_bounded(s: Seq<char>)
    ensures
        newlines(s) <= s.len(),
    decreases s.len(),
{
    if s.len() > 0 {
        lemma_newlines_bounded(s.drop_last());
    }
}

/// Newlines add up over concatenation.
pub proof fn lemma_newlines_concat(a: Seq<char>, b: Seq<char>)
    ensures
        newlines(a + b) == newlines(a) + newlines(b),
    decreases b.len(),
{
    if b.len() == 0 {
        assert(a + b =~= a);
    } else {
        assert((a + b).drop_last() =~= a + b.drop_last());
        lemma_newlines_concat(a, b.drop_last());
    }
}

/// A forward-only walker over source text that counts lines as it goes.
///
/// It looks one or two characters ahead without consuming them, and consumes
/// one character at a time. Its line number starts at 1 and grows by one with
/// every newline consumed.
pub struct Cursor<'a> {
    rest: &'a str,
    line_num: usize,
    consumed: Ghost<Seq<char>>,
}

impl<'a> Cursor<'a> {
    /// The line counter is one more than the newlines consumed, and the whole
    /// text is short enough for the counter never to overflow.
    #[verifier::type_invariant]
    pub closed spec fn wf(self) -> bool {
        &&& self.line_num == 1 + newlines(self.consumed@)
        &&& self.consumed@.len() + self.rest@.len() < usize::MAX
    }

    /// The characters consumed so far, oldest first.
    pub closed spec fn consumed(&self) -> Seq<char> {
        self.consumed@
    }

    /// The characters still ahead.
    pub closed spec fn rest(&self) -> Seq<char> {
        self.rest@
    }

    /// The whole text that the cursor walks: what it consumed, then what is ahead.
    pub open spec fn source(&self) -> Seq<char> {
        self.consumed() + self.rest()
    }

    /// The line on which the next character stands.
    pub open spec fn line(&self) -> nat {
        1 + newlines(self.consumed())
    }

    /// A well-formed cursor walks a text shorter than `usize::MAX` characters.
    pub proof fn lemma_wf_bounded(self)
        requires
            self.wf(),
        ensures
            self.source().len() < usize::MAX,
            self.line() <= usize::MAX,
    {
        lemma_newlines_bounded(self.consumed@);
    }

    /// Creates a cursor at the start of `source`, on line 1.
    ///
    /// The source has to be short enough for its lines to be counted in a
    /// `usize`. A text of fewer than `usize::MAX` bytes is: see
    /// `lemma_chars_within_bytes`.
    pub fn new(source: &'a str) -> (cursor: Cursor<'a>)
        requires
            source@.len() < usize::MAX,
        ensures
            cursor.consumed() == Seq::<char>::empty(),
            cursor.rest() == source@,
    {
        Cursor { rest: source, line_num: 1, consumed: Ghost(Seq::empty()) }
    }

    /// The text that is still ahead.
    pub fn as_str(&self) -> (s: &'a str)
        ensures
            s@ == self.rest(),
    {
        self.rest
    }

    /// Consumes the next character and returns it, or returns `None` at the end.
    ///
    /// The line number grows by one exactly when the character is a newline.
    pub fn bump(&mut self) -> (c: Option<char>)
        ensures
            old(self).rest().len() == 0 ==> c is None && *final(self) == *old(self),
            old(self).rest().len() > 0 ==> c == Some(old(self).rest()[0]),
            c is Some ==> final(self).rest() == old(self).rest().drop_first(),
            c is Some ==> final(self).consumed() == old(self).consumed().push(c->0),
            final(self).source() == old(self).source(),
            final(self).line() == old(self).line() + if c == Some('\n') {
                1nat
            } else {
                0nat
            },
    {
        proof {
            use_type_invariant(&*self);
        }
        if self.rest.is_empty() {
            None
        } else {
            let (c, tail) = split_first(self.rest);
            let ghost consumed = self.consumed@.push(c);
            proof {
                assert(consumed.drop_last() =~= self.consumed@);
                assert(consumed + tail@ =~= self.consumed@ + self.rest@);
                lemma_newlines_bounded(self.consumed@);
            }
            let line_num = if c == '\n' {
                self.line_num + 1
            } else {
                self.line_num
            };
            *self = Cursor { rest: tail, line_num, consumed: Ghost(consumed) };
            Some(c)
        }
    }

    /// Consumes the next character if `predicate` accepts it.
    ///
    /// Returns the character consumed, or `None`, with the cursor unchanged,
    /// when the predicate refuses it or nothing is left.
    pub fn bump_if(&mut self, predicate: impl Fn(char) -> bool) -> (c: Option<char>)
        requires
            old(self).rest().len() > 0 ==> call_requires(predicate, (old(self).rest()[0],)),
        ensures
            old(self).rest().len() == 0 ==> c is None,
            c is Some ==> old(self).rest().len() > 0 && c->0 == old(self).rest()[0]
                && call_ensures(predicate, (c->0,), true),
            c is None && old(self).rest().len() > 0 ==> call_ensures(
                predicate,
                (old(self).rest()[0],),
                false,
            ),
            c is None ==> *final(self) == *old(self),
            c is Some ==> final(self).rest() == old(self).rest().drop_first(),
            c is Some ==> final(self).consumed() == old(self).consumed().push(c->0),
            final(self).source() == old(self).source(),
            final(self).line() == old(self).line() + if c == Some('\n') {
                1nat
            } else {
                0nat
            },
    {
        if self.rest.is_empty() {
            None
        } else if predicate(self.peek()) {
            self.bump()
        } else {
            None
        }
    }

    /// Consumes the next character if it is `expected`.
    pub fn bump_if_eq(&mut self, expected: char) -> (c: Option<char>)
        ensures
            c is Some <==> old(self).rest().len() > 0 && old(self).rest()[0] == expected,
            c is Some ==> c == Some(expected),
            c is None ==> *final(self) == *old(self),
            c is Some ==> final(self).rest() == old(self).rest().drop_first(),
            c is Some ==> final(self).consumed() == old(self).consumed().push(expected),
            final(self).source() == old(self).source(),
            final(self).line() == old(self).line() + if c == Some('\n') {
                1nat
            } else {
                0nat
            },
    {
        if self.rest.is_empty() {
            None
        } else if self.peek() == expected {
            self.bump()
        } else {
            None
        }
    }

    /// The next character, not consumed; `EOF` at the end.
    pub fn peek(&self) -> (c: char)
        ensures
            c == char_at(self.rest(), 0),
    {
        if self.rest.is_empty() {
            EOF
        } else {
            self.rest.get_char(0)
        }
    }

    /// The character after the next one, neither consumed; `EOF` when fewer
    /// than two characters are left.
    pub fn second(&self) -> (c: char)
        ensures
            c == char_at(self.rest(), 1),
    {
        if self.rest.is_empty() {
            EOF
        } else {
            let (_, tail) = split_first(self.rest);
            if tail.is_empty() {
                EOF
            } else {
                tail.get_char(0)
            }
        }
    }

    /// Whether every character has been consumed.
    pub fn is_at_end(&self) -> (b: bool)
        ensures
            b == (self.rest().len() == 0),
    {
        self.rest.is_empty()
    }

    /// The current line number, starting from 1: one more than the number of
    /// newlines consumed so far.
    pub fn line_num(&self) -> (n: usize)
        ensures
            n == self.line(),
    {
        proof {
            use_type_invariant(self);
        }
        self.line_num
    }
}

} // verus!
