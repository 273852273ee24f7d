use vstd::prelude::*;
use vstd::utf8::{char_is_scalar, encode_scalar, encode_utf8};
use crate::text::split_first;

verus! {

/// The number of bytes that `chars` takes in UTF-8.
pub open spec fn byte_len(chars: Seq<char>) -> nat {
    encode_utf8(chars).len()
}

/// The bytes of a text with one more character at its end are the bytes of
/// the text and those of the character.
pub proof fn lemma_byte_len_push(chars: Seq<char>, c: char)
    ensures
        byte_len(chars.push(c)) == byte_len(chars) + encode_scalar(c as u32).len(),
        encode_scalar(c as u32).len() >= 1,
    decreases chars.len(),
{
    char_is_scalar(c);
    if chars.len() == 0 {
        assert(chars.push(c).drop_first() =~= chars);
        assert(encode_utf8(chars) =~= Seq::<u8>::empty());
    } else {
        assert(chars.push(c).drop_first() =~= chars.drop_first().push(c));
        lemma_byte_len_push(chars.drop_first(), c);
    }
}

/// A forward-only walker over a text that measures, in bytes, how much it
/// has consumed since it was last reset.
pub struct Cursor<'a> {
    text: &'a str,
    rest: usize,
    span: Ghost<Seq<char>>,
}

impl<'a> Cursor<'a> {
    /// `rest` is the number of bytes that were left at the last reset.
    #[verifier::type_invariant]
    pub closed spec fn wf(self) -> bool {
        self.rest == byte_len(self.span@) + byte_len(self.text@)
    }

    /// The characters still ahead.
    pub closed spec fn remaining(&self) -> Seq<char> {
        self.text@
    }

    /// The characters consumed since the last reset, oldest first.
    pub closed spec fn span(&self) -> Seq<char> {
        self.span@
    }

    /// Whether going from `self` to `after` consumes the first character
    /// ahead, which joins the span.
    pub open spec fn advances_to(self, after: Cursor<'a>) -> bool {
        &&& self.remaining().len() > 0
        &&& after.remaining() == self.remaining().drop_first()
        &&& after.span() == self.span().push(self.remaining()[0])
    }

    /// Creates a cursor at the start of `input`, with nothing consumed.
    pub fn new(input: &'a str) -> (cursor: Cursor<'a>)
        ensures
            cursor.remaining() == input@,
            cursor.span() == Seq::<char>::empty(),
    {
        let rest = input.as_bytes().len();
        Cursor { text: input, rest, span: Ghost(Seq::empty()) }
    }

    /// Whether every character has been consumed.
    pub fn is_eof(&self) -> (b: bool)
        ensures
            b == (self.remaining().len() == 0),
    {
        self.text.is_empty()
    }

    /// The number of bytes consumed since the last reset.
    pub fn consumed(&self) -> (n: usize)
        ensures
            n == byte_len(self.span()),
    {
        proof {
            use_type_invariant(self);
        }
        self.rest - self.text.as_bytes().len()
    }

    /// Starts measuring anew: what was consumed so far no longer counts.
    pub fn reset(&mut self)
        ensures
            final(self).remaining() == old(self).remaining(),
            final(self).span() == Seq::<char>::empty(),
    {
        let rest = self.text.as_bytes().len();
        *self = Cursor { text: self.text, rest, span: Ghost(Seq::empty()) };
    }

    /// The next character, not consumed, or `None` at the end.
    pub fn peek(&self) -> (c: Option<char>)
        ensures
            c == if self.remaining().len() > 0 {
                Some(self.remaining()[0])
            } else {
                None
            },
    {
        if self.text.is_empty() {
            None
        } else {
            Some(self.text.get_char(0))
        }
    }

    /// Consumes the next character and returns it, or returns `None` at the end.
    pub fn next(&mut self) -> (c: Option<char>)
        ensures
            old(self).remaining().len() == 0 ==> c is None && *final(self) == *old(self),
            old(self).remaining().len() > 0 ==> c == Some(old(self).remaining()[0]) && old(
                self,
            ).advances_to(*final(self)),
    {
        proof {
            use_type_invariant(&*self);
        }
        if self.text.is_empty() {
            None
        } else {
            let (c, tail) = split_first(self.text);
            proof {
                lemma_byte_len_push(self.span@, c);
                assert(self.text@ =~= seq![c] + tail@);
                assert(encode_utf8(self.text@) =~= encode_scalar(c as u32) + encode_utf8(tail@));
            }
            *self = Cursor { text: tail, rest: self.rest, span: Ghost(self.span@.push(c)) };
            Some(c)
        }
    }

    /// Consumes the next character if `pred` accepts it.
    ///
    /// Returns the character consumed, or `None`, with the cursor unchanged,
    /// when the predicate refuses it or nothing is left.
    pub fn next_if(&mut self, pred: impl Fn(char) -> bool) -> (c: Option<char>)
        requires
            old(self).remaining().len() > 0 ==> call_requires(pred, (old(self).remaining()[0],)),
        ensures
            old(self).remaining().len() == 0 ==> c is None,
            c is Some ==> old(self).advances_to(*final(self)) && c->0 == old(self).remaining()[0]
                && call_ensures(pred, (c->0,), true),
            c is None && old(self).remaining().len() > 0 ==> call_ensures(
                pred,
                (old(self).remaining()[0],),
                false,
            ),
            c is None ==> *final(self) == *old(self),
    {
        match self.peek() {
            Some(c) => {
                if pred(c) {
                    self.next()
                } else {
                    None
                }
            },
            None => None,
        }
    }

    /// Consumes characters as long as `pred` accepts them: the cursor stops
    /// at the end or before the first character that the predicate refuses.
    pub fn eat_while(&mut self, pred: impl Fn(char) -> bool)
        requires
            forall|i: int|
                0 <= i < old(self).remaining().len() ==> call_requires(
                    pred,
                    (#[trigger] old(self).remaining()[i],),
                ),
        ensures
            final(self).remaining().len() <= old(self).remaining().len(),
            final(self).remaining() == old(self).remaining().skip(
                old(self).remaining().len() - final(self).remaining().len(),
            ),
            final(self).span() == old(self).span() + old(self).remaining().take(
                old(self).remaining().len() - final(self).remaining().len(),
            ),
            forall|i: int|
                0 <= i < old(self).remaining().len() - final(self).remaining().len()
                    ==> call_ensures(pred, (#[trigger] old(self).remaining()[i],), true),
            final(self).remaining().len() > 0 ==> call_ensures(
                pred,
                (final(self).remaining()[0],),
                false,
            ),
    {
        let ghost start = self.remaining();
        let ghost before = self.span();
        let ghost n: nat = 0;
        proof {
            assert(start.skip(0) =~= start);
            assert(before + start.take(0) =~= before);
        }
        loop
            invariant
                forall|i: int| 0 <= i < start.len() ==> call_requires(pred, (#[trigger] start[i],)),
                n <= start.len(),
                self.remaining() == start.skip(n as int),
                self.span() == before + start.take(n as int),
                forall|i: int| 0 <= i < n ==> call_ensures(pred, (#[trigger] start[i],), true),
            ensures
                n < start.len() ==> call_ensures(pred, (start[n as int],), false),
            decreases start.len() - n,
        {
            match self.next_if(&pred) {
                Some(c) => {
                    proof {
                        assert(start.skip(n as int).drop_first() =~= start.skip((n + 1) as int));
                        assert((before + start.take(n as int)).push(c) =~= before + start.take(
                            (n + 1) as int,
                        ));
                        n = n + 1;
                    }
                },
                None => {
                    break ;
                },
            }
        }
    }
}

} // verus!
