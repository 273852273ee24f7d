use vstd::prelude::*;
use vstd::string::StringSliceAdditionalSpecFns;
use vstd::utf8::*;

verus! {

/// `String::push` of the standard library: the character is appended to the
/// end of the string, whose other characters stay as they were.
pub assume_specification[ std::string::String::push ](s: &mut std::string::String, c: char)
    ensures
        final(s)@ == old(s)@.push(c),
;

/// The number of bytes that the UTF-8 encoding of `c` takes.
fn utf8_width(c: char) -> (width: usize)
    ensures
        width == encode_scalar(c as u32).len(),
        1 <= width <= 4,
{
    proof {
        char_is_scalar(c);
    }
    let v = c as u32;
    if v < 0x80 {
        1
    } else if v < 0x800 {
        2
    } else if v < 0x10000 {
        3
    } else {
        4
    }
}

/// Splits a non-empty text into its first character and what follows it,
/// without walking the text.
pub fn split_first<'a>(s: &'a str) -> (parts: (char, &'a str))
    requires
        s@.len() > 0,
    ensures
        parts.0 == s@[0],
        parts.1@ == s@.drop_first(),
{
    let c = s.get_char(0);
    let width = utf8_width(c);
    proof {
        let bytes = s.spec_bytes();
        let tail = s@.drop_first();
        encode_utf8_first_scalar(s@);
        encode_utf8_valid_utf8(s@);
        encode_utf8_valid_utf8(tail);
        assert(bytes =~= encode_scalar(c as u32) + encode_utf8(tail));
        assert(pop_first_scalar(bytes) =~= encode_utf8(tail));
        assert(is_char_boundary(pop_first_scalar(bytes), 0));
        assert(is_char_boundary(bytes, width as int));
    }
    let (_, tail) = s.split_at(width);
    proof {
        encode_utf8_decode_utf8(tail@);
        encode_utf8_decode_utf8(s@.drop_first());
        assert(tail.spec_bytes() =~= encode_utf8(s@.drop_first()));
    }
    (c, tail)
}

/// A text holds no more characters than its UTF-8 encoding holds bytes.
pub proof fn lemma_chars_within_bytes(chars: Seq<char>)
    ensures
        chars.len() <= encode_utf8(chars).len(),
    decreases chars.len(),
{
    if chars.len() > 0 {
        char_is_scalar(chars[0]);
        lemma_chars_within_bytes(chars.drop_first());
    }
}

/// The decimal digit that stands for `d`, a number below ten.
pub open spec fn digit(d: nat) -> char {
    if d == 0 {
        '0'
    } else if d == 1 {
        '1'
    } else if d == 2 {
        '2'
    } else if d == 3 {
        '3'
    } else if d == 4 {
        '4'
    } else if d == 5 {
        '5'
    } else if d == 6 {
        '6'
    } else if d == 7 {
        '7'
    } else if d == 8 {
        '8'
    } else {
        '9'
    }
}

/// The number `n` written in decimal, without leading zeros.
pub open spec fn decimal(n: nat) -> Seq<char>
    decreases n,
{
    if n < 10 {
        seq![digit(n)]
    } else {
        decimal(n / 10).push(digit(n % 10))
    }
}

/// A text of `n` spaces.
pub open spec fn blanks(n: nat) -> Seq<char> {
    Seq::new(n, |i: int| ' ')
}

fn digit_char(d: usize) -> (c: char)
    requires
        d < 10,
    ensures
        c == digit(d as nat),
{
    if d == 0 {
        '0'
    } else if d == 1 {
        '1'
    } else if d == 2 {
        '2'
    } else if d == 3 {
        '3'
    } else if d == 4 {
        '4'
    } else if d == 5 {
        '5'
    } else if d == 6 {
        '6'
    } else if d == 7 {
        '7'
    } else if d == 8 {
        '8'
    } else {
        '9'
    }
}

/// Writes `n` in decimal.
pub fn decimal_string(n: usize) -> (text: String)
    ensures
        text@ == decimal(n as nat),
    decreases n,
{
    if n < 10 {
        let mut text = String::new();
        text.push(digit_char(n));
        assert(text@ =~= seq![digit(n as nat)]);
        text
    } else {
        let mut text = decimal_string(n / 10);
        text.push(digit_char(n % 10));
        text
    }
}

/// Makes a text of `n` spaces.
pub fn blank_string(n: usize) -> (text: String)
    ensures
        text@ == blanks(n as nat),
{
    let mut text = String::new();
    let mut i: usize = 0;
    while i < n
        invariant
            i <= n,
            text@ == blanks(i as nat),
        decreases n - i,
    {
        text.push(' ');
        i += 1;
        assert(text@ =~= blanks(i as nat));
    }
    text
}

/// Whether two texts hold the same characters.
pub fn str_eq(a: &str, b: &str) -> (same: bool)
    ensures
        same == (a@ == b@),
{
    let x = a.as_bytes();
    let y = b.as_bytes();
    proof {
        encode_utf8_decode_utf8(a@);
        encode_utf8_decode_utf8(b@);
    }
    if x.len() != y.len() {
        return false;
    }
    let mut i: usize = 0;
    while i < x.len()
        invariant
            i <= x.len(),
            x.len() == y.len(),
            x@ == encode_utf8(a@),
            y@ == encode_utf8(b@),
            forall|j: int| 0 <= j < i ==> x@[j] == y@[j],
        decreases x.len() - i,
    {
        if x[i] != y[i] {
            return false;
        }
        i += 1;
    }
    assert(x@ =~= y@);
    true
}

} // verus!
