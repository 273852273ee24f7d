use vstd::prelude::*;

verus! {

/// Whether `c` is whitespace as Unicode defines it: what `char::is_whitespace`
/// answers.
pub uninterp spec fn unicode_whitespace(c: char) -> bool;

/// Whether `c` is alphabetic as Unicode defines it: what `char::is_alphabetic`
/// answers.
pub uninterp spec fn unicode_alphabetic(c: char) -> bool;

/// Whether `c` is numeric as Unicode defines it: what `char::is_numeric`
/// answers.
pub uninterp spec fn unicode_numeric(c: char) -> bool;

/// `char::is_whitespace` of the standard library. Its answer depends on the
/// character alone; the tables behind it are not written out here.
pub assume_specification[ char::is_whitespace ](c: char) -> (b: bool)
    ensures
        b == unicode_whitespace(c),
;

/// `char::is_alphabetic` of the standard library. Its answer depends on the
/// character alone; the tables behind it are not written out here.
pub assume_specification[ char::is_alphabetic ](c: char) -> (b: bool)
    ensures
        b == unicode_alphabetic(c),
;

/// `char::is_numeric` of the standard library. Its answer depends on the
/// character alone; the tables behind it are not written out here.
pub assume_specification[ char::is_numeric ](c: char) -> (b: bool)
    ensures
        b == unicode_numeric(c),
;

/// The characters that may begin an identifier: letters and the underscore.
pub open spec fn ident_start(c: char) -> bool {
    unicode_alphabetic(c) || c == '_'
}

/// The characters that may continue an identifier: those that may begin one,
/// and digits.
pub open spec fn ident_continue(c: char) -> bool {
    ident_start(c) || unicode_numeric(c)
}

/// The decimal digits `0` to `9`.
pub open spec fn decimal_digit(c: char) -> bool {
    '0' <= c <= '9'
}

/// Whether `c` may begin an identifier.
pub fn is_ident_alpha(c: char) -> (b: bool)
    ensures
        b == ident_start(c),
{
    c.is_alphabetic() || c == '_'
}

/// Whether `c` may continue an identifier.
pub fn is_ident_alphanumeric(c: char) -> (b: bool)
    ensures
        b == ident_continue(c),
{
    is_ident_alpha(c) || c.is_numeric()
}

/// Whether `c` may stand inside a line comment: any character but the newline.
pub fn is_comment_char(c: char) -> (b: bool)
    ensures
        b == (c != '\n'),
{
    c != '\n'
}

/// Whether `c` may stand inside a string literal: any character but the
/// double quote.
pub fn is_string_char(c: char) -> (b: bool)
    ensures
        b == (c != '"'),
{
    c != '"'
}

/// Whether `c` is one of the decimal digits `0` to `9`.
pub fn is_decimal_digit(c: char) -> (b: bool)
    ensures
        b == decimal_digit(c),
{
    '0' <= c && c <= '9'
}

} // verus!
