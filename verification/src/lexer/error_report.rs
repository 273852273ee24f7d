use vstd::prelude::*;
use vstd::string::StringExecFns;
use crate::lexer::error::{LexerError, LexerErrorView};
use crate::lexer::grammar::{lemma_run_len_is, run_len};
use crate::text::{
    blank_string, blanks, decimal, decimal_string, lemma_chars_within_bytes, split_first,
};

verus! {

/// Where source text came from.
pub enum SourceOrigin {
    /// Standard input.
    Stdin,
    /// A file, with its path as it is to be shown.
    File(String),
}

impl SourceOrigin {
    /// How the origin is shown: `stdin`, or the path of the file.
    pub open spec fn text(self) -> Seq<char> {
        match self {
            SourceOrigin::Stdin => "stdin"@,
            SourceOrigin::File(path) => path@,
        }
    }

    /// The origin as text.
    pub fn to_string(&self) -> (text: String)
        ensures
            text@ == self.text(),
    {
        match self {
            SourceOrigin::Stdin => "stdin".to_owned(),
            SourceOrigin::File(path) => path.clone(),
        }
    }
}

/// The number of characters of `s` that stand before its first newline.
pub open spec fn line_end(s: Seq<char>) -> nat {
    run_len(s, |c: char| c != '\n')
}

/// The first line of `s`, without its line ending: a newline, or a carriage
/// return and a newline. The last line of a text needs no line ending.
pub open spec fn first_line(s: Seq<char>) -> Seq<char> {
    let end = line_end(s) as int;
    if 0 < end < s.len() && s[end - 1] == '\r' {
        s.take(end - 1)
    } else {
        s.take(end)
    }
}

/// Line `n` of `s`, counted from 1, without its line ending; the empty text
/// when `n` is 0 or `s` has fewer lines.
pub open spec fn line_text(s: Seq<char>, n: nat) -> Seq<char>
    decreases n,
{
    if n == 0 || s.len() == 0 {
        Seq::empty()
    } else if n == 1 {
        first_line(s)
    } else if line_end(s) < s.len() {
        line_text(s.skip((line_end(s) + 1) as int), (n - 1) as nat)
    } else {
        Seq::empty()
    }
}

/// The report on a lexical error in `source`, which came from `origin`: the
/// message with the place, an empty gutter, the offending line behind its
/// number, and an empty gutter again, each on a line of its own.
pub open spec fn report_text(origin: Seq<char>, source: Seq<char>, error: LexerErrorView) -> Seq<
    char,
> {
    let number = decimal(error.line_num);
    let gutter = blanks(number.len() + 1) + "|\n"@;
    "error: "@ + error.kind.message() + " --> "@ + origin + ":"@ + number + "\n"@ + gutter
        + number + " | "@ + line_text(source, error.line_num) + "\n"@ + gutter
}

/// What follows the first line of `s` and its newline, or `None` when no
/// newline ends that line.
fn skip_line<'a>(s: &'a str) -> (after: Option<&'a str>)
    ensures
        line_end(s@) < s@.len() ==> after is Some && after->0@ == s@.skip((line_end(s@) + 1) as int),
        line_end(s@) >= s@.len() ==> after is None,
{
    let mut rest = s;
    let ghost n: nat = 0;
    loop
        invariant
            n <= s@.len(),
            rest@ == s@.skip(n as int),
            forall|i: int| 0 <= i < n ==> #[trigger] s@[i] != '\n',
        decreases s@.len() - n,
    {
        if rest.is_empty() {
            proof {
                lemma_run_len_is(s@, |c: char| c != '\n', n);
            }
            return None;
        }
        let (c, tail) = split_first(rest);
        if c == '\n' {
            proof {
                lemma_run_len_is(s@, |c: char| c != '\n', n);
                assert(s@.skip(n as int).drop_first() =~= s@.skip((n + 1) as int));
            }
            return Some(tail);
        }
        proof {
            assert(s@.skip(n as int).drop_first() =~= s@.skip((n + 1) as int));
            n = n + 1;
        }
        rest = tail;
    }
}

/// The first line of `s`, without its line ending.
fn first_line_of<'a>(s: &'a str) -> (line: &'a str)
    ensures
        line@ == first_line(s@),
{
    let bytes = s.as_bytes();
    let limit = bytes.len();
    proof {
        lemma_chars_within_bytes(s@);
    }
    let mut rest = s;
    let mut len: usize = 0;
    let mut last = '\n';
    loop
        invariant
            len <= s@.len() <= limit,
            rest@ == s@.skip(len as int),
            forall|i: int| 0 <= i < len ==> #[trigger] s@[i] != '\n',
            len > 0 ==> last == s@[len - 1],
        decreases s@.len() - len,
    {
        if rest.is_empty() {
            proof {
                lemma_run_len_is(s@, |c: char| c != '\n', len as nat);
                assert(s@.take(len as int) =~= s@);
            }
            return s;
        }
        let (c, tail) = split_first(rest);
        if c == '\n' {
            proof {
                lemma_run_len_is(s@, |c: char| c != '\n', len as nat);
            }
            if len > 0 && last == '\r' {
                return s.substring_char(0, len - 1);
            } else {
                return s.substring_char(0, len);
            }
        }
        proof {
            assert(s@.skip(len as int).drop_first() =~= s@.skip(len + 1));
        }
        last = c;
        len += 1;
        rest = tail;
    }
}

/// Formats lexical errors against the source in which they were found.
pub struct LexerErrorReporter<'a> {
    origin: SourceOrigin,
    source: &'a str,
}

impl<'a> LexerErrorReporter<'a> {
    /// Where the source came from.
    pub closed spec fn origin(&self) -> SourceOrigin {
        self.origin
    }

    /// The source text.
    pub closed spec fn source(&self) -> Seq<char> {
        self.source@
    }

    /// A reporter for errors found in `source`, which came from `origin`.
    pub fn new(origin: SourceOrigin, source: &'a str) -> (reporter: Self)
        ensures
            reporter.origin() == origin,
            reporter.source() == source@,
    {
        LexerErrorReporter { origin, source }
    }

    /// The report on `err`, ready to be written out.
    pub fn report_lexer_error(&self, err: &LexerError) -> (report: String)
        ensures
            report@ == report_text(self.origin().text(), self.source(), err@),
    {
        let number = decimal_string(err.line_num);
        let width = number.as_str().unicode_len();
        proof {
            lemma_decimal_is_short(err.line_num as nat);
        }
        let mut gutter = blank_string(width + 1);
        gutter.append("|\n");

        let mut report = "error: ".to_owned();
        report.append(err.to_string().as_str());
        report.append(" --> ");
        report.append(self.origin.to_string().as_str());
        report.append(":");
        report.append(number.as_str());
        report.append("\n");
        report.append(gutter.as_str());
        report.append(number.as_str());
        report.append(" | ");
        report.append(self.get_line(err.line_num));
        report.append("\n");
        report.append(gutter.as_str());
        report
    }

    /// Line `line_num` of the source, counted from 1, without its line
    /// ending; the empty text when the source has no such line.
    pub fn get_line(&self, line_num: usize) -> (line: &'a str)
        ensures
            line@ == line_text(self.source(), line_num as nat),
    {
        if line_num == 0 {
            return self::empty_str();
        }
        let mut rest = self.source;
        let mut n = line_num;
        while n > 1
            invariant
                n >= 1,
                line_text(rest@, n as nat) == line_text(self.source@, line_num as nat),
            decreases n,
        {
            if rest.is_empty() {
                return self::empty_str();
            }
            match skip_line(rest) {
                Some(after) => {
                    rest = after;
                    n -= 1;
                },
                None => {
                    return self::empty_str();
                },
            }
        }
        if rest.is_empty() {
            return self::empty_str();
        }
        self::first_line_of(rest)
    }
}

/// A number is written with far fewer digits than it counts.
proof fn lemma_decimal_is_short(n: nat)
    ensures
        1 <= decimal(n).len() <= n / 10 + 2,
    decreases n,
{
    if n >= 10 {
        lemma_decimal_is_short(n / 10);
    }
}

/// The empty text.
fn empty_str() -> (text: &'static str)
    ensures
        text@ == Seq::<char>::empty(),
{
    proof {
        reveal_strlit("");
    }
    let text = "";
    assert(text@ =~= Seq::<char>::empty());
    text
}

} // verus!
