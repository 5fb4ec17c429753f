//! The interactive controller: what to do with each line of input.

use vstd::prelude::*;
use vstd::string::*;

use crate::strings::{chars_of, same};

verus! {

/// What the input stream gave when a line was asked for.
#[derive(Debug)]
pub enum Input {
    /// A line, as it was read: with its line end, if it had one.
    Line(String),
    /// Nothing: the stream is closed.
    Closed,
}

impl View for Input {
    type V = Option<Seq<char>>;

    open spec fn view(&self) -> Option<Seq<char>> {
        match self {
            Input::Line(line) => Some(line@),
            Input::Closed => None,
        }
    }
}

/// The state of an interactive session: the line that was read last, and
/// no history.
#[derive(Debug)]
pub struct Controller {
    pub line: String,
}

/// Whether a character is white space: one of the characters with the Unicode
/// property `White_Space`.
pub open spec fn is_whitespace(c: char) -> bool {
    let u = c as u32;
    ||| 0x09 <= u <= 0x0D
    ||| u == 0x20
    ||| u == 0x85
    ||| u == 0xA0
    ||| u == 0x1680
    ||| 0x2000 <= u <= 0x200A
    ||| u == 0x2028
    ||| u == 0x2029
    ||| u == 0x202F
    ||| u == 0x205F
    ||| u == 0x3000
}

/// A line without the white space it starts with.
pub open spec fn trim_start(s: Seq<char>) -> Seq<char>
    decreases s.len(),
{
    if s.len() > 0 && is_whitespace(s.first()) {
        trim_start(s.drop_first())
    } else {
        s
    }
}

/// A line without the white space it ends with.
pub open spec fn trim_end(s: Seq<char>) -> Seq<char>
    decreases s.len(),
{
    if s.len() > 0 && is_whitespace(s.last()) {
        trim_end(s.drop_last())
    } else {
        s
    }
}

/// A line without the white space around it.
pub open spec fn trim(s: Seq<char>) -> Seq<char> {
    trim_end(trim_start(s))
}

/// Whether a trimmed line is one of the two words that end a session. The
/// words are matched as they are written, in lower case.
pub open spec fn ends_session(word: Seq<char>) -> bool {
    word == "exit"@ || word == "quit"@
}

/// What an input leaves in the line buffer: the line as it was read, or
/// nothing where the stream is closed.
pub open spec fn buffered(input: Option<Seq<char>>) -> Seq<char> {
    match input {
        Some(line) => line,
        None => Seq::empty(),
    }
}

/// Whether the session goes on after this input: it ends when the stream is
/// closed and when the line, trimmed, is `exit` or `quit`.
pub open spec fn goes_on(input: Option<Seq<char>>) -> bool {
    match input {
        Some(line) => !ends_session(trim(line)),
        None => false,
    }
}

/// What is handed on of this input: the trimmed line where the session goes
/// on, and an empty line where it ends.
pub open spec fn content(input: Option<Seq<char>>) -> Seq<char> {
    if goes_on(input) {
        trim(buffered(input))
    } else {
        Seq::empty()
    }
}

impl Controller {
    /// A controller with an empty line buffer.
    pub fn new() -> (c: Controller)
        ensures
            c.line@ == Seq::<char>::empty(),
    {
        Controller { line: String::new() }
    }

    /// Takes what the input stream gave. The line buffer is reset to the line
    /// as it was read; nothing stays of the line before. The result says
    /// whether the session goes on, and gives the content of the line.
    pub fn read(&mut self, input: Input) -> (r: (bool, String))
        ensures
            final(self).line@ == buffered(input@),
            r.0 == goes_on(input@),
            r.1@ == content(input@),
    {
        match input {
            Input::Line(line) => {
                self.line = line;
                let word = trimmed(self.line.as_str());
                if same(word, "exit") || same(word, "quit") {
                    (false, String::new())
                } else {
                    (true, word.to_owned())
                }
            },
            Input::Closed => {
                self.line = String::new();
                (false, String::new())
            },
        }
    }
}

/// Whether a character is white space.
fn is_space(c: char) -> (b: bool)
    ensures
        b == is_whitespace(c),
{
    let u: u32 = c as u32;
    (0x09 <= u && u <= 0x0D) || u == 0x20 || u == 0x85 || u == 0xA0 || u == 0x1680 || (0x2000 <= u
        && u <= 0x200A) || u == 0x2028 || u == 0x2029 || u == 0x202F || u == 0x205F || u == 0x3000
}

/// The part of a line between the white space around it.
fn trimmed(line: &str) -> (word: &str)
    ensures
        word@ == trim(line@),
{
    let chars = chars_of(line);
    let mut start: usize = 0;
    assert(chars@.skip(0) == chars@);
    while start < chars.len() && is_space(chars[start])
        invariant
            start <= chars.len(),
            trim_start(chars@) == trim_start(chars@.skip(start as int)),
        decreases chars.len() - start,
    {
        assert(chars@.skip(start as int).drop_first() == chars@.skip(start + 1));
        start += 1;
    }
    let ghost rest = chars@.skip(start as int);
    let mut end: usize = chars.len();
    while end > start && is_space(chars[end - 1])
        invariant
            start <= end <= chars.len(),
            rest == chars@.skip(start as int),
            trim_end(rest) == trim_end(chars@.subrange(start as int, end as int)),
        decreases end,
    {
        assert(chars@.subrange(start as int, end as int).drop_last() == chars@.subrange(
            start as int,
            end - 1,
        ));
        end -= 1;
    }
    line.substring_char(start, end)
}

/// Trimming leaves the white space at the start of a line out and keeps the
/// rest: the result starts where the first character stands that is not
/// white space.
proof fn trim_start_is_a_suffix(s: Seq<char>) -> (i: int)
    ensures
        0 <= i <= s.len(),
        trim_start(s) == s.skip(i),
        forall|k: int| 0 <= k < i ==> is_whitespace(s[k]),
        i < s.len() ==> !is_whitespace(s[i]),
    decreases s.len(),
{
    if s.len() > 0 && is_whitespace(s.first()) {
        let rest = s.drop_first();
        let i = trim_start_is_a_suffix(rest);
        assert forall|k: int| 0 <= k < i + 1 implies is_whitespace(s[k]) by {
            if k > 0 {
                assert(s[k] == rest[k - 1]);
            }
        }
        i + 1
    } else {
        0
    }
}

/// Trimming leaves the white space at the end of a line out and keeps the
/// rest: the result ends behind the last character that is not white space.
proof fn trim_end_is_a_prefix(s: Seq<char>) -> (j: int)
    ensures
        0 <= j <= s.len(),
        trim_end(s) == s.take(j),
        forall|k: int| j <= k < s.len() ==> is_whitespace(s[k]),
        0 < j ==> !is_whitespace(s[j - 1]),
    decreases s.len(),
{
    if s.len() > 0 && is_whitespace(s.last()) {
        let rest = s.drop_last();
        let j = trim_end_is_a_prefix(rest);
        assert forall|k: int| j <= k < s.len() implies is_whitespace(s[k]) by {
            if k < s.len() - 1 {
                assert(s[k] == rest[k]);
            }
        }
        j
    } else {
        s.len() as int
    }
}

/// A trimmed line is a stretch of the line itself. Before it and behind it
/// the line holds white space only, and where the stretch is not empty it
/// neither starts nor ends with white space. The result gives the bounds of
/// the stretch.
pub proof fn trim_keeps_the_middle(s: Seq<char>) -> (bounds: (int, int))
    ensures
        0 <= bounds.0 <= bounds.1 <= s.len(),
        trim(s) == s.subrange(bounds.0, bounds.1),
        forall|k: int| 0 <= k < bounds.0 ==> is_whitespace(s[k]),
        forall|k: int| bounds.1 <= k < s.len() ==> is_whitespace(s[k]),
        bounds.0 < bounds.1 ==> !is_whitespace(s[bounds.0]) && !is_whitespace(s[bounds.1 - 1]),
{
    let i = trim_start_is_a_suffix(s);
    let rest = s.skip(i);
    let j = trim_end_is_a_prefix(rest);
    assert forall|k: int| i + j <= k < s.len() implies is_whitespace(s[k]) by {
        assert(s[k] == rest[k - i]);
    }
    (i, i + j)
}

} // verus!
