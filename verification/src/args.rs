//! The configuration that the command line selects.

use std::str::FromStr;
use vstd::prelude::*;

use crate::strings::chars_of;
use crate::text::{corpus_of, Text};

verus! {

/// The flags as they were written: for each flag that takes a value the value
/// as text, or nothing where the flag is absent.
#[derive(Debug)]
pub struct Flags {
    pub debug: bool,
    pub action: Option<String>,
    pub book: Option<String>,
    pub chapter: Option<String>,
    pub src: Option<String>,
}

/// The configuration of one run: a snapshot of the flags, made once and not
/// changed afterwards.
#[derive(Debug)]
pub struct Args {
    pub debug: bool,
    pub action: String,
    pub book: String,
    pub chapter: i32,
    pub src: Text,
}

/// Why a set of flags gives no configuration.
#[derive(Debug, Clone, Copy, PartialEq, Eq, Structural)]
pub enum ArgsError {
    /// The chapter is not an integer, or one too large to hold.
    Chapter,
}

/// Whether a character is one of the ten decimal digits.
pub open spec fn is_digit(c: char) -> bool {
    0x30 <= c as u32 <= 0x39
}

/// The value of a decimal digit.
pub open spec fn digit_value(c: char) -> int {
    c as u32 - 0x30
}

/// Whether a text holds decimal digits only.
pub open spec fn all_digits(s: Seq<char>) -> bool {
    forall|i: int| 0 <= i < s.len() ==> is_digit(#[trigger] s[i])
}

/// The number that a row of decimal digits writes.
pub open spec fn number(digits: Seq<char>) -> int
    decreases digits.len(),
{
    if digits.len() == 0 {
        0
    } else {
        10 * number(digits.drop_last()) + digit_value(digits.last())
    }
}

/// The integer that a text writes: one sign at most, `+` or `-`, and then
/// one decimal digit or more, with nothing before, between or after.
pub open spec fn integer(token: Seq<char>) -> Option<int> {
    let signed = token.len() > 0 && (token[0] == '-' || token[0] == '+');
    let digits = if signed {
        token.drop_first()
    } else {
        token
    };
    if digits.len() == 0 || !all_digits(digits) {
        None
    } else if token[0] == '-' {
        Some(-number(digits))
    } else {
        Some(number(digits))
    }
}

/// The chapter that a text writes, if it writes an integer that a chapter
/// number can hold.
pub open spec fn chapter_of(token: Seq<char>) -> Option<i32> {
    match integer(token) {
        Some(n) => if i32::MIN <= n <= i32::MAX {
            Some(n as i32)
        } else {
            None
        },
        None => None,
    }
}

/// The value of a flag, or the default where the flag is absent.
pub open spec fn value_or(value: Option<String>, default: Seq<char>) -> Seq<char> {
    match value {
        Some(text) => text@,
        None => default,
    }
}

impl Args {
    /// Builds the configuration from the flags. A flag that is absent takes
    /// its default: the action `read`, the book `Genesis`, chapter 1 and the
    /// corpus `lxx`. The corpus token is never refused; the chapter is, where
    /// it is not an integer.
    pub fn new(flags: &Flags) -> (r: Result<Args, ArgsError>)
        ensures
            r is Err <==> flags.chapter is Some && chapter_of(flags.chapter.unwrap()@) is None,
            r matches Err(e) ==> e == ArgsError::Chapter,
            r matches Ok(a) ==> {
                &&& a.debug == flags.debug
                &&& a.action@ == value_or(flags.action, "read"@)
                &&& a.book@ == value_or(flags.book, "Genesis"@)
                &&& flags.chapter is None ==> a.chapter == 1
                &&& flags.chapter is Some ==> chapter_of(flags.chapter.unwrap()@) == Some(a.chapter)
                &&& flags.src is None ==> a.src == Text::Lxx
                &&& flags.src is Some ==> a.src == corpus_of(flags.src.unwrap()@)
            },
    {
        let chapter = match &flags.chapter {
            Some(token) => match parse_chapter(token.as_str()) {
                Some(n) => n,
                None => {
                    return Err(ArgsError::Chapter);
                },
            },
            None => 1,
        };
        let action = match &flags.action {
            Some(text) => text.clone(),
            None => "read".to_owned(),
        };
        let book = match &flags.book {
            Some(text) => text.clone(),
            None => "Genesis".to_owned(),
        };
        let src = match &flags.src {
            Some(token) => Text::from_str(token.as_str()).unwrap(),
            None => Text::Lxx,
        };
        Ok(Args { debug: flags.debug, action, book, chapter, src })
    }
}

/// Reads a chapter number written in decimal.
pub fn parse_chapter(token: &str) -> (r: Option<i32>)
    ensures
        r == chapter_of(token@),
{
    let chars = chars_of(token);
    let n = chars.len();
    if n == 0 {
        return None;
    }
    let negative = chars[0] == '-';
    let start: usize = if negative || chars[0] == '+' {
        1
    } else {
        0
    };
    let ghost digits = chars@.subrange(start as int, n as int);
    assert(digits == if token@[0] == '-' || token@[0] == '+' {
        token@.drop_first()
    } else {
        token@
    });
    if start == n {
        return None;
    }
    let mut value: i64 = 0;
    let mut i: usize = start;
    while i < n
        invariant
            start <= i <= n,
            n == chars.len(),
            chars@ == token@,
            digits == chars@.subrange(start as int, n as int),
            digits == if token@[0] == '-' || token@[0] == '+' {
                token@.drop_first()
            } else {
                token@
            },
            all_digits(digits.take(i - start)),
            value == number(digits.take(i - start)),
            0 <= value <= 0x8000_0000,
        decreases n - i,
    {
        let u: u32 = chars[i] as u32;
        if u < 0x30 || u > 0x39 {
            assert(!is_digit(digits[i - start]));
            return None;
        }
        proof {
            let read = digits.take(i + 1 - start);
            assert(read.drop_last() == digits.take(i - start));
        }
        value = value * 10 + (u - 0x30) as i64;
        if value > 0x8000_0000 {
            proof {
                if all_digits(digits) {
                    number_grows(digits, i + 1 - start);
                }
            }
            return None;
        }
        i += 1;
    }
    assert(digits.take(n - start) == digits);
    if negative {
        Some((-value) as i32)
    } else if value <= 0x7fff_ffff {
        Some(value as i32)
    } else {
        None
    }
}

/// The number that the first digits of a row write is at most the number
/// that the whole row writes, and neither is negative.
proof fn number_grows(digits: Seq<char>, k: int)
    requires
        all_digits(digits),
        0 <= k <= digits.len(),
    ensures
        0 <= number(digits.take(k)) <= number(digits),
    decreases digits.len(),
{
    if k == digits.len() {
        assert(digits.take(k) == digits);
        if digits.len() > 0 {
            number_grows(digits.drop_last(), k - 1);
        }
    } else {
        number_grows(digits.drop_last(), k);
        assert(digits.drop_last().take(k) == digits.take(k));
    }
}

} // verus!
