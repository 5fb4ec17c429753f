//! The two corpora and the directory each one is rooted at.

use std::str::FromStr;
use std::string::ParseError;
use vstd::prelude::*;

use crate::strings::same;

verus! {

/// A corpus: the Septuagint or the Masoretic Text.
#[derive(Debug, Clone, Copy, PartialEq, Eq, Structural)]
pub enum Text {
    Lxx,
    MT,
}

/// The corpus a token selects: `mt` selects the Masoretic Text, every other
/// token, `lxx` among them, the Septuagint.
pub open spec fn corpus_of(token: Seq<char>) -> Text {
    if token == "mt"@ {
        Text::MT
    } else {
        Text::Lxx
    }
}

impl Text {
    /// The root directory of this corpus.
    pub open spec fn root(self) -> Seq<char> {
        match self {
            Text::Lxx => "./src/formatted/lxx/"@,
            Text::MT => "./src/formatted/mt/"@,
        }
    }

    /// The root directory of this corpus, ending in a slash.
    pub fn location(&self) -> (loc: &'static str)
        ensures
            loc@ == self.root(),
            loc@.len() > 0 && loc@.last() == '/',
    {
        proof {
            reveal_strlit("./src/formatted/lxx/");
            reveal_strlit("./src/formatted/mt/");
        }
        match self {
            Text::Lxx => "./src/formatted/lxx/",
            Text::MT => "./src/formatted/mt/",
        }
    }
}

impl FromStr for Text {
    type Err = ParseError;

    /// Reads a corpus token. This never fails: a token that names no corpus
    /// selects the Septuagint.
    fn from_str(s: &str) -> (r: Result<Self, Self::Err>)
        ensures
            r == Ok::<Text, ParseError>(corpus_of(s@)),
    {
        if same(s, "mt") {
            Ok(Text::MT)
        } else {
            Ok(Text::Lxx)
        }
    }
}

/// The root of each corpus is a directory path that ends in a slash.
pub proof fn root_ends_in_slash(text: Text)
    ensures
        text.root().len() > 0,
        text.root().last() == '/',
{
    reveal_strlit("./src/formatted/lxx/");
    reveal_strlit("./src/formatted/mt/");
}

/// Every token selects a corpus with a fixed root: `lxx` and `mt` select their
/// own, and a token that is neither selects the root of the Septuagint.
pub proof fn token_selects_root(token: Seq<char>)
    ensures
        token == "lxx"@ ==> corpus_of(token).root() == "./src/formatted/lxx/"@,
        token == "mt"@ ==> corpus_of(token).root() == "./src/formatted/mt/"@,
        token != "lxx"@ && token != "mt"@ ==> corpus_of(token).root() == "./src/formatted/lxx/"@,
        "./src/formatted/lxx/"@ != "./src/formatted/mt/"@,
{
    reveal_strlit("lxx");
    reveal_strlit("mt");
    reveal_strlit("./src/formatted/lxx/");
    reveal_strlit("./src/formatted/mt/");
    assert("lxx"@.len() != "mt"@.len());
}

} // verus!
