//! A simple parser that tracks whether code is inside a quoted string.

use vstd::prelude::*;
use crate::languages::{comment_for_lang, comment_for_language};
use crate::text::{chars_of, has_prefix, occurs_at, owned, starts_with, trim_start, trim_start_str, vec_occurs_at};

verus! {

/// The state of a `StringParser` between two lines.
pub ghost struct ParserModel {
    /// Quotes are not tracked at all.
    pub ignore: bool,
    /// Python rules: triple quotes, and single quotes end with the line.
    pub python: bool,
    /// The comment prefix of the language.
    pub comment: Option<Seq<char>>,
    /// The open single-character quote, if any.
    pub single: Option<char>,
    /// The open triple quote, if any.
    pub triple: Option<char>,
}

/// Is the next line inside a quoted string?
pub open spec fn model_quoted(m: ParserModel) -> bool {
    !m.ignore && (m.single is Some || m.triple is Some)
}

/// The comment starts at position `i` of the line, outside of any quote.
pub open spec fn comment_starts_at(m: ParserModel, line: Seq<char>, i: int) -> bool {
    &&& m.single is None
    &&& m.triple is None
    &&& m.comment is Some
    &&& m.comment->0.len() > 0
    &&& m.comment->0[0] == line[i]
    &&& occurs_at(line, m.comment->0, i)
}

/// The state after the characters `line[i..]`, where `ts` is the position of the
/// last triple quote seen on this line (or -1).
pub open spec fn scan(m: ParserModel, line: Seq<char>, i: int, ts: int) -> ParserModel
    decreases line.len() - i,
{
    if i < 0 || i >= line.len() {
        m
    } else if comment_starts_at(m, line, i) {
        m
    } else {
        let ch = line[i];
        if ch != '"' && ch != '\'' {
            scan(m, line, i + 1, ts)
        } else if i > 0 && line[i - 1] == '\\' {
            scan(m, line, i + 1, ts)
        } else if m.single == Some(ch) {
            scan(ParserModel { single: None, ..m }, line, i + 1, ts)
        } else if m.single is Some {
            scan(m, line, i + 1, ts)
        } else if !m.python {
            scan(m, line, i + 1, ts)
        } else if i >= 2 && line[i - 1] == ch && line[i - 2] == ch && i >= ts + 3 {
            if m.triple == Some(ch) {
                scan(ParserModel { triple: None, ..m }, line, i + 1, i)
            } else if m.triple is Some {
                scan(m, line, i + 1, ts)
            } else {
                scan(ParserModel { triple: Some(ch), ..m }, line, i + 1, i)
            }
        } else if m.triple is Some {
            scan(m, line, i + 1, ts)
        } else {
            scan(ParserModel { single: Some(ch), ..m }, line, i + 1, ts)
        }
    }
}

/// The state after reading one line.
pub open spec fn next_model(m: ParserModel, line: Seq<char>) -> ParserModel {
    if m.ignore {
        m
    } else if !model_quoted(m) && m.comment is Some && has_prefix(trim_start(line), m.comment->0) {
        m
    } else {
        let r = scan(m, line, 0, -1);
        if m.python {
            ParserModel { single: None, ..r }
        } else {
            r
        }
    }
}

/// The state after reading the lines in order.
pub open spec fn model_after(m: ParserModel, lines: Seq<Seq<char>>) -> ParserModel
    decreases lines.len(),
{
    if lines.len() == 0 {
        m
    } else {
        next_model(model_after(m, lines.drop_last()), lines.last())
    }
}

/// The initial state for a language.
pub open spec fn initial_model(language: Seq<char>) -> ParserModel {
    ParserModel {
        ignore: false,
        python: language != "R"@,
        comment: comment_for_lang(language),
        single: None,
        triple: None,
    }
}

/// The state that ignores quotes.
pub open spec fn ignoring_model() -> ParserModel {
    ParserModel { ignore: true, python: true, comment: None, single: None, triple: None }
}

/// Tracks whether the current position is inside a quoted string.
pub struct StringParser {
    ignore: bool,
    python: bool,
    comment: Option<String>,
    single: Option<char>,
    triple: Option<char>,
}

impl View for StringParser {
    type V = ParserModel;

    closed spec fn view(&self) -> ParserModel {
        ParserModel {
            ignore: self.ignore,
            python: self.python,
            comment: match self.comment {
                Some(c) => Some(c@),
                None => None,
            },
            single: self.single,
            triple: self.triple,
        }
    }
}

impl StringParser {
    /// A parser for the given language.
    pub fn new(language: &str) -> (r: Self)
        ensures
            r@ == initial_model(language@),
    {
        let comment = match comment_for_language(language) {
            Some(c) => Some(owned(c)),
            None => None,
        };
        proof {
            reveal_strlit("R");
        }
        let python = !crate::text::str_eq(language, "R");
        StringParser { ignore: false, python, comment, single: None, triple: None }
    }

    /// A parser for the given language, or one that ignores quotes when there is none.
    pub fn new_opt(language: Option<&str>) -> (r: Self)
        ensures
            r@ == match language {
                Some(l) => initial_model(l@),
                None => ignoring_model(),
            },
    {
        match language {
            Some(lang) => Self::new(lang),
            None => StringParser {
                ignore: true,
                python: true,
                comment: None,
                single: None,
                triple: None,
            },
        }
    }

    /// Is the next line inside a quoted string?
    pub fn is_quoted(&self) -> (r: bool)
        ensures
            r == model_quoted(self@),
    {
        if self.ignore {
            return false;
        }
        self.single.is_some() || self.triple.is_some()
    }

    /// Process a new line.
    pub fn read_line(&mut self, line: &str)
        ensures
            final(self)@ == next_model(old(self)@, line@),
    {
        if self.ignore {
            return;
        }
        if !self.is_quoted() {
            match &self.comment {
                Some(comment) => {
                    let t = trim_start_str(line);
                    if starts_with(t.as_str(), comment.as_str()) {
                        return;
                    }
                },
                None => {},
            }
        }
        let ghost m0 = self@;
        let chars = chars_of(line);
        let comment_chars: Vec<char> = match &self.comment {
            Some(c) => chars_of(c.as_str()),
            None => Vec::new(),
        };
        // one more than the position of the last triple quote of this line (0 for none)
        let mut ts1: usize = 0;
        let mut i: usize = 0;
        let n = chars.len();
        while i < n
            invariant
                n == chars@.len(),
                chars@ == line@,
                i <= n,
                ts1 <= i,
                self.comment == old(self).comment,
                self.ignore == old(self).ignore,
                self.python == old(self).python,
                self@.comment is Some ==> comment_chars@ == self@.comment->0,
                scan(m0, line@, 0, -1) == scan(self@, line@, i as int, ts1 - 1),
            ensures
                self.comment == old(self).comment,
                self.ignore == old(self).ignore,
                self.python == old(self).python,
                scan(m0, line@, 0, -1) == self@,
            decreases n - i,
        {
            let ch = chars[i];
            if self.single.is_none() && self.triple.is_none() && self.comment.is_some()
                && comment_chars.len() > 0 && comment_chars[0] == ch && vec_occurs_at(
                &chars,
                &comment_chars,
                i,
            ) {
                break;
            }
            if ch != '"' && ch != '\'' {
                i += 1;
                continue;
            }
            if i > 0 && chars[i - 1] == '\\' {
                i += 1;
                continue;
            }
            if self.single == Some(ch) {
                self.single = None;
                i += 1;
                continue;
            }
            if self.single.is_some() {
                i += 1;
                continue;
            }
            if !self.python {
                i += 1;
                continue;
            }
            if i >= 2 && chars[i - 1] == ch && chars[i - 2] == ch && i - ts1 >= 2 {
                if self.triple == Some(ch) {
                    self.triple = None;
                    ts1 = i + 1;
                    i += 1;
                    continue;
                }
                if self.triple.is_some() {
                    i += 1;
                    continue;
                }
                self.triple = Some(ch);
                ts1 = i + 1;
                i += 1;
                continue;
            }
            if self.triple.is_some() {
                i += 1;
                continue;
            }
            self.single = Some(ch);
            i += 1;
        }
        if self.python {
            self.single = None;
        }
    }
}

} // verus!
