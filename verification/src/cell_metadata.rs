//! Cell metadata in text form: JSON detection, identifiers and metadata keys, and the
//! options of R Markdown code chunks.

use vstd::prelude::*;
use crate::languages::{in_jupyter_languages, is_jupyter_lang};
use crate::pattern::{matches_str, regex_hit};
use crate::text::{
    chars_of, concat, concat3, find_char, first_match, first_match_is, first_match_none,
    has_prefix, lowercase, owned, push_char, split_char, split_on, starts_with, str_eq,
    to_lowercase, trim, trim_str, vec_find_char, views,
};

verus! {

/// Text that starts a JSON object before any `=` sign: a `{` comes before the first `=`,
/// or there is a `{` and no `=`.
pub open spec fn json_metadata_text(text: Seq<char>) -> bool {
    match (find_char(text, '{'), find_char(text, '=')) {
        (Some(c), Some(e)) => c < e,
        (Some(_), None) => true,
        _ => false,
    }
}

/// Is this a JSON metadata string?
pub fn is_json_metadata(text: &str) -> (r: bool)
    ensures
        r == json_metadata_text(text@),
{
    let v = chars_of(text);
    match (vec_find_char(&v, '{'), vec_find_char(&v, '=')) {
        (Some(c), Some(e)) => c < e,
        (Some(_), None) => true,
        _ => false,
    }
}

/// The pattern of an identifier.
pub open spec fn identifier_pattern() -> Seq<char> {
    r"^[a-zA-Z_\.]+[a-zA-Z0-9_\.]*$"@
}

/// The pattern of a metadata key.
pub open spec fn metadata_key_pattern() -> Seq<char> {
    r"^[a-zA-Z0-9_\.@/-]+$"@
}

/// Is the string a valid identifier?
pub fn is_identifier(text: &str) -> (r: bool)
    ensures
        r == regex_hit(identifier_pattern(), text@),
{
    matches_str(r"^[a-zA-Z_\.]+[a-zA-Z0-9_\.]*$", text)
}

/// Is the string a valid metadata key?
pub fn is_valid_metadata_key(text: &str) -> (r: bool)
    ensures
        r == regex_hit(metadata_key_pattern(), text@),
{
    matches_str(r"^[a-zA-Z0-9_\.@/-]+$", text)
}

/// Is this a language known to Jupyter, in lower case or as written?
pub fn is_jupyter_language(text: &str) -> (r: bool)
    ensures
        r == (is_jupyter_lang(lowercase(text@)) || is_jupyter_lang(text@)),
{
    let low = to_lowercase(text);
    in_jupyter_languages(low.as_str()) || in_jupyter_languages(text)
}

/// The pieces of `text` between the commas that are outside quotes and brackets, trimmed;
/// the last piece only when it is not blank.
pub open spec fn split_quotes_scan(text: Seq<char>) -> (Seq<Seq<char>>, Seq<char>, bool, bool, int)
    decreases text.len(),
{
    if text.len() == 0 {
        (Seq::empty(), Seq::empty(), false, false, 0)
    } else {
        let (done, cur, single, double, depth) = split_quotes_scan(text.drop_last());
        let ch = text.last();
        if ch == '\'' && !double {
            (done, cur.push(ch), !single, double, depth)
        } else if ch == '"' && !single {
            (done, cur.push(ch), single, !double, depth)
        } else if (ch == '(' || ch == '[' || ch == '{') && !single && !double {
            (done, cur.push(ch), single, double, depth + 1)
        } else if (ch == ')' || ch == ']' || ch == '}') && !single && !double {
            (done, cur.push(ch), single, double, depth - 1)
        } else if ch == ',' && !single && !double && depth == 0 {
            (done.push(trim(cur)), Seq::empty(), single, double, depth)
        } else {
            (done, cur.push(ch), single, double, depth)
        }
    }
}

/// `text` split at the commas that are outside quotes and brackets.
pub open spec fn split_quotes_spec(text: Seq<char>) -> Seq<Seq<char>> {
    let (done, cur, _, _, _) = split_quotes_scan(text);
    if trim(cur).len() > 0 {
        done.push(trim(cur))
    } else {
        done
    }
}

/// Splits `text` at the commas that are not inside quotes or brackets.
pub fn split_respecting_quotes(text: &str) -> (r: Vec<String>)
    requires
        forall|k: int|
            0 <= k <= text@.len() ==> i32::MIN <= #[trigger] split_quotes_scan(text@.take(k)).4
                <= i32::MAX,
    ensures
        views(r@) == split_quotes_spec(text@),
{
    let v = chars_of(text);
    let mut result: Vec<String> = Vec::new();
    let mut current = String::new();
    let mut in_single = false;
    let mut in_double = false;
    let mut depth: i32 = 0;
    let mut i: usize = 0;
    while i < v.len()
        invariant
            i <= v@.len(),
            v@ == text@,
            forall|k: int|
                0 <= k <= text@.len() ==> i32::MIN <= #[trigger] split_quotes_scan(text@.take(k)).4
                    <= i32::MAX,
            split_quotes_scan(v@.take(i as int)) == (
                views(result@),
                current@,
                in_single,
                in_double,
                depth as int,
            ),
        decreases v.len() - i,
    {
        let ch = v[i];
        assert(v@.take(i + 1).drop_last() =~= v@.take(i as int));
        assert(i32::MIN <= split_quotes_scan(text@.take(i + 1)).4 <= i32::MAX);
        if ch == '\'' && !in_double {
            in_single = !in_single;
            push_char(&mut current, ch);
        } else if ch == '"' && !in_single {
            in_double = !in_double;
            push_char(&mut current, ch);
        } else if (ch == '(' || ch == '[' || ch == '{') && !in_single && !in_double {
            depth = depth + 1;
            push_char(&mut current, ch);
        } else if (ch == ')' || ch == ']' || ch == '}') && !in_single && !in_double {
            depth = depth - 1;
            push_char(&mut current, ch);
        } else if ch == ',' && !in_single && !in_double && depth == 0 {
            result.push(trim_str(current.as_str()));
            current = String::new();
        } else {
            push_char(&mut current, ch);
        }
        i += 1;
    }
    assert(v@.take(v@.len() as int) =~= v@);
    let t = trim_str(current.as_str());
    if t.unicode_len() > 0 {
        result.push(t);
    }
    result
}

/// The bracket counts and quote flags of R Markdown option parsing.
pub struct ParsingContext {
    pub parenthesis_count: i32,
    pub curly_bracket_count: i32,
    pub square_bracket_count: i32,
    pub in_single_quote: bool,
    pub in_double_quote: bool,
}

/// The plain values of a parsing context.
pub type ContextValue = (int, int, int, bool, bool);

/// The plain values of a parsing context.
pub open spec fn context_value(c: ParsingContext) -> ContextValue {
    (
        c.parenthesis_count as int,
        c.curly_bracket_count as int,
        c.square_bracket_count as int,
        c.in_single_quote,
        c.in_double_quote,
    )
}

/// Outside brackets and quotes.
pub open spec fn global_expression(c: ContextValue) -> bool {
    c.0 == 0 && c.1 == 0 && c.2 == 0 && !c.3 && !c.4
}

/// The context after the character `ch`: brackets counted, quotes toggled (a quote inside
/// the other kind of quote does not count).
pub open spec fn counted(c: ContextValue, ch: char) -> ContextValue {
    if ch == '(' {
        (c.0 + 1, c.1, c.2, c.3, c.4)
    } else if ch == ')' {
        (c.0 - 1, c.1, c.2, c.3, c.4)
    } else if ch == '{' {
        (c.0, c.1 + 1, c.2, c.3, c.4)
    } else if ch == '}' {
        (c.0, c.1 - 1, c.2, c.3, c.4)
    } else if ch == '[' {
        (c.0, c.1, c.2 + 1, c.3, c.4)
    } else if ch == ']' {
        (c.0, c.1, c.2 - 1, c.3, c.4)
    } else if ch == '\'' && !c.4 {
        (c.0, c.1, c.2, !c.3, c.4)
    } else if ch == '"' && !c.3 {
        (c.0, c.1, c.2, c.3, !c.4)
    } else {
        c
    }
}

/// The counts of `c` after `ch` stay within the range of `i32`.
pub open spec fn counts_fit(c: ContextValue, ch: char) -> bool {
    let n = counted(c, ch);
    i32::MIN <= n.0 <= i32::MAX && i32::MIN <= n.1 <= i32::MAX && i32::MIN <= n.2 <= i32::MAX
}

impl ParsingContext {
    /// A context outside brackets and quotes.
    pub fn new() -> (r: ParsingContext)
        ensures
            context_value(r) == (0int, 0int, 0int, false, false),
    {
        ParsingContext {
            parenthesis_count: 0,
            curly_bracket_count: 0,
            square_bracket_count: 0,
            in_single_quote: false,
            in_double_quote: false,
        }
    }

    /// Outside brackets and quotes?
    pub fn in_global_expression(&self) -> (r: bool)
        ensures
            r == global_expression(context_value(*self)),
    {
        self.parenthesis_count == 0 && self.curly_bracket_count == 0 && self.square_bracket_count
            == 0 && !self.in_single_quote && !self.in_double_quote
    }

    /// Counts the brackets and quotes of `ch`.
    pub fn count_special_chars(&mut self, ch: char, prev: char)
        requires
            counts_fit(context_value(*old(self)), ch),
        ensures
            context_value(*final(self)) == counted(context_value(*old(self)), ch),
    {
        if ch == '(' {
            self.parenthesis_count = self.parenthesis_count + 1;
        } else if ch == ')' {
            self.parenthesis_count = self.parenthesis_count - 1;
        } else if ch == '{' {
            self.curly_bracket_count = self.curly_bracket_count + 1;
        } else if ch == '}' {
            self.curly_bracket_count = self.curly_bracket_count - 1;
        } else if ch == '[' {
            self.square_bracket_count = self.square_bracket_count + 1;
        } else if ch == ']' {
            self.square_bracket_count = self.square_bracket_count - 1;
        } else if ch == '\'' && !self.in_double_quote {
            self.in_single_quote = !self.in_single_quote;
        } else if ch == '"' && !self.in_single_quote {
            self.in_double_quote = !self.in_double_quote;
        }
    }
}

/// The state of R Markdown option parsing after the characters `s`: the context, the name
/// and value read so far, and the options found.
pub open spec fn rmd_scan(s: Seq<char>) -> (ContextValue, Seq<char>, Seq<char>, Seq<(Seq<char>, Seq<char>)>)
    decreases s.len(),
{
    if s.len() == 0 {
        ((0, 0, 0, false, false), Seq::empty(), Seq::empty(), Seq::empty())
    } else {
        let (c, name, value, result) = rmd_scan(s.drop_last());
        let ch = s.last();
        if global_expression(c) {
            if ch == ',' {
                if name.len() > 0 || value.len() > 0 {
                    (c, Seq::empty(), Seq::empty(), result.push((trim(name), trim(value))))
                } else {
                    (c, name, value, result)
                }
            } else if ch == '=' {
                if name.len() == 0 {
                    (c, value, Seq::empty(), result)
                } else {
                    (c, name, value.push(ch), result)
                }
            } else {
                (counted(c, ch), name, value.push(ch), result)
            }
        } else {
            (counted(c, ch), name, value.push(ch), result)
        }
    }
}

/// The text that `parse_rmd_options` scans: the line between two commas.
pub open spec fn padded_options(line: Seq<char>) -> Seq<char> {
    seq![','] + line + seq![',']
}

/// The bracket counts stay within the range of `i32` while `s` is scanned.
pub open spec fn rmd_counts_fit(s: Seq<char>) -> bool {
    forall|k: int| 0 <= k < s.len() ==> counts_fit(#[trigger] rmd_scan(s.take(k)).0, s[k])
}

/// The options of an R Markdown code chunk, as (name, value) pairs; an option without a
/// name has an empty name.
pub fn parse_rmd_options(line: &str) -> (r: Vec<(String, String)>)
    requires
        rmd_counts_fit(padded_options(line@)),
    ensures
        r@.map_values(|p: (String, String)| (p.0@, p.1@)) == rmd_scan(padded_options(line@)).3,
{
    let mut ctx = ParsingContext::new();
    let mut result: Vec<(String, String)> = Vec::new();
    let mut prev_char = ' ';
    let mut name = String::new();
    let mut value = String::new();
    let mut padded = String::new();
    push_char(&mut padded, ',');
    padded = concat(padded.as_str(), line);
    push_char(&mut padded, ',');
    let v = chars_of(padded.as_str());
    let ghost p = padded_options(line@);
    assert(v@ =~= p);
    let mut i: usize = 0;
    while i < v.len()
        invariant
            i <= v@.len(),
            v@ == p,
            rmd_counts_fit(p),
            rmd_scan(p.take(i as int)) == (
                context_value(ctx),
                name@,
                value@,
                result@.map_values(|q: (String, String)| (q.0@, q.1@)),
            ),
        decreases v.len() - i,
    {
        let ch = v[i];
        assert(p.take(i + 1).drop_last() =~= p.take(i as int));
        assert(counts_fit(rmd_scan(p.take(i as int)).0, p[i as int]));
        let ghost before = result@.map_values(|q: (String, String)| (q.0@, q.1@));
        if ctx.in_global_expression() {
            if ch == ',' {
                if name.unicode_len() > 0 || value.unicode_len() > 0 {
                    let n = trim_str(name.as_str());
                    let x = trim_str(value.as_str());
                    result.push((n, x));
                    assert(result@.map_values(|q: (String, String)| (q.0@, q.1@)) =~= before.push(
                        (trim(name@), trim(value@)),
                    ));
                    name = String::new();
                    value = String::new();
                }
            } else if ch == '=' {
                if name.unicode_len() == 0 {
                    name = value;
                    value = String::new();
                } else {
                    push_char(&mut value, ch);
                }
            } else {
                ctx.count_special_chars(ch, prev_char);
                push_char(&mut value, ch);
            }
        } else {
            ctx.count_special_chars(ch, prev_char);
            push_char(&mut value, ch);
        }
        prev_char = ch;
        i += 1;
    }
    assert(p.take(p.len() as int) =~= p);
    result
}

/// What decides whether a cell is active for an extension: whether its
/// `run_control.frozen` entry is `true`, its tags that are strings, in order, and its
/// `active` entry when that is a string.
pub struct CellActivity {
    pub frozen: bool,
    pub tags: Vec<String>,
    pub active: Option<String>,
}

/// The text without its dots.
pub open spec fn without_dots(s: Seq<char>) -> Seq<char> {
    s.filter(|c: char| c != '.')
}

/// The text with its commas turned into dots.
pub open spec fn commas_to_dots(s: Seq<char>) -> Seq<char> {
    s.map_values(|c: char| if c == ',' { '.' } else { c })
}

/// The position of the first tag that starts with `active-`.
pub open spec fn active_tag(tags: Seq<Seq<char>>) -> Option<int> {
    first_match(tags, |t: Seq<char>| has_prefix(t, "active-"@))
}

/// Is the cell active for the extension `ext`? A frozen cell is active only in notebooks;
/// else the first `active-...` tag decides (the extension without its dots is one of the
/// dash separated parts); else the `active` entry does (one of its parts between dots and
/// commas); else `default`.
pub open spec fn active_for(ext: Seq<char>, tags: Seq<Seq<char>>, active: Option<Seq<char>>, frozen: bool, default: bool) -> bool {
    if frozen {
        ext == ".ipynb"@
    } else {
        match active_tag(tags) {
            Some(i) => split_on(tags[i], '-').contains(without_dots(ext)),
            None => match active {
                Some(s) => split_on(commas_to_dots(s), '.').contains(without_dots(ext)),
                None => default,
            },
        }
    }
}

/// `active_for` on a cell's activity.
pub open spec fn activity_active(ext: Seq<char>, a: CellActivity, default: bool) -> bool {
    active_for(
        ext,
        views(a.tags@),
        match a.active {
            Some(s) => Some(s@),
            None => None,
        },
        a.frozen,
        default,
    )
}

/// The text without its dots.
fn remove_dots(s: &str) -> (r: String)
    ensures
        r@ == without_dots(s@),
{
    let v = chars_of(s);
    let mut r = String::new();
    let mut i: usize = 0;
    proof {
        reveal(Seq::filter);
        assert(v@.subrange(0, 0).filter(|c: char| c != '.') =~= Seq::<char>::empty());
    }
    while i < v.len()
        invariant
            i <= v@.len(),
            v@ == s@,
            r@ == v@.subrange(0, i as int).filter(|c: char| c != '.'),
        decreases v.len() - i,
    {
        proof {
            reveal(Seq::filter);
            assert(v@.subrange(0, i + 1).drop_last() =~= v@.subrange(0, i as int));
        }
        if v[i] != '.' {
            push_char(&mut r, v[i]);
        }
        i += 1;
    }
    assert(v@.subrange(0, v@.len() as int) =~= v@);
    r
}

/// The text with its commas turned into dots.
fn replace_commas(s: &str) -> (r: String)
    ensures
        r@ == commas_to_dots(s@),
{
    let v = chars_of(s);
    let mut r = String::new();
    let mut i: usize = 0;
    while i < v.len()
        invariant
            i <= v@.len(),
            v@ == s@,
            r@ =~= commas_to_dots(v@.subrange(0, i as int)),
        decreases v.len() - i,
    {
        if v[i] == ',' {
            push_char(&mut r, '.');
        } else {
            push_char(&mut r, v[i]);
        }
        i += 1;
        assert(r@ =~= commas_to_dots(v@.subrange(0, i as int)));
    }
    assert(v@.subrange(0, v@.len() as int) =~= v@);
    r
}

/// Is one of the parts equal to `x`?
fn contains_part(parts: &Vec<String>, x: &str) -> (r: bool)
    ensures
        r == views(parts@).contains(x@),
{
    let mut i: usize = 0;
    while i < parts.len()
        invariant
            i <= parts@.len(),
            forall|j: int| 0 <= j < i ==> parts@[j]@ != x@,
        decreases parts.len() - i,
    {
        if str_eq(parts[i].as_str(), x) {
            assert(views(parts@)[i as int] == x@);
            return true;
        }
        i += 1;
    }
    proof {
        if views(parts@).contains(x@) {
            let j = choose|j: int| 0 <= j < views(parts@).len() && views(parts@)[j] == x@;
            assert(parts@[j]@ == x@);
        }
    }
    false
}

/// Is the cell active for the extension `ext`? A frozen cell (`run_control.frozen`) is
/// active only in notebooks; else its first `active-...` tag decides; else its `active`
/// entry does; else `default`.
pub fn is_active(ext: &str, activity: &CellActivity, default: bool) -> (r: bool)
    ensures
        r == activity_active(ext@, *activity, default),
{
    proof {
        reveal_strlit(".ipynb");
        reveal_strlit("active-");
    }
    if activity.frozen {
        return str_eq(ext, ".ipynb");
    }
    let ghost tags = views(activity.tags@);
    let ghost f = |t: Seq<char>| has_prefix(t, "active-"@);
    let e = remove_dots(ext);
    let mut i: usize = 0;
    while i < activity.tags.len()
        invariant
            i <= activity.tags@.len(),
            tags == views(activity.tags@),
            f == (|t: Seq<char>| has_prefix(t, "active-"@)),
            forall|j: int| 0 <= j < i ==> !f(tags[j]),
            !activity.frozen,
            e@ == without_dots(ext@),
        decreases activity.tags.len() - i,
    {
        let tag = activity.tags[i].as_str();
        assert(tag@ == tags[i as int]);
        if starts_with(tag, "active-") {
            proof {
                first_match_is(tags, f, i as int);
            }
            let parts = split_char(tag, '-');
            return contains_part(&parts, e.as_str());
        }
        i += 1;
    }
    proof {
        first_match_none(tags, f);
    }
    match &activity.active {
        Some(a) => {
            let d = replace_commas(a.as_str());
            let parts = split_char(d.as_str(), '.');
            contains_part(&parts, e.as_str())
        },
        None => default,
    }
}

} // verus!
