//! The Jupytext configuration: its options, and the default format options that it sets.

use vstd::prelude::*;
use crate::format_map::{distinct_keys, lemma_map_of, map_of};
use crate::paired_paths::{extension_of, path_extension};
use crate::text::{concat, str_eq};

verus! {

/// The value of a format option: a text or a flag.
#[derive(Debug)]
pub enum FormatOptionValue {
    Text(String),
    Flag(bool),
}

/// The plain value of a format option.
pub ghost enum OptionValue {
    Text(Seq<char>),
    Flag(bool),
}

/// The plain value of a format option.
pub open spec fn value_view(v: FormatOptionValue) -> OptionValue {
    match v {
        FormatOptionValue::Text(s) => OptionValue::Text(s@),
        FormatOptionValue::Flag(b) => OptionValue::Flag(b),
    }
}

/// The plain values of a list of options.
pub open spec fn option_views(v: Seq<(String, FormatOptionValue)>) -> Seq<(Seq<char>, OptionValue)> {
    v.map_values(|p: (String, FormatOptionValue)| (p.0@, value_view(p.1)))
}

/// A copy of a format option's value.
fn copy_value(v: &FormatOptionValue) -> (r: FormatOptionValue)
    ensures
        value_view(r) == value_view(*v),
{
    match v {
        FormatOptionValue::Text(s) => FormatOptionValue::Text(s.clone()),
        FormatOptionValue::Flag(b) => FormatOptionValue::Flag(*b),
    }
}

/// Format options by name.
#[derive(Debug)]
pub struct OptionMap {
    entries: Vec<(String, FormatOptionValue)>,
}

impl View for OptionMap {
    type V = Map<Seq<char>, OptionValue>;

    closed spec fn view(&self) -> Map<Seq<char>, OptionValue> {
        map_of(option_views(self.entries@))
    }
}

impl OptionMap {
    #[verifier::type_invariant]
    closed spec fn wf(self) -> bool {
        distinct_keys(option_views(self.entries@))
    }

    /// No options.
    pub fn new() -> (r: OptionMap)
        ensures
            r@ == Map::<Seq<char>, OptionValue>::empty(),
    {
        let r = OptionMap { entries: Vec::new() };
        assert(option_views(r.entries@) =~= Seq::<(Seq<char>, OptionValue)>::empty());
        r
    }

    fn position(&self, key: &str) -> (r: Option<usize>)
        ensures
            match r {
                Some(i) => i < self.entries@.len() && self.entries@[i as int].0@ == key@,
                None => !self@.contains_key(key@),
            },
    {
        proof {
            use_type_invariant(self);
            lemma_map_of(option_views(self.entries@));
        }
        let mut i: usize = 0;
        while i < self.entries.len()
            invariant
                i <= self.entries@.len(),
                forall|j: int| 0 <= j < i ==> self.entries@[j].0@ != key@,
            decreases self.entries.len() - i,
        {
            if str_eq(self.entries[i].0.as_str(), key) {
                return Some(i);
            }
            i += 1;
        }
        proof {
            if self@.contains_key(key@) {
                let ps = option_views(self.entries@);
                let j = choose|j: int| 0 <= j < ps.len() && ps[j].0 == key@;
                assert(self.entries@[j].0@ == key@);
            }
        }
        None
    }

    /// The value of the option `key`.
    pub fn get(&self, key: &str) -> (r: Option<FormatOptionValue>)
        ensures
            match r {
                Some(v) => self@.contains_key(key@) && value_view(v) == self@[key@],
                None => !self@.contains_key(key@),
            },
    {
        proof {
            use_type_invariant(self);
            lemma_map_of(option_views(self.entries@));
        }
        match self.position(key) {
            Some(i) => {
                assert(option_views(self.entries@)[i as int].0 == key@);
                Some(copy_value(&self.entries[i].1))
            },
            None => None,
        }
    }

    /// The option `key` is set.
    pub fn contains_key(&self, key: &str) -> (r: bool)
        ensures
            r == self@.contains_key(key@),
    {
        proof {
            use_type_invariant(self);
        }
        match self.position(key) {
            Some(i) => {
                proof {
                    lemma_map_of(option_views(self.entries@));
                }
                assert(option_views(self.entries@)[i as int].0 == key@);
                true
            },
            None => false,
        }
    }

    /// Sets the option `key` to `value`, unless it is set already.
    pub fn set_default(&mut self, key: &str, value: FormatOptionValue)
        ensures
            final(self)@ == with_default(old(self)@, key@, Some(value_view(value))),
    {
        proof {
            use_type_invariant(&*self);
            lemma_map_of(option_views(self.entries@));
        }
        match self.position(key) {
            Some(i) => {
                assert(option_views(self.entries@)[i as int].0 == key@);
                return;
            },
            None => {},
        }
        let ghost old_ps = option_views(self.entries@);
        let ghost k = key@;
        let ghost v = value_view(value);
        let mut es: Vec<(String, FormatOptionValue)> = Vec::new();
        std::mem::swap(&mut es, &mut self.entries);
        es.push((key.to_string(), value));
        assert(option_views(es@) =~= old_ps.push((k, v)));
        assert(option_views(es@).drop_last() =~= old_ps);
        proof {
            assert forall|i: int, j: int|
                0 <= i < j < option_views(es@).len() implies option_views(es@)[i].0
                != option_views(es@)[j].0 by {
                if j == old_ps.len() {
                    assert(old_ps[i].0 != k);
                }
            }
        }
        self.entries = es;
    }
}

/// The options with `key` set to `value` when there is one and the key is not set yet.
pub open spec fn with_default(m: Map<Seq<char>, OptionValue>, key: Seq<char>, value: Option<OptionValue>) -> Map<
    Seq<char>,
    OptionValue,
> {
    match value {
        Some(v) => if m.contains_key(key) {
            m
        } else {
            m.insert(key, v)
        },
        None => m,
    }
}

/// A text option of the configuration, when it is set and not empty.
pub open spec fn text_option(o: Option<String>) -> Option<OptionValue> {
    match o {
        Some(s) => if s@.len() > 0 {
            Some(OptionValue::Text(s@))
        } else {
            None
        },
        None => None,
    }
}

/// A flag of the configuration, when it is set.
pub open spec fn flag_option(o: Option<bool>) -> Option<OptionValue> {
    match o {
        Some(b) => Some(OptionValue::Flag(b)),
        None => None,
    }
}

/// A flag of the configuration, when it is set to `value`.
pub open spec fn flag_when(o: Option<bool>, value: bool) -> Option<OptionValue> {
    if o == Some(value) {
        Some(OptionValue::Flag(value))
    } else {
        None
    }
}

/// The Jupytext configuration, as read from a configuration file.
#[derive(Debug, Clone, Default)]
pub struct JupytextConfig {
    /// Paired notebook formats, e.g. `ipynb,py:percent`.
    pub formats: Option<String>,
    /// The former name of `formats`.
    pub default_jupytext_formats: Option<String>,
    /// Preferred format when saving notebooks as text, per extension.
    pub preferred_jupytext_formats_save: Option<String>,
    /// Preferred format when reading notebooks from text, per extension.
    pub preferred_jupytext_formats_read: Option<String>,
    /// Notebook metadata filter.
    pub notebook_metadata_filter: Option<String>,
    /// The former name of `notebook_metadata_filter`.
    pub default_notebook_metadata_filter: Option<String>,
    /// Notebook metadata is wrapped in an HTML comment in Markdown.
    pub hide_notebook_metadata: Option<bool>,
    /// Root-level metadata of text documents becomes a raw cell.
    pub root_level_metadata_as_raw_cell: Option<bool>,
    /// Root-level metadata filter.
    pub root_level_metadata_filter: Option<String>,
    /// Cell metadata filter.
    pub cell_metadata_filter: Option<String>,
    /// The former name of `cell_metadata_filter`.
    pub default_cell_metadata_filter: Option<String>,
    /// Magic commands are commented out in text notebooks.
    pub comment_magics: Option<bool>,
    /// Markdown cells are split at headings.
    pub split_at_heading: Option<bool>,
    /// Sphinx Gallery scripts have their reStructuredText converted to markdown.
    pub sphinx_convert_rst2md: Option<bool>,
    /// Doxygen equation markers are used.
    pub doxygen_equation_markers: Option<bool>,
    /// Log level for configuration file messages.
    pub cm_config_log_level: Option<String>,
    /// Start and end cell markers of the light format, comma separated.
    pub cell_markers: Option<String>,
    /// The former name of `cell_markers`.
    pub default_cell_markers: Option<String>,
    /// The recognized notebook extensions.
    pub notebook_extensions: Option<Vec<String>>,
    /// Custom cell magics to comment out, comma separated.
    pub custom_cell_magics: Option<String>,
}

/// The format options after `set_default_format_options`: each option of the configuration
/// that is set (and not empty) is added unless the options have it already; the former
/// names of an option come first, the cell markers only when writing, the conversion of
/// reStructuredText only when reading.
pub open spec fn with_config_defaults(m: Map<Seq<char>, OptionValue>, c: JupytextConfig, read: bool) -> Map<
    Seq<char>,
    OptionValue,
> {
    let m = with_default(m, "notebook_metadata_filter"@, text_option(c.default_notebook_metadata_filter));
    let m = with_default(m, "notebook_metadata_filter"@, text_option(c.notebook_metadata_filter));
    let m = with_default(m, "cell_metadata_filter"@, text_option(c.default_cell_metadata_filter));
    let m = with_default(m, "root_level_metadata_filter"@, text_option(c.root_level_metadata_filter));
    let m = with_default(m, "cell_metadata_filter"@, text_option(c.cell_metadata_filter));
    let m = with_default(m, "hide_notebook_metadata"@, flag_option(c.hide_notebook_metadata));
    let m = with_default(
        m,
        "root_level_metadata_as_raw_cell"@,
        flag_when(c.root_level_metadata_as_raw_cell, false),
    );
    let m = with_default(m, "comment_magics"@, flag_option(c.comment_magics));
    let m = with_default(m, "split_at_heading"@, flag_when(c.split_at_heading, true));
    let m = with_default(m, "doxygen_equation_markers"@, flag_when(c.doxygen_equation_markers, true));
    let m = if !read {
        let m = with_default(m, "cell_markers"@, text_option(c.default_cell_markers));
        with_default(m, "cell_markers"@, text_option(c.cell_markers))
    } else {
        m
    };
    let m = if read {
        with_default(m, "rst2md"@, flag_when(c.sphinx_convert_rst2md, true))
    } else {
        m
    };
    with_default(m, "custom_cell_magics"@, text_option(c.custom_cell_magics))
}

/// The first of two optional texts that is set.
pub open spec fn first_set(a: Option<String>, b: Option<String>) -> Option<Seq<char>> {
    match a {
        Some(s) => Some(s@),
        None => match b {
            Some(s) => Some(s@),
            None => None,
        },
    }
}

/// The plain value of an optional borrowed text.
pub open spec fn opt_str_view(o: Option<&str>) -> Option<Seq<char>> {
    match o {
        Some(s) => Some(s@),
        None => None,
    }
}

/// The first of two optional texts that is set, borrowed.
fn first_of<'a>(a: &'a Option<String>, b: &'a Option<String>) -> (r: Option<&'a str>)
    ensures
        opt_str_view(r) == first_set(*a, *b),
{
    match a {
        Some(s) => Some(s.as_str()),
        None => match b {
            Some(s) => Some(s.as_str()),
            None => None,
        },
    }
}

/// Sets the text option `key` to `value` unless it is set already or `value` is empty.
fn set_text_default(m: &mut OptionMap, key: &str, value: &Option<String>)
    ensures
        final(m)@ == with_default(old(m)@, key@, text_option(*value)),
{
    match value {
        Some(s) => {
            if s.unicode_len() > 0 {
                m.set_default(key, FormatOptionValue::Text(s.clone()));
            }
        },
        None => {},
    }
}

impl JupytextConfig {
    /// Adds the configuration's default format options to `format_options`, for reading
    /// (`read`) or writing text notebooks; options that are set already are kept.
    pub fn set_default_format_options(&self, format_options: &mut OptionMap, read: bool)
        ensures
            final(format_options)@ == with_config_defaults(old(format_options)@, *self, read),
    {
        set_text_default(format_options, "notebook_metadata_filter", &self.default_notebook_metadata_filter);
        set_text_default(format_options, "notebook_metadata_filter", &self.notebook_metadata_filter);
        set_text_default(format_options, "cell_metadata_filter", &self.default_cell_metadata_filter);
        set_text_default(format_options, "root_level_metadata_filter", &self.root_level_metadata_filter);
        set_text_default(format_options, "cell_metadata_filter", &self.cell_metadata_filter);
        match self.hide_notebook_metadata {
            Some(hide) => format_options.set_default("hide_notebook_metadata", FormatOptionValue::Flag(hide)),
            None => {},
        }
        if self.root_level_metadata_as_raw_cell == Some(false) {
            format_options.set_default("root_level_metadata_as_raw_cell", FormatOptionValue::Flag(false));
        }
        match self.comment_magics {
            Some(cm) => format_options.set_default("comment_magics", FormatOptionValue::Flag(cm)),
            None => {},
        }
        if self.split_at_heading == Some(true) {
            format_options.set_default("split_at_heading", FormatOptionValue::Flag(true));
        }
        if self.doxygen_equation_markers == Some(true) {
            format_options.set_default("doxygen_equation_markers", FormatOptionValue::Flag(true));
        }
        if !read {
            set_text_default(format_options, "cell_markers", &self.default_cell_markers);
            set_text_default(format_options, "cell_markers", &self.cell_markers);
        }
        if read {
            if self.sphinx_convert_rst2md == Some(true) {
                format_options.set_default("rst2md", FormatOptionValue::Flag(true));
            }
        }
        set_text_default(format_options, "custom_cell_magics", &self.custom_cell_magics);
    }

    /// The paired formats: `formats`, else its former name.
    pub fn effective_formats(&self) -> (r: Option<&str>)
        ensures
            opt_str_view(r) == first_set(self.formats, self.default_jupytext_formats),
    {
        first_of(&self.formats, &self.default_jupytext_formats)
    }

    /// The cell markers: `cell_markers`, else its former name.
    pub fn effective_cell_markers(&self) -> (r: Option<&str>)
        ensures
            opt_str_view(r) == first_set(self.cell_markers, self.default_cell_markers),
    {
        first_of(&self.cell_markers, &self.default_cell_markers)
    }

    /// The notebook metadata filter: `notebook_metadata_filter`, else its former name.
    pub fn effective_notebook_metadata_filter(&self) -> (r: Option<&str>)
        ensures
            opt_str_view(r) == first_set(self.notebook_metadata_filter, self.default_notebook_metadata_filter),
    {
        first_of(&self.notebook_metadata_filter, &self.default_notebook_metadata_filter)
    }

    /// The cell metadata filter: `cell_metadata_filter`, else its former name.
    pub fn effective_cell_metadata_filter(&self) -> (r: Option<&str>)
        ensures
            opt_str_view(r) == first_set(self.cell_metadata_filter, self.default_cell_metadata_filter),
    {
        first_of(&self.cell_metadata_filter, &self.default_cell_metadata_filter)
    }
}

/// The configuration's defaults never replace a format option that is already set.
pub proof fn config_defaults_keep_set_options(m: Map<Seq<char>, OptionValue>, c: JupytextConfig, read: bool, k: Seq<char>)
    requires
        m.contains_key(k),
    ensures
        with_config_defaults(m, c, read).contains_key(k),
        with_config_defaults(m, c, read)[k] == m[k],
{
}

/// When reading, the configuration's defaults do not set the cell markers; when writing,
/// they do not set the conversion of reStructuredText.
pub proof fn config_defaults_by_direction(m: Map<Seq<char>, OptionValue>, c: JupytextConfig)
    ensures
        with_config_defaults(m, c, true).contains_key("cell_markers"@) == m.contains_key("cell_markers"@),
        with_config_defaults(m, c, false).contains_key("rst2md"@) == m.contains_key("rst2md"@),
{
    reveal_strlit("cell_markers");
    reveal_strlit("rst2md");
    reveal_strlit("notebook_metadata_filter");
    reveal_strlit("cell_metadata_filter");
    reveal_strlit("root_level_metadata_filter");
    reveal_strlit("hide_notebook_metadata");
    reveal_strlit("root_level_metadata_as_raw_cell");
    reveal_strlit("comment_magics");
    reveal_strlit("split_at_heading");
    reveal_strlit("doxygen_equation_markers");
    reveal_strlit("custom_cell_magics");
    let cm = "cell_markers"@;
    let rs = "rst2md"@;
    assert(cm.len() == 12 && rs.len() == 6);
    assert("notebook_metadata_filter"@.len() == 24);
    assert("cell_metadata_filter"@.len() == 20);
    assert("root_level_metadata_filter"@.len() == 26);
    assert("hide_notebook_metadata"@.len() == 22);
    assert("root_level_metadata_as_raw_cell"@.len() == 31);
    assert("comment_magics"@.len() == 14);
    assert("split_at_heading"@.len() == 16);
    assert("doxygen_equation_markers"@.len() == 24);
    assert("custom_cell_magics"@.len() == 18);
}

/// The formats of a notebook: the `jupytext.formats` entry of its metadata, else the
/// configuration's formats when they are not empty, else the extension of its path.
pub open spec fn formats_of_notebook(metadata_formats: Option<Seq<char>>, config: Option<JupytextConfig>, path: Seq<char>) -> Option<Seq<char>> {
    match metadata_formats {
        Some(f) => Some(f),
        None => {
            let from_config = match config {
                Some(c) => match first_set(c.formats, c.default_jupytext_formats) {
                    Some(f) => if f.len() > 0 {
                        Some(f)
                    } else {
                        None
                    },
                    None => None,
                },
                None => None,
            };
            match from_config {
                Some(f) => Some(f),
                None => match path_extension(path) {
                    Some(e) => Some("."@ + e),
                    None => None,
                },
            }
        },
    }
}

/// The formats of a notebook, from the `jupytext.formats` entry of its metadata, the
/// configuration, or the extension of its path.
pub fn notebook_formats(metadata_formats: Option<&str>, config: Option<&JupytextConfig>, path: &str) -> (r: Option<String>)
    ensures
        match r {
            Some(f) => formats_of_notebook(opt_str_view(metadata_formats), opt_config(config), path@) == Some(f@),
            None => formats_of_notebook(opt_str_view(metadata_formats), opt_config(config), path@) is None,
        },
{
    match metadata_formats {
        Some(f) => return Some(f.to_string()),
        None => {},
    }
    match config {
        Some(c) => match c.effective_formats() {
            Some(f) => {
                if f.unicode_len() > 0 {
                    return Some(f.to_string());
                }
            },
            None => {},
        },
        None => {},
    }
    match extension_of(path) {
        Some(e) => Some(concat(".", e.as_str())),
        None => None,
    }
}

/// The configuration behind an optional reference.
pub open spec fn opt_config(c: Option<&JupytextConfig>) -> Option<JupytextConfig> {
    match c {
        Some(x) => Some(*x),
        None => None,
    }
}

} // verus!
