//! The computations behind the command line: line diffs of two texts, and the format of
//! an input file.

use vstd::prelude::*;
use crate::compare::{diff_rows, push_diff_rows, row_count};
use crate::format_map::FormatMap;
use crate::formats::{long_form_one_format_as_strings, long_form_strings};
use crate::paired_paths::{
    base_path_on, base_path_spec, full_path_on, full_path_spec, map_views, path_extension, path_result, splittable,
    InconsistentPath, PathFault,
};
use crate::text::{concat, join, join_strings, lines, lines_of, owned, str_eq, views};

verus! {

broadcast use crate::text::views_push;

/// The options of the command line.
#[derive(Debug, Clone, Default)]
pub struct Cli {
    /// The notebook files (standard input when there are none).
    pub notebooks: Vec<String>,
    /// The input format.
    pub from_fmt: Option<String>,
    /// The output format.
    pub to_fmt: Option<String>,
    /// The output file (`-` for standard output).
    pub output: Option<String>,
    /// The paired formats to set in the notebook metadata.
    pub set_formats: Option<String>,
    /// Format options as `key=value` pairs.
    pub format_options: Vec<String>,
    /// Synchronize all paired representations.
    pub sync: bool,
    /// List the paired paths and exit.
    pub paired_paths: bool,
    /// Round-trip conversion test.
    pub test: bool,
    /// Strict round-trip conversion test.
    pub test_strict: bool,
    /// Show the differences between the notebook and the text file.
    pub diff: bool,
    /// Execute the notebook after conversion.
    pub execute: bool,
    /// The kernel to set in the notebook.
    pub set_kernel: Option<String>,
    /// A program to pipe the notebook through.
    pub pipe: Option<String>,
    /// A program to run as a check.
    pub check: Option<String>,
    /// Keep the outputs of an existing `.ipynb` file.
    pub update: bool,
    /// Metadata to merge into the notebook, as JSON.
    pub update_metadata: Option<String>,
    /// Give the output file the timestamp of the source.
    pub use_source_timestamp: bool,
    /// The format used when piping.
    pub pipe_fmt: Option<String>,
    /// The format of the diff output.
    pub diff_format: Option<String>,
    /// The working directory for execution.
    pub run_path: Option<String>,
    /// Pre-commit mode.
    pub pre_commit_mode: bool,
    /// Check that the source is newer than the output.
    pub check_source_is_newer: bool,
    /// No informational messages.
    pub quiet: bool,
    /// Show a diff for each modified file.
    pub show_changes: bool,
    /// Warn instead of failing.
    pub warn_only: bool,
    /// Stop at the first error.
    pub stop: bool,
}

fn same_lines(a: &Vec<String>, b: &Vec<String>) -> (r: bool)
    ensures
        r == (views(a@) == views(b@)),
{
    if a.len() != b.len() {
        return false;
    }
    let mut i: usize = 0;
    while i < a.len()
        invariant
            a@.len() == b@.len(),
            i <= a@.len(),
            forall|j: int| 0 <= j < i ==> a@[j]@ == b@[j]@,
        decreases a.len() - i,
    {
        if !str_eq(a[i].as_str(), b[i].as_str()) {
            assert(views(a@)[i as int] != views(b@)[i as int]);
            return false;
        }
        i += 1;
    }
    assert(views(a@) =~= views(b@));
    true
}

/// The line diff of two texts: empty when they have the same lines, else a header that
/// names them followed by the diff lines.
pub open spec fn diff_strings_spec(a: Seq<char>, b: Seq<char>, a_name: Seq<char>, b_name: Seq<char>) -> Seq<char> {
    let la = lines_of(a);
    let lb = lines_of(b);
    if la == lb {
        Seq::empty()
    } else {
        join(seq!["--- "@ + a_name, "+++ "@ + b_name] + diff_rows(la, lb, row_count(la, lb)), "\n"@)
    }
}

/// Simple line diff of two strings.
pub fn diff_strings(a: &str, b: &str, a_name: &str, b_name: &str) -> (r: String)
    ensures
        r@ == diff_strings_spec(a@, b@, a_name@, b_name@),
{
    let a_lines = lines(a);
    let b_lines = lines(b);
    if same_lines(&a_lines, &b_lines) {
        return String::new();
    }
    let mut output: Vec<String> = Vec::new();
    output.push(concat("--- ", a_name));
    output.push(concat("+++ ", b_name));
    assert(views(output@) =~= seq!["--- "@ + a_name@, "+++ "@ + b_name@]);
    push_diff_rows(&mut output, &a_lines, &b_lines);
    join_strings(&output, "\n")
}

/// The format of an input file, from its extension: `{extension: ".ext"}`; none for a path
/// without extension.
pub fn input_format_from_path(path: &str) -> (r: Option<FormatMap>)
    ensures
        match r {
            Some(m) => path_extension(path@) matches Some(x) && m@ == Map::<Seq<char>, Seq<char>>::empty().insert(
                "extension"@,
                seq!['.'] + x,
            ),
            None => path_extension(path@) is None,
        },
{
    match crate::paired_paths::extension_of(path) {
        Some(x) => {
            let e = concat(".", x.as_str());
            proof {
                reveal_strlit(".");
                assert(e@ =~= seq!['.'] + x@);
            }
            let mut m = FormatMap::new();
            m.insert(owned("extension"), e);
            Some(m)
        },
        None => None,
    }
}

/// The long form of a format given on the command line.
pub fn format_spec_to_dict(spec: &str) -> (r: FormatMap)
    ensures
        r@ == long_form_strings(spec@),
{
    long_form_one_format_as_strings(spec)
}


/// The format to convert to: that of `--to`, else that of the extension of the `--output`
/// file (no format options for a file without an extension); none for standard output or
/// when neither is given.
pub open spec fn target_format_spec(to: Option<Seq<char>>, output: Option<Seq<char>>) -> Option<Map<Seq<char>, Seq<char>>> {
    match to {
        Some(spec) => Some(long_form_strings(spec)),
        None => match output {
            Some(o) => if o == "-"@ {
                None
            } else {
                match path_extension(o) {
                    Some(x) => Some(Map::<Seq<char>, Seq<char>>::empty().insert("extension"@, seq!['.'] + x)),
                    None => Some(Map::<Seq<char>, Seq<char>>::empty()),
                }
            },
            None => None,
        },
    }
}

/// The format to convert to (see `target_format_spec`).
pub fn target_format(to: Option<&str>, output: Option<&str>) -> (r: Option<FormatMap>)
    ensures
        match r {
            Some(m) => target_format_spec(opt_view(to), opt_view(output)) == Some(m@),
            None => target_format_spec(opt_view(to), opt_view(output)) is None,
        },
{
    proof {
        reveal_strlit("-");
    }
    match to {
        Some(spec) => Some(format_spec_to_dict(spec)),
        None => match output {
            Some(o) => if str_eq(o, "-") {
                None
            } else {
                match input_format_from_path(o) {
                    Some(m) => Some(m),
                    None => Some(FormatMap::new()),
                }
            },
            None => None,
        },
    }
}

/// The text of an optional string.
pub open spec fn opt_view(o: Option<&str>) -> Option<Seq<char>> {
    match o {
        Some(s) => Some(s@),
        None => None,
    }
}

/// Where a converted notebook goes.
pub enum Destination {
    Stdout,
    File(String),
}

/// The file that a destination names, if any.
pub open spec fn destination_view(r: Result<Destination, InconsistentPath>) -> Result<Option<Seq<char>>, PathFault> {
    match r {
        Ok(Destination::Stdout) => Ok(None),
        Ok(Destination::File(f)) => Ok(Some(f@)),
        Err(e) => Err(e@),
    }
}

/// Where a notebook converted to the format `to` goes: the `--output` file (standard
/// output for `-`); without one, the path with the base of the input `path` in its format
/// `from` and the prefix, suffix and extension of `to`, paths being separated by `sep`;
/// standard output for a notebook read from standard input.
pub open spec fn destination_spec(
    output: Option<Seq<char>>,
    path: Option<Seq<char>>,
    from: Map<Seq<char>, Seq<char>>,
    to: Map<Seq<char>, Seq<char>>,
    sep: char,
) -> Result<Option<Seq<char>>, PathFault> {
    match output {
        Some(o) => if o == "-"@ {
            Ok(None)
        } else {
            Ok(Some(o))
        },
        None => match path {
            None => Ok(None),
            Some(p) => match base_path_spec(p, from, Seq::empty(), None, sep) {
                Err(e) => Err(e),
                Ok(b) => match full_path_spec(b, to, sep) {
                    Err(e) => Err(e),
                    Ok(f) => Ok(Some(f)),
                },
            },
        },
    }
}

/// Where a converted notebook goes (see `destination_spec`).
pub fn destination(output: Option<&str>, path: Option<&str>, from: &FormatMap, to: &FormatMap, sep: char) -> (r: Result<Destination, InconsistentPath>)
    requires
        output is None ==> (path matches Some(p) ==> splittable(p@)),
    ensures
        destination_view(r) == destination_spec(opt_view(output), opt_view(path), from@, to@, sep),
{
    proof {
        reveal_strlit("-");
    }
    match output {
        Some(o) => if str_eq(o, "-") {
            Ok(Destination::Stdout)
        } else {
            Ok(Destination::File(owned(o)))
        },
        None => match path {
            None => Ok(Destination::Stdout),
            Some(p) => {
                let none: Vec<FormatMap> = Vec::new();
                assert(map_views(none@) =~= Seq::<Map<Seq<char>, Seq<char>>>::empty());
                match base_path_on(p, from, none.as_slice(), None, sep) {
                    Err(e) => Err(e),
                    Ok(b) => match full_path_on(b.as_str(), to, sep) {
                        Err(e) => Err(e),
                        Ok(f) => Ok(Destination::File(f)),
                    },
                }
            },
        },
    }
}

} // verus!
