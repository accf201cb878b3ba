//! The format of a notebook from its metadata, and the check of the format version of a
//! text notebook.

use vstd::prelude::*;
use crate::format_check::{lex_less, lex_lt};
use crate::format_map::FormatMap;
use crate::formats::{
    desc_view, format_table, get_format_implementation, implementation_error, implementation_index,
    long_form_multiple_formats_as_strings, long_forms, normalised_ext, JupytextFormatError,
};
use crate::header::{insert_or_test_version_number, last_ext};
use crate::paired_paths::{extension_of, path_extension};
use crate::text::{concat, concat3, ends_with, has_suffix, owned, split_char, split_on, str_eq};

verus! {

/// The `text_representation` entry of a notebook's `jupytext` metadata: its extension,
/// format name, format version and Jupytext version, where they are strings.
#[derive(Debug, Clone, Default)]
pub struct TextRepresentation {
    pub extension: Option<String>,
    pub format_name: Option<String>,
    pub format_version: Option<String>,
    pub jupytext_version: Option<String>,
}

/// What the format functions read of a notebook's metadata: whether it has any, its
/// `jupytext.text_representation` entry, and its `jupytext.formats` when that is a string.
#[derive(Debug, Clone, Default)]
pub struct FormatMetadata {
    pub has_metadata: bool,
    pub text_representation: Option<TextRepresentation>,
    pub formats: Option<String>,
}

/// The plain value of an optional string.
pub open spec fn opt_text(o: Option<String>) -> Option<Seq<char>> {
    match o {
        Some(s) => Some(s@),
        None => None,
    }
}

/// The format name that the first long form with extension `e` gives, if one has it: its
/// name, or, unless a name is required (`explicit`), none.
pub open spec fn name_from_forms(forms: Seq<Map<Seq<char>, Seq<char>>>, e: Seq<char>, explicit: bool) -> Option<Option<Seq<char>>>
    decreases forms.len(),
{
    if forms.len() == 0 {
        None
    } else {
        let f = forms[0];
        let name = if f.contains_key("format_name"@) {
            Some(f["format_name"@])
        } else {
            None
        };
        if f.contains_key("extension"@) && f["extension"@] == e && (!explicit || name is Some) {
            Some(name)
        } else {
            name_from_forms(forms.drop_first(), e, explicit)
        }
    }
}

/// The format name of a notebook for the extension `ext` (only its part after the last dot
/// counts): the name of its text representation when that has the extension; else the
/// name in its paired formats (or `cm_default_formats`); else, with `explicit_default`,
/// the name of the first registered format of the extension, but for markdown files.
pub open spec fn format_name_for(meta: FormatMetadata, ext: Seq<char>, cm_default_formats: Option<Seq<char>>, explicit_default: bool) -> Option<Seq<char>> {
    let e = last_ext(ext);
    let from_representation = representation_name(meta, e);
    if from_representation is Some {
        from_representation
    } else {
        let found = match listed_formats(meta, cm_default_formats) {
            Some(fs) => name_from_forms(long_forms(split_on(fs, ',')), e, explicit_default),
            None => None,
        };
        match found {
            Some(n) => n,
            None => if !explicit_default || e == ".md"@ || e == ".markdown"@ || e == ".Rmd"@ {
                None
            } else {
                match implementation_index(normalised_ext(e), None) {
                    Some(i) => Some(format_table()[i].0),
                    None => None,
                }
            },
        }
    }
}

/// The format name of the text representation, when it has the extension `e`.
pub open spec fn representation_name(meta: FormatMetadata, e: Seq<char>) -> Option<Seq<char>> {
    match meta.text_representation {
        Some(tr) => if has_suffix(opt_text(tr.extension).unwrap_or(Seq::empty()), e) && tr.format_name is Some {
            opt_text(tr.format_name)
        } else {
            None
        },
        None => None,
    }
}

/// The paired formats of the notebook, or the default ones.
pub open spec fn listed_formats(meta: FormatMetadata, cm_default_formats: Option<Seq<char>>) -> Option<Seq<char>> {
    match meta.formats {
        Some(f) => Some(f@),
        None => cm_default_formats,
    }
}

/// The extension as `.` and its part after its last dot.
fn last_ext_of(ext: &str) -> (r: String)
    ensures
        r@ == last_ext(ext@),
{
    let pieces = split_char(ext, '.');
    concat(".", pieces[pieces.len() - 1].as_str())
}

/// The format name that a text notebook's metadata gives for the extension `ext`: that of
/// its text representation, or of its paired formats, with no default.
pub fn read_format_from_metadata(meta: &FormatMetadata, ext: &str) -> (r: Option<String>)
    ensures
        opt_text(r) == format_name_for(*meta, ext@, None, false),
{
    format_name_for_ext(meta, ext, None, false)
}

/// The format name of a notebook for the extension `ext`, from its metadata.
pub fn format_name_for_ext(meta: &FormatMetadata, ext: &str, cm_default_formats: Option<&str>, explicit_default: bool) -> (r: Option<String>)
    ensures
        opt_text(r) == format_name_for(
            *meta,
            ext@,
            match cm_default_formats {
                Some(s) => Some(s@),
                None => None,
            },
            explicit_default,
        ),
{
    let e = last_ext_of(ext);
    match &meta.text_representation {
        Some(tr) => {
            let tr_ext = match &tr.extension {
                Some(x) => x.as_str(),
                None => "",
            };
            proof {
                reveal_strlit("");
                assert(""@ =~= Seq::<char>::empty());
            }
            if ends_with(tr_ext, e.as_str()) {
                match &tr.format_name {
                    Some(n) => return Some(owned(n.as_str())),
                    None => {},
                }
            }
        },
        None => {},
    }
    assert(representation_name(*meta, e@) is None);
    let ghost cm = match cm_default_formats {
        Some(s) => Some(s@),
        None => None,
    };
    let formats: Option<&str> = match &meta.formats {
        Some(f) => Some(f.as_str()),
        None => cm_default_formats,
    };
    match formats {
        Some(fs) => {
            assert(listed_formats(*meta, cm) == Some(fs@));
            let forms = long_form_multiple_formats_as_strings(fs);
            let ghost all = long_forms(split_on(fs@, ','));
            assert(forms@.len() == all.len());
            assert(all.skip(0) =~= all);
            let mut i: usize = 0;
            while i < forms.len()
                invariant
                    i <= forms@.len(),
                    forms@.len() == all.len(),
                    forall|j: int| 0 <= j < forms@.len() ==> (#[trigger] forms@[j])@ == all[j],
                    name_from_forms(all, e@, explicit_default) == name_from_forms(all.skip(i as int), e@, explicit_default),
                    e@ == last_ext(ext@),
                    representation_name(*meta, e@) is None,
                    listed_formats(*meta, cm) == Some(fs@),
                    all == long_forms(split_on(fs@, ',')),
                    cm == match cm_default_formats {
                        Some(s) => Some(s@),
                        None => None,
                    },
                decreases forms.len() - i,
            {
                let f = &forms[i];
                assert(f@ == all[i as int]);
                assert(all.skip(i as int)[0] == all[i as int]);
                assert(all.skip(i as int).drop_first() =~= all.skip(i + 1));
                let name = f.get("format_name");
                let same_ext = match f.get("extension") {
                    Some(x) => str_eq(x.as_str(), e.as_str()),
                    None => false,
                };
                if same_ext && (!explicit_default || name.is_some()) {
                    assert(name_from_forms(all.skip(i as int), e@, explicit_default) == Some(opt_text(name)));
                    return name;
                }
                i += 1;
            }
        },
        None => {},
    }
    proof {
        reveal_strlit(".md");
        reveal_strlit(".markdown");
        reveal_strlit(".Rmd");
    }
    if !explicit_default || str_eq(e.as_str(), ".md") || str_eq(e.as_str(), ".markdown") || str_eq(e.as_str(), ".Rmd") {
        return None;
    }
    match get_format_implementation(e.as_str(), None) {
        Ok(d) => Some(owned(d.format_name)),
        Err(_) => None,
    }
}

/// The extension under which a text notebook is checked: that of its text representation
/// when it is read from the standard input (`-`), else that of its path, dot included.
pub open spec fn checked_ext(meta: FormatMetadata, source_path: Seq<char>) -> Seq<char> {
    if source_path == "-"@ {
        match meta.text_representation {
            Some(tr) => opt_text(tr.extension).unwrap_or(Seq::empty()),
            None => Seq::empty(),
        }
    } else {
        match path_extension(source_path) {
            Some(x) => seq!['.'] + x,
            None => Seq::empty(),
        }
    }
}

/// A field of the text representation, if it is there.
pub open spec fn representation_field(meta: FormatMetadata, field: int) -> Option<Seq<char>> {
    match meta.text_representation {
        Some(tr) => opt_text(
            if field == 0 {
                tr.format_version
            } else {
                tr.jupytext_version
            },
        ),
        None => None,
    }
}

/// The message of a file whose format version cannot be read.
pub open spec fn version_message(
    source_path: Seq<char>,
    jupytext_version: Seq<char>,
    format_name: Seq<char>,
    min: Seq<char>,
    current: Seq<char>,
    version: Seq<char>,
    outputs_path: Seq<char>,
) -> Seq<char> {
    "The file "@ + source_path + " was generated with jupytext version "@ + jupytext_version
        + " but this build can only read the "@ + format_name + " format in versions "@ + min
        + " to "@ + current + ". The file format version is "@ + version
        + ". Please upgrade, or remove either "@ + source_path + " or "@ + outputs_path + "."@
}

/// The outcome of checking the format version of a text notebook: the error of a format
/// that is not registered; else success when the notebook gives no version, or one that
/// is the current one or lies (as a string) between the minimal readable one and the
/// current one; else the message that names both files.
pub open spec fn version_check(meta: FormatMetadata, source_path: Seq<char>, outputs_path: Seq<char>) -> Result<(), Seq<char>> {
    let ext = checked_ext(meta, source_path);
    let name = format_name_for(meta, ext, None, true);
    let e = normalised_ext(ext);
    match implementation_index(e, name) {
        None => Err(implementation_error(e, name)),
        Some(i) => {
            let current = format_table()[i].6;
            let min = format_table()[i].7.unwrap_or(current);
            match representation_field(meta, 0) {
                None => Ok(()),
                Some(v) => if v == current || (!lex_lt(v, min) && !lex_lt(current, v)) {
                    Ok(())
                } else {
                    Err(
                        version_message(
                            source_path,
                            representation_field(meta, 1).unwrap_or("N/A"@),
                            name.unwrap_or("unknown"@),
                            min,
                            current,
                            v,
                            outputs_path,
                        ),
                    )
                },
            }
        },
    }
}

/// Checks that this build can read the format version of the text notebook at
/// `source_path`, whose outputs would come from `outputs_path`.
pub fn check_file_version(meta: &FormatMetadata, source_path: &str, outputs_path: &str) -> (r: Result<(), JupytextFormatError>)
    ensures
        match version_check(*meta, source_path@, outputs_path@) {
            Ok(()) => r is Ok,
            Err(m) => r matches Err(err) && err.0@ == m,
        },
{
    if !insert_or_test_version_number() {
        return Ok(());
    }
    proof {
        reveal_strlit("-");
        reveal_strlit("");
    }
    let ext: String = if str_eq(source_path, "-") {
        match &meta.text_representation {
            Some(tr) => match &tr.extension {
                Some(x) => owned(x.as_str()),
                None => owned(""),
            },
            None => owned(""),
        }
    } else {
        match extension_of(source_path) {
            Some(x) => concat(".", x.as_str()),
            None => owned(""),
        }
    };
    proof {
        reveal_strlit(".");
        assert(ext@ =~= checked_ext(*meta, source_path@));
    }
    let name = format_name_for_ext(meta, ext.as_str(), None, true);
    let d = match &name {
        Some(n) => get_format_implementation(ext.as_str(), Some(n.as_str())),
        None => get_format_implementation(ext.as_str(), None),
    };
    let d = match d {
        Ok(d) => d,
        Err(err) => return Err(err),
    };
    let current = d.current_version_number;
    let min = match d.min_readable_version_number {
        Some(m) => m,
        None => current,
    };
    let version = match &meta.text_representation {
        Some(tr) => match &tr.format_version {
            Some(v) => v.as_str(),
            None => return Ok(()),
        },
        None => return Ok(()),
    };
    if str_eq(version, current) || (!lex_less(version, min) && !lex_less(current, version)) {
        return Ok(());
    }
    let jv = match &meta.text_representation {
        Some(tr) => match &tr.jupytext_version {
            Some(j) => j.as_str(),
            None => "N/A",
        },
        None => "N/A",
    };
    let nm = match &name {
        Some(n) => n.as_str(),
        None => "unknown",
    };
    let mut m = concat3("The file ", source_path, " was generated with jupytext version ");
    m = concat3(m.as_str(), jv, " but this build can only read the ");
    m = concat3(m.as_str(), nm, " format in versions ");
    m = concat3(m.as_str(), min, " to ");
    m = concat3(m.as_str(), current, ". The file format version is ");
    m = concat3(m.as_str(), version, ". Please upgrade, or remove either ");
    m = concat3(m.as_str(), source_path, " or ");
    m = concat3(m.as_str(), outputs_path, ".");
    proof {
        assert(m@ =~= version_message(
            source_path@,
            representation_field(*meta, 1).unwrap_or("N/A"@),
            opt_text(name).unwrap_or("unknown"@),
            min@,
            current@,
            version@,
            outputs_path@,
        ));
    }
    Err(JupytextFormatError(m))
}

} // verus!
