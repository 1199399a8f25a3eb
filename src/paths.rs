//! Where things are: the paths that a run reads and writes.
use vstd::prelude::*;
use vstd::string::{StringExecFns, StrSliceExecFns};
use crate::text::{views, last_segment, name_from_path};

verus! {

/// Where the vendor's configuration lives, below the home directory.
pub const GOOGLE_DIR_APPEND_PATH: &'static str = "/Library/Application Support/Google";
/// The template folder, below an installation directory.
pub const FILE_TEMPLATES_APPEND_PATH: &'static str = "/fileTemplates";
/// The options folder, below an installation directory.
pub const OPTIONS_APPEND_PATH: &'static str = "/options";
/// The shared library's own definitions document.
pub const SHARED_TEMPLATES_XML: &'static str = "shared_templates.xml";
/// The settings document, in the options folder.
pub const FILE_TEMPLATE_SETTINGS_XML: &'static str = "file.template.settings.xml";

/// `s` with a `/` at its end, unless it already has one.
pub open spec fn with_slash(s: Seq<char>) -> Seq<char> {
    if s.len() > 0 && s.last() == '/' {
        s
    } else {
        s.push('/')
    }
}

/// The path of the shared library's definitions document.
pub fn definitions_path(shared_path: &str) -> (r: String)
    ensures
        r@ == with_slash(shared_path@) + SHARED_TEMPLATES_XML@,
{
    proof {
        reveal_strlit("/");
    }
    let mut p = shared_path.to_owned();
    let n = shared_path.unicode_len();
    if n == 0 || shared_path.get_char(n - 1) != '/' {
        p.append("/");
    }
    p.append(SHARED_TEMPLATES_XML);
    p
}

/// The vendor's configuration directory, from the home directory.
pub fn vendor_dir(home: &str) -> (r: String)
    ensures
        r@ == home@ + GOOGLE_DIR_APPEND_PATH@,
{
    home.to_owned().concat(GOOGLE_DIR_APPEND_PATH)
}

/// The path of an installation's settings document.
pub fn settings_path(as_path: &str) -> (r: String)
    ensures
        r@ == as_path@ + OPTIONS_APPEND_PATH@ + seq!['/'] + FILE_TEMPLATE_SETTINGS_XML@,
{
    proof {
        reveal_strlit("/");
    }
    let mut p = as_path.to_owned();
    p.append(OPTIONS_APPEND_PATH);
    p.append("/");
    p.append(FILE_TEMPLATE_SETTINGS_XML);
    p
}

/// An installation's template folder.
pub fn templates_dir(as_path: &str) -> (r: String)
    ensures
        r@ == as_path@ + FILE_TEMPLATES_APPEND_PATH@,
{
    as_path.to_owned().concat(FILE_TEMPLATES_APPEND_PATH)
}

/// Where a template file goes: the template folder, and the file's own name.
pub fn template_destination(templates_path: &str, template: &str) -> (r: String)
    ensures
        r@ == templates_path@ + seq!['/'] + last_segment(template@),
{
    proof {
        reveal_strlit("/");
    }
    let mut p = templates_path.to_owned();
    p.append("/");
    p.append(name_from_path(template));
    p
}

/// The entries of the shared library that are template files: all but its
/// definitions document, in their order.
pub open spec fn template_files_in(entries: Seq<Seq<char>>) -> Seq<Seq<char>>
    decreases entries.len(),
{
    if entries.len() == 0 {
        Seq::empty()
    } else {
        let rest = template_files_in(entries.drop_last());
        if last_segment(entries.last()) == SHARED_TEMPLATES_XML@ {
            rest
        } else {
            rest.push(entries.last())
        }
    }
}

/// The template files among the entries of the shared library.
pub fn template_files(entries: &Vec<String>) -> (r: Vec<String>)
    ensures
        views(r@) == template_files_in(views(entries@)),
{
    let ghost es = views(entries@);
    let mut found: Vec<String> = Vec::new();
    let mut i: usize = 0;
    while i < entries.len()
        invariant
            i <= entries@.len(),
            es == views(entries@),
            views(found@) == template_files_in(es.subrange(0, i as int)),
        decreases entries@.len() - i,
    {
        let ghost before = found@;
        assert(es.subrange(0, i + 1).drop_last() =~= es.subrange(0, i as int));
        assert(es.subrange(0, i + 1).last() == entries@[i as int]@);
        let own_name = name_from_path(entries[i].as_str()).to_owned();
        let definitions = SHARED_TEMPLATES_XML.to_owned();
        if !(own_name == definitions) {
            found.push(entries[i].clone());
            assert(views(found@) =~= views(before).push(entries@[i as int]@));
        }
        i += 1;
    }
    assert(es.subrange(0, i as int) =~= es);
    found
}

} // verus!
