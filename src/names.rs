//! Rules on folder and file names inside the content root.
use vstd::prelude::*;
use crate::text::{chars_of, find_last, last_index, str_eq, string_of};

verus! {

/// Whether the text is a valid BCP 47 language tag.
pub uninterp spec fn language_tag_parses(s: Seq<char>) -> bool;

/// Relies on language_tags::LanguageTag::parse and LanguageTag::is_valid:
/// whether the text is a well-formed tag whose subtags are in the IANA
/// registry that the crate embeds; this depends on the text alone.
#[verifier::external_body]
pub(crate) fn is_language_tag(s: &str) -> (r: bool)
    ensures
        r == language_tag_parses(s@),
{
    match language_tags::LanguageTag::parse(s) {
        Ok(tag) => tag.is_valid(),
        Err(_) => false,
    }
}

/// Why a directory of the content root cannot be part of the tree.
#[derive(Clone, Copy, Debug, PartialEq, Eq)]
pub enum TreeError {
    /// A path segment is not valid UTF-8.
    NonUtf8Name,
    /// A folder is named like a language tag, which would make translation links ambiguous.
    LanguageTagFolder,
    /// A folder takes a name that site routes reserve.
    ReservedName,
    /// A folder name holds a separator, URL punctuation, whitespace or a quote.
    ReservedCharacter,
}

/// Names that site routes reserve at the top of every path.
pub open spec fn is_reserved_name(s: Seq<char>) -> bool {
    s == "template"@ || s == "files"@ || s == "static"@ || s == "admin"@ || s == "user"@ || s
        == "me"@ || s == "api"@ || s == "stat"@ || s == "error"@ || s == "feed"@
}

/// Characters that no folder name may hold.
pub open spec fn is_reserved_char(c: char) -> bool {
    c == '{' || c == '}' || c == '|' || c == '\\' || c == '^' || c == '[' || c == ']' || c == '`'
        || c == ';' || c == '/' || c == '?' || c == ':' || c == '@' || c == '&' || c == '='
        || c == '+' || c == '$' || c == ',' || c == ' ' || c == '<' || c == '>' || c == '#' || c
        == '%' || c == '"' || c == '\''
}

pub open spec fn has_reserved_char(s: Seq<char>) -> bool {
    exists|i: int| 0 <= i < s.len() && is_reserved_char(#[trigger] s[i])
}

/// The error a folder name raises, checked in this order, or none.
pub open spec fn folder_error(s: Seq<char>) -> Option<TreeError> {
    if language_tag_parses(s) {
        Some(TreeError::LanguageTagFolder)
    } else if is_reserved_name(s) {
        Some(TreeError::ReservedName)
    } else if has_reserved_char(s) {
        Some(TreeError::ReservedCharacter)
    } else {
        None
    }
}

fn reserved_char(c: char) -> (r: bool)
    ensures
        r == is_reserved_char(c),
{
    c == '{' || c == '}' || c == '|' || c == '\\' || c == '^' || c == '[' || c == ']' || c == '`'
        || c == ';' || c == '/' || c == '?' || c == ':' || c == '@' || c == '&' || c == '='
        || c == '+' || c == '$' || c == ',' || c == ' ' || c == '<' || c == '>' || c == '#' || c
        == '%' || c == '"' || c == '\''
}

fn reserved_name(s: &str) -> (r: bool)
    ensures
        r == is_reserved_name(s@),
{
    str_eq(s, "template") || str_eq(s, "files") || str_eq(s, "static") || str_eq(s, "admin")
        || str_eq(s, "user") || str_eq(s, "me") || str_eq(s, "api") || str_eq(s, "stat") || str_eq(
        s,
        "error",
    ) || str_eq(s, "feed")
}

/// Accepts a folder name, or says why the whole build must stop.
pub fn validate_folder_name(name: &str) -> (r: Result<(), TreeError>)
    ensures
        r is Ok <==> folder_error(name@) is None,
        r matches Err(e) ==> folder_error(name@) == Some(e),
{
    let tag = is_language_tag(name);
    if tag {
        return Err(TreeError::LanguageTagFolder);
    }
    let reserved = reserved_name(name);
    if reserved {
        return Err(TreeError::ReservedName);
    }
    let cs = chars_of(name);
    let mut i: usize = 0;
    while i < cs.len()
        invariant
            i <= cs.len(),
            cs@ == name@,
            !tag,
            !reserved,
            tag == language_tag_parses(name@),
            reserved == is_reserved_name(name@),
            forall|j: int| 0 <= j < i ==> !is_reserved_char(#[trigger] cs@[j]),
        decreases cs.len() - i,
    {
        if reserved_char(cs[i]) {
            assert(is_reserved_char(name@[i as int]));
            assert(has_reserved_char(name@));
            assert(!language_tag_parses(name@));
            assert(!is_reserved_name(name@));
            return Err(TreeError::ReservedCharacter);
        }
        i = i + 1;
    }
    Ok(())
}

/// What kind of document a file holds.
#[derive(Clone, Copy, Debug, PartialEq, Eq)]
pub enum LeafPathType {
    /// A single-file post in the log format.
    Moklog,
    /// Markdown.
    Page,
    /// Ready-made HTML.
    PreBuilt,
}

/// The role a file's name gives it.
#[derive(Clone, Copy, Debug, PartialEq, Eq)]
pub enum FileClass {
    /// The folder's own document.
    Primary(LeafPathType),
    /// A document file that is not the folder's own: a translation when its stem is a language tag.
    Alternate(LeafPathType),
    /// Anything else: a static asset.
    Asset,
}

/// Position of the dot that starts the extension: the last one, unless it opens the name.
pub open spec fn extension_dot(name: Seq<char>) -> Option<int> {
    match last_index(name, '.') {
        Some(i) => if i > 0 {
            Some(i)
        } else {
            None
        },
        None => None,
    }
}

/// The name without its extension.
pub open spec fn stem_of(name: Seq<char>) -> Seq<char> {
    match extension_dot(name) {
        Some(i) => name.subrange(0, i),
        None => name,
    }
}

/// The document kind an extension stands for.
pub open spec fn kind_of_extension(e: Seq<char>) -> Option<LeafPathType> {
    if e == "md"@ {
        Some(LeafPathType::Page)
    } else if e == "html"@ {
        Some(LeafPathType::PreBuilt)
    } else if e == "moklog"@ {
        Some(LeafPathType::Moklog)
    } else {
        None
    }
}

pub open spec fn file_class(name: Seq<char>) -> FileClass {
    if name == "index.md"@ {
        FileClass::Primary(LeafPathType::Page)
    } else if name == "index.html"@ {
        FileClass::Primary(LeafPathType::PreBuilt)
    } else if name == ".moklog"@ {
        FileClass::Primary(LeafPathType::Moklog)
    } else {
        match extension_dot(name) {
            Some(i) => match kind_of_extension(name.subrange(i + 1, name.len() as int)) {
                Some(k) => FileClass::Alternate(k),
                None => FileClass::Asset,
            },
            None => FileClass::Asset,
        }
    }
}

pub(crate) fn extension_position(cs: &Vec<char>) -> (r: Option<usize>)
    ensures
        r matches Some(i) ==> extension_dot(cs@) == Some(i as int) && i < cs.len(),
        r is None ==> extension_dot(cs@) is None,
{
    proof {
        crate::text::lemma_last_index_props(cs@, '.');
    }
    match find_last(cs, '.') {
        Some(i) => if i > 0 {
            Some(i)
        } else {
            None
        },
        None => None,
    }
}

/// The name without its extension.
pub fn file_stem(name: &str) -> (r: String)
    ensures
        r@ == stem_of(name@),
{
    let cs = chars_of(name);
    match extension_position(&cs) {
        Some(i) => string_of(&cs, 0, i),
        None => string_of(&cs, 0, cs.len()),
    }
}

/// The role of a file in its folder, from its name.
pub fn classify_file(name: &str) -> (r: FileClass)
    ensures
        r == file_class(name@),
{
    if str_eq(name, "index.md") {
        return FileClass::Primary(LeafPathType::Page);
    }
    if str_eq(name, "index.html") {
        return FileClass::Primary(LeafPathType::PreBuilt);
    }
    if str_eq(name, ".moklog") {
        return FileClass::Primary(LeafPathType::Moklog);
    }
    let cs = chars_of(name);
    match extension_position(&cs) {
        Some(i) => {
            let ext = string_of(&cs, i + 1, cs.len());
            if str_eq(ext.as_str(), "md") {
                FileClass::Alternate(LeafPathType::Page)
            } else if str_eq(ext.as_str(), "html") {
                FileClass::Alternate(LeafPathType::PreBuilt)
            } else if str_eq(ext.as_str(), "moklog") {
                FileClass::Alternate(LeafPathType::Moklog)
            } else {
                FileClass::Asset
            }
        },
        None => FileClass::Asset,
    }
}

} // verus!
