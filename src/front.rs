//! Front matter: the configuration block before the `===` line of a
//! document, the exclusive kinds it may declare, and the category pass.
use vstd::prelude::*;
use vstd::utf8::{decode_utf8, valid_utf8};
use crate::text::{chars_of, string_of};

verus! {

/// `s` holds the delimiter `===` starting at `i`.
pub open spec fn delimiter_at(s: Seq<char>, i: int) -> bool {
    0 <= i && i + 3 <= s.len() && s[i] == '=' && s[i + 1] == '=' && s[i + 2] == '='
}

/// Where the first delimiter starts.
pub open spec fn first_delimiter(s: Seq<char>) -> Option<int> {
    if exists|i: int| delimiter_at(s, i) {
        Some(choose|i: int| delimiter_at(s, i) && forall|j: int| 0 <= j < i ==> !delimiter_at(s, j))
    } else {
        None
    }
}

proof fn lemma_first_delimiter(s: Seq<char>, i: int)
    requires
        delimiter_at(s, i),
        forall|j: int| 0 <= j < i ==> !delimiter_at(s, j),
    ensures
        first_delimiter(s) == Some(i),
{
    assert(delimiter_at(s, i) && forall|j: int| 0 <= j < i ==> !delimiter_at(s, j));
    let k = choose|k: int| delimiter_at(s, k) && forall|j: int| 0 <= j < k ==> !delimiter_at(s, j);
    if k < i {
        assert(!delimiter_at(s, k));
    }
    if i < k {
        assert(!delimiter_at(s, i));
    }
}

/// The configuration text before the first delimiter and the body after it.
pub open spec fn front_matter_split(s: Seq<char>) -> Option<(Seq<char>, Seq<char>)> {
    match first_delimiter(s) {
        Some(i) => Some((s.subrange(0, i), s.subrange(i + 3, s.len() as int))),
        None => None,
    }
}

/// Splits a document at its first `===` into configuration text and body;
/// a document without the delimiter has no front matter.
pub fn split_front_matter(doc: &str) -> (r: Option<(String, String)>)
    ensures
        r is Some <==> front_matter_split(doc@) is Some,
        r matches Some((c, b)) ==> front_matter_split(doc@) == Some((c@, b@)),
{
    let cs = chars_of(doc);
    let n = cs.len();
    if n < 3 {
        assert(forall|j: int| !delimiter_at(doc@, j));
        return None;
    }
    let mut i: usize = 0;
    while i <= n - 3
        invariant
            cs@ == doc@,
            n == cs.len(),
            n >= 3,
            i <= n - 2,
            forall|j: int| 0 <= j < i ==> !delimiter_at(doc@, j),
        decreases n - i,
    {
        if cs[i] == '=' && cs[i + 1] == '=' && cs[i + 2] == '=' {
            proof {
                lemma_first_delimiter(doc@, i as int);
            }
            let config = string_of(&cs, 0, i);
            let body = string_of(&cs, i + 3, n);
            return Some((config, body));
        }
        i = i + 1;
    }
    assert forall|j: int| !delimiter_at(doc@, j) by {
        if 0 <= j && j >= i {
            assert(j + 3 > n);
        }
    }
    None
}

/// Relies on String::from_utf8: the text of the bytes when they are valid UTF-8.
#[verifier::external_body]
pub(crate) fn utf8_text(bytes: Vec<u8>) -> (r: Option<String>)
    ensures
        r is Some <==> valid_utf8(bytes@),
        r matches Some(s) ==> s@ == decode_utf8(bytes@),
{
    String::from_utf8(bytes).ok()
}

/// A category or subcategory: its display title and pinned posts.
#[derive(Debug)]
pub struct CategoryMeta {
    pub title: String,
    pub pinned_posts: Vec<String>,
}

impl CategoryMeta {
    pub fn duplicate(&self) -> (r: CategoryMeta)
        ensures
            r.title@ == self.title@,
            r.pinned_posts@.len() == self.pinned_posts@.len(),
            forall|i: int|
                0 <= i < self.pinned_posts@.len() ==> r.pinned_posts@[i]@ == self.pinned_posts@[i]@,
    {
        CategoryMeta { title: self.title.clone(), pinned_posts: clone_strings(&self.pinned_posts) }
    }
}

/// A copy of a list of strings.
pub fn clone_strings(v: &Vec<String>) -> (r: Vec<String>)
    ensures
        r@.len() == v@.len(),
        forall|i: int| 0 <= i < v@.len() ==> r@[i]@ == v@[i]@,
{
    let mut out: Vec<String> = Vec::new();
    let mut i: usize = 0;
    while i < v.len()
        invariant
            i <= v.len(),
            out@.len() == i,
            forall|j: int| 0 <= j < i ==> out@[j]@ == v@[j]@,
        decreases v.len() - i,
    {
        out.push(v[i].clone());
        i = i + 1;
    }
    out
}

/// Page settings shared by every kind of document.
#[derive(Debug)]
pub struct PageMeta {
    pub group: Option<String>,
    pub translations: Vec<String>,
    pub rss: bool,
    pub index: bool,
    pub redirect_from: Vec<String>,
    pub redirect_to: Option<String>,
    pub display: String,
    pub children_template: Option<String>,
    pub template: Option<String>,
}

/// A series that groups several pages.
#[derive(Debug)]
pub struct SeriesMeta {
    pub on_going: bool,
    pub title: String,
    pub authors: Vec<String>,
    pub tags: Vec<String>,
}

/// Where the content of an external document comes from.
#[derive(Debug)]
pub enum ExternalType {
    InDir,
    Plugin { plugin: String, resource: String },
}

/// The configuration block of a document.
#[derive(Debug)]
pub struct ConfigMeta {
    pub title: String,
    pub authors: Vec<String>,
    pub tags: Vec<String>,
    pub date: Option<String>,
    pub page: PageMeta,
    pub category: Option<CategoryMeta>,
    pub subcategory: Option<CategoryMeta>,
    pub series: Option<SeriesMeta>,
    pub external: Option<ExternalType>,
}

/// The one role a configuration block gives its document.
#[derive(Clone, Copy, Debug, PartialEq, Eq)]
pub enum ConfigurationType {
    Category,
    SubCategory,
    Redirect,
    Series,
    Page,
    External,
}

/// Why a configuration block is refused.
#[derive(Clone, Copy, Debug, PartialEq, Eq)]
pub enum FrontMatterError {
    /// No `===` line separates configuration from body.
    MissingDelimiter,
    /// The configuration text is not valid.
    Malformed,
    /// More than one of category, subcategory, series, redirect and external is set.
    ConflictingKinds,
}

/// How many of the exclusive settings a block sets.
pub open spec fn kinds_set(c: ConfigMeta) -> nat {
    (if c.category is Some { 1nat } else { 0nat }) + (if c.subcategory is Some { 1nat } else { 0nat })
        + (if c.series is Some { 1nat } else { 0nat }) + (if c.page.redirect_to is Some { 1nat } else {
        0nat
    }) + (if c.external is Some { 1nat } else { 0nat })
}

pub open spec fn config_type_spec(c: ConfigMeta) -> Result<ConfigurationType, FrontMatterError> {
    if kinds_set(c) > 1 {
        Err(FrontMatterError::ConflictingKinds)
    } else if c.category is Some {
        Ok(ConfigurationType::Category)
    } else if c.subcategory is Some {
        Ok(ConfigurationType::SubCategory)
    } else if c.series is Some {
        Ok(ConfigurationType::Series)
    } else if c.page.redirect_to is Some {
        Ok(ConfigurationType::Redirect)
    } else if c.external is Some {
        Ok(ConfigurationType::External)
    } else {
        Ok(ConfigurationType::Page)
    }
}

impl ConfigMeta {
    /// The role of the document: a plain page unless exactly one of the
    /// exclusive settings is present; more than one is refused.
    pub fn config_type(&self) -> (r: Result<ConfigurationType, FrontMatterError>)
        ensures
            r == config_type_spec(*self),
    {
        let mut n: u8 = 0;
        if self.category.is_some() {
            n = n + 1;
        }
        if self.subcategory.is_some() {
            n = n + 1;
        }
        if self.series.is_some() {
            n = n + 1;
        }
        if self.page.redirect_to.is_some() {
            n = n + 1;
        }
        if self.external.is_some() {
            n = n + 1;
        }
        assert(n as nat == kinds_set(*self));
        if n > 1 {
            Err(FrontMatterError::ConflictingKinds)
        } else if self.category.is_some() {
            Ok(ConfigurationType::Category)
        } else if self.subcategory.is_some() {
            Ok(ConfigurationType::SubCategory)
        } else if self.series.is_some() {
            Ok(ConfigurationType::Series)
        } else if self.page.redirect_to.is_some() {
            Ok(ConfigurationType::Redirect)
        } else if self.external.is_some() {
            Ok(ConfigurationType::External)
        } else {
            Ok(ConfigurationType::Page)
        }
    }
}

} // verus!
