//! Per-document rendering decisions: which template, which link paths, how
//! links to assets are rewritten, where the summary stops, how code blocks
//! are framed.
use vstd::prelude::*;
use crate::store::{find_hash, AssetStore};
use crate::text::{append_str, chars_of, push_char, str_eq};

verus! {

/// `.html`
pub open spec fn html_suffix() -> Seq<char> {
    seq!['.', 'h', 't', 'm', 'l']
}

/// The template of a document: the one its configuration names, else the
/// one named after its category, else after its folder.
pub open spec fn template_name_spec(
    explicit: Option<Seq<char>>,
    category: Option<Seq<char>>,
    folder: Seq<char>,
) -> Seq<char> {
    match explicit {
        Some(t) => t,
        None => match category {
            Some(c) => c + html_suffix(),
            None => folder + html_suffix(),
        },
    }
}

pub open spec fn opt_view(o: Option<String>) -> Option<Seq<char>> {
    match o {
        Some(s) => Some(s@),
        None => None,
    }
}

fn push_html_suffix(s: &mut String)
    ensures
        final(s)@ == old(s)@ + html_suffix(),
{
    push_char(s, '.');
    push_char(s, 'h');
    push_char(s, 't');
    push_char(s, 'm');
    push_char(s, 'l');
    assert(final(s)@ =~= old(s)@ + html_suffix());
}

/// Picks the template that renders a document.
pub fn template_name(explicit: &Option<String>, category: &Option<String>, folder: &str) -> (r: String)
    ensures
        r@ == template_name_spec(opt_view(*explicit), opt_view(*category), folder@),
{
    match explicit {
        Some(t) => t.clone(),
        None => {
            let mut out = String::new();
            match category {
                Some(c) => append_str(&mut out, c.as_str()),
                None => append_str(&mut out, folder),
            }
            push_html_suffix(&mut out);
            out
        },
    }
}

/// The link path of a translation: the default language keeps the bare
/// path, any other language gets `/{lang}` in front.
pub open spec fn translation_link_spec(lang: Seq<char>, default_lang: Seq<char>, path: Seq<char>) -> Seq<char> {
    if lang == default_lang {
        path
    } else {
        seq!['/'] + lang + path
    }
}

pub fn translation_link(lang: &str, default_lang: &str, path: &str) -> (r: String)
    ensures
        r@ == translation_link_spec(lang@, default_lang@, path@),
{
    let mut out = String::new();
    if !str_eq(lang, default_lang) {
        push_char(&mut out, '/');
        append_str(&mut out, lang);
    }
    append_str(&mut out, path);
    assert(out@ =~= translation_link_spec(lang@, default_lang@, path@));
    out
}

/// Whether the text parses as an absolute URL.
pub uninterp spec fn url_parses(s: Seq<char>) -> bool;

/// Relies on url::Url::parse: whether the text is an absolute URL, which
/// depends on the text alone.
#[verifier::external_body]
fn is_absolute_url(s: &str) -> (r: bool)
    ensures
        r == url_parses(s@),
{
    url::Url::parse(s).is_ok()
}

/// The new value of a link attribute: `/` and the published name of the
/// asset registered under the link's path. Absolute URLs, site-absolute
/// paths (starting with `/`), and links to nothing registered, stay as they
/// are (`None`).
pub fn rewrite_link(store: &AssetStore, link: &str) -> (r: Option<String>)
    requires
        store.wf(),
    ensures
        url_parses(link@) ==> r is None,
        link@.len() > 0 && link@[0] == '/' ==> r is None,
        !url_parses(link@) && !(link@.len() > 0 && link@[0] == '/') ==> (r is Some <==> exists|i: int|
            0 <= i < store.path_entries().len() && #[trigger] store.path_entries()[i].0 == link@),
        r matches Some(s) ==> exists|i: int|
            0 <= i < store.path_entries().len() && #[trigger] store.path_entries()[i].0 == link@
                && (forall|j: int|
                i < j < store.path_entries().len() ==> store.path_entries()[j].0 != link@)
                && s@ == seq!['/'] + store.records()[find_hash(
                store.records(),
                store.path_entries()[i].1,
            )->0].1,
{
    if is_absolute_url(link) {
        return None;
    }
    let lc = chars_of(link);
    if lc.len() > 0 && lc[0] == '/' {
        return None;
    }
    match store.lookup_path(link) {
        Some(a) => {
            let mut out = String::new();
            push_char(&mut out, '/');
            append_str(&mut out, a.rewritten_name.as_str());
            Some(out)
        },
        None => None,
    }
}

/// Characters of text after which the summary stops at the next paragraph.
pub const SUMMARY_CHARS: u64 = 200;

/// Decides, element by element, where a document's summary stops: at the
/// first paragraph that starts once more than `SUMMARY_CHARS` characters of
/// text have been seen; that paragraph and everything after it is dropped.
pub struct SummaryCutter {
    pub seen: u64,
    pub cutting: bool,
}

impl SummaryCutter {
    pub fn new() -> (r: SummaryCutter)
        ensures
            r.seen == 0,
            !r.cutting,
    {
        SummaryCutter { seen: 0, cutting: false }
    }

    /// Counts `len` more characters of text.
    pub fn on_text(&mut self, len: u64)
        ensures
            final(self).seen == if old(self).seen as int + len as int > u64::MAX as int {
                u64::MAX
            } else {
                (old(self).seen + len) as u64
            },
            final(self).cutting == old(self).cutting,
    {
        self.seen = self.seen.saturating_add(len);
    }

    /// Whether the element that starts now is dropped from the summary.
    pub fn on_element(&mut self, is_paragraph: bool) -> (r: bool)
        ensures
            final(self).seen == old(self).seen,
            final(self).cutting == (old(self).cutting || (old(self).seen > SUMMARY_CHARS
                && is_paragraph)),
            r == final(self).cutting,
    {
        if self.seen > SUMMARY_CHARS && is_paragraph {
            self.cutting = true;
        }
        self.cutting
    }
}

/// The entity that stands for a character in escaped HTML, or the character.
pub open spec fn escape_char(c: char) -> Seq<char> {
    if c == '&' {
        "&amp;"@
    } else if c == '<' {
        "&lt;"@
    } else if c == '>' {
        "&gt;"@
    } else if c == '"' {
        "&quot;"@
    } else if c == '\'' {
        "&#x27;"@
    } else if c == '/' {
        "&#x2F;"@
    } else {
        seq![c]
    }
}

/// Text with HTML's special characters escaped, character by character.
pub open spec fn html_escaped_of(s: Seq<char>) -> Seq<char>
    decreases s.len(),
{
    if s.len() == 0 {
        Seq::empty()
    } else {
        html_escaped_of(s.subrange(0, s.len() - 1)) + escape_char(s[s.len() - 1])
    }
}

/// Relies on html_escape::encode_safe: the text with `&`, `<`, `>`, `"`, `'`
/// and `/` replaced by `&amp;`, `&lt;`, `&gt;`, `&quot;`, `&#x27;` and `&#x2F;`.
#[verifier::external_body]
pub(crate) fn escape_html(s: &str) -> (r: String)
    ensures
        r@ == html_escaped_of(s@),
{
    html_escape::encode_safe(s).into_owned()
}

/// The HTML that frames a code block: the language label, when there is one,
/// then the highlighted or escaped code.
pub open spec fn code_block_spec(lang: Seq<char>, code_html: Seq<char>) -> Seq<char> {
    "<pre>"@ + (if lang.len() == 0 {
        Seq::empty()
    } else {
        "<div class=\"lang-tag\">"@ + html_escaped_of(lang) + "</div>"@
    }) + "<div class=\"code-block\"><code>"@ + code_html + "</code></div></pre>"@
}

pub fn code_block_html(lang: &str, code_html: &str) -> (r: String)
    ensures
        r@ == code_block_spec(lang@, code_html@),
{
    let mut out = String::new();
    append_str(&mut out, "<pre>");
    let ghost head = out@;
    let lc = chars_of(lang);
    if lc.len() > 0 {
        append_str(&mut out, "<div class=\"lang-tag\">");
        let label = escape_html(lang);
        append_str(&mut out, label.as_str());
        append_str(&mut out, "</div>");
    }
    append_str(&mut out, "<div class=\"code-block\"><code>");
    append_str(&mut out, code_html);
    append_str(&mut out, "</code></div></pre>");
    assert(out@ =~= code_block_spec(lang@, code_html@));
    out
}

/// The code block of a fence whose language the highlighter does not know,
/// or could not parse: the code escaped.
pub fn plain_code_block(lang: &str, code: &str) -> (r: String)
    ensures
        r@ == code_block_spec(lang@, html_escaped_of(code@)),
{
    let escaped = escape_html(code);
    code_block_html(lang, escaped.as_str())
}

/// The same character in ASCII lower case.
pub open spec fn ascii_lower(c: char) -> char {
    if 'A' <= c <= 'Z' {
        ((c as u32) + 32) as char
    } else {
        c
    }
}

fn lower_char(c: char) -> (r: char)
    ensures
        r == ascii_lower(c),
{
    if 'A' <= c && c <= 'Z' {
        ((c as u8) + 32) as char
    } else {
        c
    }
}

/// Whether `a` equals `b` once ASCII upper case is lowered.
pub open spec fn eq_ignore_case(a: Seq<char>, b: Seq<char>) -> bool {
    a.len() == b.len() && forall|i: int| 0 <= i < a.len() ==> ascii_lower(a[i]) == ascii_lower(b[i])
}

fn same_ignoring_case(a: &Vec<char>, b: &str) -> (r: bool)
    ensures
        r == eq_ignore_case(a@, b@),
{
    let bc = chars_of(b);
    if a.len() != bc.len() {
        return false;
    }
    let mut i: usize = 0;
    while i < a.len()
        invariant
            i <= a.len() == bc.len(),
            bc@ == b@,
            forall|j: int| 0 <= j < i ==> ascii_lower(a@[j]) == ascii_lower(bc@[j]),
        decreases a.len() - i,
    {
        if lower_char(a[i]) != lower_char(bc[i]) {
            return false;
        }
        i = i + 1;
    }
    true
}


/// The highlighter's key for a fence's language name: one of its own keys,
/// or a known alias of one, in any ASCII case.
pub open spec fn canonical_language_spec(name: Seq<char>) -> Option<Seq<char>> {
    if eq_ignore_case(name, "c"@) {
        Some("c"@)
    } else if eq_ignore_case(name, "r"@) {
        Some("r"@)
    } else if eq_ignore_case(name, "go"@) {
        Some("go"@)
    } else if eq_ignore_case(name, "cpp"@) {
        Some("cpp"@)
    } else if eq_ignore_case(name, "lua"@) {
        Some("lua"@)
    } else if eq_ignore_case(name, "ts"@) {
        Some("ts"@)
    } else if eq_ignore_case(name, "tsx"@) {
        Some("tsx"@)
    } else if eq_ignore_case(name, "js"@) {
        Some("js"@)
    } else if eq_ignore_case(name, "jsx"@) {
        Some("jsx"@)
    } else if eq_ignore_case(name, "java"@) {
        Some("java"@)
    } else if eq_ignore_case(name, "css"@) {
        Some("css"@)
    } else if eq_ignore_case(name, "html"@) {
        Some("html"@)
    } else if eq_ignore_case(name, "toml"@) {
        Some("toml"@)
    } else if eq_ignore_case(name, "rust"@) {
        Some("rust"@)
    } else if eq_ignore_case(name, "json"@) {
        Some("json"@)
    } else if eq_ignore_case(name, "kt"@) {
        Some("kt"@)
    } else if eq_ignore_case(name, "swift"@) {
        Some("swift"@)
    } else if eq_ignore_case(name, "vue"@) {
        Some("vue"@)
    } else if eq_ignore_case(name, "svelte"@) {
        Some("svelte"@)
    } else if eq_ignore_case(name, "vue3"@) {
        Some("vue3"@)
    } else if eq_ignore_case(name, "cs"@) {
        Some("cs"@)
    } else if eq_ignore_case(name, "py"@) {
        Some("py"@)
    } else if eq_ignore_case(name, "scad"@) {
        Some("scad"@)
    } else if eq_ignore_case(name, "el"@) {
        Some("el"@)
    } else if eq_ignore_case(name, "rb"@) {
        Some("rb"@)
    } else if eq_ignore_case(name, "c_plus_plus"@) || eq_ignore_case(name, "c++"@) {
        Some("cpp"@)
    } else if eq_ignore_case(name, "luau"@) || eq_ignore_case(name, "luajit"@) {
        Some("lua"@)
    } else if eq_ignore_case(name, "typescript"@) {
        Some("ts"@)
    } else if eq_ignore_case(name, "javascript"@) || eq_ignore_case(name, "ecmascript"@) {
        Some("js"@)
    } else if eq_ignore_case(name, "kotlin"@) {
        Some("kt"@)
    } else if eq_ignore_case(name, "c#"@) {
        Some("cs"@)
    } else if eq_ignore_case(name, "python"@) || eq_ignore_case(name, "python3"@) || eq_ignore_case(name, "py3"@) || eq_ignore_case(name, "pyw"@) {
        Some("py"@)
    } else if eq_ignore_case(name, "openscad"@) {
        Some("scad"@)
    } else if eq_ignore_case(name, "lisp"@) || eq_ignore_case(name, "clojure"@) || eq_ignore_case(name, "scheme"@) || eq_ignore_case(name, "elisp"@) || eq_ignore_case(name, "clj"@) {
        Some("el"@)
    } else if eq_ignore_case(name, "ruby"@) {
        Some("rb"@)
    } else {
        None
    }
}

/// Resolves a fence's language name to the highlighter's key for it.
pub fn canonical_language(name: &str) -> (r: Option<String>)
    ensures
        opt_view(r) == canonical_language_spec(name@),
{
    let cs = chars_of(name);
    if same_ignoring_case(&cs, "c") {
        return Some("c".to_owned());
    }
    if same_ignoring_case(&cs, "r") {
        return Some("r".to_owned());
    }
    if same_ignoring_case(&cs, "go") {
        return Some("go".to_owned());
    }
    if same_ignoring_case(&cs, "cpp") {
        return Some("cpp".to_owned());
    }
    if same_ignoring_case(&cs, "lua") {
        return Some("lua".to_owned());
    }
    if same_ignoring_case(&cs, "ts") {
        return Some("ts".to_owned());
    }
    if same_ignoring_case(&cs, "tsx") {
        return Some("tsx".to_owned());
    }
    if same_ignoring_case(&cs, "js") {
        return Some("js".to_owned());
    }
    if same_ignoring_case(&cs, "jsx") {
        return Some("jsx".to_owned());
    }
    if same_ignoring_case(&cs, "java") {
        return Some("java".to_owned());
    }
    if same_ignoring_case(&cs, "css") {
        return Some("css".to_owned());
    }
    if same_ignoring_case(&cs, "html") {
        return Some("html".to_owned());
    }
    if same_ignoring_case(&cs, "toml") {
        return Some("toml".to_owned());
    }
    if same_ignoring_case(&cs, "rust") {
        return Some("rust".to_owned());
    }
    if same_ignoring_case(&cs, "json") {
        return Some("json".to_owned());
    }
    if same_ignoring_case(&cs, "kt") {
        return Some("kt".to_owned());
    }
    if same_ignoring_case(&cs, "swift") {
        return Some("swift".to_owned());
    }
    if same_ignoring_case(&cs, "vue") {
        return Some("vue".to_owned());
    }
    if same_ignoring_case(&cs, "svelte") {
        return Some("svelte".to_owned());
    }
    if same_ignoring_case(&cs, "vue3") {
        return Some("vue3".to_owned());
    }
    if same_ignoring_case(&cs, "cs") {
        return Some("cs".to_owned());
    }
    if same_ignoring_case(&cs, "py") {
        return Some("py".to_owned());
    }
    if same_ignoring_case(&cs, "scad") {
        return Some("scad".to_owned());
    }
    if same_ignoring_case(&cs, "el") {
        return Some("el".to_owned());
    }
    if same_ignoring_case(&cs, "rb") {
        return Some("rb".to_owned());
    }
    if same_ignoring_case(&cs, "c_plus_plus") || same_ignoring_case(&cs, "c++") {
        return Some("cpp".to_owned());
    }
    if same_ignoring_case(&cs, "luau") || same_ignoring_case(&cs, "luajit") {
        return Some("lua".to_owned());
    }
    if same_ignoring_case(&cs, "typescript") {
        return Some("ts".to_owned());
    }
    if same_ignoring_case(&cs, "javascript") || same_ignoring_case(&cs, "ecmascript") {
        return Some("js".to_owned());
    }
    if same_ignoring_case(&cs, "kotlin") {
        return Some("kt".to_owned());
    }
    if same_ignoring_case(&cs, "c#") {
        return Some("cs".to_owned());
    }
    if same_ignoring_case(&cs, "python") || same_ignoring_case(&cs, "python3") || same_ignoring_case(&cs, "py3") || same_ignoring_case(&cs, "pyw") {
        return Some("py".to_owned());
    }
    if same_ignoring_case(&cs, "openscad") {
        return Some("scad".to_owned());
    }
    if same_ignoring_case(&cs, "lisp") || same_ignoring_case(&cs, "clojure") || same_ignoring_case(&cs, "scheme") || same_ignoring_case(&cs, "elisp") || same_ignoring_case(&cs, "clj") {
        return Some("el".to_owned());
    }
    if same_ignoring_case(&cs, "ruby") {
        return Some("rb".to_owned());
    }
    None
}

/// A rendered document and its summary.
pub struct ProcessedDocument {
    pub document: String,
    pub summary: String,
}

/// Text with the characters of the URL path percent-encode set escaped.
pub uninterp spec fn url_path_escaped_of(s: Seq<char>) -> Seq<char>;

/// Relies on url_escape::encode with the PATH set: the percent-encoded text,
/// a function of the text alone.
#[verifier::external_body]
fn escape_url_path(s: &str) -> (r: String)
    ensures
        r@ == url_path_escaped_of(s@),
{
    url_escape::encode(s, url_escape::PATH).into_owned()
}

/// The text with every space turned into `-`.
pub open spec fn dashed(s: Seq<char>) -> Seq<char> {
    s.map_values(|c: char| if c == ' ' { '-' } else { c })
}

/// A title as a URL path segment: spaces become `-`, then the path
/// percent-encode set is escaped.
pub fn title_make_url_safe(title: &str) -> (r: String)
    ensures
        r@ == url_path_escaped_of(dashed(title@)),
{
    let cs = chars_of(title);
    let mut out = String::new();
    let mut i: usize = 0;
    while i < cs.len()
        invariant
            i <= cs.len(),
            cs@ == title@,
            out@ == dashed(cs@.subrange(0, i as int)),
        decreases cs.len() - i,
    {
        let c = cs[i];
        push_char(&mut out, if c == ' ' { '-' } else { c });
        i = i + 1;
        assert(out@ =~= dashed(cs@.subrange(0, i as int)));
    }
    assert(cs@.subrange(0, cs@.len() as int) =~= cs@);
    escape_url_path(out.as_str())
}

} // verus!
