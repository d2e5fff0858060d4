//! Markdown helpers: lines, fence-aware heading detection, the table of
//! contents, and document statistics.
use vstd::prelude::*;
use crate::text::{append_str, chars_of, push_char, string_of};

verus! {

/// The first position at or after `from` holding a newline, or the length.
pub open spec fn next_newline(s: Seq<char>, from: int) -> int
    decreases s.len() - from,
{
    if from < 0 || from >= s.len() {
        s.len() as int
    } else if s[from] == '\n' {
        from
    } else {
        next_newline(s, from + 1)
    }
}

/// A line without the carriage return of a `\r\n` ending.
pub open spec fn strip_cr(l: Seq<char>) -> Seq<char> {
    if l.len() > 0 && l[l.len() - 1] == '\r' {
        l.subrange(0, l.len() - 1)
    } else {
        l
    }
}

/// The lines of `s` from position `from` on.
pub open spec fn lines_from(s: Seq<char>, from: int) -> Seq<Seq<char>>
    decreases s.len() - from,
{
    if from < 0 || from >= s.len() {
        Seq::empty()
    } else {
        let e = next_newline(s, from);
        if from <= e < s.len() {
            seq![strip_cr(s.subrange(from, e))] + lines_from(s, e + 1)
        } else {
            seq![s.subrange(from, s.len() as int)]
        }
    }
}

/// The lines of a text: split at `\n`, a `\r` before it dropped, no empty
/// line after a final newline; a last line without newline is kept as is.
pub open spec fn lines_of(s: Seq<char>) -> Seq<Seq<char>> {
    lines_from(s, 0)
}

proof fn lemma_next_newline_skip(s: Seq<char>, from: int, i: int)
    requires
        0 <= from <= i <= s.len(),
        forall|j: int| from <= j < i ==> s[j] != '\n',
    ensures
        next_newline(s, from) == next_newline(s, i),
    decreases i - from,
{
    if from < i {
        lemma_next_newline_skip(s, from + 1, i);
    }
}

proof fn lemma_next_newline_bounds(s: Seq<char>, from: int)
    requires
        0 <= from <= s.len(),
    ensures
        from <= next_newline(s, from) <= s.len(),
    decreases s.len() - from,
{
    if from < s.len() && s[from] != '\n' {
        lemma_next_newline_bounds(s, from + 1);
    }
}

/// The views of a list of strings.
pub open spec fn views(v: Seq<String>) -> Seq<Seq<char>> {
    v.map_values(|x: String| x@)
}

fn strip_cr_string(cs: &Vec<char>, from: usize, to: usize) -> (r: String)
    requires
        from <= to <= cs.len(),
    ensures
        r@ == strip_cr(cs@.subrange(from as int, to as int)),
{
    if to > from && cs[to - 1] == '\r' {
        let r = string_of(cs, from, to - 1);
        assert(r@ =~= strip_cr(cs@.subrange(from as int, to as int)));
        r
    } else {
        string_of(cs, from, to)
    }
}

/// Splits a text into its lines.
pub fn split_lines(text: &str) -> (r: Vec<String>)
    ensures
        views(r@) == lines_of(text@),
{
    let cs = chars_of(text);
    let n = cs.len();
    let mut out: Vec<String> = Vec::new();
    let mut start: usize = 0;
    let mut i: usize = 0;
    while i < n
        invariant
            cs@ == text@,
            n == cs.len(),
            start <= i <= n,
            views(out@) + lines_from(cs@, start as int) == lines_of(cs@),
            forall|j: int| start <= j < i ==> cs@[j] != '\n',
        decreases n - i,
    {
        if cs[i] == '\n' {
            proof {
                lemma_next_newline_skip(cs@, start as int, i as int);
                assert(next_newline(cs@, start as int) == i);
            }
            let line = strip_cr_string(&cs, start, i);
            let ghost before = views(out@);
            out.push(line);
            proof {
                assert(views(out@) =~= before.push(line@));
                assert(lines_from(cs@, start as int) == seq![line@] + lines_from(cs@, i + 1));
                assert(views(out@) + lines_from(cs@, i + 1) =~= before + lines_from(cs@, start as int));
            }
            start = i + 1;
        }
        i = i + 1;
    }
    proof {
        lemma_next_newline_skip(cs@, start as int, n as int);
    }
    if start < n {
        let line = string_of(&cs, start, n);
        let ghost before = views(out@);
        out.push(line);
        proof {
            assert(views(out@) =~= before.push(line@));
            assert(lines_from(cs@, start as int) == seq![line@]);
            assert(views(out@) =~= before + lines_from(cs@, start as int));
        }
    } else {
        assert(views(out@) =~= views(out@) + lines_from(cs@, start as int));
    }
    out
}

/// The line starts with three `tag` characters.
pub open spec fn fence_line(l: Seq<char>, tag: char) -> bool {
    l.len() >= 3 && l[0] == tag && l[1] == tag && l[2] == tag
}

/// Fence state after one more line: 0 outside any fence, 1 inside a
/// backtick fence, 2 inside a tilde fence. A fence closes at the first line
/// that starts with its own marker.
pub open spec fn fence_step(st: u8, l: Seq<char>) -> u8 {
    if st == 1 {
        if fence_line(l, '`') {
            0
        } else {
            1
        }
    } else if st == 2 {
        if fence_line(l, '~') {
            0
        } else {
            2
        }
    } else if fence_line(l, '`') {
        1
    } else if fence_line(l, '~') {
        2
    } else {
        0
    }
}

/// The fence state before line `k`.
pub open spec fn fence_before(ls: Seq<Seq<char>>, k: int) -> u8
    decreases k,
{
    if k <= 0 {
        0
    } else {
        fence_step(fence_before(ls, k - 1), ls[k - 1])
    }
}

/// Line `k` may be read as a heading: it is outside every fence and opens none.
pub open spec fn heading_candidate(ls: Seq<Seq<char>>, k: int) -> bool {
    fence_before(ls, k) == 0 && !fence_line(ls[k], '`') && !fence_line(ls[k], '~')
}

proof fn lemma_inside_backtick_fence(ls: Seq<Seq<char>>, j: int, k: int)
    requires
        0 <= j < k <= ls.len(),
        fence_before(ls, j) == 0,
        fence_line(ls[j], '`'),
        forall|m: int| j < m < k ==> !fence_line(#[trigger] ls[m], '`'),
    ensures
        fence_before(ls, k) == 1,
    decreases k - j,
{
    if k > j + 1 {
        lemma_inside_backtick_fence(ls, j, k - 1);
    }
}

/// Inside a backtick fence that is never closed, no line is a heading.
pub proof fn lemma_open_fence_hides_headings(ls: Seq<Seq<char>>, j: int, k: int)
    requires
        0 <= j < k < ls.len(),
        fence_before(ls, j) == 0,
        fence_line(ls[j], '`'),
        forall|m: int| j < m < ls.len() ==> !fence_line(#[trigger] ls[m], '`'),
    ensures
        !heading_candidate(ls, k),
{
    lemma_inside_backtick_fence(ls, j, k);
}

fn is_fence_line(l: &Vec<char>, tag: char) -> (r: bool)
    ensures
        r == fence_line(l@, tag),
{
    l.len() >= 3 && l[0] == tag && l[1] == tag && l[2] == tag
}

/// For each line, whether it may be read as a heading: fenced code never is.
pub fn heading_candidates(lines: &Vec<String>) -> (r: Vec<bool>)
    ensures
        r@.len() == lines@.len(),
        forall|k: int| 0 <= k < r@.len() ==> r@[k] == heading_candidate(views(lines@), k),
{
    let ghost ls = views(lines@);
    let mut out: Vec<bool> = Vec::new();
    let mut st: u8 = 0;
    let mut k: usize = 0;
    while k < lines.len()
        invariant
            ls == views(lines@),
            k <= lines.len(),
            out@.len() == k,
            st == fence_before(ls, k as int),
            forall|m: int| 0 <= m < k ==> out@[m] == heading_candidate(ls, m),
        decreases lines.len() - k,
    {
        let l = chars_of(lines[k].as_str());
        assert(l@ == ls[k as int]);
        let back = is_fence_line(&l, '`');
        let tilde = is_fence_line(&l, '~');
        out.push(st == 0 && !back && !tilde);
        st = if st == 1 {
            if back {
                0
            } else {
                1
            }
        } else if st == 2 {
            if tilde {
                0
            } else {
                2
            }
        } else if back {
            1
        } else if tilde {
            2
        } else {
            0
        };
        k = k + 1;
    }
    out
}

/// The table-of-contents entry of a heading line.
pub uninterp spec fn toc_entry_of(line: Seq<char>) -> Option<Seq<char>>;

/// Relies on markdown_toc's Heading::from_str and Heading::format, with `-`
/// bullets: the list entry of a `#` heading line, none for other lines.
#[verifier::external_body]
fn toc_entry(line: &str) -> (r: Option<String>)
    ensures
        r is Some <==> toc_entry_of(line@) is Some,
        r matches Some(e) ==> toc_entry_of(line@) == Some(e@),
{
    let mut cfg = markdown_toc::Config::default();
    cfg.bullet = String::from("-");
    line.parse::<markdown_toc::Heading>().ok().and_then(|h| h.format(&cfg))
}

/// The HTML that markdown renders to.
pub uninterp spec fn markdown_html_of(md: Seq<char>) -> Seq<char>;

/// Relies on pulldown_cmark's Parser::new_ext and html::push_html with tables,
/// footnotes, strikethrough, smart punctuation and heading attributes: the
/// HTML depends on the markdown alone.
#[verifier::external_body]
pub(crate) fn render_markdown(md: &str) -> (r: String)
    ensures
        r@ == markdown_html_of(md@),
{
    let mut options = pulldown_cmark::Options::empty();
    options.insert(pulldown_cmark::Options::ENABLE_FOOTNOTES);
    options.insert(pulldown_cmark::Options::ENABLE_HEADING_ATTRIBUTES);
    options.insert(pulldown_cmark::Options::ENABLE_STRIKETHROUGH);
    options.insert(pulldown_cmark::Options::ENABLE_SMART_PUNCTUATION);
    options.insert(pulldown_cmark::Options::ENABLE_TABLES);
    let mut out = String::new();
    pulldown_cmark::html::push_html(&mut out, pulldown_cmark::Parser::new_ext(md, options));
    out
}

/// The entries of the heading candidates among the first `k` lines.
pub open spec fn toc_entries(ls: Seq<Seq<char>>, k: int) -> Seq<Seq<char>>
    decreases k,
{
    if k <= 0 {
        Seq::empty()
    } else if heading_candidate(ls, k - 1) && toc_entry_of(ls[k - 1]) is Some {
        toc_entries(ls, k - 1).push(toc_entry_of(ls[k - 1])->0)
    } else {
        toc_entries(ls, k - 1)
    }
}

/// Inside a backtick fence that is never closed, no line adds a
/// table-of-contents entry: the entries after the whole text are those
/// gathered before the fence opened.
pub proof fn lemma_open_fence_adds_no_entries(ls: Seq<Seq<char>>, j: int)
    requires
        0 <= j < ls.len(),
        fence_before(ls, j) == 0,
        fence_line(ls[j], '`'),
        forall|m: int| j < m < ls.len() ==> !fence_line(#[trigger] ls[m], '`'),
    ensures
        toc_entries(ls, ls.len() as int) == toc_entries(ls, j),
{
    lemma_entries_frozen(ls, j, ls.len() as int);
}

proof fn lemma_entries_frozen(ls: Seq<Seq<char>>, j: int, k: int)
    requires
        0 <= j < k <= ls.len(),
        fence_before(ls, j) == 0,
        fence_line(ls[j], '`'),
        forall|m: int| j < m < ls.len() ==> !fence_line(#[trigger] ls[m], '`'),
    ensures
        toc_entries(ls, k) == toc_entries(ls, j),
    decreases k - j,
{
    if k > j + 1 {
        lemma_entries_frozen(ls, j, k - 1);
        lemma_open_fence_hides_headings(ls, j, k - 1);
    }
}

/// Lines joined with `\n` between them.
pub open spec fn join_lines(es: Seq<Seq<char>>) -> Seq<char>
    decreases es.len(),
{
    if es.len() == 0 {
        Seq::empty()
    } else if es.len() == 1 {
        es[0]
    } else {
        join_lines(es.subrange(0, es.len() - 1)) + seq!['\n'] + es[es.len() - 1]
    }
}

/// The table of contents of a markdown body, as markdown.
pub open spec fn toc_markdown(body: Seq<char>) -> Seq<char> {
    join_lines(toc_entries(lines_of(body), lines_of(body).len() as int))
}

/// The table of contents of a markdown body: one list entry per heading
/// outside fenced code, rendered to HTML.
pub fn table_of_contents(body: &str) -> (r: String)
    ensures
        r@ == markdown_html_of(toc_markdown(body@)),
{
    let lines = split_lines(body);
    let cand = heading_candidates(&lines);
    let ghost ls = views(lines@);
    let mut md = String::new();
    let mut count: usize = 0;
    let mut k: usize = 0;
    while k < lines.len()
        invariant
            ls == views(lines@),
            ls == lines_of(body@),
            cand@.len() == lines@.len(),
            forall|m: int| 0 <= m < cand@.len() ==> cand@[m] == heading_candidate(ls, m),
            k <= lines.len(),
            count == toc_entries(ls, k as int).len(),
            count <= k,
            md@ == join_lines(toc_entries(ls, k as int)),
        decreases lines.len() - k,
    {
        let ghost prev = toc_entries(ls, k as int);
        if cand[k] {
            match toc_entry(lines[k].as_str()) {
                Some(e) => {
                    let ghost before = md@;
                    if count > 0 {
                        push_char(&mut md, '\n');
                    }
                    append_str(&mut md, e.as_str());
                    proof {
                        let next = prev.push(e@);
                        assert(next.subrange(0, next.len() - 1) =~= prev);
                        if count == 0 {
                            assert(md@ =~= join_lines(next));
                        } else {
                            assert(md@ =~= before + seq!['\n'] + e@);
                        }
                    }
                    count = count + 1;
                },
                None => {},
            }
        }
        k = k + 1;
    }
    render_markdown(md.as_str())
}

/// Word and character counts of a text.
pub uninterp spec fn words_count_of(text: Seq<char>) -> (usize, usize);

/// Relies on words_count::count: the number of words and of characters of a
/// text, which depend on the text alone.
#[verifier::external_body]
fn count_words(text: &str) -> (r: (usize, usize))
    ensures
        r == words_count_of(text@),
{
    let c = words_count::count(text);
    (c.words, c.characters)
}

/// Words read per minute in reading-time estimates.
pub const READING_WPM: u64 = 150;

/// Minutes to read `words` words at `READING_WPM`, rounded to the nearest
/// minute with halves rounded up.
pub open spec fn reading_minutes_spec(words: u64) -> u64 {
    ((words as int + 75) / 150) as u64
}

/// Word and character counts of a document.
#[derive(Clone, Copy, Debug, PartialEq, Eq)]
pub struct DocumentStatistics {
    pub characters: u64,
    pub words: u64,
}

impl DocumentStatistics {
    /// The counts of a markdown body.
    pub fn of(content: &str) -> (r: DocumentStatistics)
        ensures
            r.words == words_count_of(content@).0 as u64,
            r.characters == words_count_of(content@).1 as u64,
    {
        let (words, characters) = count_words(content);
        DocumentStatistics { characters: characters as u64, words: words as u64 }
    }

    /// Estimated minutes to read the document.
    pub fn reading_minutes(&self) -> (r: u64)
        ensures
            r == reading_minutes_spec(self.words),
    {
        if self.words > u64::MAX - 75 {
            ((self.words - 75) / 150) + 1
        } else {
            (self.words + 75) / 150
        }
    }
}

} // verus!
