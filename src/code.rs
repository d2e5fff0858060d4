//! Fenced code in rendered markdown: gathering each fenced block out of the
//! event stream, and turning highlighter events into HTML.
use vstd::prelude::*;
use crate::render::{code_block_html, code_block_spec, escape_html, html_escaped_of, plain_code_block};
use crate::text::{append_str, chars_of, push_char, string_of};

verus! {

/// A markdown event as the code-block pass sees it: the start of a fenced
/// block with its language, text inside it, its end, or any other event by
/// its position in the caller's list.
pub enum MdEvent {
    FenceStart(String),
    FenceText(String),
    FenceEnd,
    Other(usize),
}

/// What replaces the event stream: an event kept by position, or a whole
/// fenced block with its language and code.
pub enum MdOut {
    Keep(usize),
    Block { lang: String, code: String },
}

/// An output as `(kept, position, language, code)`.
pub type MdOutView = (bool, usize, Seq<char>, Seq<char>);

pub open spec fn out_view(o: MdOut) -> MdOutView {
    match o {
        MdOut::Keep(i) => (true, i, Seq::empty(), Seq::empty()),
        MdOut::Block { lang, code } => (false, 0, lang@, code@),
    }
}

pub open spec fn out_views(v: Seq<MdOut>) -> Seq<MdOutView> {
    v.map_values(|o: MdOut| out_view(o))
}

/// The outputs after the first `n` events, with the block still open, if any.
pub open spec fn frame_state(ev: Seq<MdEvent>, n: int) -> (Seq<MdOutView>, Option<(Seq<char>, Seq<char>)>)
    decreases n,
{
    if n <= 0 {
        (Seq::empty(), None)
    } else {
        let prev = frame_state(ev, n - 1);
        match ev[n - 1] {
            MdEvent::FenceStart(l) => (prev.0, Some((l@, Seq::empty()))),
            MdEvent::FenceText(t) => match prev.1 {
                Some(open) => (prev.0, Some((open.0, open.1 + t@))),
                None => prev,
            },
            MdEvent::FenceEnd => match prev.1 {
                Some(open) => (prev.0.push((false, 0usize, open.0, open.1)), None),
                None => prev,
            },
            MdEvent::Other(i) => match prev.1 {
                None => (prev.0.push((true, i, Seq::empty(), Seq::empty())), None),
                Some(_) => prev,
            },
        }
    }
}

/// Events outside fences kept in order; each fenced block, from its start to
/// its end, replaced by one block holding its language and all its text.
pub open spec fn code_events_spec(ev: Seq<MdEvent>) -> Seq<MdOutView> {
    frame_state(ev, ev.len() as int).0
}

/// Gathers the fenced blocks of a markdown event stream.
pub fn frame_code_events(ev: &Vec<MdEvent>) -> (r: Vec<MdOut>)
    ensures
        out_views(r@) == code_events_spec(ev@),
{
    let mut out: Vec<MdOut> = Vec::new();
    let mut open: Option<(String, String)> = None;
    let mut i: usize = 0;
    while i < ev.len()
        invariant
            i <= ev.len(),
            out_views(out@) == frame_state(ev@, i as int).0,
            frame_state(ev@, i as int).1 == match open {
                Some(o) => Some((o.0@, o.1@)),
                None => None::<(Seq<char>, Seq<char>)>,
            },
        decreases ev.len() - i,
    {
        let ghost before = out_views(out@);
        match &ev[i] {
            MdEvent::FenceStart(l) => {
                open = Some((l.clone(), String::new()));
            },
            MdEvent::FenceText(t) => {
                match open {
                    Some((l, c)) => {
                        let mut c = c;
                        append_str(&mut c, t.as_str());
                        open = Some((l, c));
                    },
                    None => {
                        open = None;
                    },
                }
            },
            MdEvent::FenceEnd => {
                match open {
                    Some((l, c)) => {
                        let ghost o = (false, 0usize, l@, c@);
                        out.push(MdOut::Block { lang: l, code: c });
                        assert(out_views(out@) =~= before.push(o));
                        open = None;
                    },
                    None => {},
                }
            },
            MdEvent::Other(k) => {
                if open.is_none() {
                    out.push(MdOut::Keep(*k));
                    assert(out_views(out@) =~= before.push((true, *k, Seq::empty(), Seq::empty())));
                }
            },
        }
        i = i + 1;
    }
    out
}

/// A highlighter event over the code's characters: a span of source, the
/// start of the highlight class with this number, or the end of one.
pub enum HlEvent {
    Source(usize, usize),
    Start(usize),
    End,
}

/// The decimal digit for `d` below ten.
pub open spec fn digit(d: nat) -> char {
    ((d + 48) as u8) as char
}

/// `n` in decimal.
pub open spec fn decimal(n: nat) -> Seq<char>
    decreases n,
{
    if n < 10 {
        seq![digit(n)]
    } else {
        decimal(n / 10) + seq![digit(n % 10)]
    }
}

/// Every source span lies within the code.
pub open spec fn spans_in_bounds(src: Seq<char>, ev: Seq<HlEvent>) -> bool {
    forall|i: int|
        0 <= i < ev.len() ==> (#[trigger] ev[i] matches HlEvent::Source(s, e) ==> s <= e <= src.len())
}

/// The HTML of one highlighter event.
pub open spec fn hl_piece(src: Seq<char>, e: HlEvent) -> Seq<char> {
    match e {
        HlEvent::Source(s, t) => html_escaped_of(src.subrange(s as int, t as int)),
        HlEvent::Start(h) => "<i class=chl-"@ + decimal(h as nat) + ">"@,
        HlEvent::End => "</i>"@,
    }
}

/// The HTML of the first `n` highlighter events.
pub open spec fn highlight_html_spec(src: Seq<char>, ev: Seq<HlEvent>, n: int) -> Seq<char>
    decreases n,
{
    if n <= 0 {
        Seq::empty()
    } else {
        highlight_html_spec(src, ev, n - 1) + hl_piece(src, ev[n - 1])
    }
}

fn push_decimal(out: &mut String, n: usize)
    ensures
        final(out)@ == old(out)@ + decimal(n as nat),
    decreases n,
{
    if n >= 10 {
        push_decimal(out, n / 10);
    }
    let d = (n % 10) as u8;
    push_char(out, (d + 48) as char);
    assert(final(out)@ =~= old(out)@ + decimal(n as nat));
}

/// The HTML of highlighted code: escaped source spans inside
/// `<i class=chl-N>` … `</i>`; none when a span falls outside the code.
pub fn highlight_html(src: &str, ev: &Vec<HlEvent>) -> (r: Option<String>)
    ensures
        r is Some <==> spans_in_bounds(src@, ev@),
        r matches Some(h) ==> h@ == highlight_html_spec(src@, ev@, ev@.len() as int),
{
    let cs = chars_of(src);
    let mut out = String::new();
    let mut i: usize = 0;
    while i < ev.len()
        invariant
            i <= ev.len(),
            cs@ == src@,
            out@ == highlight_html_spec(src@, ev@, i as int),
            forall|j: int|
                0 <= j < i ==> (#[trigger] ev@[j] matches HlEvent::Source(s, e) ==> s <= e <= src@.len()),
        decreases ev.len() - i,
    {
        match &ev[i] {
            HlEvent::Source(s, e) => {
                if !(*s <= *e && *e <= cs.len()) {
                    assert(!spans_in_bounds(src@, ev@));
                    return None;
                }
                let piece = string_of(&cs, *s, *e);
                let escaped = escape_html(piece.as_str());
                append_str(&mut out, escaped.as_str());
            },
            HlEvent::Start(h) => {
                append_str(&mut out, "<i class=chl-");
                push_decimal(&mut out, *h);
                append_str(&mut out, ">");
            },
            HlEvent::End => {
                append_str(&mut out, "</i>");
            },
        }
        i = i + 1;
        assert(out@ =~= highlight_html_spec(src@, ev@, i as int));
    }
    Some(out)
}

/// The framed block of fenced code: highlighted when the highlighter gave
/// HTML for it, escaped otherwise, so a highlighting failure never stops a page.
pub fn render_code_block(lang: &str, code: &str, highlighted: &Option<String>) -> (r: String)
    ensures
        highlighted matches Some(h) ==> r@ == code_block_spec(lang@, h@),
        highlighted is None ==> r@ == code_block_spec(lang@, html_escaped_of(code@)),
{
    match highlighted {
        Some(h) => code_block_html(lang, h.as_str()),
        None => plain_code_block(lang, code),
    }
}

} // verus!
