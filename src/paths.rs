//! Where a document of the content tree is published, and which top-level
//! folder (its category) it sits under.
use vstd::prelude::*;
use crate::render::{dashed, title_make_url_safe, url_path_escaped_of};
use crate::text::{append_str, push_char};
use crate::tree::ContentTree;

verus! {

/// The link path of node `i`: `/` and the URL-safe form of each folder name
/// from the top of the tree down to `i`; empty for the root.
pub open spec fn link_path_spec(t: ContentTree, i: int) -> Seq<char>
    decreases i,
{
    if i <= 0 || i >= t.len_spec() {
        Seq::empty()
    } else {
        let p = t.shape()[i].0;
        if 0 <= p < i {
            link_path_spec(t, p) + seq!['/'] + url_path_escaped_of(dashed(t.name_spec(i)))
        } else {
            Seq::empty()
        }
    }
}

/// The top-level folder above node `i` (the node at depth 1 on its path),
/// or the root for the root itself.
pub open spec fn top_folder_spec(t: ContentTree, i: int) -> int
    decreases i,
{
    if i <= 0 || i >= t.len_spec() {
        0
    } else {
        let p = t.shape()[i].0;
        if p == 0 {
            i
        } else if 0 < p < i {
            top_folder_spec(t, p)
        } else {
            0
        }
    }
}

/// The link path of node `i`.
pub fn link_path(t: &ContentTree, i: usize) -> (r: String)
    requires
        t.wf(),
        i < t.len_spec(),
    ensures
        r@ == link_path_spec(*t, i as int),
    decreases i,
{
    proof {
        t.lemma_parents();
    }
    match t.parent(i) {
        None => String::new(),
        Some(p) => {
            let mut out = link_path(t, p);
            push_char(&mut out, '/');
            let seg = title_make_url_safe(t.name(i).as_str());
            append_str(&mut out, seg.as_str());
            out
        },
    }
}

/// The top-level folder above node `i`.
pub fn top_folder(t: &ContentTree, i: usize) -> (r: usize)
    requires
        t.wf(),
        i < t.len_spec(),
    ensures
        r as int == top_folder_spec(*t, i as int),
        (r as int) < t.len_spec(),
    decreases i,
{
    proof {
        t.lemma_parents();
    }
    match t.parent(i) {
        None => 0,
        Some(p) => if p == 0 {
            i
        } else {
            top_folder(t, p)
        },
    }
}

} // verus!
