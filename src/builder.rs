//! Building the content tree from a walk of the content root.
use vstd::prelude::*;
use crate::files::{
    compiled_type_spec, extension_spec, process_file,
    CompiledFileType, DataType, ProcessError,
};
use vstd::utf8::{decode_utf8, encode_utf8, valid_utf8};
use crate::names::{classify_file, file_class, folder_error, validate_folder_name, FileClass, TreeError};
use crate::store::AssetStore;
use crate::text::{append_str, push_char, str_eq};
use crate::tree::{pruned, ContentTree, NodeShape};

verus! {

/// One entry of a walk of the content root: its path segments below the
/// root, whether it is a directory, and a file's bytes.
pub struct WalkEntry {
    pub segments: Vec<String>,
    pub is_dir: bool,
    pub bytes: Vec<u8>,
}

/// A directory entry whose own name refuses it.
pub open spec fn bad_folder(e: WalkEntry) -> bool {
    e.is_dir && e.segments@.len() > 0 && folder_error(e.segments@[e.segments@.len() - 1]@) is Some
}

/// The segments joined with `/` between them.
pub open spec fn joined(segs: Seq<Seq<char>>) -> Seq<char>
    decreases segs.len(),
{
    if segs.len() == 0 {
        Seq::empty()
    } else if segs.len() == 1 {
        segs[0]
    } else {
        joined(segs.subrange(0, segs.len() - 1)) + seq!['/'] + segs[segs.len() - 1]
    }
}

/// The views of the first `upto` segments.
pub open spec fn segment_views(segs: Seq<String>, upto: int) -> Seq<Seq<char>> {
    segs.subrange(0, upto).map_values(|s: String| s@)
}

/// The path of the first `upto` segments, joined with `/`.
pub fn join_segments(segs: &Vec<String>, upto: usize) -> (r: String)
    requires
        upto <= segs.len(),
    ensures
        r@ == joined(segment_views(segs@, upto as int)),
{
    let mut out = String::new();
    let mut i: usize = 0;
    while i < upto
        invariant
            i <= upto <= segs.len(),
            out@ == joined(segment_views(segs@, i as int)),
        decreases upto - i,
    {
        let ghost before = out@;
        if i > 0 {
            push_char(&mut out, '/');
        }
        append_str(&mut out, segs[i].as_str());
        proof {
            let next = segment_views(segs@, i + 1);
            assert(next.subrange(0, next.len() - 1) =~= segment_views(segs@, i as int));
            assert(next[next.len() - 1] == segs@[i as int]@);
            if i == 0 {
                assert(out@ =~= joined(next));
            } else {
                assert(out@ =~= before + seq!['/'] + segs@[i as int]@);
            }
        }
        i = i + 1;
    }
    out
}

/// The bytes an asset file publishes: a stylesheet or script in its compiled
/// form, any other format as it is; `None` when compiling fails.
pub fn published_bytes(path: &str, bytes: Vec<u8>) -> (r: Option<Vec<u8>>)
    ensures
        compiled_type_spec(extension_spec(path@)) is None ==> (r is Some && r->0@ == bytes@),
        compiled_type_spec(extension_spec(path@)) == Some(CompiledFileType::RawBinary) ==> (r is Some
            && r->0@ == bytes@),
        compiled_type_spec(extension_spec(path@)) == Some(CompiledFileType::Html) ==> (r is Some
            <==> valid_utf8(bytes@)) && (r is Some ==> r->0@ == encode_utf8(decode_utf8(bytes@))),
        compiled_type_spec(extension_spec(path@)) == Some(CompiledFileType::Css) && !valid_utf8(
            bytes@,
        ) ==> r is None,
{
    let keep = bytes.clone();
    match process_file(path, bytes) {
        Ok(f) => match f.data {
            DataType::Binary(b) => Some(b),
            DataType::String(s) => Some(s.as_str().as_bytes_vec()),
            DataType::Direct => Some(keep),
        },
        Err(ProcessError::UnknownFormat) => Some(keep),
        Err(_) => None,
    }
}

/// Checks every folder name of the walk: the first one refused stops the build.
fn check_folders(entries: &Vec<WalkEntry>) -> (r: Result<(), TreeError>)
    ensures
        r is Ok <==> forall|k: int| 0 <= k < entries@.len() ==> !bad_folder(#[trigger] entries@[k]),
        r matches Err(e) ==> exists|k: int|
            0 <= k < entries@.len() && #[trigger] bad_folder(entries@[k]) && folder_error(
                entries@[k].segments@[entries@[k].segments@.len() - 1]@,
            ) == Some(e),
{
    let mut k: usize = 0;
    while k < entries.len()
        invariant
            k <= entries.len(),
            forall|j: int| 0 <= j < k ==> !bad_folder(#[trigger] entries@[j]),
        decreases entries.len() - k,
    {
        let e = &entries[k];
        if e.is_dir && e.segments.len() > 0 {
            let last = e.segments.len() - 1;
            match validate_folder_name(e.segments[last].as_str()) {
                Err(err) => {
                    assert(bad_folder(entries@[k as int]));
                    return Err(err);
                },
                Ok(()) => {},
            }
        }
        k = k + 1;
    }
    Ok(())
}

/// The path segments of an entry.
pub open spec fn seg_views(e: WalkEntry) -> Seq<Seq<char>> {
    segment_views(e.segments@, e.segments@.len() as int)
}

/// The segments of the folder an entry sits in.
pub open spec fn folder_of(e: WalkEntry) -> Seq<Seq<char>> {
    seg_views(e).subrange(0, seg_views(e).len() - 1)
}

/// Entry `j` is a placed folder entry for the folder of entry `k`.
pub open spec fn parent_link(es: Seq<WalkEntry>, pl: Seq<Option<usize>>, k: int, j: int) -> bool {
    0 <= j < k && es[j].is_dir && seg_views(es[j]) == folder_of(es[k]) && pl[j] is Some
}

/// The folder of entry `k` is the root or a placed folder entry before it.
pub open spec fn folder_placed(es: Seq<WalkEntry>, pl: Seq<Option<usize>>, k: int) -> bool {
    seg_views(es[k]).len() == 1 || exists|j: int| parent_link(es, pl, k, j)
}

/// The node of the folder of a placed entry `k`: the root for a top-level
/// entry, else the node of a placed folder entry with the folder's path.
pub open spec fn in_folder(es: Seq<WalkEntry>, pl: Seq<Option<usize>>, k: int, d: usize) -> bool {
    (seg_views(es[k]).len() == 1 && d == 0) || (seg_views(es[k]).len() > 1 && exists|j: int|
        parent_link(es, pl, k, j) && pl[j] == Some(d))
}

/// The asset records after the placed asset files among the first `n` entries.
pub open spec fn asset_fold(
    rs: Seq<crate::store::AssetView>,
    es: Seq<WalkEntry>,
    pl: Seq<Option<usize>>,
    n: int,
) -> Seq<crate::store::AssetView>
    decreases n,
{
    if n <= 0 {
        rs
    } else {
        let prev = asset_fold(rs, es, pl, n - 1);
        let e = es[n - 1];
        if !e.is_dir && pl[n - 1] is Some && file_class(seg_views(e).last()) is Asset {
            crate::store::register_spec(prev, joined(seg_views(e)), e.bytes@).0
        } else {
            prev
        }
    }
}

proof fn lemma_asset_fold_prefix(
    rs: Seq<crate::store::AssetView>,
    es: Seq<WalkEntry>,
    p1: Seq<Option<usize>>,
    p2: Seq<Option<usize>>,
    n: int,
)
    requires
        n <= p1.len(),
        n <= p2.len(),
        forall|j: int| 0 <= j < n ==> p1[j] == p2[j],
    ensures
        asset_fold(rs, es, p1, n) == asset_fold(rs, es, p2, n),
    decreases n,
{
    if n > 0 {
        lemma_asset_fold_prefix(rs, es, p1, p2, n - 1);
    }
}

/// Every node live: the tree as it stands before pruning.
pub open spec fn all_alive(s: Seq<NodeShape>) -> Seq<NodeShape> {
    Seq::new(s.len(), |i: int| (s[i].0, true, s[i].2))
}

/// `t1` keeps every node of `t0`, with its name and parent.
pub open spec fn extends(t0: ContentTree, t1: ContentTree) -> bool {
    &&& t1.len_spec() >= t0.len_spec()
    &&& forall|i: int|
        0 <= i < t0.len_spec() ==> #[trigger] t1.name_spec(i) == t0.name_spec(i) && t1.shape()[i].0
            == t0.shape()[i].0
}

/// Entry `j` is placed exactly when its folder is, and where it belongs.
pub open spec fn entry_ok(t: ContentTree, pl: Seq<Option<usize>>, es: Seq<WalkEntry>, j: int) -> bool {
    &&& (pl[j] is Some <==> seg_views(es[j]).len() > 0 && folder_placed(es, pl, j))
    &&& (pl[j] is Some ==> {
        let d = pl[j]->0;
        &&& (d as int) < t.len_spec()
        &&& (es[j].is_dir ==> d > 0 && t.name_spec(d as int) == seg_views(es[j]).last() && in_folder(
            es,
            pl,
            j,
            t.shape()[d as int].0 as usize,
        ))
        &&& (!es[j].is_dir ==> in_folder(es, pl, j, d))
    })
}

/// The kind of the file entry `j`, when it is a folder's own document.
pub open spec fn primary_kind(e: WalkEntry) -> Option<crate::names::LeafPathType> {
    if !e.is_dir && e.segments@.len() > 0 {
        match file_class(seg_views(e).last()) {
            FileClass::Primary(k) => Some(k),
            _ => None,
        }
    } else {
        None
    }
}

/// No file entry in `(j, k)` places another own document into node `d`.
pub open spec fn no_later_primary(pl: Seq<Option<usize>>, es: Seq<WalkEntry>, j: int, k: int, d: usize) -> bool {
    forall|m: int| j < m < k && pl[m] == Some(d) ==> #[trigger] primary_kind(es[m]) is None
}

/// The last own document placed into a folder gives the folder's kind.
pub open spec fn doc_ok(t: ContentTree, pl: Seq<Option<usize>>, es: Seq<WalkEntry>, k: int, j: int) -> bool {
    (pl[j] is Some && primary_kind(es[j]) is Some && no_later_primary(pl, es, j, k, pl[j]->0))
        ==> t.doc_kind(pl[j]->0 as int) == primary_kind(es[j])
}

/// The tree after the first `k` entries: root, names, placements, kinds.
pub open spec fn placed(
    t: ContentTree,
    pl: Seq<Option<usize>>,
    es: Seq<WalkEntry>,
    k: int,
    root: Seq<char>,
    lang: Seq<char>,
) -> bool {
    &&& t.name_spec(0) == root
    &&& t.default_lang_spec() == lang
    &&& forall|i: int| 0 < i < t.len_spec() ==> folder_error(#[trigger] t.name_spec(i)) is None
    &&& forall|j: int| 0 <= j < k ==> #[trigger] entry_ok(t, pl, es, j)
    &&& forall|j: int| 0 <= j < k ==> #[trigger] doc_ok(t, pl, es, k, j)
}

/// What `build_tree` hands back: a pruned tree in which every entry of the
/// walk stands where `placed` says.
pub open spec fn built(
    t: ContentTree,
    pl: Seq<Option<usize>>,
    es: Seq<WalkEntry>,
    root: Seq<char>,
    lang: Seq<char>,
) -> bool {
    &&& t.wf()
    &&& pl.len() == es.len()
    &&& t.shape() == pruned(all_alive(t.shape()))
    &&& placed(t, pl, es, es.len() as int, root, lang)
}

proof fn lemma_links_same(es: Seq<WalkEntry>, p0: Seq<Option<usize>>, pl: Seq<Option<usize>>, j: int, k: int)
    requires
        0 <= j <= k,
        p0.len() >= k,
        pl.len() >= k,
        forall|m: int| 0 <= m < k ==> p0[m] == pl[m],
    ensures
        folder_placed(es, pl, j) == folder_placed(es, p0, j),
        forall|d: usize| in_folder(es, pl, j, d) == in_folder(es, p0, j, d),
{
    assert forall|m: int| parent_link(es, pl, j, m) == parent_link(es, p0, j, m) by {}
}

proof fn lemma_entry_frame(
    t0: ContentTree,
    t1: ContentTree,
    p0: Seq<Option<usize>>,
    pl: Seq<Option<usize>>,
    es: Seq<WalkEntry>,
    k: int,
    j: int,
)
    requires
        entry_ok(t0, p0, es, j),
        0 <= j < k,
        p0.len() >= k,
        pl.len() >= k,
        forall|m: int| 0 <= m < k ==> p0[m] == pl[m],
        extends(t0, t1),
    ensures
        entry_ok(t1, pl, es, j),
{
    lemma_links_same(es, p0, pl, j, k);
    if pl[j] is Some {
        let d = pl[j]->0;
        assert(t1.name_spec(d as int) == t0.name_spec(d as int));
        assert(t1.shape()[d as int].0 == t0.shape()[d as int].0);
    }
}

proof fn step_none(
    t0: ContentTree,
    p0: Seq<Option<usize>>,
    pl: Seq<Option<usize>>,
    es: Seq<WalkEntry>,
    k: int,
    root: Seq<char>,
    lang: Seq<char>,
)
    requires
        0 <= k < es.len(),
        p0.len() == k,
        placed(t0, p0, es, k, root, lang),
        pl == p0.push(None),
        !(seg_views(es[k]).len() > 0 && folder_placed(es, p0, k)),
    ensures
        placed(t0, pl, es, k + 1, root, lang),
{
    assert forall|j: int| 0 <= j < k + 1 implies #[trigger] entry_ok(t0, pl, es, j) by {
        if j < k {
            lemma_entry_frame(t0, t0, p0, pl, es, k, j);
        } else {
            lemma_links_same(es, p0, pl, k, k);
        }
    }
    assert forall|j: int| 0 <= j < k + 1 implies #[trigger] doc_ok(t0, pl, es, k + 1, j) by {
        if j < k {
            assert(doc_ok(t0, p0, es, k, j));
            if pl[j] is Some && primary_kind(es[j]) is Some && no_later_primary(pl, es, j, k + 1, pl[j]->0) {
                assert forall|m: int| j < m < k && p0[m] == Some(p0[j]->0) implies #[trigger] primary_kind(es[m]) is None by {
                    assert(pl[m] == p0[m]);
                }
            }
        }
    }
}

proof fn step_dir(
    t0: ContentTree,
    t1: ContentTree,
    p0: Seq<Option<usize>>,
    pl: Seq<Option<usize>>,
    es: Seq<WalkEntry>,
    k: int,
    d: usize,
    id: usize,
    root: Seq<char>,
    lang: Seq<char>,
)
    requires
        0 <= k < es.len(),
        p0.len() == k,
        placed(t0, p0, es, k, root, lang),
        pl == p0.push(Some(id)),
        es[k].is_dir,
        seg_views(es[k]).len() > 0,
        folder_placed(es, p0, k),
        in_folder(es, p0, k, d),
        extends(t0, t1),
        id as int == t0.len_spec(),
        t0.len_spec() >= 1,
        t1.len_spec() == t0.len_spec() + 1,
        t1.name_spec(id as int) == seg_views(es[k]).last(),
        t1.shape()[id as int].0 == d as int,
        folder_error(seg_views(es[k]).last()) is None,
        t1.name_spec(0) == root,
        t1.default_lang_spec() == lang,
        forall|i: int| 0 <= i < t0.len_spec() ==> #[trigger] t1.doc_kind(i) == t0.doc_kind(i),
    ensures
        placed(t1, pl, es, k + 1, root, lang),
{
    assert forall|i: int| 0 < i < t1.len_spec() implies folder_error(#[trigger] t1.name_spec(i)) is None by {
        if i < t0.len_spec() {
            assert(t1.name_spec(i) == t0.name_spec(i));
        }
    }
    assert forall|j: int| 0 <= j < k + 1 implies #[trigger] entry_ok(t1, pl, es, j) by {
        if j < k {
            lemma_entry_frame(t0, t1, p0, pl, es, k, j);
        } else {
            lemma_links_same(es, p0, pl, k, k);
        }
    }
    assert forall|j: int| 0 <= j < k + 1 implies #[trigger] doc_ok(t1, pl, es, k + 1, j) by {
        if j < k {
            assert(doc_ok(t0, p0, es, k, j));
            assert(entry_ok(t0, p0, es, j));
            if pl[j] is Some && primary_kind(es[j]) is Some && no_later_primary(pl, es, j, k + 1, pl[j]->0) {
                assert forall|m: int| j < m < k && p0[m] == Some(p0[j]->0) implies #[trigger] primary_kind(es[m]) is None by {
                    assert(pl[m] == p0[m]);
                }
                assert(t1.doc_kind(pl[j]->0 as int) == t0.doc_kind(pl[j]->0 as int));
            }
        }
    }
}

proof fn step_file(
    t0: ContentTree,
    t1: ContentTree,
    p0: Seq<Option<usize>>,
    pl: Seq<Option<usize>>,
    es: Seq<WalkEntry>,
    k: int,
    d: usize,
    root: Seq<char>,
    lang: Seq<char>,
)
    requires
        0 <= k < es.len(),
        p0.len() == k,
        placed(t0, p0, es, k, root, lang),
        pl == p0.push(Some(d)),
        !es[k].is_dir,
        seg_views(es[k]).len() > 0,
        folder_placed(es, p0, k),
        in_folder(es, p0, k, d),
        (d as int) < t0.len_spec(),
        extends(t0, t1),
        t1.len_spec() == t0.len_spec(),
        t1.name_spec(0) == root,
        t1.default_lang_spec() == lang,
        forall|i: int|
            0 <= i < t0.len_spec() && (i != d || primary_kind(es[k]) is None) ==> #[trigger] t1.doc_kind(i)
                == t0.doc_kind(i),
        primary_kind(es[k]) is Some ==> t1.doc_kind(d as int) == primary_kind(es[k]),
    ensures
        placed(t1, pl, es, k + 1, root, lang),
{
    assert forall|i: int| 0 < i < t1.len_spec() implies folder_error(#[trigger] t1.name_spec(i)) is None by {
        assert(t1.name_spec(i) == t0.name_spec(i));
    }
    assert forall|j: int| 0 <= j < k + 1 implies #[trigger] entry_ok(t1, pl, es, j) by {
        if j < k {
            lemma_entry_frame(t0, t1, p0, pl, es, k, j);
        } else {
            lemma_links_same(es, p0, pl, k, k);
        }
    }
    assert forall|j: int| 0 <= j < k + 1 implies #[trigger] doc_ok(t1, pl, es, k + 1, j) by {
        if j < k {
            assert(doc_ok(t0, p0, es, k, j));
            assert(entry_ok(t0, p0, es, j));
            if pl[j] is Some && primary_kind(es[j]) is Some && no_later_primary(pl, es, j, k + 1, pl[j]->0) {
                assert forall|m: int| j < m < k && p0[m] == Some(p0[j]->0) implies #[trigger] primary_kind(es[m]) is None by {
                    assert(pl[m] == p0[m]);
                }
                if pl[j]->0 == d {
                    assert(primary_kind(es[k]) is None);
                }
                assert(t1.doc_kind(pl[j]->0 as int) == t0.doc_kind(pl[j]->0 as int));
            }
        }
    }
}

proof fn prune_keeps_placed(
    t0: ContentTree,
    t1: ContentTree,
    pl: Seq<Option<usize>>,
    es: Seq<WalkEntry>,
    root: Seq<char>,
    lang: Seq<char>,
)
    requires
        pl.len() == es.len(),
        placed(t0, pl, es, es.len() as int, root, lang),
        extends(t0, t1),
        t1.len_spec() == t0.len_spec(),
        t1.name_spec(0) == root,
        t1.default_lang_spec() == lang,
        forall|i: int| 0 <= i < t0.len_spec() ==> #[trigger] t1.doc_kind(i) == t0.doc_kind(i),
    ensures
        placed(t1, pl, es, es.len() as int, root, lang),
{
    let n = es.len() as int;
    assert forall|i: int| 0 < i < t1.len_spec() implies folder_error(#[trigger] t1.name_spec(i)) is None by {
        assert(t1.name_spec(i) == t0.name_spec(i));
    }
    assert forall|j: int| 0 <= j < n implies #[trigger] entry_ok(t1, pl, es, j) by {
        lemma_entry_frame(t0, t1, pl, pl, es, n, j);
    }
    assert forall|j: int| 0 <= j < n implies #[trigger] doc_ok(t1, pl, es, n, j) by {
        assert(doc_ok(t0, pl, es, n, j));
        assert(entry_ok(t0, pl, es, j));
    }
}

proof fn lemma_folder_in_tree(
    t: ContentTree,
    p0: Seq<Option<usize>>,
    es: Seq<WalkEntry>,
    k: int,
    d: usize,
    root: Seq<char>,
    lang: Seq<char>,
)
    requires
        0 <= k,
        p0.len() == k,
        placed(t, p0, es, k, root, lang),
        in_folder(es, p0, k, d),
        t.len_spec() >= 1,
    ensures
        (d as int) < t.len_spec(),
{
    if seg_views(es[k]).len() > 1 {
        let j = choose|j: int| parent_link(es, p0, k, j) && p0[j] == Some(d);
        assert(entry_ok(t, p0, es, j));
    }
}

/// The node of the folder of entry `k`, when that folder is placed.
fn folder_node(entries: &Vec<WalkEntry>, pl: &Vec<Option<usize>>, k: usize) -> (r: Option<usize>)
    requires
        k < entries.len(),
        pl.len() == k,
    ensures
        r is Some <==> seg_views(entries@[k as int]).len() > 0 && folder_placed(entries@, pl@, k as int),
        r matches Some(d) ==> in_folder(entries@, pl@, k as int, d),
{
    let len = entries[k].segments.len();
    if len == 0 {
        None
    } else if len == 1 {
        Some(0)
    } else {
        match find_parent_entry(entries, pl, k) {
            Some(j) => pl[j],
            None => None,
        }
    }
}

/// Whether `a` holds the folder segments of `b`.
fn is_folder_of(a: &Vec<String>, b: &Vec<String>) -> (r: bool)
    requires
        b@.len() > 0,
    ensures
        r == (segment_views(a@, a@.len() as int) == segment_views(b@, b@.len() as int).subrange(
            0,
            b@.len() - 1,
        )),
{
    let ghost av = segment_views(a@, a@.len() as int);
    let ghost bv = segment_views(b@, b@.len() as int).subrange(0, b@.len() - 1);
    if a.len() != b.len() - 1 {
        assert(av.len() != bv.len());
        return false;
    }
    let mut i: usize = 0;
    while i < a.len()
        invariant
            i <= a.len(),
            a.len() + 1 == b.len(),
            av == segment_views(a@, a@.len() as int),
            bv == segment_views(b@, b@.len() as int).subrange(0, b@.len() - 1),
            forall|m: int| 0 <= m < i ==> av[m] == bv[m],
        decreases a.len() - i,
    {
        if !str_eq(a[i].as_str(), b[i].as_str()) {
            assert(av[i as int] != bv[i as int]);
            return false;
        }
        i = i + 1;
    }
    assert(av =~= bv);
    true
}

/// The last placed folder entry before `k` for the folder of entry `k`.
fn find_parent_entry(entries: &Vec<WalkEntry>, pl: &Vec<Option<usize>>, k: usize) -> (r: Option<usize>)
    requires
        k < entries.len(),
        pl.len() == k,
        entries@[k as int].segments@.len() > 1,
    ensures
        r matches Some(j) ==> parent_link(entries@, pl@, k as int, j as int),
        r is None ==> forall|j: int| !parent_link(entries@, pl@, k as int, j),
{
    let mut j: usize = k;
    while j > 0
        invariant
            j <= k,
            k < entries.len(),
            pl.len() == k,
            entries@[k as int].segments@.len() > 1,
            forall|m: int| j <= m < k ==> !parent_link(entries@, pl@, k as int, m),
        decreases j,
    {
        let m = j - 1;
        if entries[m].is_dir && pl[m].is_some() && is_folder_of(&entries[m].segments, &entries[k].segments) {
            return Some(m);
        }
        j = m;
    }
    None
}

/// Replaces the bytes of every asset file by the bytes it publishes: a
/// stylesheet or script compiled, any other format as it is. An asset that
/// does not compile is left empty, so the store does not publish it.
pub fn publish_assets(entries: Vec<WalkEntry>) -> (r: Vec<WalkEntry>)
    ensures
        r@.len() == entries@.len(),
        forall|k: int|
            0 <= k < r@.len() ==> #[trigger] r@[k].segments == entries@[k].segments && r@[k].is_dir
                == entries@[k].is_dir,
        forall|k: int|
            0 <= k < r@.len() && (entries@[k].is_dir || entries@[k].segments@.len() == 0 || !(file_class(
                entries@[k].segments@.last()@,
            ) is Asset)) ==> #[trigger] r@[k].bytes@ == entries@[k].bytes@,
        forall|k: int|
            0 <= k < r@.len() && !entries@[k].is_dir && entries@[k].segments@.len() > 0 && file_class(
                entries@[k].segments@.last()@,
            ) is Asset && compiled_type_spec(extension_spec(joined(seg_views(entries@[k])))) is None
                ==> #[trigger] r@[k].bytes@ == entries@[k].bytes@,
{
    let ghost es = entries@;
    let mut out: Vec<WalkEntry> = Vec::new();
    let mut entries = entries;
    let n = entries.len();
    let mut k: usize = 0;
    while k < n
        invariant
            n == es.len(),
            entries@.len() == n,
            k <= n,
            out@.len() == k,
            forall|m: int| k <= m < n ==> entries@[m] == es[m],
            forall|m: int|
                0 <= m < k ==> #[trigger] out@[m].segments == es[m].segments && out@[m].is_dir
                    == es[m].is_dir,
            forall|m: int|
                0 <= m < k && (es[m].is_dir || es[m].segments@.len() == 0 || !(file_class(
                    es[m].segments@.last()@,
                ) is Asset)) ==> #[trigger] out@[m].bytes@ == es[m].bytes@,
            forall|m: int|
                0 <= m < k && !es[m].is_dir && es[m].segments@.len() > 0 && file_class(
                    es[m].segments@.last()@,
                ) is Asset && compiled_type_spec(extension_spec(joined(seg_views(es[m])))) is None
                    ==> #[trigger] out@[m].bytes@ == es[m].bytes@,
        decreases n - k,
    {
        let mut e = WalkEntry { segments: Vec::new(), is_dir: false, bytes: Vec::new() };
        entries.set_and_swap(k, &mut e);
        let len = e.segments.len();
        if !e.is_dir && len > 0 {
            let name = e.segments[len - 1].clone();
            match classify_file(name.as_str()) {
                FileClass::Asset => {
                    let path = join_segments(&e.segments, len);
                    proof {
                        assert(segment_views(e.segments@, len as int) == seg_views(es[k as int]));
                    }
                    let bytes = match published_bytes(path.as_str(), e.bytes) {
                        Some(b) => b,
                        None => Vec::new(),
                    };
                    e = WalkEntry { segments: e.segments, is_dir: e.is_dir, bytes };
                },
                _ => {},
            }
        }
        out.push(e);
        k = k + 1;
    }
    out
}

/// Builds the content tree from a walk, parents before children, whose
/// asset files already hold the bytes they publish. Any folder named like a
/// language tag or a reserved route, or holding a reserved character, fails
/// the whole build. Otherwise every entry whose folder is the root or an
/// earlier placed folder entry is placed: a folder becomes a node under
/// that folder's node, a file goes into it as a document, a translation or
/// an asset of `store`, registered under its path joined with `/`. The
/// placement of each entry is returned with the tree, which is pruned.
pub fn build_tree(
    root_name: &str,
    default_lang: &str,
    entries: &Vec<WalkEntry>,
    store: &mut AssetStore,
) -> (r: Result<(ContentTree, Vec<Option<usize>>), TreeError>)
    requires
        old(store).wf(),
    ensures
        final(store).wf(),
        r is Err <==> exists|k: int| 0 <= k < entries@.len() && #[trigger] bad_folder(entries@[k]),
        r matches Err(e) ==> exists|k: int|
            0 <= k < entries@.len() && #[trigger] bad_folder(entries@[k]) && folder_error(
                entries@[k].segments@[entries@[k].segments@.len() - 1]@,
            ) == Some(e),
        r is Err ==> final(store).records() == old(store).records(),
        r matches Ok((t, pl)) ==> built(t, pl@, entries@, root_name@, default_lang@)
            && final(store).records() == asset_fold(old(store).records(), entries@, pl@, entries@.len() as int),
{
    match check_folders(entries) {
        Err(e) => return Err(e),
        Ok(()) => {},
    }
    let ghost es = entries@;
    let ghost rs0 = store.records();
    let mut tree = ContentTree::new(root_name, default_lang);
    let mut pl: Vec<Option<usize>> = Vec::new();
    let n = entries.len();
    let mut k: usize = 0;
    while k < n
        invariant
            es == entries@,
            n == es.len(),
            forall|m: int| 0 <= m < n ==> !bad_folder(#[trigger] es[m]),
            tree.wf(),
            store.wf(),
            k <= n,
            pl@.len() == k,
            placed(tree, pl@, es, k as int, root_name@, default_lang@),
            forall|i: int| 0 <= i < tree.len_spec() ==> #[trigger] tree.shape()[i].1,
            store.records() == asset_fold(rs0, es, pl@, k as int),
        decreases n - k,
    {
        let ghost t0 = tree;
        let ghost p0 = pl@;
        let len = entries[k].segments.len();
        let folder = folder_node(entries, &pl, k);
        proof {
            tree.lemma_parents();
            tree.lemma_shaped();
            if folder is Some {
                lemma_folder_in_tree(tree, p0, es, k as int, folder->0, root_name@, default_lang@);
            }
        }
        match folder {
            None => {
                pl.push(None);
                proof {
                    lemma_asset_fold_prefix(rs0, es, p0, pl@, k as int);
                    step_none(t0, p0, pl@, es, k as int, root_name@, default_lang@);
                }
            },
            Some(d) => {
                let last = len - 1;
                if entries[k].is_dir {
                    let ghost nm = entries@[k as int].segments@[last as int]@;
                    assert(folder_error(nm) is None) by {
                        assert(!bad_folder(es[k as int]));
                    }
                    match tree.add_dir(d, entries[k].segments[last].as_str()) {
                        Ok(id) => {
                            pl.push(Some(id));
                            proof {
                                lemma_asset_fold_prefix(rs0, es, p0, pl@, k as int);
                                step_dir(t0, tree, p0, pl@, es, k as int, d, id, root_name@, default_lang@);
                            }
                        },
                        Err(_) => {
                            pl.push(None);
                        },
                    }
                } else {
                    let path = join_segments(&entries[k].segments, len);
                    let name = entries[k].segments[last].clone();
                    let bytes = entries[k].bytes.clone();
                    let ghost rs_before = store.records();
                    tree.ingest_file(store, d, name.as_str(), path.as_str(), bytes);
                    pl.push(Some(d));
                    proof {
                        lemma_asset_fold_prefix(rs0, es, p0, pl@, k as int);
                        assert(segment_views(es[k as int].segments@, len as int) == seg_views(es[k as int]));
                        assert(seg_views(es[k as int]).last() == name@);
                        step_file(t0, tree, p0, pl@, es, k as int, d, root_name@, default_lang@);
                    }
                }
            },
        }
        k = k + 1;
    }
    proof {
        tree.lemma_shaped();
    }
    let ghost s0 = tree.shape();
    let ghost before = tree;
    tree.prune();
    proof {
        assert(tree.shape() == pruned(s0));
        assert forall|i: int| 0 <= i < s0.len() implies #[trigger] all_alive(tree.shape())[i] == s0[i] by {
            assert(s0[i].1);
            assert(tree.shape()[i].0 == s0[i].0);
            assert(tree.shape()[i].2 == s0[i].2);
        }
        assert(all_alive(tree.shape()) =~= s0);
        prune_keeps_placed(before, tree, pl@, es, root_name@, default_lang@);
    }
    Ok((tree, pl))
}

} // verus!
