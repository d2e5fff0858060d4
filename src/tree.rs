//! The content tree: one node per directory of the content root, held in an
//! arena where every node's parent comes before it.
use vstd::prelude::*;
use crate::names::{
    classify_file, file_stem, is_language_tag, language_tag_parses, stem_of, validate_folder_name,
    file_class, folder_error, FileClass, LeafPathType, TreeError,
};
use crate::store::{register_spec, AssetStore};
use crate::front::{front_matter_split, split_front_matter, utf8_text};
use crate::text::str_eq;
use vstd::utf8::{decode_utf8, valid_utf8};

verus! {

/// One alternate-language document of a folder.
pub struct TranslateLeaf {
    pub lang: String,
    pub data: Vec<u8>,
    pub typ: LeafPathType,
    pub true_path: String,
}

/// The document attached to a folder, with its translations.
pub struct LeafPathData {
    pub data: Vec<u8>,
    pub typ: LeafPathType,
    pub true_path: String,
    pub translations: Vec<TranslateLeaf>,
}

/// The languages of a list of translations.
pub open spec fn langs_of(ts: Seq<TranslateLeaf>) -> Seq<Seq<char>> {
    ts.map_values(|t: TranslateLeaf| t.lang@)
}

/// At most one translation per language, none in the site's default language.
pub open spec fn translations_ok(ts: Seq<TranslateLeaf>, default_lang: Seq<char>) -> bool {
    &&& forall|i: int, j: int| 0 <= i < j < ts.len() ==> ts[i].lang@ != ts[j].lang@
    &&& forall|i: int| 0 <= i < ts.len() ==> ts[i].lang@ != default_lang
}

/// A node as the pruning rule sees it: parent (-1 for the root), whether it
/// is still in the tree, whether a document is attached.
pub type NodeShape = (int, bool, bool);

/// Every node but the first has an earlier parent; the first is the live root.
pub open spec fn shaped(s: Seq<NodeShape>) -> bool {
    &&& s.len() >= 1
    &&& s[0].0 == -1
    &&& s[0].1
    &&& forall|i: int| 0 < i < s.len() ==> 0 <= #[trigger] s[i].0 < i
}

/// Whether node `i` survives pruning: the root always does; any other node
/// only when it is live, has a document and its parent survives.
pub open spec fn kept(s: Seq<NodeShape>, i: int) -> bool
    decreases i,
{
    if i == 0 {
        s.len() > 0 && s[0].1
    } else if 0 < i < s.len() && 0 <= s[i].0 < i {
        s[i].1 && s[i].2 && kept(s, s[i].0)
    } else {
        false
    }
}

/// The shapes after pruning.
pub open spec fn pruned(s: Seq<NodeShape>) -> Seq<NodeShape> {
    Seq::new(s.len(), |i: int| (s[i].0, kept(s, i), s[i].2))
}

proof fn lemma_kept_pruned(s: Seq<NodeShape>, i: int)
    requires
        shaped(s),
        0 <= i < s.len(),
    ensures
        kept(pruned(s), i) == kept(s, i),
    decreases i,
{
    if i > 0 {
        let p = s[i].0;
        assert(0 <= p < i);
        lemma_kept_pruned(s, p);
    }
}

/// Pruning reaches a fixed point in one go: pruning its own output changes nothing.
pub proof fn lemma_prune_idempotent(s: Seq<NodeShape>)
    requires
        shaped(s),
    ensures
        pruned(pruned(s)) == pruned(s),
{
    assert forall|i: int| 0 <= i < s.len() implies #[trigger] pruned(pruned(s))[i] == pruned(s)[i] by {
        lemma_kept_pruned(s, i);
    }
    assert(pruned(pruned(s)) =~= pruned(s));
}

/// After pruning, every live node but the root has a document and a live parent.
pub proof fn lemma_pruned_nodes_documented(s: Seq<NodeShape>, i: int)
    requires
        shaped(s),
        0 < i < s.len(),
        pruned(s)[i].1,
    ensures
        pruned(s)[i].2,
        pruned(s)[pruned(s)[i].0].1,
{
    assert(0 <= s[i].0 < i);
}

/// Position of the translation in `lang`.
fn find_lang(ts: &Vec<TranslateLeaf>, lang: &str) -> (r: Option<usize>)
    ensures
        r matches Some(k) ==> k < ts.len() && ts@[k as int].lang@ == lang@,
        r is None ==> forall|j: int| 0 <= j < ts.len() ==> ts@[j].lang@ != lang@,
{
    let mut k: usize = 0;
    while k < ts.len()
        invariant
            k <= ts.len(),
            forall|j: int| 0 <= j < k ==> ts@[j].lang@ != lang@,
        decreases ts.len() - k,
    {
        if str_eq(ts[k].lang.as_str(), lang) {
            return Some(k);
        }
        k = k + 1;
    }
    None
}

/// What became of a file handed to the tree.
#[derive(Clone, Copy, Debug, PartialEq, Eq)]
pub enum FileRole {
    /// It is now the folder's document.
    Document,
    /// It is now a translation of the folder's document.
    Translation,
    /// A document file with no document to attach to, or no language; skipped.
    Orphan,
    /// A static asset, published under the record with this hash.
    Asset(u64),
    /// A static asset that cannot be published (empty, or no extension); skipped.
    Skipped,
}

/// The directory tree of the content root.
pub struct ContentTree {
    names: Vec<String>,
    depths: Vec<usize>,
    parents: Vec<usize>,
    alive: Vec<bool>,
    docs: Vec<Option<LeafPathData>>,
    default_lang: String,
}

impl ContentTree {
    pub closed spec fn len_spec(&self) -> nat {
        self.names@.len()
    }

    /// The nodes as the pruning rule sees them.
    pub closed spec fn shape(&self) -> Seq<NodeShape> {
        Seq::new(
            self.names@.len(),
            |i: int|
                (
                    if i == 0 {
                        -1
                    } else {
                        self.parents@[i] as int
                    },
                    self.alive@[i],
                    self.docs@[i] is Some,
                ),
        )
    }

    pub closed spec fn name_spec(&self, i: int) -> Seq<char> {
        self.names@[i]@
    }

    pub closed spec fn depth_spec(&self, i: int) -> nat {
        self.depths@[i] as nat
    }

    pub closed spec fn default_lang_spec(&self) -> Seq<char> {
        self.default_lang@
    }

    /// The kind of the document attached to node `i`.
    pub closed spec fn doc_kind(&self, i: int) -> Option<LeafPathType> {
        match self.docs@[i] {
            Some(d) => Some(d.typ),
            None => None,
        }
    }

    /// The languages of the translations of node `i`'s document.
    pub closed spec fn doc_langs(&self, i: int) -> Seq<Seq<char>> {
        match self.docs@[i] {
            Some(d) => langs_of(d.translations@),
            None => Seq::empty(),
        }
    }

    /// The bytes of the document attached to node `i`.
    pub closed spec fn doc_bytes(&self, i: int) -> Seq<u8> {
        match self.docs@[i] {
            Some(d) => d.data@,
            None => Seq::empty(),
        }
    }

    pub closed spec fn wf(&self) -> bool {
        let n = self.names@.len();
        &&& n >= 1
        &&& self.depths@.len() == n
        &&& self.parents@.len() == n
        &&& self.alive@.len() == n
        &&& self.docs@.len() == n
        &&& self.alive@[0]
        &&& self.depths@[0] == 0
        &&& forall|i: int|
            0 < i < n ==> #[trigger] self.parents@[i] < i && self.depths@[i] == self.depths@[
                self.parents@[i] as int] + 1
        &&& forall|i: int| 0 <= i < n ==> #[trigger] self.depths@[i] <= i
        &&& forall|i: int|
            0 <= i < n && #[trigger] self.docs@[i] is Some ==> translations_ok(
                self.docs@[i]->0.translations@,
                self.default_lang@,
            )
    }

    /// The root is at depth 0 and every other node's parent comes before it.
    pub proof fn lemma_parents(&self)
        requires
            self.wf(),
        ensures
            self.depth_spec(0) == 0,
            self.len_spec() >= 1,
            forall|i: int| 0 < i < self.len_spec() ==> 0 <= #[trigger] self.shape()[i].0 < i,
    {
        assert forall|i: int| 0 < i < self.len_spec() implies 0 <= #[trigger] self.shape()[i].0 < i by {
            assert(self.parents@[i] < i);
        }
    }

    pub proof fn lemma_shaped(&self)
        requires
            self.wf(),
        ensures
            shaped(self.shape()),
            self.shape().len() == self.len_spec(),
    {
        assert forall|i: int| 0 < i < self.shape().len() implies 0 <= #[trigger] self.shape()[i].0 < i by {
            assert(self.parents@[i] < i);
        }
    }

    /// A tree holding only the root folder.
    pub fn new(root_name: &str, default_lang: &str) -> (r: ContentTree)
        ensures
            r.wf(),
            r.len_spec() == 1,
            r.name_spec(0) == root_name@,
            r.default_lang_spec() == default_lang@,
            r.shape() == seq![(-1int, true, false)],
    {
        let mut names = Vec::new();
        names.push(root_name.to_owned());
        let mut depths = Vec::new();
        depths.push(0usize);
        let mut parents = Vec::new();
        parents.push(0usize);
        let mut alive = Vec::new();
        alive.push(true);
        let mut docs: Vec<Option<LeafPathData>> = Vec::new();
        docs.push(None);
        let r = ContentTree { names, depths, parents, alive, docs, default_lang: default_lang.to_owned() };
        assert(r.shape() =~= seq![(-1int, true, false)]);
        r
    }

    /// Number of nodes, pruned ones included.
    pub fn node_count(&self) -> (r: usize)
        requires
            self.wf(),
        ensures
            r == self.len_spec(),
    {
        self.names.len()
    }

    /// Whether node `i` is still part of the tree.
    pub fn is_alive(&self, i: usize) -> (r: bool)
        requires
            self.wf(),
            i < self.len_spec(),
        ensures
            r == self.shape()[i as int].1,
    {
        self.alive[i]
    }

    /// The folder name of node `i`.
    pub fn name(&self, i: usize) -> (r: &String)
        requires
            self.wf(),
            i < self.len_spec(),
        ensures
            r@ == self.name_spec(i as int),
    {
        &self.names[i]
    }

    /// The depth of node `i`; the root is at depth 0.
    pub fn depth(&self, i: usize) -> (r: usize)
        requires
            self.wf(),
            i < self.len_spec(),
        ensures
            r == self.depth_spec(i as int),
    {
        self.depths[i]
    }

    /// The parent of node `i`, none for the root.
    pub fn parent(&self, i: usize) -> (r: Option<usize>)
        requires
            self.wf(),
            i < self.len_spec(),
        ensures
            i == 0 ==> r is None,
            i > 0 ==> r == Some(self.shape()[i as int].0 as usize),
    {
        if i == 0 {
            None
        } else {
            Some(self.parents[i])
        }
    }

    /// The document attached to node `i`.
    pub fn document(&self, i: usize) -> (r: Option<&LeafPathData>)
        requires
            self.wf(),
            i < self.len_spec(),
        ensures
            r is Some == self.shape()[i as int].2,
            r matches Some(d) ==> Some(d.typ) == self.doc_kind(i as int) && langs_of(
                d.translations@,
            ) == self.doc_langs(i as int),
    {
        match &self.docs[i] {
            Some(d) => Some(d),
            None => None,
        }
    }

    /// The live child of `parent` named `name`.
    pub fn find_child(&self, parent: usize, name: &str) -> (r: Option<usize>)
        requires
            self.wf(),
        ensures
            r matches Some(c) ==> c < self.len_spec() && c > 0 && self.shape()[c as int].0
                == parent && self.shape()[c as int].1 && self.name_spec(c as int) == name@,
            r is None ==> forall|c: int|
                0 < c < self.len_spec() && self.shape()[c].1 && self.shape()[c].0 == parent
                    ==> self.name_spec(c) != name@,
    {
        let mut c: usize = 1;
        while c < self.names.len()
            invariant
                self.wf(),
                1 <= c <= self.names.len(),
                forall|k: int|
                    0 < k < c && self.shape()[k].1 && self.shape()[k].0 == parent
                        ==> self.name_spec(k) != name@,
            decreases self.names.len() - c,
        {
            if self.alive[c] && self.parents[c] == parent && str_eq(self.names[c].as_str(), name) {
                return Some(c);
            }
            c = c + 1;
        }
        None
    }

    /// Adds folder `name` under `parent`, or refuses a name that makes the
    /// namespace ambiguous; a refusal stops the whole build.
    pub fn add_dir(&mut self, parent: usize, name: &str) -> (r: Result<usize, TreeError>)
        requires
            old(self).wf(),
            parent < old(self).len_spec(),
        ensures
            final(self).wf(),
            final(self).default_lang_spec() == old(self).default_lang_spec(),
            r is Ok <==> folder_error(name@) is None,
            r matches Err(e) ==> folder_error(name@) == Some(e) && *final(self) == *old(self),
            r matches Ok(id) ==> {
                &&& id == old(self).len_spec()
                &&& final(self).len_spec() == old(self).len_spec() + 1
                &&& final(self).shape() == old(self).shape().push((parent as int, true, false))
                &&& final(self).name_spec(id as int) == name@
                &&& final(self).depth_spec(id as int) == old(self).depth_spec(parent as int) + 1
                &&& forall|i: int|
                    0 <= i < old(self).len_spec() ==> final(self).name_spec(i) == old(self).name_spec(i) && final(self).depth_spec(i) == old(self).depth_spec(i)
                        && final(self).doc_kind(i) == old(self).doc_kind(i) && final(self).doc_langs(i) == old(self).doc_langs(i)
            },
    {
        match validate_folder_name(name) {
            Err(e) => return Err(e),
            Ok(()) => {},
        }
        let ghost old_shape = self.shape();
        let id = self.names.len();
        let d = self.depths[parent] + 1;
        self.names.push(name.to_owned());
        self.depths.push(d);
        self.parents.push(parent);
        self.alive.push(true);
        self.docs.push(None);
        assert(self.shape() =~= old_shape.push((parent as int, true, false)));
        Ok(id)
    }

    /// Makes `data` the document of node `dir`, with no translations yet.
    fn attach_document(&mut self, dir: usize, data: Vec<u8>, typ: LeafPathType, true_path: &str)
        requires
            old(self).wf(),
            dir < old(self).len_spec(),
        ensures
            final(self).wf(),
            final(self).len_spec() == old(self).len_spec(),
            final(self).default_lang_spec() == old(self).default_lang_spec(),
            final(self).shape() == old(self).shape().update(
                dir as int,
                (old(self).shape()[dir as int].0, old(self).shape()[dir as int].1, true),
            ),
            final(self).doc_kind(dir as int) == Some(typ),
            final(self).doc_langs(dir as int) == Seq::<Seq<char>>::empty(),
            forall|i: int|
                0 <= i < old(self).len_spec() ==> final(self).name_spec(i) == old(self).name_spec(i)
                    && final(self).depth_spec(i) == old(self).depth_spec(i),
            forall|i: int|
                0 <= i < old(self).len_spec() && i != dir ==> final(self).doc_kind(i) == old(self).doc_kind(i) && final(self).doc_langs(i) == old(self).doc_langs(i),
    {
        let ghost old_shape = self.shape();
        let doc = LeafPathData { data, typ, true_path: true_path.to_owned(), translations: Vec::new() };
        self.docs.set(dir, Some(doc));
        proof {
            assert(langs_of(self.docs@[dir as int]->0.translations@) =~= Seq::<Seq<char>>::empty());
            assert(self.shape() =~= old_shape.update(
                dir as int,
                (old_shape[dir as int].0, old_shape[dir as int].1, true),
            ));
        }
    }

    /// Adds or replaces the `lang` translation of node `dir`'s document.
    /// Refused when the node has no document yet or `lang` is the default language.
    fn attach_translation(
        &mut self,
        dir: usize,
        lang: String,
        data: Vec<u8>,
        typ: LeafPathType,
        true_path: &str,
    ) -> (r: bool)
        requires
            old(self).wf(),
            dir < old(self).len_spec(),
        ensures
            final(self).wf(),
            final(self).len_spec() == old(self).len_spec(),
            final(self).default_lang_spec() == old(self).default_lang_spec(),
            final(self).shape() == old(self).shape(),
            r == (old(self).shape()[dir as int].2 && lang@ != old(self).default_lang_spec()),
            !r ==> final(self).doc_langs(dir as int) == old(self).doc_langs(dir as int),
            r && old(self).doc_langs(dir as int).contains(lang@) ==> final(self).doc_langs(
                dir as int,
            ) == old(self).doc_langs(dir as int),
            r && !old(self).doc_langs(dir as int).contains(lang@) ==> final(self).doc_langs(
                dir as int,
            ) == old(self).doc_langs(dir as int).push(lang@),
            forall|i: int|
                0 <= i < old(self).len_spec() ==> final(self).name_spec(i) == old(self).name_spec(i)
                    && final(self).depth_spec(i) == old(self).depth_spec(i) && final(self).doc_kind(
                    i,
                ) == old(self).doc_kind(i),
            forall|i: int|
                0 <= i < old(self).len_spec() && i != dir ==> final(self).doc_langs(i) == old(self).doc_langs(i),
    {
        if self.docs[dir].is_none() {
            return false;
        }
        if str_eq(lang.as_str(), self.default_lang.as_str()) {
            return false;
        }
        let ghost old_shape = self.shape();
        let ghost old_langs = self.doc_langs(dir as int);
        let mut slot: Option<LeafPathData> = None;
        self.docs.set_and_swap(dir, &mut slot);
        let mut doc = match slot {
            Some(d) => d,
            None => {
                return false;
            },
        };
        let ghost old_docs = self.docs@;
        assert(old_docs == old(self).docs@.update(dir as int, None));
        assert(langs_of(doc.translations@) == old_langs);
        assert(translations_ok(doc.translations@, self.default_lang@)) by {
            assert(old(self).docs@[dir as int] is Some);
        }
        let ghost old_ts = doc.translations@;
        let found = find_lang(&doc.translations, lang.as_str());
        let ghost lang_view = lang@;
        let leaf = TranslateLeaf { lang, data, typ, true_path: true_path.to_owned() };
        match found {
            Some(k) => {
                doc.translations.set(k, leaf);
                proof {
                    assert(old_langs[k as int] == old_ts[k as int].lang@);
                    assert(old_langs.contains(lang_view));
                    assert(langs_of(doc.translations@) =~= old_langs);
                    assert forall|j: int| 0 <= j < doc.translations@.len() implies doc.translations@[j].lang@ == old_ts[j].lang@ by {}
                }
            },
            None => {
                doc.translations.push(leaf);
                proof {
                    assert(langs_of(doc.translations@) =~= old_langs.push(lang_view));
                    assert(!old_langs.contains(lang_view)) by {
                        if old_langs.contains(lang_view) {
                            let j = choose|j: int| 0 <= j < old_langs.len() && old_langs[j] == lang_view;
                            assert(old_langs[j] == old_ts[j].lang@);
                        }
                    }
                }
            },
        }
        assert(translations_ok(doc.translations@, self.default_lang@));
        let mut slot2 = Some(doc);
        self.docs.set_and_swap(dir, &mut slot2);
        proof {
            assert(self.docs@ == old(self).docs@.update(dir as int, self.docs@[dir as int]));
            assert(self.shape() =~= old_shape);
            assert forall|i: int| 0 <= i < self.docs@.len() && #[trigger] self.docs@[i] is Some implies translations_ok(
                self.docs@[i]->0.translations@,
                self.default_lang@,
            ) by {
                if i != dir {
                    assert(self.docs@[i] == old(self).docs@[i]);
                }
            }
        }
        true
    }

    /// Hands one file of folder `dir` to the tree: the folder's own document,
    /// a translation of it, or a static asset for `store`.
    pub fn ingest_file(
        &mut self,
        store: &mut AssetStore,
        dir: usize,
        file_name: &str,
        path: &str,
        bytes: Vec<u8>,
    ) -> (r: FileRole)
        requires
            old(self).wf(),
            old(store).wf(),
            dir < old(self).len_spec(),
        ensures
            final(self).wf(),
            final(store).wf(),
            final(self).len_spec() == old(self).len_spec(),
            final(self).default_lang_spec() == old(self).default_lang_spec(),
            forall|i: int|
                0 <= i < old(self).len_spec() ==> final(self).name_spec(i) == old(self).name_spec(i)
                    && final(self).depth_spec(i) == old(self).depth_spec(i),
            file_class(file_name@) is Primary ==> r == FileRole::Document && final(self).shape()
                == old(self).shape().update(
                dir as int,
                (old(self).shape()[dir as int].0, old(self).shape()[dir as int].1, true),
            ) && final(self).doc_kind(dir as int) == Some(file_class(file_name@)->Primary_0),
            file_class(file_name@) is Alternate ==> final(self).shape() == old(self).shape() && (r
                == FileRole::Translation <==> (language_tag_parses(stem_of(file_name@)) && old(self).shape()[dir as int].2 && stem_of(file_name@) != old(self).default_lang_spec())) && (r
                != FileRole::Translation ==> r == FileRole::Orphan),
            file_class(file_name@) is Asset ==> final(self).shape() == old(self).shape()
                && final(store).records() == register_spec(old(store).records(), path@, bytes@).0
                && (r matches FileRole::Asset(h) ==> register_spec(
                old(store).records(),
                path@,
                bytes@,
            ).1 matches Some(a) && a.0 == h) && (r is Skipped <==> register_spec(
                old(store).records(),
                path@,
                bytes@,
            ).1 is None) && (r is Asset || r is Skipped),
            !(file_class(file_name@) is Asset) ==> *final(store) == *old(store),
            forall|i: int|
                0 <= i < old(self).len_spec() && (i != dir || !(file_class(file_name@) is Primary))
                    ==> #[trigger] final(self).doc_kind(i) == old(self).doc_kind(i),
    {
        match classify_file(file_name) {
            FileClass::Primary(kind) => {
                self.attach_document(dir, bytes, kind, path);
                FileRole::Document
            },
            FileClass::Alternate(kind) => {
                let stem = file_stem(file_name);
                if is_language_tag(stem.as_str()) {
                    if self.attach_translation(dir, stem, bytes, kind, path) {
                        FileRole::Translation
                    } else {
                        FileRole::Orphan
                    }
                } else {
                    FileRole::Orphan
                }
            },
            FileClass::Asset => {
                match store.register(path, bytes.as_slice()) {
                    Some(a) => FileRole::Asset(a.content_hash),
                    None => FileRole::Skipped,
                }
            },
        }
    }

    /// The configuration text of node `i`'s document: the part before its
    /// first `===`, when the document is UTF-8 text that has one.
    pub fn front_matter(&self, i: usize) -> (r: Option<String>)
        requires
            self.wf(),
            i < self.len_spec(),
        ensures
            r is Some <==> self.shape()[i as int].2 && valid_utf8(self.doc_bytes(i as int))
                && front_matter_split(decode_utf8(self.doc_bytes(i as int))) is Some,
            r matches Some(c) ==> front_matter_split(decode_utf8(self.doc_bytes(i as int))) matches Some(
                (h, _),
            ) && c@ == h,
    {
        match &self.docs[i] {
            Some(d) => {
                let bytes = d.data.clone();
                match utf8_text(bytes) {
                    Some(text) => match split_front_matter(text.as_str()) {
                        Some((config, _)) => Some(config),
                        None => None,
                    },
                    None => None,
                }
            },
            None => None,
        }
    }

    /// The live, documented nodes at depth 1 and 2, in order: the only ones
    /// whose configuration can declare a category or a subcategory.
    pub fn category_candidates(&self) -> (r: Vec<usize>)
        requires
            self.wf(),
        ensures
            forall|k: int|
                0 <= k < r@.len() ==> (#[trigger] r@[k] as int) < self.len_spec() && self.shape()[r@[k] as int].1
                    && self.shape()[r@[k] as int].2 && (self.depth_spec(r@[k] as int) == 1
                    || self.depth_spec(r@[k] as int) == 2),
            forall|i: int|
                0 <= i < self.len_spec() && self.shape()[i].1 && self.shape()[i].2 && (
                self.depth_spec(i) == 1 || self.depth_spec(i) == 2) ==> r@.contains(i as usize),
    {
        let mut out: Vec<usize> = Vec::new();
        let mut i: usize = 0;
        while i < self.names.len()
            invariant
                self.wf(),
                i <= self.names.len(),
                forall|k: int|
                    0 <= k < out@.len() ==> (#[trigger] out@[k] as int) < self.len_spec()
                        && self.shape()[out@[k] as int].1 && self.shape()[out@[k] as int].2 && (
                    self.depth_spec(out@[k] as int) == 1 || self.depth_spec(out@[k] as int) == 2),
                forall|j: int|
                    0 <= j < i && self.shape()[j].1 && self.shape()[j].2 && (self.depth_spec(j) == 1
                        || self.depth_spec(j) == 2) ==> out@.contains(j as usize),
            decreases self.names.len() - i,
        {
            let ghost before = out@;
            if self.alive[i] && self.docs[i].is_some() && (self.depths[i] == 1 || self.depths[i] == 2) {
                out.push(i);
                assert(out@[out@.len() - 1] == i);
            }
            proof {
                assert forall|j: int|
                    0 <= j < i + 1 && self.shape()[j].1 && self.shape()[j].2 && (self.depth_spec(j) == 1
                        || self.depth_spec(j) == 2) implies out@.contains(j as usize) by {
                    if j < i {
                        let k = choose|k: int| 0 <= k < before.len() && before[k] == j as usize;
                        assert(out@[k] == j as usize);
                    } else {
                        assert(out@[out@.len() - 1] == i);
                    }
                }
            }
            i = i + 1;
        }
        out
    }

    /// Takes the document off node `i`, as when its configuration cannot be
    /// read; the next prune drops the node.
    pub fn detach_document(&mut self, i: usize)
        requires
            old(self).wf(),
            i < old(self).len_spec(),
        ensures
            final(self).wf(),
            final(self).len_spec() == old(self).len_spec(),
            final(self).default_lang_spec() == old(self).default_lang_spec(),
            final(self).shape() == old(self).shape().update(
                i as int,
                (old(self).shape()[i as int].0, old(self).shape()[i as int].1, false),
            ),
            forall|j: int|
                0 <= j < old(self).len_spec() ==> final(self).name_spec(j) == old(self).name_spec(j)
                    && final(self).depth_spec(j) == old(self).depth_spec(j),
    {
        let ghost s0 = self.shape();
        self.docs.set(i, None);
        assert(self.shape() =~= s0.update(i as int, (s0[i as int].0, s0[i as int].1, false)));
    }

    /// Drops every folder left without a document, together with everything
    /// under it; the root stays. Parents come before their children, so one
    /// pass in order reaches the fixed point.
    pub fn prune(&mut self)
        requires
            old(self).wf(),
        ensures
            final(self).wf(),
            final(self).len_spec() == old(self).len_spec(),
            final(self).default_lang_spec() == old(self).default_lang_spec(),
            final(self).shape() == pruned(old(self).shape()),
            forall|i: int|
                0 <= i < old(self).len_spec() ==> final(self).name_spec(i) == old(self).name_spec(i)
                    && final(self).depth_spec(i) == old(self).depth_spec(i) && final(self).doc_kind(
                    i,
                ) == old(self).doc_kind(i) && final(self).doc_langs(i) == old(self).doc_langs(i),
    {
        let ghost s0 = self.shape();
        proof {
            self.lemma_shaped();
        }
        let n = self.alive.len();
        let mut i: usize = 1;
        while i < n
            invariant
                self.wf(),
                n == self.len_spec(),
                1 <= i <= n,
                self.names == old(self).names,
                self.depths == old(self).depths,
                self.parents == old(self).parents,
                self.docs == old(self).docs,
                self.default_lang == old(self).default_lang,
                s0 == old(self).shape(),
                shaped(s0),
                forall|j: int| 0 <= j < i ==> self.alive@[j] == kept(s0, j),
                forall|j: int| i <= j < n ==> self.alive@[j] == s0[j].1,
            decreases n - i,
        {
            let p = self.parents[i];
            assert(s0[i as int].0 == p as int);
            proof {
                assert(0 <= p < i);
                assert(s0[i as int].2 == (self.docs@[i as int] is Some));
                assert(kept(s0, i as int) == (s0[i as int].1 && s0[i as int].2 && kept(s0, p as int)));
            }
            let keep = self.alive[i] && self.docs[i].is_some() && self.alive[p];
            self.alive.set(i, keep);
            i = i + 1;
        }
        proof {
            assert(self.shape() =~= pruned(s0));
        }
    }
}

} // verus!
