//! The second tree pass: categories at depth 1, subcategories at depth 2.
use vstd::prelude::*;
use crate::front::{config_type_spec, CategoryMeta, ConfigMeta, ConfigurationType};
use crate::text::str_eq;
use crate::tree::ContentTree;

verus! {

/// Categories and subcategories of a site, keyed by folder name.
pub struct SiteCategories {
    categories: Vec<(String, CategoryMeta)>,
    subcategories: Vec<(String, String, CategoryMeta)>,
}

/// A parsed block for node `id` that declares a category at depth 1.
pub open spec fn declares_category(tree: ContentTree, id: usize, c: ConfigMeta) -> bool {
    &&& (id as int) < tree.len_spec()
    &&& tree.shape()[id as int].1
    &&& tree.depth_spec(id as int) == 1
    &&& config_type_spec(c) == Ok::<ConfigurationType, crate::front::FrontMatterError>(
        ConfigurationType::Category,
    )
}

/// A parsed block for node `id` that declares a subcategory at depth 2.
pub open spec fn declares_subcategory(tree: ContentTree, id: usize, c: ConfigMeta) -> bool {
    &&& (id as int) < tree.len_spec()
    &&& tree.shape()[id as int].1
    &&& tree.depth_spec(id as int) == 2
    &&& config_type_spec(c) == Ok::<ConfigurationType, crate::front::FrontMatterError>(
        ConfigurationType::SubCategory,
    )
}

/// The folder name of the parent of node `id`.
pub open spec fn parent_name(tree: ContentTree, id: usize) -> Seq<char> {
    tree.name_spec(tree.shape()[id as int].0)
}

/// One of the first `upto` blocks declares category `n`.
pub open spec fn declared_category(tree: ContentTree, parsed: Seq<(usize, ConfigMeta)>, upto: int, n: Seq<char>) -> bool {
    exists|m: int|
        0 <= m < upto && declares_category(tree, parsed[m].0, parsed[m].1) && #[trigger] tree.name_spec(
            parsed[m].0 as int,
        ) == n
}

/// Some block declares subcategory `n` in a folder whose parent is named `p`.
pub open spec fn subcategory_witnessed(
    tree: ContentTree,
    parsed: Seq<(usize, ConfigMeta)>,
    n: Seq<char>,
    p: Seq<char>,
) -> bool {
    exists|m: int|
        0 <= m < parsed.len() && declares_subcategory(tree, parsed[m].0, parsed[m].1)
            && #[trigger] tree.name_spec(parsed[m].0 as int) == n && parent_name(tree, parsed[m].0) == p
}

/// Some pair names subcategory `n`.
pub open spec fn names_subcategory(pairs: Seq<(Seq<char>, Seq<char>)>, n: Seq<char>) -> bool {
    exists|j: int| 0 <= j < pairs.len() && #[trigger] pairs[j].0 == n
}

/// One of the first `upto` blocks declares subcategory `n` under a folder in `names`.
pub open spec fn declared_subcategory(
    tree: ContentTree,
    parsed: Seq<(usize, ConfigMeta)>,
    names: Seq<Seq<char>>,
    upto: int,
    n: Seq<char>,
) -> bool {
    exists|m: int|
        0 <= m < upto && declares_subcategory(tree, parsed[m].0, parsed[m].1) && names.contains(
            parent_name(tree, parsed[m].0),
        ) && #[trigger] tree.name_spec(parsed[m].0 as int) == n
}

impl SiteCategories {
    pub closed spec fn category_names(&self) -> Seq<Seq<char>> {
        self.categories@.map_values(|c: (String, CategoryMeta)| c.0@)
    }

    /// Each subcategory with the category it belongs to.
    pub closed spec fn subcategory_pairs(&self) -> Seq<(Seq<char>, Seq<char>)> {
        self.subcategories@.map_values(|c: (String, String, CategoryMeta)| (c.0@, c.1@))
    }

    pub fn new() -> (r: SiteCategories)
        ensures
            r.category_names().len() == 0,
            r.subcategory_pairs().len() == 0,
    {
        SiteCategories { categories: Vec::new(), subcategories: Vec::new() }
    }

    fn category_position(&self, name: &str) -> (r: Option<usize>)
        ensures
            r matches Some(i) ==> i < self.category_names().len() && self.category_names()[i as int]
                == name@,
            r is None ==> !self.category_names().contains(name@),
    {
        let mut i: usize = 0;
        while i < self.categories.len()
            invariant
                i <= self.categories.len(),
                forall|j: int| 0 <= j < i ==> self.category_names()[j] != name@,
            decreases self.categories.len() - i,
        {
            if str_eq(self.categories[i].0.as_str(), name) {
                return Some(i);
            }
            i = i + 1;
        }
        None
    }

    fn subcategory_position(&self, name: &str) -> (r: Option<usize>)
        ensures
            r matches Some(i) ==> i < self.subcategory_pairs().len()
                && self.subcategory_pairs()[i as int].0 == name@,
            r is None ==> forall|j: int|
                0 <= j < self.subcategory_pairs().len() ==> self.subcategory_pairs()[j].0 != name@,
    {
        let mut i: usize = 0;
        while i < self.subcategories.len()
            invariant
                i <= self.subcategories.len(),
                forall|j: int| 0 <= j < i ==> self.subcategory_pairs()[j].0 != name@,
            decreases self.subcategories.len() - i,
        {
            if str_eq(self.subcategories[i].0.as_str(), name) {
                return Some(i);
            }
            i = i + 1;
        }
        None
    }

    /// Whether `name` is a known category.
    pub fn has_category(&self, name: &str) -> (r: bool)
        ensures
            r == self.category_names().contains(name@),
    {
        self.category_position(name).is_some()
    }

    /// The category that subcategory `name` belongs to.
    pub fn parent_of(&self, name: &str) -> (r: Option<String>)
        ensures
            r is Some <==> exists|j: int|
                0 <= j < self.subcategory_pairs().len() && #[trigger] self.subcategory_pairs()[j].0
                    == name@,
            r matches Some(p) ==> self.subcategory_pairs().contains((name@, p@)),
    {
        match self.subcategory_position(name) {
            Some(i) => {
                let p = self.subcategories[i].1.clone();
                assert(self.subcategory_pairs()[i as int] == (name@, p@));
                Some(p)
            },
            None => None,
        }
    }

    /// The subcategories of category `name`, in the order they were found.
    pub fn members(&self, name: &str) -> (r: Vec<String>)
        ensures
            forall|i: int|
                0 <= i < r@.len() ==> self.subcategory_pairs().contains((r@[i]@, name@)),
            forall|j: int|
                0 <= j < self.subcategory_pairs().len() && #[trigger] self.subcategory_pairs()[j].1
                    == name@ ==> exists|i: int|
                    0 <= i < r@.len() && r@[i]@ == self.subcategory_pairs()[j].0,
    {
        let mut out: Vec<String> = Vec::new();
        let mut i: usize = 0;
        while i < self.subcategories.len()
            invariant
                i <= self.subcategories.len(),
                forall|k: int|
                    0 <= k < out@.len() ==> self.subcategory_pairs().contains((out@[k]@, name@)),
                forall|j: int|
                    0 <= j < i && #[trigger] self.subcategory_pairs()[j].1 == name@ ==> exists|k: int|
                        0 <= k < out@.len() && out@[k]@ == self.subcategory_pairs()[j].0,
            decreases self.subcategories.len() - i,
        {
            let ghost before = out@;
            if str_eq(self.subcategories[i].1.as_str(), name) {
                let s = self.subcategories[i].0.clone();
                assert(self.subcategory_pairs()[i as int] == (s@, name@));
                out.push(s);
                assert(out@[out@.len() - 1]@ == self.subcategory_pairs()[i as int].0);
            }
            proof {
                assert forall|j: int|
                    0 <= j < i + 1 && #[trigger] self.subcategory_pairs()[j].1 == name@ implies exists|k: int|
                        0 <= k < out@.len() && out@[k]@ == self.subcategory_pairs()[j].0 by {
                    if j < i {
                        let k = choose|k: int| 0 <= k < before.len() && before[k]@ == self.subcategory_pairs()[j].0;
                        assert(out@[k] == before[k]);
                    } else {
                        assert(out@[out@.len() - 1]@ == self.subcategory_pairs()[i as int].0);
                    }
                }
            }
            i = i + 1;
        }
        out
    }

    /// Number of categories.
    pub fn category_count(&self) -> (r: usize)
        ensures
            r == self.category_names().len(),
    {
        self.categories.len()
    }

    /// Number of subcategories.
    pub fn subcategory_count(&self) -> (r: usize)
        ensures
            r == self.subcategory_pairs().len(),
    {
        self.subcategories.len()
    }
}

/// A block that is a plain page declares neither a category nor a
/// subcategory: leaving it out of the parsed blocks changes neither map.
pub proof fn lemma_page_block_has_no_effect(
    tree: ContentTree,
    parsed: Seq<(usize, ConfigMeta)>,
    k: int,
    names: Seq<Seq<char>>,
    n: Seq<char>,
)
    requires
        0 <= k < parsed.len(),
        config_type_spec(parsed[k].1) == Ok::<ConfigurationType, crate::front::FrontMatterError>(
            ConfigurationType::Page,
        ),
    ensures
        declared_category(tree, parsed, parsed.len() as int, n) == declared_category(
            tree,
            parsed.remove(k),
            parsed.len() - 1,
            n,
        ),
        declared_subcategory(tree, parsed, names, parsed.len() as int, n) == declared_subcategory(
            tree,
            parsed.remove(k),
            names,
            parsed.len() - 1,
            n,
        ),
{
    let q = parsed.remove(k);
    if declared_category(tree, parsed, parsed.len() as int, n) {
        let m = choose|m: int|
            0 <= m < parsed.len() && declares_category(tree, parsed[m].0, parsed[m].1)
                && #[trigger] tree.name_spec(parsed[m].0 as int) == n;
        let m2 = if m < k { m } else { m - 1 };
        assert(q[m2] == parsed[m]);
        assert(tree.name_spec(q[m2].0 as int) == n);
    }
    if declared_category(tree, q, parsed.len() - 1, n) {
        let m = choose|m: int|
            0 <= m < parsed.len() - 1 && declares_category(tree, q[m].0, q[m].1)
                && #[trigger] tree.name_spec(q[m].0 as int) == n;
        let m2 = if m < k { m } else { m + 1 };
        assert(q[m] == parsed[m2]);
        assert(tree.name_spec(parsed[m2].0 as int) == n);
    }
    if declared_subcategory(tree, parsed, names, parsed.len() as int, n) {
        let m = choose|m: int|
            0 <= m < parsed.len() && declares_subcategory(tree, parsed[m].0, parsed[m].1)
                && names.contains(parent_name(tree, parsed[m].0)) && #[trigger] tree.name_spec(
                parsed[m].0 as int,
            ) == n;
        let m2 = if m < k { m } else { m - 1 };
        assert(q[m2] == parsed[m]);
        assert(tree.name_spec(q[m2].0 as int) == n);
    }
    if declared_subcategory(tree, q, names, parsed.len() - 1, n) {
        let m = choose|m: int|
            0 <= m < parsed.len() - 1 && declares_subcategory(tree, q[m].0, q[m].1)
                && names.contains(parent_name(tree, q[m].0)) && #[trigger] tree.name_spec(q[m].0 as int)
                == n;
        let m2 = if m < k { m } else { m + 1 };
        assert(q[m] == parsed[m2]);
        assert(tree.name_spec(parsed[m2].0 as int) == n);
    }
}

/// Records the categories of depth-1 folders, then the subcategories of
/// depth-2 folders whose parent folder is a known category; other blocks
/// leave no trace. `parsed` pairs a node with its parsed configuration.
pub fn resolve_categories(tree: &ContentTree, parsed: &Vec<(usize, ConfigMeta)>) -> (r: SiteCategories)
    requires
        tree.wf(),
    ensures
        forall|n: Seq<char>|
            #[trigger] r.category_names().contains(n) <==> declared_category(
                *tree,
                parsed@,
                parsed@.len() as int,
                n,
            ),
        forall|n: Seq<char>|
            #[trigger] names_subcategory(r.subcategory_pairs(), n) <==> declared_subcategory(
                *tree,
                parsed@,
                r.category_names(),
                parsed@.len() as int,
                n,
            ),
        forall|j: int|
            0 <= j < r.subcategory_pairs().len() ==> r.category_names().contains(
                #[trigger] r.subcategory_pairs()[j].1,
            ) && subcategory_witnessed(
                *tree,
                parsed@,
                r.subcategory_pairs()[j].0,
                r.subcategory_pairs()[j].1,
            ),
{
    let mut cats = SiteCategories::new();
    let mut k: usize = 0;
    while k < parsed.len()
        invariant
            tree.wf(),
            k <= parsed.len(),
            cats.subcategory_pairs().len() == 0,
            forall|n: Seq<char>|
                #[trigger] cats.category_names().contains(n) <==> declared_category(
                    *tree,
                    parsed@,
                    k as int,
                    n,
                ),
        decreases parsed.len() - k,
    {
        let id = parsed[k].0;
        let ghost old_names = cats.category_names();
        let ghost mut changed = false;
        if id < tree.node_count() && tree.is_alive(id) && tree.depth(id) == 1 {
            if let Some(meta) = &parsed[k].1.category {
                if parsed[k].1.config_type().is_ok() {
                    let name = tree.name(id);
                    let entry = (name.clone(), meta.duplicate());
                    proof {
                        changed = true;
                    }
                    match cats.category_position(name.as_str()) {
                        Some(i) => {
                            cats.categories.set(i, entry);
                            assert(cats.category_names() =~= old_names);
                            assert(cats.category_names().contains(name@));
                        },
                        None => {
                            cats.categories.push(entry);
                            assert(cats.category_names() =~= old_names.push(name@));
                            assert(cats.category_names()[old_names.len() as int] == name@);
                        },
                    }
                }
            }
        }
        proof {
            let nm = tree.name_spec(parsed@[k as int].0 as int);
            assert(!changed ==> cats.category_names() == old_names);
            assert(changed ==> cats.category_names() == old_names || cats.category_names() == old_names.push(nm));
            assert(changed ==> cats.category_names().contains(nm));
            assert(changed == declares_category(*tree, parsed@[k as int].0, parsed@[k as int].1));
            assert forall|n: Seq<char>|
                #[trigger] cats.category_names().contains(n) <==> declared_category(
                    *tree,
                    parsed@,
                    k + 1,
                    n,
                ) by {
                assert(old_names.contains(n) <==> declared_category(*tree, parsed@, k as int, n));
                if cats.category_names().contains(n) && !old_names.contains(n) {
                    let i = choose|i: int| 0 <= i < cats.category_names().len() && cats.category_names()[i] == n;
                    assert(i == old_names.len());
                    assert(nm == n);
                }
                if old_names.contains(n) {
                    let i = choose|i: int| 0 <= i < old_names.len() && old_names[i] == n;
                    assert(cats.category_names()[i] == n);
                }
                if declared_category(*tree, parsed@, k + 1, n) && !declared_category(*tree, parsed@, k as int, n) {
                    assert(nm == n);
                }
            }
        }
        k = k + 1;
    }
    k = 0;
    while k < parsed.len()
        invariant
            tree.wf(),
            k <= parsed.len(),
            forall|n: Seq<char>|
                #[trigger] cats.category_names().contains(n) <==> declared_category(
                    *tree,
                    parsed@,
                    parsed@.len() as int,
                    n,
                ),
            forall|n: Seq<char>|
                #[trigger] names_subcategory(cats.subcategory_pairs(), n) <==> declared_subcategory(
                    *tree,
                    parsed@,
                    cats.category_names(),
                    k as int,
                    n,
                ),
            forall|j: int|
                0 <= j < cats.subcategory_pairs().len() ==> cats.category_names().contains(
                    #[trigger] cats.subcategory_pairs()[j].1,
                ) && subcategory_witnessed(
                    *tree,
                    parsed@,
                    cats.subcategory_pairs()[j].0,
                    cats.subcategory_pairs()[j].1,
                ),
        decreases parsed.len() - k,
    {
        let id = parsed[k].0;
        let ghost old_pairs = cats.subcategory_pairs();
        let ghost names = cats.category_names();
        let ghost mut changed = false;
        let ghost mut pair: (Seq<char>, Seq<char>) = (Seq::empty(), Seq::empty());
        let ghost mut at: int = 0;
        if id < tree.node_count() && tree.is_alive(id) && tree.depth(id) == 2 {
            if let Some(meta) = &parsed[k].1.subcategory {
                if parsed[k].1.config_type().is_ok() {
                    proof {
                        tree.lemma_parents();
                    }
                    let p = tree.parent(id).unwrap();
                    let pname = tree.name(p);
                    if cats.has_category(pname.as_str()) {
                        let name = tree.name(id);
                        let entry = (name.clone(), pname.clone(), meta.duplicate());
                        proof {
                            changed = true;
                            pair = (name@, pname@);
                        }
                        match cats.subcategory_position(name.as_str()) {
                            Some(i) => {
                                cats.subcategories.set(i, entry);
                                proof {
                                    at = i as int;
                                }
                                assert(cats.subcategory_pairs() =~= old_pairs.update(i as int, pair));
                            },
                            None => {
                                cats.subcategories.push(entry);
                                proof {
                                    at = old_pairs.len() as int;
                                }
                                assert(cats.subcategory_pairs() =~= old_pairs.push(pair));
                            },
                        }
                    }
                }
            }
        }
        proof {
            assert(cats.category_names() =~= names);
            let pairs = cats.subcategory_pairs();
            assert(!changed ==> pairs == old_pairs);
            assert(changed ==> 0 <= at < pairs.len() && pairs[at] == pair
                && (at < old_pairs.len() ==> old_pairs[at].0 == pair.0 && pairs.len() == old_pairs.len())
                && (at == old_pairs.len() ==> pairs.len() == old_pairs.len() + 1)
                && (forall|j: int| 0 <= j < old_pairs.len() && j != at ==> pairs[j] == old_pairs[j]));
            assert(changed ==> declares_subcategory(*tree, parsed@[k as int].0, parsed@[k as int].1)
                && names.contains(parent_name(*tree, parsed@[k as int].0))
                && tree.name_spec(parsed@[k as int].0 as int) == pair.0
                && parent_name(*tree, parsed@[k as int].0) == pair.1);
            assert(declares_subcategory(*tree, parsed@[k as int].0, parsed@[k as int].1)
                && names.contains(parent_name(*tree, parsed@[k as int].0)) ==> changed);
            assert forall|n: Seq<char>|
                #[trigger] names_subcategory(pairs, n) <==> declared_subcategory(
                    *tree,
                    parsed@,
                    names,
                    k + 1,
                    n,
                ) by {
                assert(names_subcategory(old_pairs, n) <==> declared_subcategory(
                    *tree,
                    parsed@,
                    names,
                    k as int,
                    n,
                ));
                if exists|j: int| 0 <= j < pairs.len() && #[trigger] pairs[j].0 == n {
                    let j = choose|j: int| 0 <= j < pairs.len() && #[trigger] pairs[j].0 == n;
                    if changed && j == at {
                        assert(tree.name_spec(parsed@[k as int].0 as int) == n);
                    } else {
                        assert(pairs[j] == old_pairs[j]);
                        assert(old_pairs[j].0 == n);
                    }
                }
                if exists|m: int| 0 <= m < k + 1 && declares_subcategory(*tree, parsed@[m].0, parsed@[m].1)
                        && names.contains(parent_name(*tree, parsed@[m].0))
                        && #[trigger] tree.name_spec(parsed@[m].0 as int) == n {
                    let m = choose|m: int| 0 <= m < k + 1 && declares_subcategory(*tree, parsed@[m].0, parsed@[m].1)
                        && names.contains(parent_name(*tree, parsed@[m].0))
                        && #[trigger] tree.name_spec(parsed@[m].0 as int) == n;
                    if m == k {
                        assert(pairs[at].0 == n);
                    } else {
                        assert(exists|j: int| 0 <= j < old_pairs.len() && #[trigger] old_pairs[j].0 == n);
                        let j = choose|j: int| 0 <= j < old_pairs.len() && #[trigger] old_pairs[j].0 == n;
                        if changed && j == at {
                            assert(pairs[at].0 == n);
                        } else {
                            assert(pairs[j].0 == n);
                        }
                    }
                }
            }
            assert forall|j: int| 0 <= j < pairs.len() implies names.contains(#[trigger] pairs[j].1)
                && subcategory_witnessed(*tree, parsed@, pairs[j].0, pairs[j].1) by {
                if changed && j == at {
                    assert(declares_subcategory(*tree, parsed@[k as int].0, parsed@[k as int].1));
                    assert(tree.name_spec(parsed@[k as int].0 as int) == pairs[j].0);
                } else {
                    assert(pairs[j] == old_pairs[j]);
                }
            }
        }
        k = k + 1;
    }
    cats
}

} // verus!
