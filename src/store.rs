//! The asset store: one record per distinct content hash, looked up by the
//! hash or by the source path that registered it.
use vstd::prelude::*;
use crate::asset::{base_name, hash_file, new_filename, rewritten_name, seahash_of};
use crate::text::str_eq;

verus! {

/// A published asset: its content hash, its published name and the path it came from.
#[derive(Debug)]
pub struct StaticAsset {
    pub content_hash: u64,
    pub rewritten_name: String,
    pub source_path: String,
}

/// The content hash, published name and source path of a record.
pub type AssetView = (u64, Seq<char>, Seq<char>);

impl View for StaticAsset {
    type V = AssetView;

    open spec fn view(&self) -> AssetView {
        (self.content_hash, self.rewritten_name@, self.source_path@)
    }
}

impl StaticAsset {
    /// A copy of the record.
    pub fn duplicate(&self) -> (r: StaticAsset)
        ensures
            r@ == self@,
    {
        StaticAsset {
            content_hash: self.content_hash,
            rewritten_name: self.rewritten_name.clone(),
            source_path: self.source_path.clone(),
        }
    }
}

/// Records hold pairwise distinct hashes.
pub open spec fn hashes_unique(rs: Seq<AssetView>) -> bool {
    forall|i: int, j: int| 0 <= i < j < rs.len() ==> rs[i].0 != rs[j].0
}

/// The position of the record with hash `h`.
pub open spec fn find_hash(rs: Seq<AssetView>, h: u64) -> Option<int> {
    if exists|i: int| 0 <= i < rs.len() && rs[i].0 == h {
        Some(choose|i: int| 0 <= i < rs.len() && rs[i].0 == h)
    } else {
        None
    }
}

/// The records after registering `bytes` from `path`, and the record handed back.
pub open spec fn register_spec(rs: Seq<AssetView>, path: Seq<char>, bytes: Seq<u8>) -> (
    Seq<AssetView>,
    Option<AssetView>,
) {
    if bytes.len() == 0 {
        (rs, None)
    } else {
        let h = seahash_of(bytes);
        match rewritten_name(base_name(path), h) {
            None => (rs, None),
            Some(n) => match find_hash(rs, h) {
                Some(i) => (rs, Some(rs[i])),
                None => (rs.push((h, n, path)), Some((h, n, path))),
            },
        }
    }
}

proof fn lemma_find_hash(rs: Seq<AssetView>, h: u64, i: int)
    requires
        hashes_unique(rs),
        0 <= i < rs.len(),
        rs[i].0 == h,
    ensures
        find_hash(rs, h) == Some(i),
{
}

/// Registering the same bytes from the same path a second time hands back
/// the very record that the first registration handed back, and adds nothing.
pub proof fn lemma_register_deterministic(rs: Seq<AssetView>, path: Seq<char>, bytes: Seq<u8>)
    requires
        hashes_unique(rs),
    ensures
        register_spec(register_spec(rs, path, bytes).0, path, bytes).1 == register_spec(
            rs,
            path,
            bytes,
        ).1,
        register_spec(register_spec(rs, path, bytes).0, path, bytes).0 == register_spec(
            rs,
            path,
            bytes,
        ).0,
{
    if bytes.len() > 0 {
        let h = seahash_of(bytes);
        if let Some(n) = rewritten_name(base_name(path), h) {
            match find_hash(rs, h) {
                Some(i) => {
                    lemma_find_hash(rs, h, i);
                },
                None => {
                    let rs2 = rs.push((h, n, path));
                    assert(hashes_unique(rs2));
                    lemma_find_hash(rs2, h, rs.len() as int);
                },
            }
        }
    }
}

/// Two files with the same bytes and the same file name, from any two paths,
/// share one record: the second registration hands back the first one's record.
pub proof fn lemma_identical_files_share_record(
    rs: Seq<AssetView>,
    p1: Seq<char>,
    p2: Seq<char>,
    bytes: Seq<u8>,
)
    requires
        hashes_unique(rs),
        base_name(p1) == base_name(p2),
    ensures
        register_spec(register_spec(rs, p1, bytes).0, p2, bytes).1 == register_spec(rs, p1, bytes).1,
        register_spec(register_spec(rs, p1, bytes).0, p2, bytes).0 == register_spec(rs, p1, bytes).0,
{
    if bytes.len() > 0 {
        let h = seahash_of(bytes);
        if let Some(n) = rewritten_name(base_name(p1), h) {
            match find_hash(rs, h) {
                Some(i) => {
                    lemma_find_hash(rs, h, i);
                },
                None => {
                    let rs2 = rs.push((h, n, p1));
                    assert(hashes_unique(rs2));
                    lemma_find_hash(rs2, h, rs.len() as int);
                },
            }
        }
    }
}

/// Published assets, deduplicated by content hash.
pub struct AssetStore {
    records: Vec<StaticAsset>,
    paths: Vec<(String, u64)>,
}

impl AssetStore {
    /// The records, in the order they were first registered.
    pub closed spec fn records(&self) -> Seq<AssetView> {
        self.records@.map_values(|a: StaticAsset| a@)
    }

    /// The registered source paths with the hash each registration resolved to.
    pub closed spec fn path_entries(&self) -> Seq<(Seq<char>, u64)> {
        self.paths@.map_values(|p: (String, u64)| (p.0@, p.1))
    }

    pub open spec fn wf(&self) -> bool {
        &&& hashes_unique(self.records())
        &&& forall|i: int|
            0 <= i < self.path_entries().len() ==> #[trigger] find_hash(
                self.records(),
                self.path_entries()[i].1,
            ) is Some
    }

    pub fn new() -> (r: AssetStore)
        ensures
            r.wf(),
            r.records() == Seq::<AssetView>::empty(),
            r.path_entries() == Seq::<(Seq<char>, u64)>::empty(),
    {
        let r = AssetStore { records: Vec::new(), paths: Vec::new() };
        assert(r.records() =~= Seq::<AssetView>::empty());
        assert(r.path_entries() =~= Seq::<(Seq<char>, u64)>::empty());
        r
    }

    /// Number of distinct records.
    pub fn len(&self) -> (r: usize)
        ensures
            r == self.records().len(),
    {
        self.records.len()
    }

    /// Position of the record with hash `h`.
    fn position_of(&self, h: u64) -> (r: Option<usize>)
        requires
            self.wf(),
        ensures
            r matches Some(i) ==> find_hash(self.records(), h) == Some(i as int),
            r is None ==> find_hash(self.records(), h) is None,
    {
        let mut i: usize = 0;
        while i < self.records.len()
            invariant
                self.wf(),
                i <= self.records.len(),
                forall|j: int| 0 <= j < i ==> self.records()[j].0 != h,
            decreases self.records.len() - i,
        {
            if self.records[i].content_hash == h {
                proof {
                    assert(self.records()[i as int].0 == h);
                    lemma_find_hash(self.records(), h, i as int);
                }
                return Some(i);
            }
            i = i + 1;
        }
        proof {
            assert forall|j: int| 0 <= j < self.records().len() implies self.records()[j].0 != h by {}
        }
        None
    }

    /// The record with content hash `h`.
    pub fn lookup_hash(&self, h: u64) -> (r: Option<&StaticAsset>)
        requires
            self.wf(),
        ensures
            r is Some <==> find_hash(self.records(), h) is Some,
            r matches Some(a) ==> a@ == self.records()[find_hash(self.records(), h)->0],
    {
        match self.position_of(h) {
            Some(i) => Some(&self.records[i]),
            None => None,
        }
    }

    /// The record that the latest registration of `path` resolved to.
    pub fn lookup_path(&self, path: &str) -> (r: Option<&StaticAsset>)
        requires
            self.wf(),
        ensures
            r is Some <==> exists|i: int|
                0 <= i < self.path_entries().len() && #[trigger] self.path_entries()[i].0 == path@,
            r matches Some(a) ==> exists|i: int|
                0 <= i < self.path_entries().len() && #[trigger] self.path_entries()[i].0 == path@
                    && (forall|j: int|
                    i < j < self.path_entries().len() ==> self.path_entries()[j].0 != path@)
                    && a@ == self.records()[find_hash(
                    self.records(),
                    self.path_entries()[i].1,
                )->0],
    {
        let mut i: usize = self.paths.len();
        while i > 0
            invariant
                self.wf(),
                i <= self.paths.len(),
                forall|j: int| i <= j < self.path_entries().len() ==> self.path_entries()[j].0 != path@,
            decreases i,
        {
            let k = i - 1;
            if str_eq(self.paths[k].0.as_str(), path) {
                assert(self.path_entries()[k as int].0 == path@);
                let h = self.paths[k].1;
                assert(find_hash(self.records(), self.path_entries()[k as int].1) is Some);
                return self.lookup_hash(h);
            }
            i = k;
        }
        None
    }

    /// Registers the bytes of the file at `path`. Empty files and files whose
    /// name holds no `.` are not published; bytes already registered hand back
    /// the existing record.
    pub fn register(&mut self, path: &str, bytes: &[u8]) -> (r: Option<StaticAsset>)
        requires
            old(self).wf(),
        ensures
            final(self).wf(),
            final(self).records() == register_spec(old(self).records(), path@, bytes@).0,
            r matches Some(a) ==> register_spec(old(self).records(), path@, bytes@).1 == Some(a@),
            r is None ==> register_spec(old(self).records(), path@, bytes@).1 is None,
            r is Some ==> final(self).path_entries() == old(self).path_entries().push(
                (path@, seahash_of(bytes@)),
            ),
            r is None ==> final(self).path_entries() == old(self).path_entries(),
    {
        if bytes.len() == 0 {
            return None;
        }
        let (h, name) = match new_filename(bytes, path) {
            Some(x) => x,
            None => return None,
        };
        let ghost old_paths = self.path_entries();
        let ghost old_records = self.records();
        let result = match self.position_of(h) {
            Some(i) => self.records[i].duplicate(),
            None => {
                let rec = StaticAsset {
                    content_hash: h,
                    rewritten_name: name,
                    source_path: path.to_owned(),
                };
                let out = rec.duplicate();
                self.records.push(rec);
                proof {
                    assert(self.records() =~= old_records.push(out@));
                    assert(hashes_unique(self.records()));
                    lemma_find_hash(self.records(), h, old_records.len() as int);
                    assert forall|i: int| 0 <= i < old_paths.len() implies #[trigger] find_hash(
                        self.records(),
                        old_paths[i].1,
                    ) is Some by {
                        let k = find_hash(old_records, old_paths[i].1)->0;
                        assert(self.records()[k].0 == old_paths[i].1);
                    }
                }
                out
            },
        };
        self.paths.push((path.to_owned(), h));
        proof {
            assert(self.path_entries() =~= old_paths.push((path@, h)));
            assert forall|i: int| 0 <= i < self.path_entries().len() implies #[trigger] find_hash(
                self.records(),
                self.path_entries()[i].1,
            ) is Some by {
                if i == old_paths.len() {
                    let k = find_hash(self.records(), h);
                    assert(k is Some);
                }
            }
        }
        Some(result)
    }
}

} // verus!
