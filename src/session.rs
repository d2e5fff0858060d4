//! The build session: at most one build runs, at most one more waits, and a
//! finished build is compared with the previous one by artifact hash.
use vstd::prelude::*;

verus! {

/// One change between two builds' artifact sets.
#[derive(Clone, Copy, Debug, PartialEq, Eq)]
pub enum SiteContentDiffElem {
    Removed(u64),
    Added(u64),
}

/// The hashes of `cur` that `prev` lacks, each once, in the order they
/// first occur in `cur`.
pub open spec fn missing_from(prev: Seq<u64>, cur: Seq<u64>) -> Seq<u64>
    decreases cur.len(),
{
    if cur.len() == 0 {
        Seq::empty()
    } else {
        let rest = missing_from(prev, cur.subrange(0, cur.len() - 1));
        if prev.contains(cur[cur.len() - 1]) || rest.contains(cur[cur.len() - 1]) {
            rest
        } else {
            rest.push(cur[cur.len() - 1])
        }
    }
}

/// The diff: every added hash, then every removed one.
pub open spec fn diff_spec(prev: Seq<u64>, cur: Seq<u64>) -> Seq<SiteContentDiffElem> {
    missing_from(prev, cur).map_values(|h: u64| SiteContentDiffElem::Added(h)) + missing_from(
        cur,
        prev,
    ).map_values(|h: u64| SiteContentDiffElem::Removed(h))
}

fn contains_hash(v: &Vec<u64>, h: u64) -> (r: bool)
    ensures
        r == v@.contains(h),
{
    let mut i: usize = 0;
    while i < v.len()
        invariant
            i <= v.len(),
            forall|j: int| 0 <= j < i ==> v@[j] != h,
        decreases v.len() - i,
    {
        if v[i] == h {
            assert(v@[i as int] == h);
            return true;
        }
        i = i + 1;
    }
    false
}

fn missing(prev: &Vec<u64>, cur: &Vec<u64>) -> (r: Vec<u64>)
    ensures
        r@ == missing_from(prev@, cur@),
{
    let mut out: Vec<u64> = Vec::new();
    let mut i: usize = 0;
    while i < cur.len()
        invariant
            i <= cur.len(),
            out@ == missing_from(prev@, cur@.subrange(0, i as int)),
        decreases cur.len() - i,
    {
        proof {
            let next = cur@.subrange(0, i + 1);
            assert(next.subrange(0, next.len() - 1) =~= cur@.subrange(0, i as int));
            assert(next[next.len() - 1] == cur@[i as int]);
        }
        if !contains_hash(prev, cur[i]) && !contains_hash(&out, cur[i]) {
            out.push(cur[i]);
        }
        i = i + 1;
    }
    assert(cur@.subrange(0, cur@.len() as int) =~= cur@);
    out
}

/// Compares the artifact hashes of the previous build with the current one's.
pub fn site_content_diff(previous: &Vec<u64>, current: &Vec<u64>) -> (r: Vec<SiteContentDiffElem>)
    ensures
        r@ == diff_spec(previous@, current@),
{
    let added = missing(previous, current);
    let removed = missing(current, previous);
    let mut out: Vec<SiteContentDiffElem> = Vec::new();
    let mut i: usize = 0;
    while i < added.len()
        invariant
            i <= added.len(),
            out@ == added@.subrange(0, i as int).map_values(|h: u64| SiteContentDiffElem::Added(h)),
        decreases added.len() - i,
    {
        out.push(SiteContentDiffElem::Added(added[i]));
        i = i + 1;
        assert(out@ =~= added@.subrange(0, i as int).map_values(|h: u64| SiteContentDiffElem::Added(h)));
    }
    let ghost first = out@;
    assert(added@.subrange(0, added@.len() as int) =~= added@);
    let mut j: usize = 0;
    while j < removed.len()
        invariant
            j <= removed.len(),
            out@ == first + removed@.subrange(0, j as int).map_values(
                |h: u64| SiteContentDiffElem::Removed(h),
            ),
        decreases removed.len() - j,
    {
        out.push(SiteContentDiffElem::Removed(removed[j]));
        j = j + 1;
        assert(out@ =~= first + removed@.subrange(0, j as int).map_values(
            |h: u64| SiteContentDiffElem::Removed(h),
        ));
    }
    assert(removed@.subrange(0, removed@.len() as int) =~= removed@);
    out
}

/// What a build request gets.
#[derive(Clone, Copy, Debug, PartialEq, Eq)]
pub enum BuildRequest {
    /// No build was running: this one starts now.
    Started,
    /// A build is running: this one waits and starts when it finishes.
    Queued,
    /// A build is running and another already waits: this one is refused.
    Busy,
}

/// The build-wide lock: one build in flight, one more waiting at most.
pub struct BuildLock {
    running: bool,
    pending: bool,
}

impl BuildLock {
    pub closed spec fn running_spec(&self) -> bool {
        self.running
    }

    pub closed spec fn pending_spec(&self) -> bool {
        self.pending
    }

    /// Nothing waits unless something runs.
    pub open spec fn wf(&self) -> bool {
        self.pending_spec() ==> self.running_spec()
    }

    pub fn new() -> (r: BuildLock)
        ensures
            r.wf(),
            !r.running_spec(),
            !r.pending_spec(),
    {
        BuildLock { running: false, pending: false }
    }

    /// Whether a build is in flight.
    pub fn is_running(&self) -> (r: bool)
        ensures
            r == self.running_spec(),
    {
        self.running
    }

    /// Asks to start a build. Only an idle lock starts one; a request that
    /// sees a build in flight never starts a second one beside it.
    pub fn request(&mut self) -> (r: BuildRequest)
        requires
            old(self).wf(),
        ensures
            final(self).wf(),
            final(self).running_spec(),
            !old(self).running_spec() ==> r == BuildRequest::Started && !final(self).pending_spec(),
            old(self).running_spec() && !old(self).pending_spec() ==> r == BuildRequest::Queued
                && final(self).pending_spec(),
            old(self).running_spec() && old(self).pending_spec() ==> r == BuildRequest::Busy
                && final(self).pending_spec(),
    {
        if !self.running {
            self.running = true;
            BuildRequest::Started
        } else if !self.pending {
            self.pending = true;
            BuildRequest::Queued
        } else {
            BuildRequest::Busy
        }
    }

    /// Ends the running build. Returns whether the waiting one starts now.
    pub fn finish(&mut self) -> (r: bool)
        requires
            old(self).wf(),
            old(self).running_spec(),
        ensures
            final(self).wf(),
            r == old(self).pending_spec(),
            final(self).running_spec() == old(self).pending_spec(),
            !final(self).pending_spec(),
    {
        if self.pending {
            self.pending = false;
            true
        } else {
            self.running = false;
            false
        }
    }
}

} // verus!
