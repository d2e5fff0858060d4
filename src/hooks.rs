//! Theme scripting hooks: named filters, testers, functions and shortcodes,
//! each with its own invocation counter.
use vstd::prelude::*;
use crate::names::{stem_of, file_stem};
use crate::text::str_eq;

verus! {

/// What a hook is called as in templates.
#[derive(Clone, Copy, Debug, PartialEq, Eq, Structural)]
pub enum HookKind {
    Filter,
    Tester,
    Function,
    Shortcode,
}

/// A theme hook: its kind, name, source and how often it ran.
pub struct Hook {
    pub kind: HookKind,
    pub name: String,
    pub source: String,
    pub times: u64,
}

/// The counter value a call reads, then the counter after the call. The
/// counter is read before it is incremented, so the first call sees 0.
pub open spec fn next_count(times: u64) -> u64 {
    if times == u64::MAX {
        u64::MAX
    } else {
        (times + 1) as u64
    }
}

impl Hook {
    pub closed spec fn times_spec(&self) -> u64 {
        self.times
    }

    pub fn new(kind: HookKind, name: String, source: String) -> (r: Hook)
        ensures
            r.kind == kind,
            r.name@ == name@,
            r.source@ == source@,
            r.times_spec() == 0,
    {
        Hook { kind, name, source, times: 0 }
    }

    /// Counts one call: hands out the number of earlier calls, then adds one.
    pub fn invoke(&mut self) -> (r: u64)
        ensures
            r == old(self).times_spec(),
            final(self).times_spec() == next_count(old(self).times_spec()),
            final(self).kind == old(self).kind,
            final(self).name@ == old(self).name@,
            final(self).source@ == old(self).source@,
    {
        let r = self.times;
        if self.times < u64::MAX {
            self.times = self.times + 1;
        }
        r
    }

    /// Number of calls so far.
    pub fn times(&self) -> (r: u64)
        ensures
            r == self.times_spec(),
    {
        self.times
    }
}

/// The hook name a theme file gives: its name without the extension.
pub fn hook_name(file_name: &str) -> (r: String)
    ensures
        r@ == stem_of(file_name@),
{
    file_stem(file_name)
}

/// Hooks of a theme; no two of one kind share a name.
pub struct ThemeHooks {
    hooks: Vec<Hook>,
}

/// Why a hook cannot be added.
#[derive(Clone, Copy, Debug, PartialEq, Eq)]
pub enum HookError {
    /// A hook of that kind and name exists already.
    Duplicate,
}

impl ThemeHooks {
    /// Each hook's kind and name.
    pub closed spec fn keys(&self) -> Seq<(HookKind, Seq<char>)> {
        self.hooks@.map_values(|h: Hook| (h.kind, h.name@))
    }

    /// The source text of the hooks, in the order of `keys`.
    pub closed spec fn sources(&self) -> Seq<Seq<char>> {
        self.hooks@.map_values(|h: Hook| h.source@)
    }

    /// The counters of the hooks, in the order of `keys`.
    pub closed spec fn counts(&self) -> Seq<u64> {
        self.hooks@.map_values(|h: Hook| h.times)
    }

    pub open spec fn wf(&self) -> bool {
        &&& self.counts().len() == self.keys().len()
        &&& forall|i: int, j: int| 0 <= i < j < self.keys().len() ==> self.keys()[i] != self.keys()[j]
    }

    pub fn new() -> (r: ThemeHooks)
        ensures
            r.wf(),
            r.keys().len() == 0,
    {
        let r = ThemeHooks { hooks: Vec::new() };
        assert(r.keys() =~= Seq::<(HookKind, Seq<char>)>::empty());
        assert(r.counts() =~= Seq::<u64>::empty());
        r
    }

    /// Number of hooks.
    pub fn len(&self) -> (r: usize)
        requires
            self.wf(),
        ensures
            r == self.keys().len(),
    {
        self.hooks.len()
    }

    /// The `i`-th hook.
    pub fn get(&self, i: usize) -> (r: &Hook)
        requires
            self.wf(),
            i < self.keys().len(),
        ensures
            (r.kind, r.name@) == self.keys()[i as int],
    {
        &self.hooks[i]
    }

    fn position(&self, kind: HookKind, name: &str) -> (r: Option<usize>)
        ensures
            r matches Some(i) ==> i < self.keys().len() && self.keys()[i as int] == (kind, name@),
            r is None ==> !self.keys().contains((kind, name@)),
    {
        let mut i: usize = 0;
        while i < self.hooks.len()
            invariant
                i <= self.hooks.len(),
                forall|j: int| 0 <= j < i ==> self.keys()[j] != (kind, name@),
            decreases self.hooks.len() - i,
        {
            if self.hooks[i].kind == kind && str_eq(self.hooks[i].name.as_str(), name) {
                return Some(i);
            }
            i = i + 1;
        }
        None
    }

    /// Adds a hook with a fresh counter; a second hook of the same kind and
    /// name is refused, so a broken theme never silently loses one.
    pub fn add(&mut self, kind: HookKind, name: String, source: String) -> (r: Result<(), HookError>)
        requires
            old(self).wf(),
        ensures
            final(self).wf(),
            r is Err <==> old(self).keys().contains((kind, name@)),
            r is Err ==> final(self).keys() == old(self).keys() && final(self).counts() == old(self).counts(),
            r is Ok ==> final(self).keys() == old(self).keys().push((kind, name@)) && final(self).counts()
                == old(self).counts().push(0) && final(self).sources() == old(self).sources().push(source@),
            r is Err ==> final(self).sources() == old(self).sources(),
    {
        if self.position(kind, name.as_str()).is_some() {
            return Err(HookError::Duplicate);
        }
        let ghost k = (kind, name@);
        let ghost ok = self.keys();
        let ghost oc = self.counts();
        let ghost os = self.sources();
        let ghost sv = source@;
        self.hooks.push(Hook::new(kind, name, source));
        assert(self.sources() =~= os.push(sv));
        assert(self.keys() =~= ok.push(k));
        assert(self.counts() =~= oc.push(0));
        Ok(())
    }

    /// Calls hook `name` of kind `kind`: the number of its earlier calls.
    pub fn invoke(&mut self, kind: HookKind, name: &str) -> (r: Option<u64>)
        requires
            old(self).wf(),
        ensures
            final(self).wf(),
            final(self).keys() == old(self).keys(),
            r is None <==> !old(self).keys().contains((kind, name@)),
            r is None ==> final(self).counts() == old(self).counts(),
            r matches Some(t) ==> exists|i: int|
                0 <= i < old(self).keys().len() && old(self).keys()[i] == (kind, name@) && t == old(self).counts()[i] && final(self).counts() == old(self).counts().update(
                    i,
                    next_count(t),
                ),
    {
        match self.position(kind, name) {
            None => None,
            Some(i) => {
                let ghost ok = self.keys();
                let ghost oc = self.counts();
                let mut slot = Hook::new(HookKind::Filter, String::new(), String::new());
                self.hooks.set_and_swap(i, &mut slot);
                let t = slot.invoke();
                self.hooks.set_and_swap(i, &mut slot);
                assert(self.keys() =~= ok);
                assert(self.counts() =~= oc.update(i as int, next_count(t)));
                Some(t)
            },
        }
    }
}

} // verus!
