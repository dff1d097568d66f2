use vstd::prelude::*;
use crate::error::LoaderError;
use crate::filter::EnumerationFilter;
use crate::specifier::{canonical, is_canonical_form, normalize};

verus! {

/// What an identifier is bound to: a module handle, or another identifier
/// whose binding stands for it.
pub enum Binding {
    Direct(usize),
    Alias(String),
}

/// The mathematical value of a [`Binding`].
pub enum BindingView {
    Direct(usize),
    Alias(Seq<char>),
}

impl View for Binding {
    type V = BindingView;

    open spec fn view(&self) -> BindingView {
        match self {
            Binding::Direct(h) => BindingView::Direct(*h),
            Binding::Alias(t) => BindingView::Alias(t@),
        }
    }
}

/// One registered identifier with its binding.
pub struct Entry {
    pub name: String,
    pub binding: Binding,
}

/// The registry as a map from identifier to binding.
pub type Bindings = Map<Seq<char>, BindingView>;

/// The handle that `k` resolves to: its own, or that of its alias target
/// after exactly one hop. An alias of an alias resolves to nothing.
pub open spec fn resolved(m: Bindings, k: Seq<char>) -> Option<usize> {
    if !m.contains_key(k) {
        None
    } else {
        match m[k] {
            BindingView::Direct(h) => Some(h),
            BindingView::Alias(t) => if m.contains_key(t) {
                match m[t] {
                    BindingView::Direct(h) => Some(h),
                    BindingView::Alias(_) => None,
                }
            } else {
                None
            },
        }
    }
}

/// No alias points at another alias.
pub open spec fn single_hop(m: Bindings) -> bool {
    forall|k: Seq<char>| #[trigger]
        m.contains_key(k) ==> match m[k] {
            BindingView::Alias(t) => !(m.contains_key(t) && m[t] is Alias),
            BindingView::Direct(_) => true,
        }
}

/// Every registered identifier, and every alias target, is a canonical form.
pub open spec fn all_canonical(m: Bindings) -> bool {
    forall|k: Seq<char>| #[trigger]
        m.contains_key(k) ==> is_canonical_form(k) && (m[k] is Alias ==> is_canonical_form(
            m[k]->Alias_0,
        ))
}

/// Some registered alias points at `k`.
pub open spec fn is_alias_target(m: Bindings, k: Seq<char>) -> bool {
    exists|a: Seq<char>| #[trigger] m.contains_key(a) && m[a] == BindingView::Alias(k)
}

/// What a lookup of a raw identifier reports.
pub open spec fn lookup(m: Bindings, c: Option<Seq<char>>) -> Result<usize, LoaderError> {
    match c {
        Some(k) => match resolved(m, k) {
            Some(h) => Ok(h),
            None => Err(LoaderError::NotFound),
        },
        None => Err(LoaderError::NotFound),
    }
}

/// The registry after binding the canonical identifier `c` to `handle`: an
/// alias binding stays as it is, anything else becomes a direct binding.
pub open spec fn after_set(m: Bindings, c: Seq<char>, handle: usize) -> Bindings {
    if m.contains_key(c) && m[c] is Alias {
        m
    } else {
        m.insert(c, BindingView::Direct(handle))
    }
}

/// What binding `c` to `handle` reports: for an existing alias the handle
/// behind it, or `NotFound` where its target is missing; else the handle
/// just bound.
pub open spec fn set_reports(m: Bindings, c: Seq<char>, handle: usize) -> Result<
    usize,
    LoaderError,
> {
    if m.contains_key(c) && m[c] is Alias {
        match resolved(m, c) {
            Some(h) => Ok(h),
            None => Err(LoaderError::NotFound),
        }
    } else {
        Ok(handle)
    }
}

/// Whether `c` may become an alias of `t` without making a chain.
pub open spec fn alias_allowed(m: Bindings, c: Seq<char>, t: Seq<char>) -> bool {
    c != t && m.contains_key(t) && m[t] is Direct && !is_alias_target(m, c)
}

/// Whether `out` holds an identifier equal to `k`.
pub open spec fn lists_key(out: Seq<String>, k: Seq<char>) -> bool {
    exists|j: int| 0 <= j < out.len() && (#[trigger] out[j])@ == k
}

/// Whether `out` holds a pair whose identifier equals `k`.
pub open spec fn lists_entry(out: Seq<(String, usize)>, k: Seq<char>) -> bool {
    exists|j: int| 0 <= j < out.len() && (#[trigger] out[j]).0@ == k
}

proof fn lemma_key_stays_listed(before: Seq<String>, after: Seq<String>, k: Seq<char>)
    requires
        after.len() == before.len() + 1,
        forall|j: int| 0 <= j < before.len() ==> after[j] == before[j],
        lists_key(before, k) || after[before.len() as int]@ == k,
    ensures
        lists_key(after, k),
{
    if lists_key(before, k) {
        let j = choose|j: int| 0 <= j < before.len() && (#[trigger] before[j])@ == k;
        assert(after[j]@ == k);
    } else {
        assert(after[before.len() as int]@ == k);
    }
}

proof fn lemma_entry_stays_listed(
    before: Seq<(String, usize)>,
    after: Seq<(String, usize)>,
    k: Seq<char>,
)
    requires
        after.len() == before.len() + 1,
        forall|j: int| 0 <= j < before.len() ==> after[j] == before[j],
        lists_entry(before, k) || after[before.len() as int].0@ == k,
    ensures
        lists_entry(after, k),
{
    if lists_entry(before, k) {
        let j = choose|j: int| 0 <= j < before.len() && (#[trigger] before[j]).0@ == k;
        assert(after[j].0@ == k);
    } else {
        assert(after[before.len() as int].0@ == k);
    }
}

/// The mapping from canonical identifier to binding, in insertion order.
pub struct ModuleRegistry {
    entries: Vec<Entry>,
}

impl ModuleRegistry {
    spec fn has(&self, k: Seq<char>) -> bool {
        exists|i: int| 0 <= i < self.entries@.len() && (#[trigger] self.entries@[i]).name@ == k
    }

    spec fn slot(&self, k: Seq<char>) -> int {
        choose|i: int| 0 <= i < self.entries@.len() && (#[trigger] self.entries@[i]).name@ == k
    }

    /// The registry's contents as a map.
    pub closed spec fn view(&self) -> Bindings {
        Map::new(|k: Seq<char>| self.has(k), |k: Seq<char>| self.entries@[self.slot(k)].binding@)
    }

    /// No identifier is stored twice.
    pub closed spec fn distinct(&self) -> bool {
        forall|i: int, j: int|
            0 <= i < j < self.entries@.len() ==> (#[trigger] self.entries@[i]).name@ != (
            #[trigger] self.entries@[j]).name@
    }

    /// No identifier is registered twice, all are canonical forms, and no
    /// alias points at an alias.
    pub open spec fn wf(&self) -> bool {
        &&& self.distinct()
        &&& all_canonical(self@)
        &&& single_hop(self@)
    }

    proof fn lemma_slot(&self, i: int)
        requires
            self.distinct(),
            0 <= i < self.entries@.len(),
        ensures
            self@.contains_key(self.entries@[i].name@),
            self@[self.entries@[i].name@] == self.entries@[i].binding@,
    {
        let k = self.entries@[i].name@;
        assert(self.has(k));
        let s = self.slot(k);
        assert(0 <= s < self.entries@.len() && self.entries@[s].name@ == k);
        if s < i {
            assert(self.entries@[s].name@ != self.entries@[i].name@);
        } else if i < s {
            assert(self.entries@[i].name@ != self.entries@[s].name@);
        }
    }

    proof fn lemma_key(&self, k: Seq<char>) -> (i: int)
        requires
            self@.contains_key(k),
        ensures
            0 <= i < self.entries@.len(),
            self.entries@[i].name@ == k,
            self@[k] == self.entries@[i].binding@,
    {
        assert(self.has(k));
        self.slot(k)
    }

    proof fn lemma_absent(&self, k: Seq<char>)
        requires
            forall|i: int| 0 <= i < self.entries@.len() ==> (#[trigger] self.entries@[i]).name@ != k,
        ensures
            !self@.contains_key(k),
    {
    }

    /// An empty registry.
    pub fn new() -> (r: Self)
        ensures
            r.wf(),
            r@ == Map::<Seq<char>, BindingView>::empty(),
    {
        let r = ModuleRegistry { entries: Vec::new() };
        assert(r@ =~= Map::<Seq<char>, BindingView>::empty());
        r
    }

    /// The number of registered identifiers, internal ones included.
    pub fn len(&self) -> (n: usize)
        requires
            self.wf(),
        ensures
            n == self@.dom().len(),
            self@.dom().finite(),
    {
        proof {
            self.lemma_dom_len();
        }
        self.entries.len()
    }

    proof fn lemma_dom_len(&self)
        requires
            self.distinct(),
        ensures
            self@.dom().finite(),
            self@.dom().len() == self.entries@.len(),
    {
        let names = self.entries@.map_values(|e: Entry| e.name@);
        assert(names.no_duplicates()) by {
            assert forall|i: int, j: int|
                0 <= i < names.len() && 0 <= j < names.len() && i != j implies names[i]
                != names[j] by {
                if i < j {
                    assert(self.entries@[i].name@ != self.entries@[j].name@);
                } else {
                    assert(self.entries@[j].name@ != self.entries@[i].name@);
                }
            }
        }
        names.unique_seq_to_set();
        assert(names.to_set() =~= self@.dom()) by {
            assert forall|k: Seq<char>| names.to_set().contains(k) == self@.dom().contains(k) by {
                if names.contains(k) {
                    let i = choose|i: int| 0 <= i < names.len() && names[i] == k;
                    assert(self.entries@[i].name@ == k);
                    assert(self.has(k));
                }
                if self.has(k) {
                    let i = self.slot(k);
                    assert(names[i] == k);
                }
            }
        }
    }

    fn find(&self, name: &String) -> (r: Option<usize>)
        ensures
            match r {
                Some(i) => i < self.entries@.len() && self.entries@[i as int].name@ == name@,
                None => forall|i: int|
                    0 <= i < self.entries@.len() ==> (#[trigger] self.entries@[i]).name@ != name@,
            },
    {
        let mut i: usize = 0;
        while i < self.entries.len()
            invariant
                i <= self.entries@.len(),
                forall|j: int| 0 <= j < i ==> (#[trigger] self.entries@[j]).name@ != name@,
            decreases self.entries@.len() - i,
        {
            if self.entries[i].name == *name {
                return Some(i);
            }
            i += 1;
        }
        None
    }

    /// The handle that the stored identifier `name` resolves to, following at
    /// most one alias hop.
    pub fn resolve_canonical(&self, name: &String) -> (r: Option<usize>)
        requires
            self.wf(),
        ensures
            r == resolved(self@, name@),
    {
        match self.find(name) {
            None => {
                proof {
                    self.lemma_absent(name@);
                }
                None
            },
            Some(i) => {
                proof {
                    self.lemma_slot(i as int);
                }
                match &self.entries[i].binding {
                    Binding::Direct(h) => Some(*h),
                    Binding::Alias(t) => match self.find(t) {
                        None => {
                            proof {
                                self.lemma_absent(t@);
                            }
                            None
                        },
                        Some(j) => {
                            proof {
                                self.lemma_slot(j as int);
                            }
                            match &self.entries[j].binding {
                                Binding::Direct(h) => Some(*h),
                                Binding::Alias(_) => None,
                            }
                        },
                    },
                }
            },
        }
    }

    /// Looks a raw identifier up by its canonical form. An identifier that is
    /// malformed, unregistered or a dangling alias is `NotFound`.
    pub fn get(&self, specifier: &str) -> (r: Result<usize, LoaderError>)
        requires
            self.wf(),
        ensures
            r == lookup(self@, canonical(specifier@)),
    {
        match normalize(specifier) {
            Err(_) => Err(LoaderError::NotFound),
            Ok(name) => match self.resolve_canonical(&name) {
                Some(h) => Ok(h),
                None => Err(LoaderError::NotFound),
            },
        }
    }
}

impl ModuleRegistry {
    proof fn lemma_view_is(&self, m: Bindings)
        requires
            self.distinct(),
            forall|i: int|
                0 <= i < self.entries@.len() ==> m.contains_key(
                    (#[trigger] self.entries@[i]).name@,
                ) && m[self.entries@[i].name@] == self.entries@[i].binding@,
            forall|k: Seq<char>| m.contains_key(k) ==> self.has(k),
        ensures
            self@ == m,
    {
        assert forall|k: Seq<char>| self@.contains_key(k) == m.contains_key(k) by {
            if self.has(k) {
                let i = self.slot(k);
                assert(m.contains_key(self.entries@[i].name@));
            }
        }
        assert forall|k: Seq<char>| self@.contains_key(k) implies self@[k] == m[k] by {
            let i = self.slot(k);
            assert(m[self.entries@[i].name@] == self.entries@[i].binding@);
        }
        assert(self@ =~= m);
    }

    /// Binds the canonical identifier `name` to `handle`, unless it is an
    /// alias: then nothing changes and the handle behind the alias is
    /// reported, or `NotFound` where the target of the alias is missing.
    pub fn bind(&mut self, name: String, handle: usize) -> (r: Result<usize, LoaderError>)
        requires
            old(self).wf(),
            is_canonical_form(name@),
        ensures
            final(self).wf(),
            final(self)@ == after_set(old(self)@, name@, handle),
            r == set_reports(old(self)@, name@, handle),
    {
        let ghost pre = *self;
        let ghost m = after_set(pre@, name@, handle);
        match self.find(&name) {
            None => {
                proof {
                    pre.lemma_absent(name@);
                }
                self.entries.push(Entry { name, binding: Binding::Direct(handle) });
                proof {
                    let n = pre.entries@.len() as int;
                    assert forall|i: int| 0 <= i < self.entries@.len() implies m.contains_key(
                        (#[trigger] self.entries@[i]).name@,
                    ) && m[self.entries@[i].name@] == self.entries@[i].binding@ by {
                        if i < n {
                            assert(self.entries@[i] == pre.entries@[i]);
                            pre.lemma_slot(i);
                        }
                    }
                    assert forall|k: Seq<char>| m.contains_key(k) implies self.has(k) by {
                        if k == name@ {
                            assert(self.entries@[n].name@ == k);
                        } else {
                            let i = pre.lemma_key(k);
                            assert(self.entries@[i].name@ == k);
                        }
                    }
                    assert(self.distinct()) by {
                        assert forall|i: int, j: int|
                            0 <= i < j < self.entries@.len() implies (
                        #[trigger] self.entries@[i]).name@ != (
                        #[trigger] self.entries@[j]).name@ by {
                            assert(self.entries@[i] == pre.entries@[i]);
                            if j < n {
                                assert(self.entries@[j] == pre.entries@[j]);
                            } else {
                                assert(pre.entries@[i].name@ != name@);
                            }
                        }
                    }
                    self.lemma_view_is(m);
                }
                Ok(handle)
            },
            Some(i) => {
                proof {
                    pre.lemma_slot(i as int);
                }
                let aliased = match &self.entries[i].binding {
                    Binding::Alias(_) => true,
                    Binding::Direct(_) => false,
                };
                if aliased {
                    match self.resolve_canonical(&name) {
                        Some(h) => Ok(h),
                        None => Err(LoaderError::NotFound),
                    }
                } else {
                    self.entries.set(i, Entry { name, binding: Binding::Direct(handle) });
                    proof {
                        assert forall|j: int| 0 <= j < self.entries@.len() implies m.contains_key(
                            (#[trigger] self.entries@[j]).name@,
                        ) && m[self.entries@[j].name@] == self.entries@[j].binding@ by {
                            pre.lemma_slot(j);
                            if j != i {
                                assert(self.entries@[j] == pre.entries@[j]);
                                if j < i {
                                    assert(pre.entries@[j].name@ != pre.entries@[i as int].name@);
                                } else {
                                    assert(pre.entries@[i as int].name@ != pre.entries@[j].name@);
                                }
                            }
                        }
                        assert forall|k: Seq<char>| m.contains_key(k) implies self.has(k) by {
                            if k == name@ {
                                assert(self.entries@[i as int].name@ == k);
                            } else {
                                let j = pre.lemma_key(k);
                                assert(self.entries@[j].name@ == k);
                            }
                        }
                        assert(self.distinct()) by {
                            assert forall|a: int, b: int|
                                0 <= a < b < self.entries@.len() implies (
                            #[trigger] self.entries@[a]).name@ != (
                            #[trigger] self.entries@[b]).name@ by {
                                assert(self.entries@[a].name@ == pre.entries@[a].name@);
                                assert(self.entries@[b].name@ == pre.entries@[b].name@);
                            }
                        }
                        self.lemma_view_is(m);
                    }
                    Ok(handle)
                }
            },
        }
    }

    /// Normalises `specifier` and binds it to `handle` as [`Self::bind`]
    /// does. A malformed identifier is refused with `NotFound`, and so is an
    /// alias whose target is missing.
    pub fn set(&mut self, specifier: &str, handle: usize) -> (r: Result<usize, LoaderError>)
        requires
            old(self).wf(),
        ensures
            final(self).wf(),
            match canonical(specifier@) {
                Some(c) => final(self)@ == after_set(old(self)@, c, handle) && r == set_reports(
                    old(self)@,
                    c,
                    handle,
                ),
                None => final(self)@ == old(self)@ && r == Err::<usize, LoaderError>(
                    LoaderError::NotFound,
                ),
            },
    {
        match normalize(specifier) {
            Err(_) => Err(LoaderError::NotFound),
            Ok(name) => self.bind(name, handle),
        }
    }

    /// Removes the binding of the stored identifier `name`; reports whether
    /// there was one.
    pub fn unbind(&mut self, name: &String) -> (r: bool)
        requires
            old(self).wf(),
        ensures
            final(self).wf(),
            final(self)@ == old(self)@.remove(name@),
            r == old(self)@.contains_key(name@),
    {
        let ghost pre = *self;
        let ghost m = pre@.remove(name@);
        match self.find(name) {
            None => {
                proof {
                    pre.lemma_absent(name@);
                    assert(m =~= pre@);
                }
                false
            },
            Some(i) => {
                proof {
                    pre.lemma_slot(i as int);
                }
                let _ = self.entries.remove(i);
                proof {
                    assert forall|j: int| 0 <= j < self.entries@.len() implies m.contains_key(
                        (#[trigger] self.entries@[j]).name@,
                    ) && m[self.entries@[j].name@] == self.entries@[j].binding@ by {
                        if j < i {
                            assert(self.entries@[j] == pre.entries@[j]);
                            pre.lemma_slot(j);
                            assert(pre.entries@[j].name@ != pre.entries@[i as int].name@);
                        } else {
                            assert(self.entries@[j] == pre.entries@[j + 1]);
                            pre.lemma_slot(j + 1);
                            assert(pre.entries@[i as int].name@ != pre.entries@[j + 1].name@);
                        }
                    }
                    assert forall|k: Seq<char>| m.contains_key(k) implies self.has(k) by {
                        let j = pre.lemma_key(k);
                        if j < i {
                            assert(self.entries@[j].name@ == k);
                        } else {
                            assert(self.entries@[j - 1] == pre.entries@[j]);
                            assert(self.entries@[j - 1].name@ == k);
                        }
                    }
                    assert(self.distinct()) by {
                        assert forall|a: int, b: int|
                            0 <= a < b < self.entries@.len() implies (
                        #[trigger] self.entries@[a]).name@ != (
                        #[trigger] self.entries@[b]).name@ by {
                            let a0 = if a < i { a } else { a + 1 };
                            let b0 = if b < i { b } else { b + 1 };
                            assert(self.entries@[a] == pre.entries@[a0]);
                            assert(self.entries@[b] == pre.entries@[b0]);
                            assert(pre.entries@[a0].name@ != pre.entries@[b0].name@);
                        }
                    }
                    self.lemma_view_is(m);
                }
                true
            },
        }
    }

    /// Normalises `specifier` and removes its binding; reports whether a
    /// removal occurred. A malformed identifier is `InvalidSpecifier`.
    pub fn delete(&mut self, specifier: &str) -> (r: Result<bool, LoaderError>)
        requires
            old(self).wf(),
        ensures
            final(self).wf(),
            match canonical(specifier@) {
                Some(c) => final(self)@ == old(self)@.remove(c) && r == Ok::<bool, LoaderError>(
                    old(self)@.contains_key(c),
                ),
                None => final(self)@ == old(self)@ && r == Err::<bool, LoaderError>(
                    LoaderError::InvalidSpecifier,
                ),
            },
    {
        match normalize(specifier) {
            Err(_) => Err(LoaderError::InvalidSpecifier),
            Ok(name) => Ok(self.unbind(&name)),
        }
    }
}

impl ModuleRegistry {
    /// Whether some registered alias points at the stored identifier `name`.
    pub fn points_at(&self, name: &String) -> (r: bool)
        requires
            self.wf(),
        ensures
            r == is_alias_target(self@, name@),
    {
        let mut i: usize = 0;
        while i < self.entries.len()
            invariant
                i <= self.entries@.len(),
                self.wf(),
                forall|j: int|
                    0 <= j < i ==> (#[trigger] self.entries@[j]).binding@ != BindingView::Alias(
                        name@,
                    ),
            decreases self.entries@.len() - i,
        {
            let hit = match &self.entries[i].binding {
                Binding::Alias(t) => *t == *name,
                Binding::Direct(_) => false,
            };
            if hit {
                proof {
                    self.lemma_slot(i as int);
                    assert(self@.contains_key(self.entries@[i as int].name@));
                }
                return true;
            }
            i += 1;
        }
        proof {
            assert forall|a: Seq<char>| #[trigger] self@.contains_key(a) implies self@[a]
                != BindingView::Alias(name@) by {
                let j = self.lemma_key(a);
                assert(self.entries@[j].binding@ != BindingView::Alias(name@));
            }
        }
        false
    }

    /// Makes the canonical identifier `name` an alias of the canonical
    /// identifier `target`, where that creates no chain: `target` must be
    /// bound directly, and no alias may point at `name`. Reports whether the
    /// alias was made; otherwise nothing changes.
    pub fn bind_alias(&mut self, name: String, target: String) -> (r: bool)
        requires
            old(self).wf(),
            is_canonical_form(name@),
            is_canonical_form(target@),
        ensures
            final(self).wf(),
            r == alias_allowed(old(self)@, name@, target@),
            final(self)@ == (if r {
                old(self)@.insert(name@, BindingView::Alias(target@))
            } else {
                old(self)@
            }),
    {
        let ghost pre = *self;
        let ghost m = pre@.insert(name@, BindingView::Alias(target@));
        if name == target {
            return false;
        }
        let direct = match self.find(&target) {
            None => {
                proof {
                    pre.lemma_absent(target@);
                }
                false
            },
            Some(j) => {
                proof {
                    pre.lemma_slot(j as int);
                }
                match &self.entries[j].binding {
                    Binding::Direct(_) => true,
                    Binding::Alias(_) => false,
                }
            },
        };
        if !direct || self.points_at(&name) {
            return false;
        }
        let found = self.find(&name);
        let ghost n = pre.entries@.len() as int;
        let ghost at: int = match found {
            Some(i) => i as int,
            None => n,
        };
        match found {
            None => {
                proof {
                    pre.lemma_absent(name@);
                }
                self.entries.push(Entry { name, binding: Binding::Alias(target) });
            },
            Some(i) => {
                proof {
                    pre.lemma_slot(i as int);
                }
                self.entries.set(i, Entry { name, binding: Binding::Alias(target) });
            },
        }
        proof {
            assert forall|j: int| 0 <= j < self.entries@.len() implies (
            #[trigger] self.entries@[j]).name@ == (if j == at {
                name@
            } else {
                pre.entries@[j].name@
            }) && (j != at ==> self.entries@[j] == pre.entries@[j] && pre.entries@[j].name@
                != name@) by {
                if j != at && j < n {
                    assert(self.entries@[j] == pre.entries@[j]);
                    if at < n {
                        if j < at {
                            assert(pre.entries@[j].name@ != pre.entries@[at].name@);
                        } else {
                            assert(pre.entries@[at].name@ != pre.entries@[j].name@);
                        }
                    }
                }
            }
            assert forall|j: int| 0 <= j < self.entries@.len() implies m.contains_key(
                (#[trigger] self.entries@[j]).name@,
            ) && m[self.entries@[j].name@] == self.entries@[j].binding@ by {
                if j != at {
                    pre.lemma_slot(j);
                }
            }
            assert forall|k: Seq<char>| m.contains_key(k) implies self.has(k) by {
                if k == name@ {
                    assert(self.entries@[at].name@ == k);
                } else {
                    let j = pre.lemma_key(k);
                    assert(self.entries@[j].name@ == k);
                }
            }
            assert(self.distinct()) by {
                assert forall|a: int, b: int| 0 <= a < b < self.entries@.len() implies (
                #[trigger] self.entries@[a]).name@ != (#[trigger] self.entries@[b]).name@ by {
                    if a != at && b != at {
                        assert(pre.entries@[a].name@ != pre.entries@[b].name@);
                    }
                }
            }
            self.lemma_view_is(m);
            assert(single_hop(m)) by {
                assert forall|k: Seq<char>| #[trigger] m.contains_key(k) implies match m[k] {
                    BindingView::Alias(t) => !(m.contains_key(t) && m[t] is Alias),
                    BindingView::Direct(_) => true,
                } by {
                    if k != name@ {
                        assert(pre@.contains_key(k));
                    }
                }
            }
        }
        true
    }

    /// Normalises both identifiers and makes the first an alias of the
    /// second as [`Self::bind_alias`] does. A malformed identifier is
    /// `InvalidSpecifier`; an alias that would dangle or make a chain is
    /// refused with `NotFound`.
    pub fn alias(&mut self, specifier: &str, target: &str) -> (r: Result<(), LoaderError>)
        requires
            old(self).wf(),
        ensures
            final(self).wf(),
            match (canonical(specifier@), canonical(target@)) {
                (Some(c), Some(t)) => if alias_allowed(old(self)@, c, t) {
                    r is Ok && final(self)@ == old(self)@.insert(c, BindingView::Alias(t))
                } else {
                    r == Err::<(), LoaderError>(LoaderError::NotFound) && final(self)@ == old(self)@
                },
                _ => r == Err::<(), LoaderError>(LoaderError::InvalidSpecifier) && final(self)@
                    == old(self)@,
            },
    {
        let name = match normalize(specifier) {
            Ok(name) => name,
            Err(_) => {
                return Err(LoaderError::InvalidSpecifier);
            },
        };
        let to = match normalize(target) {
            Ok(to) => to,
            Err(_) => {
                return Err(LoaderError::InvalidSpecifier);
            },
        };
        if self.bind_alias(name, to) {
            Ok(())
        } else {
            Err(LoaderError::NotFound)
        }
    }

    /// Every registered identifier that the filter does not exclude, each
    /// once.
    pub fn keys(&self, filter: &EnumerationFilter) -> (out: Vec<String>)
        requires
            self.wf(),
        ensures
            forall|j: int|
                0 <= j < out@.len() ==> self@.contains_key((#[trigger] out@[j])@)
                    && !filter.excludes(out@[j]@),
            forall|k: Seq<char>| #[trigger]
                self@.contains_key(k) && !filter.excludes(k) ==> lists_key(out@, k),
            forall|a: int, b: int|
                0 <= a < b < out@.len() ==> (#[trigger] out@[a])@ != (#[trigger] out@[b])@,
    {
        let mut out: Vec<String> = Vec::new();
        let ghost mut src: Seq<int> = Seq::empty();
        let mut i: usize = 0;
        while i < self.entries.len()
            invariant
                i <= self.entries@.len(),
                self.wf(),
                src.len() == out@.len(),
                forall|j: int|
                    0 <= j < out@.len() ==> 0 <= (#[trigger] src[j]) < i && out@[j]@
                        == self.entries@[src[j]].name@ && !filter.excludes(out@[j]@),
                forall|a: int, b: int|
                    0 <= a < b < out@.len() ==> (#[trigger] src[a]) < (#[trigger] src[b]),
                forall|x: int|
                    0 <= x < i && !filter.excludes((#[trigger] self.entries@[x]).name@)
                        ==> lists_key(out@, self.entries@[x].name@),
            decreases self.entries@.len() - i,
        {
            if !filter.is_excluded(self.entries[i].name.as_str()) {
                let ghost before = out@;
                out.push(self.entries[i].name.clone());
                proof {
                    src = src.push(i as int);
                    assert forall|x: int|
                        0 <= x < i + 1 && !filter.excludes(
                            (#[trigger] self.entries@[x]).name@,
                        ) implies lists_key(out@, self.entries@[x].name@) by {
                        lemma_key_stays_listed(before, out@, self.entries@[x].name@);
                    }
                }
            }
            i += 1;
        }
        proof {
            assert forall|j: int| 0 <= j < out@.len() implies self@.contains_key(
                (#[trigger] out@[j])@,
            ) && !filter.excludes(out@[j]@) by {
                self.lemma_slot(src[j]);
            }
            assert forall|k: Seq<char>| #[trigger]
                self@.contains_key(k) && !filter.excludes(k) implies lists_key(out@, k) by {
                let x = self.lemma_key(k);
                assert(lists_key(out@, self.entries@[x].name@));
            }
            assert forall|a: int, b: int| 0 <= a < b < out@.len() implies (#[trigger] out@[a])@
                != (#[trigger] out@[b])@ by {
                assert(src[a] < src[b]);
                assert(self.entries@[src[a]].name@ != self.entries@[src[b]].name@);
            }
        }
        out
    }

    /// Every registered identifier that the filter does not exclude and that
    /// resolves to a handle, each once and paired with that handle.
    pub fn entries(&self, filter: &EnumerationFilter) -> (out: Vec<(String, usize)>)
        requires
            self.wf(),
        ensures
            forall|j: int|
                0 <= j < out@.len() ==> !filter.excludes((#[trigger] out@[j]).0@) && resolved(
                    self@,
                    out@[j].0@,
                ) == Some(out@[j].1),
            forall|k: Seq<char>| #[trigger]
                self@.contains_key(k) && !filter.excludes(k) && resolved(self@, k) is Some
                    ==> lists_entry(out@, k),
            forall|a: int, b: int|
                0 <= a < b < out@.len() ==> (#[trigger] out@[a]).0@ != (#[trigger] out@[b]).0@,
    {
        let mut out: Vec<(String, usize)> = Vec::new();
        let ghost mut src: Seq<int> = Seq::empty();
        let mut i: usize = 0;
        while i < self.entries.len()
            invariant
                i <= self.entries@.len(),
                self.wf(),
                src.len() == out@.len(),
                forall|j: int|
                    0 <= j < out@.len() ==> 0 <= (#[trigger] src[j]) < i && out@[j].0@
                        == self.entries@[src[j]].name@ && !filter.excludes(out@[j].0@)
                        && resolved(self@, out@[j].0@) == Some(out@[j].1),
                forall|a: int, b: int|
                    0 <= a < b < out@.len() ==> (#[trigger] src[a]) < (#[trigger] src[b]),
                forall|x: int|
                    0 <= x < i && !filter.excludes((#[trigger] self.entries@[x]).name@)
                        && resolved(self@, self.entries@[x].name@) is Some ==> lists_entry(
                        out@,
                        self.entries@[x].name@,
                    ),
            decreases self.entries@.len() - i,
        {
            if !filter.is_excluded(self.entries[i].name.as_str()) {
                match self.resolve_canonical(&self.entries[i].name) {
                    None => {},
                    Some(h) => {
                        let ghost before = out@;
                        out.push((self.entries[i].name.clone(), h));
                        proof {
                            src = src.push(i as int);
                            assert forall|x: int|
                                0 <= x < i + 1 && !filter.excludes(
                                    (#[trigger] self.entries@[x]).name@,
                                ) && resolved(self@, self.entries@[x].name@)
                                    is Some implies lists_entry(out@, self.entries@[x].name@) by {
                                lemma_entry_stays_listed(before, out@, self.entries@[x].name@);
                            }
                        }
                    },
                }
            }
            i += 1;
        }
        proof {
            assert forall|j: int| 0 <= j < out@.len() implies !filter.excludes(
                (#[trigger] out@[j]).0@,
            ) && resolved(self@, out@[j].0@) == Some(out@[j].1) by {
                assert(0 <= src[j] < i);
            }
            assert forall|k: Seq<char>| #[trigger]
                self@.contains_key(k) && !filter.excludes(k) && resolved(self@, k)
                    is Some implies lists_entry(out@, k) by {
                let x = self.lemma_key(k);
                assert(lists_entry(out@, self.entries@[x].name@));
            }
            assert forall|a: int, b: int| 0 <= a < b < out@.len() implies (
            #[trigger] out@[a]).0@ != (#[trigger] out@[b]).0@ by {
                assert(src[a] < src[b]);
                assert(self.entries@[src[a]].name@ != self.entries@[src[b]].name@);
            }
        }
        out
    }
}

} // verus!
