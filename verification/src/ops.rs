use vstd::prelude::*;
use crate::error::LoaderError;
use crate::filter::EnumerationFilter;
use crate::modules::{readable, ModuleTable, Namespace};
use crate::registry::{
    after_set, lists_entry, lists_key, lookup, resolved, set_reports, BindingView, ModuleRegistry,
};
use crate::resolver::{referrer_or_empty, resolution, resolve, ResolutionKind};
use crate::specifier::{canonical, is_canonical_form, url_parse};

verus! {

/// The state of one runtime session: the registry, the loaded modules and
/// the filter that every listing goes through.
pub struct Session {
    pub registry: ModuleRegistry,
    pub modules: ModuleTable,
    pub filter: EnumerationFilter,
}

impl Session {
    /// A session is well formed when its registry is.
    pub open spec fn wf(&self) -> bool {
        self.registry.wf()
    }

    /// A session with nothing registered, nothing loaded and the host's
    /// reserved prefixes.
    pub fn new() -> (r: Self)
        ensures
            r.wf(),
            r.registry@ == Map::<Seq<char>, BindingView>::empty(),
            r.modules@.len() == 0,
            forall|s: Seq<char>|
                r.filter.excludes(s) <==> ("ext:"@.is_prefix_of(s) || "node"@.is_prefix_of(s)),
    {
        Session {
            registry: ModuleRegistry::new(),
            modules: ModuleTable::new(),
            filter: EnumerationFilter::host_default(),
        }
    }
}

/// Lists every registered identifier outside the reserved namespaces with
/// the handle it resolves to; aliases that resolve to nothing are left out.
pub fn op_loader_cache_entries(session: &Session) -> (out: Vec<(String, usize)>)
    requires
        session.wf(),
    ensures
        forall|j: int|
            0 <= j < out@.len() ==> !session.filter.excludes((#[trigger] out@[j]).0@) && resolved(
                session.registry@,
                out@[j].0@,
            ) == Some(out@[j].1),
        forall|k: Seq<char>| #[trigger]
            session.registry@.contains_key(k) && !session.filter.excludes(k) && resolved(
                session.registry@,
                k,
            ) is Some ==> lists_entry(out@, k),
        forall|a: int, b: int|
            0 <= a < b < out@.len() ==> (#[trigger] out@[a]).0@ != (#[trigger] out@[b]).0@,
{
    session.registry.entries(&session.filter)
}

/// Lists every registered identifier outside the reserved namespaces.
pub fn op_loader_cache_keys(session: &Session) -> (out: Vec<String>)
    requires
        session.wf(),
    ensures
        forall|j: int|
            0 <= j < out@.len() ==> session.registry@.contains_key((#[trigger] out@[j])@)
                && !session.filter.excludes(out@[j]@),
        forall|k: Seq<char>| #[trigger]
            session.registry@.contains_key(k) && !session.filter.excludes(k) ==> lists_key(
                out@,
                k,
            ),
        forall|a: int, b: int|
            0 <= a < b < out@.len() ==> (#[trigger] out@[a])@ != (#[trigger] out@[b])@,
{
    session.registry.keys(&session.filter)
}

/// The handle that an identifier resolves to, or `NotFound`.
pub fn op_loader_cache_get(session: &Session, specifier: &str) -> (r: Result<usize, LoaderError>)
    requires
        session.wf(),
    ensures
        r == lookup(session.registry@, canonical(specifier@)),
{
    session.registry.get(specifier)
}

/// Binds an identifier to a handle, unless it is an alias: then nothing
/// changes and the handle behind the alias is reported, or `NotFound` where
/// there is none.
pub fn op_loader_cache_set(session: &mut Session, specifier: &str, module_id: usize) -> (r: Result<
    usize,
    LoaderError,
>)
    requires
        old(session).wf(),
    ensures
        final(session).wf(),
        final(session).modules == old(session).modules,
        final(session).filter == old(session).filter,
        match canonical(specifier@) {
            Some(c) => final(session).registry@ == after_set(old(session).registry@, c, module_id)
                && r == set_reports(old(session).registry@, c, module_id),
            None => final(session).registry@ == old(session).registry@ && r == Err::<
                usize,
                LoaderError,
            >(LoaderError::NotFound),
        },
{
    session.registry.set(specifier, module_id)
}

/// Removes an identifier's binding and reports whether there was one.
pub fn op_loader_cache_delete(session: &mut Session, specifier: &str) -> (r: Result<
    bool,
    LoaderError,
>)
    requires
        old(session).wf(),
    ensures
        final(session).wf(),
        final(session).modules == old(session).modules,
        final(session).filter == old(session).filter,
        match canonical(specifier@) {
            Some(c) => final(session).registry@ == old(session).registry@.remove(c) && r == Ok::<
                bool,
                LoaderError,
            >(old(session).registry@.contains_key(c)),
            None => final(session).registry@ == old(session).registry@ && r == Err::<
                bool,
                LoaderError,
            >(LoaderError::InvalidSpecifier),
        },
{
    session.registry.delete(specifier)
}

/// The namespace of an evaluated module; `NotFound` for any other handle.
pub fn op_loader_module_get(session: &Session, module_id: usize) -> (r: Result<
    &Namespace,
    LoaderError,
>)
    ensures
        match r {
            Ok(n) => readable(session.modules@, module_id) && *n
                == session.modules@[module_id as int].namespace,
            Err(e) => e == LoaderError::NotFound && !readable(session.modules@, module_id),
        },
{
    session.modules.namespace(module_id)
}

/// The identifiers that a module statically requested, in declaration order.
pub fn op_loader_module_requests(session: &Session, module_id: usize) -> (r: Result<
    Vec<String>,
    LoaderError,
>)
    ensures
        match r {
            Ok(out) => module_id < session.modules@.len() && out@.len()
                == session.modules@[module_id as int].requests@.len() && forall|i: int|
                0 <= i < out@.len() ==> (#[trigger] out@[i])@
                    == session.modules@[module_id as int].requests@[i]@,
            Err(e) => e == LoaderError::NotFound && module_id >= session.modules@.len(),
        },
{
    session.modules.requests(module_id)
}

/// Resolves a dynamic import made by `referrer`, or by nobody in particular.
pub fn op_loader_resolve(referrer: Option<String>, specifier: &str) -> (r: Result<
    String,
    LoaderError,
>)
    ensures
        match resolution(
            specifier@,
            match referrer {
                Some(s) => s@,
                None => Seq::<char>::empty(),
            },
        ) {
            Ok(c) => r is Ok && r->Ok_0@ == c,
            Err(e) => r == Err::<String, LoaderError>(e),
        },
        url_parse(specifier@) is Ok ==> r is Ok && is_canonical_form(r->Ok_0@),
{
    let from = referrer_or_empty(referrer);
    resolve(specifier, from.as_str(), ResolutionKind::DynamicImport)
}

} // verus!
