use vstd::prelude::*;
use crate::error::LoaderError;
use crate::registry::{
    after_set, alias_allowed, lookup, resolved, single_hop, BindingView, Bindings,
};

verus! {

/// Two different identifiers, neither of them an alias, that are bound one
/// after the other each resolve to their own handle afterwards.
pub proof fn bindings_are_independent(
    m: Bindings,
    c1: Seq<char>,
    h1: usize,
    c2: Seq<char>,
    h2: usize,
)
    requires
        c1 != c2,
        !(m.contains_key(c1) && m[c1] is Alias),
        !(m.contains_key(c2) && m[c2] is Alias),
    ensures
        resolved(after_set(after_set(m, c1, h1), c2, h2), c1) == Some(h1),
        resolved(after_set(after_set(m, c1, h1), c2, h2), c2) == Some(h2),
        lookup(after_set(after_set(m, c1, h1), c2, h2), Some(c1)) == Ok::<usize, LoaderError>(h1),
        lookup(after_set(after_set(m, c1, h1), c2, h2), Some(c2)) == Ok::<usize, LoaderError>(h2),
{
}

/// Binding an identifier changes what another identifier resolves to only
/// where that other one is an alias of it.
pub proof fn binding_leaves_others(m: Bindings, c: Seq<char>, h: usize, k: Seq<char>)
    requires
        k != c,
        !(m.contains_key(k) && m[k] == BindingView::Alias(c)),
    ensures
        resolved(after_set(m, c, h), k) == resolved(m, k),
{
}

/// What is bound directly is found again under its handle.
pub proof fn bound_is_found(m: Bindings, c: Seq<char>, h: usize)
    requires
        !(m.contains_key(c) && m[c] is Alias),
    ensures
        resolved(after_set(m, c, h), c) == Some(h),
{
}

/// A new alias resolves to the handle of its target, and what every other
/// identifier resolves to stays as it was.
pub proof fn alias_follows_target(m: Bindings, c: Seq<char>, t: Seq<char>, k: Seq<char>)
    requires
        alias_allowed(m, c, t),
        k != c,
    ensures
        resolved(m.insert(c, BindingView::Alias(t)), c) == resolved(m, t),
        resolved(m, t) is Some,
        resolved(m.insert(c, BindingView::Alias(t)), k) == resolved(m, k),
{
    if m.contains_key(k) {
        match m[k] {
            BindingView::Alias(u) => {
                assert(u != c) by {
                    if u == c {
                        assert(m.contains_key(k) && m[k] == BindingView::Alias(c));
                    }
                }
            },
            BindingView::Direct(_) => {},
        }
    }
}

/// A removal takes the identifier out and leaves every other binding as
/// it was; a second removal of the same identifier finds nothing to remove
/// and changes nothing.
pub proof fn delete_is_idempotent(m: Bindings, c: Seq<char>)
    ensures
        !m.remove(c).contains_key(c),
        forall|k: Seq<char>|
            k != c ==> m.remove(c).contains_key(k) == m.contains_key(k) && (m.contains_key(k)
                ==> m.remove(c)[k] == m[k]),
        m.remove(c).remove(c) == m.remove(c),
        single_hop(m) ==> single_hop(m.remove(c)),
{
    assert(m.remove(c).remove(c) =~= m.remove(c));
    if single_hop(m) {
        assert forall|k: Seq<char>| #[trigger] m.remove(c).contains_key(k) implies match m.remove(
            c,
        )[k] {
            BindingView::Alias(t) => !(m.remove(c).contains_key(t) && m.remove(c)[t] is Alias),
            BindingView::Direct(_) => true,
        } by {
            assert(m.contains_key(k));
        }
    }
}

} // verus!
