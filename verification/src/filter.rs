use vstd::prelude::*;
use crate::specifier::starts_with;

verus! {

/// The reserved prefixes whose identifiers never appear in a listing.
pub struct EnumerationFilter {
    pub prefixes: Vec<String>,
}

impl EnumerationFilter {
    /// An identifier is excluded when it begins with one of the prefixes.
    pub open spec fn excludes(&self, s: Seq<char>) -> bool {
        exists|i: int|
            0 <= i < self.prefixes@.len() && (#[trigger] self.prefixes@[i])@.is_prefix_of(s)
    }

    /// A filter over the given reserved prefixes.
    pub fn new(prefixes: Vec<String>) -> (r: Self)
        ensures
            r.prefixes == prefixes,
    {
        EnumerationFilter { prefixes }
    }

    /// The host's filter: the built-in module namespace `ext:` and the
    /// platform-compatibility namespace `node`.
    pub fn host_default() -> (r: Self)
        ensures
            r.prefixes@.len() == 2,
            r.prefixes@[0]@ == "ext:"@,
            r.prefixes@[1]@ == "node"@,
            forall|s: Seq<char>|
                r.excludes(s) <==> ("ext:"@.is_prefix_of(s) || "node"@.is_prefix_of(s)),
    {
        let mut prefixes: Vec<String> = Vec::new();
        prefixes.push("ext:".to_owned());
        prefixes.push("node".to_owned());
        let r = EnumerationFilter { prefixes };
        assert forall|s: Seq<char>|
            r.excludes(s) <==> ("ext:"@.is_prefix_of(s) || "node"@.is_prefix_of(s)) by {
            if "ext:"@.is_prefix_of(s) {
                assert(r.prefixes@[0]@.is_prefix_of(s));
            }
            if "node"@.is_prefix_of(s) {
                assert(r.prefixes@[1]@.is_prefix_of(s));
            }
        }
        r
    }

    /// Whether `s` begins with a reserved prefix.
    pub fn is_excluded(&self, s: &str) -> (r: bool)
        ensures
            r == self.excludes(s@),
    {
        let mut i: usize = 0;
        while i < self.prefixes.len()
            invariant
                i <= self.prefixes@.len(),
                forall|j: int| 0 <= j < i ==> !(#[trigger] self.prefixes@[j])@.is_prefix_of(s@),
            decreases self.prefixes@.len() - i,
        {
            if starts_with(s, self.prefixes[i].as_str()) {
                return true;
            }
            i += 1;
        }
        false
    }
}

} // verus!
