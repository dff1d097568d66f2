use done_loader::error::LoaderError;
use done_loader::filter::EnumerationFilter;
use done_loader::registry::ModuleRegistry;
use done_loader::specifier::normalize;

fn sorted(mut v: Vec<String>) -> Vec<String> {
    v.sort();
    v
}

#[test]
fn set_then_get_returns_the_handle() {
    let mut r = ModuleRegistry::new();
    assert_eq!(r.set("https://x/a.mod", 5), Ok(5));
    assert_eq!(r.get("https://x/a.mod"), Ok(5));
}

#[test]
fn set_on_a_direct_entry_overwrites() {
    let mut r = ModuleRegistry::new();
    assert_eq!(r.set("https://x/a.mod", 5), Ok(5));
    assert_eq!(r.set("https://x/a.mod", 9), Ok(9));
    assert_eq!(r.get("https://x/a.mod"), Ok(9));
    assert_eq!(r.len(), 1);
}

#[test]
fn set_on_an_alias_reports_the_target_and_keeps_the_alias() {
    let mut r = ModuleRegistry::new();
    assert_eq!(r.set("https://x/a.mod", 5), Ok(5));
    assert_eq!(r.alias("https://x/b.mod", "https://x/a.mod"), Ok(()));
    assert_eq!(r.set("https://x/b.mod", 7), Ok(5));
    assert_eq!(r.get("https://x/b.mod"), Ok(5));
    assert_eq!(r.set("https://x/a.mod", 9), Ok(9));
    assert_eq!(r.get("https://x/b.mod"), Ok(9));
}

#[test]
fn get_on_an_empty_registry_is_not_found() {
    let r = ModuleRegistry::new();
    assert_eq!(r.get("not-a-real-module"), Err(LoaderError::NotFound));
    assert_eq!(r.get("https://x/a.mod"), Err(LoaderError::NotFound));
}

#[test]
fn two_identifiers_keep_their_own_handles() {
    let mut r = ModuleRegistry::new();
    assert_eq!(r.set("https://x/a.mod", 1), Ok(1));
    assert_eq!(r.set("https://x/b.mod", 2), Ok(2));
    assert_eq!(r.get("https://x/a.mod"), Ok(1));
    assert_eq!(r.get("https://x/b.mod"), Ok(2));
    assert_eq!(r.set("https://x/a.mod", 3), Ok(3));
    assert_eq!(r.get("https://x/b.mod"), Ok(2));
}

#[test]
fn delete_twice_is_true_then_false() {
    let mut r = ModuleRegistry::new();
    assert_eq!(r.set("https://x/a.mod", 5), Ok(5));
    assert_eq!(r.delete("https://x/a.mod"), Ok(true));
    assert_eq!(r.delete("https://x/a.mod"), Ok(false));
    assert_eq!(r.get("https://x/a.mod"), Err(LoaderError::NotFound));
    assert_eq!(r.len(), 0);
}

#[test]
fn delete_of_an_unknown_identifier_is_false() {
    let mut r = ModuleRegistry::new();
    assert_eq!(r.delete("https://x/never.mod"), Ok(false));
}

#[test]
fn delete_of_a_malformed_identifier_is_invalid() {
    let mut r = ModuleRegistry::new();
    assert_eq!(r.delete("not-a-real-module"), Err(LoaderError::InvalidSpecifier));
    assert_eq!(r.delete("http://[::1"), Err(LoaderError::InvalidSpecifier));
}

#[test]
fn set_of_a_malformed_identifier_is_refused() {
    let mut r = ModuleRegistry::new();
    assert_eq!(r.set("not-a-real-module", 4), Err(LoaderError::NotFound));
    assert_eq!(r.len(), 0);
}

#[test]
fn lookups_go_by_the_canonical_form() {
    let mut r = ModuleRegistry::new();
    assert_eq!(r.set("HTTPS://X/dir/../a.mod", 5), Ok(5));
    assert_eq!(r.get("https://x/a.mod"), Ok(5));
    assert_eq!(r.delete("https://X/a.mod"), Ok(true));
    let host = EnumerationFilter::host_default();
    assert_eq!(r.keys(&host), Vec::<String>::new());
}

#[test]
fn normalize_gives_the_serialized_url() {
    assert_eq!(normalize("HTTP://Example.COM"), Ok("http://example.com/".to_string()));
    assert_eq!(normalize("https://x/a.mod"), Ok("https://x/a.mod".to_string()));
    assert_eq!(normalize("./a.mod"), Err(LoaderError::InvalidSpecifier));
    assert_eq!(normalize(""), Err(LoaderError::InvalidSpecifier));
}

#[test]
fn listings_leave_out_the_reserved_namespaces() {
    let mut r = ModuleRegistry::new();
    assert_eq!(r.set("ext:core/mod.js", 1), Ok(1));
    assert_eq!(r.set("node:fs", 2), Ok(2));
    assert_eq!(r.set("https://x/a.mod", 3), Ok(3));
    assert_eq!(r.set("file:///node/b.mod", 4), Ok(4));
    let host = EnumerationFilter::host_default();
    assert_eq!(
        sorted(r.keys(&host)),
        vec!["file:///node/b.mod".to_string(), "https://x/a.mod".to_string()]
    );
    let mut entries = r.entries(&host);
    entries.sort();
    assert_eq!(
        entries,
        vec![("file:///node/b.mod".to_string(), 4), ("https://x/a.mod".to_string(), 3)]
    );
    assert_eq!(r.get("ext:core/mod.js"), Ok(1));
    assert_eq!(r.len(), 4);
}

#[test]
fn entries_follow_one_alias_hop_and_omit_dangling_aliases() {
    let mut r = ModuleRegistry::new();
    assert_eq!(r.set("https://x/a.mod", 5), Ok(5));
    assert_eq!(r.set("https://x/c.mod", 6), Ok(6));
    assert_eq!(r.alias("https://x/b.mod", "https://x/a.mod"), Ok(()));
    assert_eq!(r.alias("https://x/d.mod", "https://x/c.mod"), Ok(()));
    assert_eq!(r.delete("https://x/c.mod"), Ok(true));
    let host = EnumerationFilter::host_default();
    let mut entries = r.entries(&host);
    entries.sort();
    assert_eq!(
        entries,
        vec![("https://x/a.mod".to_string(), 5), ("https://x/b.mod".to_string(), 5)]
    );
    assert_eq!(
        sorted(r.keys(&host)),
        vec![
            "https://x/a.mod".to_string(),
            "https://x/b.mod".to_string(),
            "https://x/d.mod".to_string()
        ]
    );
    assert_eq!(r.get("https://x/d.mod"), Err(LoaderError::NotFound));
}

#[test]
fn set_on_a_dangling_alias_is_not_found() {
    let mut r = ModuleRegistry::new();
    assert_eq!(r.set("https://x/a.mod", 5), Ok(5));
    assert_eq!(r.alias("https://x/b.mod", "https://x/a.mod"), Ok(()));
    assert_eq!(r.delete("https://x/a.mod"), Ok(true));
    assert_eq!(r.set("https://x/b.mod", 7), Err(LoaderError::NotFound));
    assert_eq!(r.get("https://x/b.mod"), Err(LoaderError::NotFound));
    assert_eq!(r.len(), 1);
    let host = EnumerationFilter::host_default();
    assert_eq!(r.keys(&host), vec!["https://x/b.mod".to_string()]);
    assert_eq!(r.entries(&host), Vec::<(String, usize)>::new());
}

#[test]
fn an_alias_never_makes_a_chain() {
    let mut r = ModuleRegistry::new();
    assert_eq!(r.set("https://x/a.mod", 5), Ok(5));
    assert_eq!(r.alias("https://x/b.mod", "https://x/a.mod"), Ok(()));
    // onto an alias
    assert_eq!(r.alias("https://x/c.mod", "https://x/b.mod"), Err(LoaderError::NotFound));
    // of something that an alias points at
    assert_eq!(r.set("https://x/z.mod", 8), Ok(8));
    assert_eq!(r.alias("https://x/a.mod", "https://x/z.mod"), Err(LoaderError::NotFound));
    // onto itself, and onto nothing
    assert_eq!(r.alias("https://x/z.mod", "https://x/z.mod"), Err(LoaderError::NotFound));
    assert_eq!(r.alias("https://x/q.mod", "https://x/none.mod"), Err(LoaderError::NotFound));
    assert_eq!(r.alias("???", "https://x/a.mod"), Err(LoaderError::InvalidSpecifier));
    assert_eq!(r.alias("https://x/q.mod", "???"), Err(LoaderError::InvalidSpecifier));
    assert_eq!(r.get("https://x/a.mod"), Ok(5));
    assert_eq!(r.len(), 3);
}

#[test]
fn an_alias_may_replace_a_direct_binding() {
    let mut r = ModuleRegistry::new();
    assert_eq!(r.set("https://x/a.mod", 5), Ok(5));
    assert_eq!(r.set("https://x/b.mod", 6), Ok(6));
    assert_eq!(r.alias("https://x/b.mod", "https://x/a.mod"), Ok(()));
    assert_eq!(r.get("https://x/b.mod"), Ok(5));
    assert_eq!(r.len(), 2);
}

#[test]
fn a_filter_of_chosen_prefixes() {
    let f = EnumerationFilter::new(vec!["internal:".to_string()]);
    assert!(f.is_excluded("internal:x"));
    assert!(!f.is_excluded("ext:x"));
    assert!(!f.is_excluded("intern"));
    let none = EnumerationFilter::new(Vec::new());
    assert!(!none.is_excluded("ext:x"));
    let host = EnumerationFilter::host_default();
    assert!(host.is_excluded("ext:core"));
    assert!(host.is_excluded("node:fs"));
    assert!(host.is_excluded("nodejs"));
    assert!(!host.is_excluded("nod"));
    assert!(!host.is_excluded("https://x/ext:"));
}

#[test]
fn error_names() {
    assert_eq!(LoaderError::InvalidSpecifier.name(), "InvalidSpecifier");
    assert_eq!(LoaderError::NotFound.name(), "NotFound");
    assert_eq!(LoaderError::ResolutionFailure.name(), "ResolutionFailure");
}
