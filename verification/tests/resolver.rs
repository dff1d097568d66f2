use done_loader::error::LoaderError;
use done_loader::ops::{
    op_loader_cache_delete, op_loader_cache_entries, op_loader_cache_get, op_loader_cache_keys,
    op_loader_cache_set, op_loader_module_get, op_loader_module_requests, op_loader_resolve,
    Session,
};
use done_loader::modules::{LifecycleState, Namespace};
use done_loader::resolver::{
    after_join, after_parse, is_relative, referrer_or_empty, resolve, ResolutionKind, Step,
};
use done_loader::specifier::{canonical_or_invalid, is_canonical_str, starts_with, ParseFailure};

#[test]
fn a_canonical_identifier_resolves_to_itself() {
    assert_eq!(
        resolve("https://x/a.mod", "", ResolutionKind::DynamicImport),
        Ok("https://x/a.mod".to_string())
    );
    assert_eq!(
        resolve("https://x/a.mod", "https://y/z.mod", ResolutionKind::DynamicImport),
        Ok("https://x/a.mod".to_string())
    );
    assert_eq!(op_loader_resolve(None, "file:///a/b.mod"), Ok("file:///a/b.mod".to_string()));
}

#[test]
fn a_relative_request_is_joined_onto_the_referrer() {
    assert_eq!(
        resolve("./b.mod", "https://x/dir/a.mod", ResolutionKind::DynamicImport),
        Ok("https://x/dir/b.mod".to_string())
    );
    assert_eq!(
        resolve("../b.mod", "https://x/dir/a.mod", ResolutionKind::Import),
        Ok("https://x/b.mod".to_string())
    );
    assert_eq!(
        resolve("/b.mod", "https://x/dir/a.mod", ResolutionKind::MainModule),
        Ok("https://x/b.mod".to_string())
    );
    assert_eq!(
        op_loader_resolve(Some("https://x/dir/a.mod".to_string()), "./c/d.mod"),
        Ok("https://x/dir/c/d.mod".to_string())
    );
}

#[test]
fn a_request_that_cannot_be_resolved_fails() {
    let dynamic = ResolutionKind::DynamicImport;
    assert_eq!(resolve("bare", "https://x/a.mod", dynamic), Err(LoaderError::ResolutionFailure));
    assert_eq!(resolve("./b.mod", "", dynamic), Err(LoaderError::ResolutionFailure));
    assert_eq!(resolve("./b.mod", "nonsense", dynamic), Err(LoaderError::ResolutionFailure));
    assert_eq!(resolve("http://[::1", "https://x/a.mod", dynamic), Err(LoaderError::ResolutionFailure));
    assert_eq!(resolve("./b.mod", "data:text/plain,x", dynamic), Err(LoaderError::ResolutionFailure));
    assert_eq!(op_loader_resolve(None, "./b.mod"), Err(LoaderError::ResolutionFailure));
}

#[test]
fn the_steps_of_a_resolution() {
    assert!(matches!(after_parse("x", Ok("https://x/".to_string())), Step::Done(s) if s == "https://x/"));
    assert!(matches!(after_parse("./x", Err(ParseFailure::RelativeWithoutBase)), Step::Join));
    assert!(matches!(after_parse("../x", Err(ParseFailure::RelativeWithoutBase)), Step::Join));
    assert!(matches!(after_parse("/x", Err(ParseFailure::RelativeWithoutBase)), Step::Join));
    assert!(matches!(after_parse("x", Err(ParseFailure::RelativeWithoutBase)), Step::Fail));
    assert!(matches!(after_parse("./x", Err(ParseFailure::Other)), Step::Fail));
    assert_eq!(after_join(Some("https://x/".to_string())), Ok("https://x/".to_string()));
    assert_eq!(after_join(None), Err(LoaderError::ResolutionFailure));
    assert_eq!(canonical_or_invalid(Ok("https://x/".to_string())), Ok("https://x/".to_string()));
    assert_eq!(
        canonical_or_invalid(Err(ParseFailure::RelativeWithoutBase)),
        Err(LoaderError::InvalidSpecifier)
    );
    assert_eq!(canonical_or_invalid(Err(ParseFailure::Other)), Err(LoaderError::InvalidSpecifier));
    assert_eq!(referrer_or_empty(None), "");
    assert_eq!(referrer_or_empty(Some("https://x/".to_string())), "https://x/");
}

#[test]
fn prefixes() {
    assert!(starts_with("node:fs", "node"));
    assert!(starts_with("node", "node"));
    assert!(starts_with("node", ""));
    assert!(!starts_with("nod", "node"));
    assert!(!starts_with("anode", "node"));
    assert!(starts_with("\u{e9}t\u{e9}", "\u{e9}t"));
    assert!(is_relative("/a"));
    assert!(is_relative("./a"));
    assert!(is_relative("../a"));
    assert!(!is_relative(".a"));
    assert!(!is_relative("a/./b"));
    assert!(!is_relative(""));
}

#[test]
fn a_session_through_its_operations() {
    let mut s = Session::new();
    assert_eq!(op_loader_cache_get(&s, "not-a-real-module"), Err(LoaderError::NotFound));
    let h = s.modules.load(
        vec!["./b.mod".to_string(), "./c.mod".to_string()],
        Namespace { exports: vec!["run".to_string()] },
    );
    assert_eq!(op_loader_cache_set(&mut s, "https://x/a.mod", h), Ok(h));
    assert_eq!(op_loader_cache_set(&mut s, "ext:runtime/01_loader.ts", 77), Ok(77));
    assert_eq!(op_loader_cache_get(&s, "https://x/a.mod"), Ok(h));
    assert_eq!(op_loader_cache_keys(&s), vec!["https://x/a.mod".to_string()]);
    assert_eq!(op_loader_cache_entries(&s), vec![("https://x/a.mod".to_string(), h)]);
    assert_eq!(
        op_loader_module_requests(&s, h),
        Ok(vec!["./b.mod".to_string(), "./c.mod".to_string()])
    );
    assert_eq!(op_loader_module_requests(&s, h + 1), Err(LoaderError::NotFound));
    assert_eq!(op_loader_module_get(&s, h).err(), Some(LoaderError::NotFound));
    assert!(s.modules.advance(h, LifecycleState::Linking));
    assert!(s.modules.advance(h, LifecycleState::Linked));
    assert!(s.modules.advance(h, LifecycleState::Evaluating));
    assert!(s.modules.advance(h, LifecycleState::Evaluated));
    assert_eq!(
        op_loader_module_get(&s, h).map(|n| n.exports.clone()),
        Ok(vec!["run".to_string()])
    );
    assert_eq!(op_loader_cache_delete(&mut s, "https://x/a.mod"), Ok(true));
    assert_eq!(op_loader_cache_delete(&mut s, "https://x/a.mod"), Ok(false));
    assert_eq!(op_loader_cache_delete(&mut s, "::"), Err(LoaderError::InvalidSpecifier));
    assert_eq!(op_loader_cache_keys(&s), Vec::<String>::new());
    // the module itself outlives its registration
    assert!(op_loader_module_get(&s, h).is_ok());
}

#[test]
fn canonical_strings_are_fixed_points_of_normalisation() {
    assert!(is_canonical_str("https://x/a.mod"));
    assert!(is_canonical_str("file:///a/b.mod"));
    assert!(!is_canonical_str("HTTPS://x/a.mod"));
    assert!(!is_canonical_str("https://x"));
    assert!(!is_canonical_str("./a.mod"));
    assert!(!is_canonical_str(""));
}
