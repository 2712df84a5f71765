use debsource::{append_cache_contents, search_cache_with_name, DependencyTable, GlobPattern, SourcePackage};

fn cached() -> Vec<SourcePackage> {
    SourcePackage::from_row("Package: libc6\n\nPackage: libzstd1\n\nPackage: dpkg\n").unwrap()
}

#[test]
fn search_by_wildcard() {
    let items = cached();
    let glob = GlobPattern::new("lib*").unwrap();
    let found = search_cache_with_name(&glob, &items);
    let names: Vec<&str> = found.iter().map(|p| p.package.as_str()).collect();
    assert_eq!(names, vec!["libc6", "libzstd1"]);
}

#[test]
fn search_by_literal_and_star() {
    let items = cached();
    let found = search_cache_with_name(&GlobPattern::new("dpkg").unwrap(), &items);
    assert_eq!(found.len(), 1);
    assert_eq!(found[0].package, "dpkg");
    let all = search_cache_with_name(&GlobPattern::new("*").unwrap(), &items);
    assert_eq!(all.len(), 3);
    let none = search_cache_with_name(&GlobPattern::new("apt?").unwrap(), &items);
    assert_eq!(none.len(), 0);
}

#[test]
fn invalid_pattern_is_refused() {
    assert!(GlobPattern::new("a***").is_none());
    assert!(GlobPattern::new("[").is_none());
    assert!(GlobPattern::new("d?kg").unwrap().matches("dpkg"));
}

#[test]
fn cache_contents_append_in_order() {
    let mut items = Vec::new();
    assert_eq!(append_cache_contents(&mut items, "Package: a\n"), Some(Ok(())));
    assert_eq!(append_cache_contents(&mut items, "Package: b\n\nPackage: c\n"), Some(Ok(())));
    let names: Vec<&str> = items.iter().map(|p| p.package.as_str()).collect();
    assert_eq!(names, vec!["a", "b", "c"]);
    assert_eq!(
        append_cache_contents(&mut items, "Bugs\n"),
        Some(Err("invalid 'Bugs' format: Bugs".to_string()))
    );
    assert_eq!(append_cache_contents(&mut items, "Depends: x (y\n\n"), None);
    assert_eq!(items.len(), 3);
}

#[test]
fn dependency_table_insert_replaces() {
    let mut t = DependencyTable::new();
    assert_eq!(t.get("libc6"), None);
    t.insert("libc6".to_string(), Some("2.15".to_string()));
    t.insert("zlib1g".to_string(), None);
    assert_eq!(t.get("libc6"), Some(Some("2.15".to_string())));
    t.insert("libc6".to_string(), Some("2.31".to_string()));
    assert_eq!(t.get("libc6"), Some(Some("2.31".to_string())));
    assert_eq!(t.get("zlib1g"), Some(None));
    let copy = t.duplicate();
    assert_eq!(copy.get("libc6"), Some(Some("2.31".to_string())));
}

#[test]
fn get_after_insert_of_another_name_keeps_entry() {
    let mut t = DependencyTable::new();
    t.insert("a".to_string(), Some("1".to_string()));
    t.insert("b".to_string(), None);
    assert_eq!(t.get("a"), Some(Some("1".to_string())));
    assert_eq!(t.get("b"), Some(None));
    assert_eq!(t.get("c"), None);
}
