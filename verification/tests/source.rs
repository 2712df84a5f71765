use debsource::{
    choose_package, comp_version, comp_version_char, parse_depends, resolve_duplication,
    split_in_upstream, Arch, Priority, Section, SourcePackage,
};

const SAMPLE: &str = "Package: dpkg
Essential: yes
Priority: required
Section: admin
Installed-Size: 6732
Maintainer: Ubuntu Developers <ubuntu-devel-discuss@lists.ubuntu.com>
Original-Maintainer: Dpkg Developers <debian-dpkg@lists.debian.org>
Architecture: amd64
Multi-Arch: foreign
Version: 1.19.7ubuntu3
Depends: tar (>= 1.28-1)
Pre-Depends: libbz2-1.0, libc6 (>= 2.15), liblzma5 (>= 5.2.2), libzstd1 (>= 1.3.2), zlib1g (>= 1:1.1.4)
Suggests: apt, debsig-verify
Breaks: acidbase (<= 1.4.5-4)
Filename: pool/main/d/dpkg/dpkg_1.19.7ubuntu3_amd64.deb
Size: 1127856
MD5sum: f595c79475d3c2ac808eaac389071c35
Description: Debian package management system
 waiwai second sentence.
 uouo fish life.
Homepage: https://wiki.debian.org/Teams/Dpkg
Origin: Ubuntu
Bugs: https://bugs.launchpad.net/ubuntu/+filebug

Package: libzstd1
Priority: important
Section: libs
Architecture: amd64
Version: 1.4.4+dfsg-3
Depends: libc6 (>= 2.14)
Description: fast lossless compression algorithm
Conffiles: /etc/zstd.conf 1234

Package: tar
Architecture: all
Version: 1.30+dfsg-6
Priority: standard
Description: GNU version of the tar archiving utility
";

const DUPLICATED: &str = "Package: dpkg
Priority: important
Version: 1.19.7ubuntu3

Package: dpkg
Priority: required
Version: 1.20.7ubuntu3

Package: dpkg
Priority: required
Version: 1.20.0
";

#[test]
fn test_comp_version_char() {
    assert_eq!(comp_version_char(Some('5'), Some('4')), 1);
    assert_eq!(comp_version_char(Some('3'), Some('3')), 0);
    assert_eq!(comp_version_char(Some('3'), Some('~')), 1);
    assert_eq!(comp_version_char(Some('3'), None), 1);
    assert_eq!(comp_version_char(Some('~'), None), -1);
}

#[test]
fn test_split_in_upstream() {
    assert_eq!(
        split_in_upstream("34.3.2"),
        vec![
            ("34".to_string(), ".".to_string()),
            ("3".to_string(), ".".to_string()),
            ("2".to_string(), "".to_string())
        ]
    );
    assert_eq!(
        split_in_upstream("34.3build1-ubuntu3~pre"),
        vec![
            ("34".to_string(), ".".to_string()),
            ("3".to_string(), "build".to_string()),
            ("1".to_string(), "-ubuntu".to_string()),
            ("3".to_string(), "~pre".to_string())
        ]
    );
}

#[test]
fn test_parse_depends() {
    let dep1 = "libc6 (>= 2.15)";
    let dep2 = "libbz2-1.0";
    let pdep1 = parse_depends(dep1).unwrap();
    let pdep2 = parse_depends(dep2).unwrap();
    assert_eq!(pdep1.0, "libc6");
    assert_eq!(pdep1.1.unwrap(), "2.15");
    assert_eq!(pdep2.0, "libbz2-1.0");
    assert_eq!(pdep2.1, None);
}

#[test]
fn test_package_source_from_row() {
    let psources = SourcePackage::from_row(SAMPLE).unwrap();
    assert_eq!(psources.len(), 3);
    let dpkg = &psources[0];
    assert_eq!(dpkg.package, "dpkg");
    assert_eq!(
        dpkg.pre_depends.get("libzstd1").unwrap().as_ref().unwrap(),
        "1.3.2"
    );
    assert_eq!(dpkg.arch[0], Arch::AMD64);
    assert_eq!(dpkg.version, "1.19.7ubuntu3");
    assert_eq!(dpkg.essential, true);
    assert_eq!(dpkg.section, Section::ADMIN);
    assert_eq!(
        dpkg.maintainer,
        "Ubuntu Developers <ubuntu-devel-discuss@lists.ubuntu.com>"
    );
    assert_eq!(
        dpkg.original_maintainer,
        "Dpkg Developers <debian-dpkg@lists.debian.org>"
    );
    assert_eq!(dpkg.suggests.contains(&"apt".to_string()), true);
    assert_eq!(dpkg.suggests.contains(&"debsig-verify".to_string()), true);
    assert_eq!(dpkg.filename, "pool/main/d/dpkg/dpkg_1.19.7ubuntu3_amd64.deb");
    assert_eq!(dpkg.chksum_md5, "f595c79475d3c2ac808eaac389071c35");
    assert_eq!(
        dpkg.description,
        "Debian package management system\nwaiwai second sentence.\nuouo fish life."
    );
}

#[test]
fn from_row_reads_every_field() {
    let psources = SourcePackage::from_row(SAMPLE).unwrap();
    let dpkg = &psources[0];
    assert_eq!(dpkg.priority, Priority::REQUIRED);
    assert_eq!(dpkg.homepage, "https://wiki.debian.org/Teams/Dpkg");
    assert_eq!(dpkg.origin, "Ubuntu");
    assert_eq!(dpkg.bugs, "https://bugs.launchpad.net/ubuntu/+filebug");
    assert_eq!(dpkg.depends.get("tar"), Some(Some("1.28-1".to_string())));
    assert_eq!(dpkg.pre_depends.get("libbz2-1.0"), Some(None));
    assert_eq!(dpkg.pre_depends.get("zlib1g"), Some(Some("1:1.1.4".to_string())));
    assert_eq!(dpkg.pre_depends.get("acidbase"), None);
    assert_eq!(dpkg.suggests, vec!["apt".to_string(), "debsig-verify".to_string()]);
    let zstd = &psources[1];
    assert_eq!(zstd.package, "libzstd1");
    assert_eq!(zstd.priority, Priority::IMPORTANT);
    assert_eq!(zstd.section, Section::UNKNOWN);
    assert_eq!(zstd.essential, false);
    assert_eq!(zstd.description, "fast lossless compression algorithm");
    assert_eq!(zstd.conffiles, vec!["/etc/zstd.conf 1234".to_string()]);
    let tar = &psources[2];
    assert_eq!(tar.arch, vec![Arch::ALL]);
    assert_eq!(tar.priority, Priority::STANDARD);
    let with_blank = SourcePackage::from_row(&format!("{}\n", SAMPLE)).unwrap();
    // the empty line after the last record ends one more, empty, record
    assert_eq!(with_blank.len(), 4);
    assert_eq!(with_blank[3].package, "");
    assert_eq!(with_blank[3].priority, Priority::UNKNOWN);
}

#[test]
fn from_row_drops_a_record_without_an_empty_line_after_it() {
    let psources = SourcePackage::from_row("Package: a\n\nPackage: b").unwrap();
    assert_eq!(psources.len(), 1);
    assert_eq!(psources[0].package, "a");
    // the one, empty, line of an empty file ends one empty record
    assert_eq!(SourcePackage::from_row("").unwrap().len(), 1);
}

#[test]
fn from_row_rejects_a_field_without_value() {
    let err = SourcePackage::from_row("Package: a\nVersion\n\n").unwrap_err();
    assert_eq!(err, "invalid 'Version' format: Version");
    let err = SourcePackage::from_row("Package\n").unwrap_err();
    assert_eq!(err, "invalid 'Package' format: Package");
    let err = SourcePackage::from_row("Priority:optional\nArchitecture\n").unwrap_err();
    assert_eq!(err, "invalid 'Architecture' format: Architecture");
    for title in [
        "Priority", "Essential", "Section", "Filename", "MD5sum", "Homepage", "Origin", "Bugs",
    ] {
        let err = SourcePackage::from_row(&format!("{}\n", title)).unwrap_err();
        assert_eq!(err, format!("invalid '{}' format: {}", title, title));
    }
}

#[test]
fn from_row_checked_refuses_an_unreadable_dependency() {
    assert!(SourcePackage::from_row_checked("Depends: libc6 (>=2.15)\n\n").is_none());
    assert!(SourcePackage::from_row_checked("Depends: libc6 (>= 2.15ä\n\n").is_none());
    let ok = SourcePackage::from_row_checked("Depends: libc6 (>= 2.15)\n\n").unwrap().unwrap();
    assert_eq!(ok[0].depends.get("libc6"), Some(Some("2.15".to_string())));
}

#[test]
fn from_row_description_continues_and_ends() {
    let rows = SourcePackage::from_row(
        "Description: first\n second\n .\n third\nPackage: p\n\n",
    )
    .unwrap();
    assert_eq!(rows[0].description, "first\nsecond\n.\nthird");
    assert_eq!(rows[0].package, "p");
}

#[test]
fn parse_depends_keeps_name_before_colon_and_trims() {
    let (name, version) = parse_depends("  python3:any (>= 3.8~)  ").unwrap();
    assert_eq!(name, "python3");
    assert_eq!(version, Some("3.8~".to_string()));
    let (name, version) = parse_depends("\tfoo\t").unwrap();
    assert_eq!(name, "foo");
    assert_eq!(version, None);
}

#[test]
fn comp_version_orders_numbers_and_text() {
    assert_eq!(comp_version("1.20.7ubuntu3", "1.19.7ubuntu3"), 1);
    assert_eq!(comp_version("1.9", "1.10"), -1);
    assert_eq!(comp_version("01.2", "1.2"), 0);
    assert_eq!(comp_version("1.0~rc1", "1.0"), -1);
    assert_eq!(comp_version("1.0a", "1.0"), 1);
    assert_eq!(comp_version("1.0a", "1.0+"), -1);
    assert_eq!(comp_version("123456789012345678901234567890", "123456789012345678901234567891"), -1);
    assert_eq!(comp_version("", ""), 0);
}

#[test]
fn test_package_resolve_duplication() {
    let psources = SourcePackage::from_row(DUPLICATED).unwrap();
    assert_eq!(psources.len(), 3);
    let resolved = resolve_duplication(&psources).unwrap();
    assert_eq!(resolved.len(), 1);
    let dpkg = &resolved[0];
    assert_eq!(dpkg.package, "dpkg");
    assert_eq!(dpkg.priority, Priority::REQUIRED);
    assert_eq!(dpkg.version, "1.20.7ubuntu3");
}

fn record(name: &str, priority: Priority, version: &str) -> SourcePackage {
    let mut p = SourcePackage::default();
    p.package = name.to_string();
    p.priority = priority;
    p.version = version.to_string();
    p
}

#[test]
fn choose_package_prefers_priority_then_version() {
    let a = record("x", Priority::OPTIONAL, "2.0");
    let b = record("x", Priority::REQUIRED, "1.0");
    assert_eq!(choose_package(&a, &b).priority, Priority::REQUIRED);
    assert_eq!(choose_package(&b, &a).priority, Priority::REQUIRED);
    let c = record("x", Priority::OPTIONAL, "2.1");
    assert_eq!(choose_package(&a, &c).version, "2.1");
    assert_eq!(choose_package(&c, &a).version, "2.1");
    let mut d = record("x", Priority::OPTIONAL, "2.0");
    d.filename = "first".to_string();
    assert_eq!(choose_package(&d, &a).filename, "first");
}

#[test]
fn resolve_duplication_keeps_first_appearance_order() {
    let list = vec![
        record("b", Priority::EXTRA, "1"),
        record("a", Priority::EXTRA, "1"),
        record("b", Priority::EXTRA, "3"),
        record("c", Priority::EXTRA, "1"),
        record("a", Priority::IMPORTANT, "0"),
    ];
    let out = resolve_duplication(&list).unwrap();
    let names: Vec<&str> = out.iter().map(|p| p.package.as_str()).collect();
    assert_eq!(names, vec!["b", "a", "c"]);
    assert_eq!(out[0].version, "3");
    assert_eq!(out[1].priority, Priority::IMPORTANT);
    let again = resolve_duplication(&out).unwrap();
    assert_eq!(again.len(), 3);
}

#[test]
fn priority_order() {
    assert!(Priority::REQUIRED > Priority::IMPORTANT);
    assert!(Priority::IMPORTANT > Priority::STANDARD);
    assert!(Priority::STANDARD > Priority::OPTIONAL);
    assert!(Priority::OPTIONAL > Priority::EXTRA);
    assert!(Priority::EXTRA > Priority::UNKNOWN);
    assert!(Priority::UNKNOWN < Priority::REQUIRED);
    assert_eq!(
        Priority::EXTRA.partial_cmp(&Priority::EXTRA),
        Some(std::cmp::Ordering::Equal)
    );
    assert_eq!(Priority::default(), Priority::UNKNOWN);
    assert_eq!(Section::default(), Section::UNKNOWN);
}

#[test]
fn names_as_text() {
    assert_eq!(Arch::AMD64.to_string(), "amd64");
    assert_eq!(Arch::ALL.to_string(), "all");
    assert_eq!(Arch::ANY.to_string(), "any");
    assert_eq!(Arch::UNKNOWN.to_string(), "unknown");
    assert_eq!(Priority::OPTIONAL.to_string(), "OPTIONAL");
    assert_eq!(Section::X11.to_string(), "X11");
    assert_eq!(Section::ADMIN.to_string(), "ADMIN");
}

#[test]
fn to_pool_uri_joins_domain_and_filename() {
    let mut p = SourcePackage::default();
    p.filename = "pool/main/d/dpkg/dpkg.deb".to_string();
    assert_eq!(
        p.to_pool_uri(Ok("archive.ubuntu.com/ubuntu/".to_string())),
        Ok("http://archive.ubuntu.com/ubuntu/pool/main/d/dpkg/dpkg.deb".to_string())
    );
    assert_eq!(p.to_pool_uri(Err(())), Err(()));
    assert_eq!(p.verify(), Ok(()));
}

#[test]
fn records_compare_by_contents() {
    let a = SourcePackage::from_row(SAMPLE).unwrap();
    let b = SourcePackage::from_row(SAMPLE).unwrap();
    assert_eq!(a, b);
    assert_eq!(a[0].clone(), a[0]);
    assert_ne!(a[0], a[1]);
    let mut t1 = debsource::DependencyTable::new();
    let mut t2 = debsource::DependencyTable::new();
    t1.insert("a".to_string(), None);
    t1.insert("b".to_string(), Some("1".to_string()));
    t2.insert("b".to_string(), Some("1".to_string()));
    t2.insert("a".to_string(), None);
    assert!(t1 == t2);
    t2.insert("a".to_string(), Some("2".to_string()));
    assert!(t1 != t2);
}

#[test]
fn concatenated_indexes_read_as_both() {
    let a = "Package: a\nVersion: 1\n";
    let b = "Package: b\nVersion: 2\n";
    let both = SourcePackage::from_row(&format!("{}\n{}", a, b)).unwrap();
    let mut each = SourcePackage::from_row(a).unwrap();
    each.extend(SourcePackage::from_row(b).unwrap());
    assert_eq!(both, each);
    assert_eq!(both.len(), 2);
}

#[test]
fn architecture_names_read_back() {
    for a in [Arch::ALL, Arch::ANY, Arch::AMD64, Arch::UNKNOWN] {
        let v = SourcePackage::from_row(&format!("Architecture: {}\n", a.to_string())).unwrap();
        assert_eq!(v.len(), 1);
        assert_eq!(v[0].arch, vec![a]);
    }
}

#[test]
fn parse_depends_ignores_surrounding_white_space() {
    for d in ["libc6 (>= 2.15)", "libbz2-1.0", "python3:any (>= 3.8~)"] {
        let s = format!(" \t{}  ", d);
        assert_eq!(parse_depends(&s), parse_depends(d));
    }
}

#[test]
fn fetch_summary_in_kilobytes_per_second() {
    assert_eq!(debsource::fetch_summary(10 * 1024 + 5, 0), (10, 10));
    assert_eq!(debsource::fetch_summary(10 * 1024, 3), (10, 3));
    assert_eq!(debsource::fetch_summary(1023, 7), (0, 0));
}
