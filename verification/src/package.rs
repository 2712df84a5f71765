//! The package record and the small enumerations it holds.
use crate::priority::Priority;
use crate::table::DependencyTable;
use vstd::prelude::*;

verus! {

/// The `Architecture` field of a package record.
#[derive(Debug, PartialEq, Eq, Structural, Clone, Copy)]
pub enum Arch {
    ALL,
    ANY,
    AMD64,
    UNKNOWN,
}

impl Arch {
    /// How the architecture is written in an index file.
    pub open spec fn name_spec(self) -> Seq<char> {
        match self {
            Arch::ALL => "all"@,
            Arch::ANY => "any"@,
            Arch::AMD64 => "amd64"@,
            Arch::UNKNOWN => "unknown"@,
        }
    }

    /// How the architecture is written in an index file.
    pub fn to_string(&self) -> (r: String)
        ensures
            r@ == self.name_spec(),
    {
        match self {
            Arch::ALL => "all".to_owned(),
            Arch::ANY => "any".to_owned(),
            Arch::AMD64 => "amd64".to_owned(),
            Arch::UNKNOWN => "unknown".to_owned(),
        }
    }
}

/// The `Section` field of a package record.
#[derive(Debug, PartialEq, Eq, Structural, Clone, Copy)]
pub enum Section {
    ADMIN,
    COMM,
    DATABASE,
    DEBUG,
    DEVEL,
    DOC,
    EDITORS,
    FONTS,
    GAMES,
    GNOME,
    GRAPHICS,
    HTTPD,
    INTERPRETERS,
    INTROSPECTION,
    JAVA,
    KERNEL,
    LIBDEVEL,
    LIBS,
    LISP,
    LOCALIZATION,
    MAIL,
    MATH,
    METAPACKAGES,
    MISC,
    NET,
    OLDLIBS,
    OTHEROSFS,
    PERL,
    PHP,
    PYTHON,
    RUBY,
    SCIENCE,
    SHELLS,
    SOUND,
    TEXT,
    TRANSLATIONS,
    UTILS,
    VCS,
    VIDEO,
    WEB,
    X11,
    ZOPE,
    UNKNOWN,
}

impl Section {
    /// The name of the variant.
    pub open spec fn name_spec(self) -> Seq<char> {
        match self {
            Section::ADMIN => "ADMIN"@,
            Section::COMM => "COMM"@,
            Section::DATABASE => "DATABASE"@,
            Section::DEBUG => "DEBUG"@,
            Section::DEVEL => "DEVEL"@,
            Section::DOC => "DOC"@,
            Section::EDITORS => "EDITORS"@,
            Section::FONTS => "FONTS"@,
            Section::GAMES => "GAMES"@,
            Section::GNOME => "GNOME"@,
            Section::GRAPHICS => "GRAPHICS"@,
            Section::HTTPD => "HTTPD"@,
            Section::INTERPRETERS => "INTERPRETERS"@,
            Section::INTROSPECTION => "INTROSPECTION"@,
            Section::JAVA => "JAVA"@,
            Section::KERNEL => "KERNEL"@,
            Section::LIBDEVEL => "LIBDEVEL"@,
            Section::LIBS => "LIBS"@,
            Section::LISP => "LISP"@,
            Section::LOCALIZATION => "LOCALIZATION"@,
            Section::MAIL => "MAIL"@,
            Section::MATH => "MATH"@,
            Section::METAPACKAGES => "METAPACKAGES"@,
            Section::MISC => "MISC"@,
            Section::NET => "NET"@,
            Section::OLDLIBS => "OLDLIBS"@,
            Section::OTHEROSFS => "OTHEROSFS"@,
            Section::PERL => "PERL"@,
            Section::PHP => "PHP"@,
            Section::PYTHON => "PYTHON"@,
            Section::RUBY => "RUBY"@,
            Section::SCIENCE => "SCIENCE"@,
            Section::SHELLS => "SHELLS"@,
            Section::SOUND => "SOUND"@,
            Section::TEXT => "TEXT"@,
            Section::TRANSLATIONS => "TRANSLATIONS"@,
            Section::UTILS => "UTILS"@,
            Section::VCS => "VCS"@,
            Section::VIDEO => "VIDEO"@,
            Section::WEB => "WEB"@,
            Section::X11 => "X11"@,
            Section::ZOPE => "ZOPE"@,
            Section::UNKNOWN => "UNKNOWN"@,
        }
    }

    /// The name of the variant.
    pub fn to_string(&self) -> (r: String)
        ensures
            r@ == self.name_spec(),
    {
        match self {
            Section::ADMIN => "ADMIN".to_owned(),
            Section::COMM => "COMM".to_owned(),
            Section::DATABASE => "DATABASE".to_owned(),
            Section::DEBUG => "DEBUG".to_owned(),
            Section::DEVEL => "DEVEL".to_owned(),
            Section::DOC => "DOC".to_owned(),
            Section::EDITORS => "EDITORS".to_owned(),
            Section::FONTS => "FONTS".to_owned(),
            Section::GAMES => "GAMES".to_owned(),
            Section::GNOME => "GNOME".to_owned(),
            Section::GRAPHICS => "GRAPHICS".to_owned(),
            Section::HTTPD => "HTTPD".to_owned(),
            Section::INTERPRETERS => "INTERPRETERS".to_owned(),
            Section::INTROSPECTION => "INTROSPECTION".to_owned(),
            Section::JAVA => "JAVA".to_owned(),
            Section::KERNEL => "KERNEL".to_owned(),
            Section::LIBDEVEL => "LIBDEVEL".to_owned(),
            Section::LIBS => "LIBS".to_owned(),
            Section::LISP => "LISP".to_owned(),
            Section::LOCALIZATION => "LOCALIZATION".to_owned(),
            Section::MAIL => "MAIL".to_owned(),
            Section::MATH => "MATH".to_owned(),
            Section::METAPACKAGES => "METAPACKAGES".to_owned(),
            Section::MISC => "MISC".to_owned(),
            Section::NET => "NET".to_owned(),
            Section::OLDLIBS => "OLDLIBS".to_owned(),
            Section::OTHEROSFS => "OTHEROSFS".to_owned(),
            Section::PERL => "PERL".to_owned(),
            Section::PHP => "PHP".to_owned(),
            Section::PYTHON => "PYTHON".to_owned(),
            Section::RUBY => "RUBY".to_owned(),
            Section::SCIENCE => "SCIENCE".to_owned(),
            Section::SHELLS => "SHELLS".to_owned(),
            Section::SOUND => "SOUND".to_owned(),
            Section::TEXT => "TEXT".to_owned(),
            Section::TRANSLATIONS => "TRANSLATIONS".to_owned(),
            Section::UTILS => "UTILS".to_owned(),
            Section::VCS => "VCS".to_owned(),
            Section::VIDEO => "VIDEO".to_owned(),
            Section::WEB => "WEB".to_owned(),
            Section::X11 => "X11".to_owned(),
            Section::ZOPE => "ZOPE".to_owned(),
            Section::UNKNOWN => "UNKNOWN".to_owned(),
        }
    }
}

impl Default for Section {
    fn default() -> (r: Self)
        ensures
            r == Section::UNKNOWN,
    {
        Section::UNKNOWN
    }
}

/// The contents of a package record.
#[verifier::ext_equal]
pub struct PackageView {
    pub package: Seq<char>,
    pub binary: Seq<Seq<char>>,
    pub arch: Seq<Arch>,
    pub version: Seq<char>,
    pub priority: Priority,
    pub section: Section,
    pub maintainer: Seq<char>,
    pub original_maintainer: Seq<char>,
    pub uploaders: Seq<Seq<char>>,
    pub standard_version: Seq<char>,
    pub depends: Map<Seq<char>, Option<Seq<char>>>,
    pub pre_depends: Map<Seq<char>, Option<Seq<char>>>,
    pub testsuite: Seq<char>,
    pub homepage: Seq<char>,
    pub directory: Seq<char>,
    pub chksum_md5: Seq<char>,
    pub essential: bool,
    pub suggests: Seq<Seq<char>>,
    pub filename: Seq<char>,
    pub description: Seq<char>,
    pub conffiles: Seq<Seq<char>>,
    pub origin: Seq<char>,
    pub bugs: Seq<char>,
}

/// The record of a fresh package: every text empty, every list and table
/// empty, not essential, priority and section `UNKNOWN`.
pub open spec fn empty_package() -> PackageView {
    PackageView {
        package: Seq::empty(),
        binary: Seq::empty(),
        arch: Seq::empty(),
        version: Seq::empty(),
        priority: Priority::UNKNOWN,
        section: Section::UNKNOWN,
        maintainer: Seq::empty(),
        original_maintainer: Seq::empty(),
        uploaders: Seq::empty(),
        standard_version: Seq::empty(),
        depends: Map::empty(),
        pre_depends: Map::empty(),
        testsuite: Seq::empty(),
        homepage: Seq::empty(),
        directory: Seq::empty(),
        chksum_md5: Seq::empty(),
        essential: false,
        suggests: Seq::empty(),
        filename: Seq::empty(),
        description: Seq::empty(),
        conffiles: Seq::empty(),
        origin: Seq::empty(),
        bugs: Seq::empty(),
    }
}

/// One package of an index file.
#[derive(Debug, PartialEq)]
pub struct SourcePackage {
    pub package: String,
    pub binary: Vec<String>,
    pub arch: Vec<Arch>,
    pub version: String,
    pub priority: Priority,
    pub section: Section,
    pub maintainer: String,
    pub original_maintainer: String,
    pub uploaders: Vec<String>,
    pub standard_version: String,
    pub depends: DependencyTable,
    pub pre_depends: DependencyTable,
    pub testsuite: String,
    pub homepage: String,
    pub directory: String,
    pub chksum_md5: String,
    pub essential: bool,
    pub suggests: Vec<String>,
    pub filename: String,
    pub description: String,
    pub conffiles: Vec<String>,
    pub origin: String,
    pub bugs: String,
}

impl View for SourcePackage {
    type V = PackageView;

    open spec fn view(&self) -> PackageView {
        PackageView {
            package: self.package@,
            binary: self.binary.deep_view(),
            arch: self.arch@,
            version: self.version@,
            priority: self.priority,
            section: self.section,
            maintainer: self.maintainer@,
            original_maintainer: self.original_maintainer@,
            uploaders: self.uploaders.deep_view(),
            standard_version: self.standard_version@,
            depends: self.depends@,
            pre_depends: self.pre_depends@,
            testsuite: self.testsuite@,
            homepage: self.homepage@,
            directory: self.directory@,
            chksum_md5: self.chksum_md5@,
            essential: self.essential,
            suggests: self.suggests.deep_view(),
            filename: self.filename@,
            description: self.description@,
            conffiles: self.conffiles.deep_view(),
            origin: self.origin@,
            bugs: self.bugs@,
        }
    }
}

/// A copy of a list of strings.
pub(crate) fn clone_strings(v: &Vec<String>) -> (r: Vec<String>)
    ensures
        r.deep_view() == v.deep_view(),
{
    let mut out: Vec<String> = Vec::new();
    let mut i: usize = 0;
    while i < v.len()
        invariant
            i <= v@.len(),
            out@.len() == i,
            out.deep_view() == v.deep_view().take(i as int),
        decreases v@.len() - i,
    {
        let s = v[i].clone();
        let ghost before = out@;
        out.push(s);
        proof {
            assert(before.len() == i);
            assert(out@.len() == i + 1);
            assert forall|j: int| 0 <= j < i implies out@[j] == before[j] by {}
        }
        assert(out.deep_view() =~= v.deep_view().take(i + 1));
        i = i + 1;
    }
    assert(v.deep_view().take(i as int) =~= v.deep_view());
    out
}

/// A copy of a list of architectures.
pub(crate) fn clone_archs(v: &Vec<Arch>) -> (r: Vec<Arch>)
    ensures
        r@ == v@,
{
    let mut out: Vec<Arch> = Vec::new();
    let mut i: usize = 0;
    while i < v.len()
        invariant
            i <= v@.len(),
            out@ == v@.take(i as int),
        decreases v@.len() - i,
    {
        out.push(v[i]);
        assert(out@ =~= v@.take(i + 1));
        i = i + 1;
    }
    assert(v@.take(i as int) =~= v@);
    out
}

impl SourcePackage {
    /// A fresh package record (see `empty_package`).
    pub fn new() -> (r: Self)
        ensures
            r@ == empty_package(),
    {
        let r = SourcePackage {
            package: String::new(),
            binary: Vec::new(),
            arch: Vec::new(),
            version: String::new(),
            priority: Priority::UNKNOWN,
            section: Section::UNKNOWN,
            maintainer: String::new(),
            original_maintainer: String::new(),
            uploaders: Vec::new(),
            standard_version: String::new(),
            depends: DependencyTable::new(),
            pre_depends: DependencyTable::new(),
            testsuite: String::new(),
            homepage: String::new(),
            directory: String::new(),
            chksum_md5: String::new(),
            essential: false,
            suggests: Vec::new(),
            filename: String::new(),
            description: String::new(),
            conffiles: Vec::new(),
            origin: String::new(),
            bugs: String::new(),
        };
        assert(r.binary.deep_view() =~= Seq::<Seq<char>>::empty());
        assert(r.uploaders.deep_view() =~= Seq::<Seq<char>>::empty());
        assert(r.suggests.deep_view() =~= Seq::<Seq<char>>::empty());
        assert(r.conffiles.deep_view() =~= Seq::<Seq<char>>::empty());
        assert(r@ =~= empty_package());
        r
    }

    /// A copy of the record.
    pub fn duplicate(&self) -> (r: Self)
        ensures
            r@ == self@,
    {
        let r = SourcePackage {
            package: self.package.clone(),
            binary: clone_strings(&self.binary),
            arch: clone_archs(&self.arch),
            version: self.version.clone(),
            priority: self.priority,
            section: self.section,
            maintainer: self.maintainer.clone(),
            original_maintainer: self.original_maintainer.clone(),
            uploaders: clone_strings(&self.uploaders),
            standard_version: self.standard_version.clone(),
            depends: self.depends.duplicate(),
            pre_depends: self.pre_depends.duplicate(),
            testsuite: self.testsuite.clone(),
            homepage: self.homepage.clone(),
            directory: self.directory.clone(),
            chksum_md5: self.chksum_md5.clone(),
            essential: self.essential,
            suggests: clone_strings(&self.suggests),
            filename: self.filename.clone(),
            description: self.description.clone(),
            conffiles: clone_strings(&self.conffiles),
            origin: self.origin.clone(),
            bugs: self.bugs.clone(),
        };
        assert(r@ =~= self@);
        r
    }

    /// Checks a record before it is taken into a list; every record passes.
    pub fn verify(&self) -> (r: Result<(), String>)
        ensures
            r is Ok,
    {
        Ok(())
    }

    /// The address of the package's file in its pool: `http://`, the
    /// domain of the pool, then the record's `filename`.  `pool_domain` is
    /// what the lookup of the package's pool domain gave; when it found
    /// none, neither is there an address.
    pub fn to_pool_uri(&self, pool_domain: Result<String, ()>) -> (r: Result<String, ()>)
        ensures
            match pool_domain {
                Ok(d) => r matches Ok(u) && u@ == "http://"@ + d@ + self.filename@,
                Err(()) => r is Err,
            },
    {
        let mut puri = "http".to_owned();
        puri.append("://");
        puri.append("");
        match pool_domain {
            Ok(domain) => puri.append(domain.as_str()),
            Err(()) => return Err(()),
        };
        puri.append(self.filename.as_str());
        proof {
            reveal_strlit("http");
            reveal_strlit("://");
            reveal_strlit("");
            reveal_strlit("http://");
        }
        Ok(puri)
    }
}

impl Default for SourcePackage {
    fn default() -> (r: Self)
        ensures
            r@ == empty_package(),
    {
        SourcePackage::new()
    }
}

impl Clone for SourcePackage {
    fn clone(&self) -> (r: Self)
        ensures
            r@ == self@,
    {
        self.duplicate()
    }
}

} // verus!
