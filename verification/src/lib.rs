//! Reading Debian package index files ("Packages" lists) into package
//! records, comparing package versions and priorities, and keeping one
//! record per package name.
pub mod depends;
pub mod package;
pub mod priority;
pub mod report;
pub mod row;
pub mod search;
pub mod select;
pub mod table;
pub mod text;
pub mod version;

pub use depends::parse_depends;
pub use package::{Arch, Section, SourcePackage};
pub use priority::Priority;
pub use report::fetch_summary;
pub use search::{append_cache_contents, search_cache_with_name, GlobPattern};
pub use select::{choose_package, resolve_duplication};
pub use table::DependencyTable;
pub use version::{comp_version, comp_version_char, split_in_upstream};
