//! Reading an index file: records of `Title: value` lines, each record
//! ended by an empty line, a `Description` continued on the lines after it
//! that start with a space.
use crate::depends::{
    depends_readable, lemma_parse_depends_entry, parse_depends_chars, parse_depends_defined,
    parse_depends_spec,
};
use crate::package::{empty_package, Arch, PackageView, Section, SourcePackage};
use crate::priority::Priority;
use crate::table::opt_view;
use crate::text::{
    is_white, no_white,
    chars_are, chars_of, join, join_from, lemma_chars_deep_view, lemma_split_concat,
    lemma_split_first, lemma_split_nonempty, lemma_split_whole, split,
    split_chars, string_from_chars, sub_chars, trim, trim_chars,
};
use vstd::prelude::*;

verus! {

/// The lines of a file.
pub open spec fn file_lines(file: Seq<char>) -> Seq<Seq<char>> {
    split(file, seq!['\n'])
}

/// The pieces of a line, cut at each `": "`; the first is the title.
pub open spec fn line_fields(line: Seq<char>) -> Seq<Seq<char>> {
    split(line, ": "@)
}

/// Whether the line after line `ix` continues it: it is there, and starts
/// with a space.
pub open spec fn continues_after(lines: Seq<Seq<char>>, ix: int) -> bool {
    ix + 1 < lines.len() && lines[ix + 1].len() >= 1 && lines[ix + 1][0] == ' '
}

/// The message for a field that has no value.
pub open spec fn field_error(title: Seq<char>, line: Seq<char>) -> Seq<char> {
    "invalid '"@ + title + "' format: "@ + line
}

pub open spec fn arch_of(v: Seq<char>) -> Arch {
    if v == "amd64"@ {
        Arch::AMD64
    } else if v == "all"@ {
        Arch::ALL
    } else if v == "any"@ {
        Arch::ANY
    } else {
        Arch::UNKNOWN
    }
}

pub open spec fn priority_of(v: Seq<char>) -> Priority {
    if v == "extra"@ {
        Priority::EXTRA
    } else if v == "optional"@ {
        Priority::OPTIONAL
    } else if v == "important"@ {
        Priority::IMPORTANT
    } else if v == "required"@ {
        Priority::REQUIRED
    } else if v == "standard"@ {
        Priority::STANDARD
    } else {
        Priority::UNKNOWN
    }
}

pub open spec fn section_of(v: Seq<char>) -> Section {
    if v == "admin"@ {
        Section::ADMIN
    } else {
        Section::UNKNOWN
    }
}

/// The entries of a dependency field: its values run together, cut at
/// each comma.
pub open spec fn dependency_entries(values: Seq<Seq<char>>) -> Seq<Seq<char>> {
    split(join(values, Seq::empty()), seq![','])
}

/// Every entry can be read.
pub open spec fn entries_readable(deps: Seq<Seq<char>>) -> bool {
    forall|i: int| 0 <= i < deps.len() ==> parse_depends_defined(#[trigger] deps[i])
}

/// A dependency table after each entry of `deps` is put in, in order.
pub open spec fn with_entries(
    m: Map<Seq<char>, Option<Seq<char>>>,
    deps: Seq<Seq<char>>,
) -> Map<Seq<char>, Option<Seq<char>>>
    decreases deps.len(),
{
    if deps.len() == 0 {
        m
    } else {
        let (name, version) = parse_depends_spec(deps.last());
        with_entries(m, deps.drop_last()).insert(name, version)
    }
}

/// What one field line does to the record: the record after it and
/// whether a description goes on in the next lines; an error message for a
/// field without a value; `None` where a dependency entry cannot be read.
pub open spec fn apply_field(item: PackageView, line: Seq<char>, next_continues: bool) -> Option<
    Result<(PackageView, bool), Seq<char>>,
> {
    let fields = line_fields(line);
    let title = fields[0];
    let rest = fields.drop_first();
    if title == "Package"@ {
        if rest.len() == 0 {
            Some(Err(field_error(title, line)))
        } else {
            Some(Ok((PackageView { package: rest[0], ..item }, false)))
        }
    } else if title == "Architecture"@ {
        if rest.len() == 0 {
            Some(Err(field_error(title, line)))
        } else {
            Some(Ok((PackageView { arch: item.arch.push(arch_of(rest[0])), ..item }, false)))
        }
    } else if title == "Version"@ {
        if rest.len() == 0 {
            Some(Err(field_error(title, line)))
        } else {
            Some(Ok((PackageView { version: rest[0], ..item }, false)))
        }
    } else if title == "Priority"@ {
        if rest.len() == 0 {
            Some(Err(field_error(title, line)))
        } else {
            Some(Ok((PackageView { priority: priority_of(rest[0]), ..item }, false)))
        }
    } else if title == "Essential"@ {
        if rest.len() == 0 {
            Some(Err(field_error(title, line)))
        } else {
            Some(Ok((PackageView { essential: rest[0] == "yes"@, ..item }, false)))
        }
    } else if title == "Section"@ {
        if rest.len() == 0 {
            Some(Err(field_error(title, line)))
        } else {
            Some(Ok((PackageView { section: section_of(rest[0]), ..item }, false)))
        }
    } else if title == "Maintainer"@ {
        Some(Ok((PackageView { maintainer: join(rest, " "@), ..item }, false)))
    } else if title == "Original-Maintainer"@ {
        Some(Ok((PackageView { original_maintainer: join(rest, " "@), ..item }, false)))
    } else if title == "Pre-Depends"@ {
        let deps = dependency_entries(rest);
        if entries_readable(deps) {
            Some(Ok((PackageView { pre_depends: with_entries(item.pre_depends, deps), ..item }, false)))
        } else {
            None
        }
    } else if title == "Depends"@ {
        let deps = dependency_entries(rest);
        if entries_readable(deps) {
            Some(Ok((PackageView { depends: with_entries(item.depends, deps), ..item }, false)))
        } else {
            None
        }
    } else if title == "Suggests"@ {
        let sug = dependency_entries(rest).map_values(|s: Seq<char>| trim(s));
        Some(Ok((PackageView { suggests: item.suggests + sug, ..item }, false)))
    } else if title == "Filename"@ {
        if rest.len() == 0 {
            Some(Err(field_error(title, line)))
        } else {
            Some(Ok((PackageView { filename: rest[0], ..item }, false)))
        }
    } else if title == "MD5sum"@ {
        if rest.len() == 0 {
            Some(Err(field_error(title, line)))
        } else {
            Some(Ok((PackageView { chksum_md5: rest[0], ..item }, false)))
        }
    } else if title == "Homepage"@ {
        if rest.len() == 0 {
            Some(Err(field_error(title, line)))
        } else {
            Some(Ok((PackageView { homepage: rest[0], ..item }, false)))
        }
    } else if title == "Description"@ {
        Some(Ok((PackageView { description: join(rest, " "@), ..item }, next_continues)))
    } else if title == "Conffiles"@ {
        Some(Ok((PackageView { conffiles: item.conffiles.push(join(rest, " "@)), ..item }, false)))
    } else if title == "Origin"@ {
        if rest.len() == 0 {
            Some(Err(field_error(title, line)))
        } else {
            Some(Ok((PackageView { origin: rest[0], ..item }, false)))
        }
    } else if title == "Bugs"@ {
        if rest.len() == 0 {
            Some(Err(field_error(title, line)))
        } else {
            Some(Ok((PackageView { bugs: rest[0], ..item }, false)))
        }
    } else {
        Some(Ok((item, false)))
    }
}

/// Where the reading of a file stands between two lines: the records
/// finished so far, the record being read, and whether a description goes
/// on in the next line.
#[verifier::ext_equal]
pub struct RowState {
    pub items: Seq<PackageView>,
    pub item: PackageView,
    pub cont: bool,
}

/// What line `ix` does: a continued description gets a new line, the line's
/// text after its leading space; an empty line finishes the record and
/// starts a fresh one; any other line is a field.
pub open spec fn read_line(lines: Seq<Seq<char>>, ix: int, st: RowState) -> Option<
    Result<RowState, Seq<char>>,
> {
    let line = lines[ix];
    if st.cont {
        Some(
            Ok(
                RowState {
                    item: PackageView {
                        description: st.item.description + "\n"@ + line.drop_first(),
                        ..st.item
                    },
                    cont: continues_after(lines, ix),
                    ..st
                },
            ),
        )
    } else if line.len() == 0 {
        Some(Ok(RowState { items: st.items.push(st.item), item: empty_package(), cont: false }))
    } else {
        match apply_field(st.item, line, continues_after(lines, ix)) {
            Some(Ok((item, cont))) => Some(Ok(RowState { item, cont, ..st })),
            Some(Err(e)) => Some(Err(e)),
            None => None,
        }
    }
}

/// The reading of the `n` lines from position `off` on, from state `st`.
pub open spec fn read_range(lines: Seq<Seq<char>>, off: int, n: nat, st: RowState) -> Option<
    Result<RowState, Seq<char>>,
>
    decreases n,
{
    if n == 0 {
        Some(Ok(st))
    } else {
        match read_range(lines, off, (n - 1) as nat, st) {
            Some(Ok(s)) => read_line(lines, off + n - 1, s),
            other => other,
        }
    }
}

/// The state before the first line.
pub open spec fn start_state() -> RowState {
    RowState { items: Seq::empty(), item: empty_package(), cont: false }
}

/// The reading after the first `n` lines.
pub open spec fn read_lines(lines: Seq<Seq<char>>, n: nat) -> Option<Result<RowState, Seq<char>>> {
    read_range(lines, 0, n, start_state())
}

/// What reading a whole file gives: the finished records, or the message of
/// the first field without a value; `None` for a file with a dependency
/// entry that cannot be read before any such field.
pub open spec fn from_row_spec(file: Seq<char>) -> Option<Result<Seq<PackageView>, Seq<char>>> {
    let lines = file_lines(file);
    match read_lines(lines, lines.len()) {
        Some(Ok(st)) => Some(Ok(st.items)),
        Some(Err(e)) => Some(Err(e)),
        None => None,
    }
}

/// The views of a list of records.
pub open spec fn views_of(v: Seq<SourcePackage>) -> Seq<PackageView> {
    v.map_values(|p: SourcePackage| p@)
}


/// The message for the field `title` of `line` without a value.
fn field_error_exec(title: &str, line: &Vec<char>) -> (r: String)
    ensures
        r@ == field_error(title@, line@),
{
    let mut msg = "invalid '".to_owned();
    msg.append(title);
    msg.append("' format: ");
    let text = string_from_chars(line);
    msg.append(text.as_str());
    msg
}

/// The first value of a field, or the message for a field without one.
fn first_value(fields: &Vec<Vec<char>>, title: &str, line: &Vec<char>) -> (r: Result<
    String,
    String,
>)
    requires
        fields@.len() >= 1,
    ensures
        fields@.len() < 2 ==> (r matches Err(m) && m@ == field_error(title@, line@)),
        fields@.len() >= 2 ==> (r matches Ok(v) && v@ == fields.deep_view().drop_first()[0]),
{
    if fields.len() < 2 {
        Err(field_error_exec(title, line))
    } else {
        proof {
            lemma_chars_deep_view(&fields@[1]);
        }
        Ok(string_from_chars(&fields[1]))
    }
}

/// Whether every entry can be read.
fn all_readable(deps: &Vec<Vec<char>>) -> (r: bool)
    ensures
        r == entries_readable(deps.deep_view()),
{
    let mut k: usize = 0;
    while k < deps.len()
        invariant
            k <= deps@.len(),
            forall|j: int| 0 <= j < k ==> parse_depends_defined(#[trigger] deps.deep_view()[j]),
        decreases deps@.len() - k,
    {
        proof {
            lemma_chars_deep_view(&deps@[k as int]);
        }
        if !depends_readable(&deps[k]) {
            assert(!parse_depends_defined(deps.deep_view()[k as int]));
            return false;
        }
        k = k + 1;
    }
    true
}

/// Puts each entry of `deps` into `table`, in order.
fn insert_entries(table: &mut crate::table::DependencyTable, deps: &Vec<Vec<char>>)
    requires
        entries_readable(deps.deep_view()),
    ensures
        final(table)@ == with_entries(old(table)@, deps.deep_view()),
{
    let ghost d = deps.deep_view();
    let mut k: usize = 0;
    assert(d.take(0) =~= Seq::<Seq<char>>::empty());
    while k < deps.len()
        invariant
            k <= deps@.len(),
            d == deps.deep_view(),
            entries_readable(d),
            table@ == with_entries(old(table)@, d.take(k as int)),
        decreases deps@.len() - k,
    {
        proof {
            lemma_chars_deep_view(&deps@[k as int]);
            assert(d.take(k + 1).drop_last() =~= d.take(k as int));
            assert(d.take(k + 1).last() == d[k as int]);
            assert(parse_depends_defined(d[k as int]));
        }
        let (name, version) = parse_depends_chars(&deps[k]);
        let name_s = string_from_chars(&name);
        let version_s = match version {
            Some(v) => Some(string_from_chars(&v)),
            None => None,
        };
        assert(opt_view(version_s) == parse_depends_spec(d[k as int]).1);
        table.insert(name_s, version_s);
        k = k + 1;
    }
    assert(d.take(k as int) =~= d);
}

/// Appends each piece of `pieces`, trimmed, to `list`.
fn append_trimmed(list: &mut Vec<String>, pieces: &Vec<Vec<char>>)
    ensures
        final(list).deep_view() == old(list).deep_view() + pieces.deep_view().map_values(
            |s: Seq<char>| trim(s),
        ),
{
    let ghost t = pieces.deep_view().map_values(|s: Seq<char>| trim(s));
    let ghost start = list.deep_view();
    let mut k: usize = 0;
    assert(start =~= start + t.take(0));
    while k < pieces.len()
        invariant
            k <= pieces@.len(),
            t == pieces.deep_view().map_values(|s: Seq<char>| trim(s)),
            start == old(list).deep_view(),
            list.deep_view() == start + t.take(k as int),
        decreases pieces@.len() - k,
    {
        proof {
            lemma_chars_deep_view(&pieces@[k as int]);
        }
        let piece = trim_chars(&pieces[k]);
        let s = string_from_chars(&piece);
        let ghost before = list@;
        let ghost before_d = list.deep_view();
        list.push(s);
        proof {
            assert(list@.len() == before.len() + 1);
            assert forall|j: int| 0 <= j < before.len() implies list@[j] == before[j] by {}
            assert(list.deep_view() =~= before_d.push(s@));
            assert(t[k as int] == s@);
            assert(start + t.take(k + 1) =~= (start + t.take(k as int)).push(t[k as int]));
        }
        k = k + 1;
    }
    assert(t.take(k as int) =~= t);
}

/// Carries out one field line on `item` (see `apply_field`); the result is
/// whether a description goes on in the next lines.
fn apply_field_exec(item: &mut SourcePackage, line: &Vec<char>, next_continues: bool) -> (r:
    Option<Result<bool, String>>)
    ensures
        match apply_field(old(item)@, line@, next_continues) {
            Some(Ok((p, c))) => r matches Some(Ok(c2)) && c2 == c && final(item)@ == p,
            Some(Err(e)) => r matches Some(Err(m)) && m@ == e,
            None => r is None,
        },
{
    let sep = chars_of(": ");
    proof {
        reveal_strlit(": ");
    }
    let fields = split_chars(line, &sep);
    proof {
        lemma_split_nonempty(line@, sep@);
        lemma_chars_deep_view(&fields@[0]);
    }
    let title = &fields[0];
    let ghost rest = fields.deep_view().drop_first();
    assert(fields.deep_view().skip(1) =~= rest);
    if chars_are(title, "Package") {
        match first_value(&fields, "Package", line) {
            Ok(v) => {
                item.package = v;
                Some(Ok(false))
            },
            Err(m) => Some(Err(m)),
        }
    } else if chars_are(title, "Architecture") {
        if fields.len() < 2 {
            return Some(Err(field_error_exec("Architecture", line)));
        }
        proof {
            lemma_chars_deep_view(&fields@[1]);
        }
        let v = &fields[1];
        let a = if chars_are(v, "amd64") {
            Arch::AMD64
        } else if chars_are(v, "all") {
            Arch::ALL
        } else if chars_are(v, "any") {
            Arch::ANY
        } else {
            Arch::UNKNOWN
        };
        item.arch.push(a);
        Some(Ok(false))
    } else if chars_are(title, "Version") {
        match first_value(&fields, "Version", line) {
            Ok(v) => {
                item.version = v;
                Some(Ok(false))
            },
            Err(m) => Some(Err(m)),
        }
    } else if chars_are(title, "Priority") {
        if fields.len() < 2 {
            return Some(Err(field_error_exec("Priority", line)));
        }
        proof {
            lemma_chars_deep_view(&fields@[1]);
        }
        let v = &fields[1];
        item.priority = if chars_are(v, "extra") {
            Priority::EXTRA
        } else if chars_are(v, "optional") {
            Priority::OPTIONAL
        } else if chars_are(v, "important") {
            Priority::IMPORTANT
        } else if chars_are(v, "required") {
            Priority::REQUIRED
        } else if chars_are(v, "standard") {
            Priority::STANDARD
        } else {
            Priority::UNKNOWN
        };
        Some(Ok(false))
    } else if chars_are(title, "Essential") {
        if fields.len() < 2 {
            return Some(Err(field_error_exec("Essential", line)));
        }
        proof {
            lemma_chars_deep_view(&fields@[1]);
        }
        item.essential = chars_are(&fields[1], "yes");
        Some(Ok(false))
    } else if chars_are(title, "Section") {
        if fields.len() < 2 {
            return Some(Err(field_error_exec("Section", line)));
        }
        proof {
            lemma_chars_deep_view(&fields@[1]);
        }
        item.section = if chars_are(&fields[1], "admin") {
            Section::ADMIN
        } else {
            Section::UNKNOWN
        };
        Some(Ok(false))
    } else if chars_are(title, "Maintainer") {
        let space = chars_of(" ");
        let v = join_from(&fields, 1, &space);
        item.maintainer = string_from_chars(&v);
        Some(Ok(false))
    } else if chars_are(title, "Original-Maintainer") {
        let space = chars_of(" ");
        let v = join_from(&fields, 1, &space);
        item.original_maintainer = string_from_chars(&v);
        Some(Ok(false))
    } else if chars_are(title, "Pre-Depends") {
        let deps = entries_of(&fields);
        if !all_readable(&deps) {
            return None;
        }
        insert_entries(&mut item.pre_depends, &deps);
        Some(Ok(false))
    } else if chars_are(title, "Depends") {
        let deps = entries_of(&fields);
        if !all_readable(&deps) {
            return None;
        }
        insert_entries(&mut item.depends, &deps);
        Some(Ok(false))
    } else if chars_are(title, "Suggests") {
        let deps = entries_of(&fields);
        append_trimmed(&mut item.suggests, &deps);
        Some(Ok(false))
    } else if chars_are(title, "Filename") {
        match first_value(&fields, "Filename", line) {
            Ok(v) => {
                item.filename = v;
                Some(Ok(false))
            },
            Err(m) => Some(Err(m)),
        }
    } else if chars_are(title, "MD5sum") {
        match first_value(&fields, "MD5sum", line) {
            Ok(v) => {
                item.chksum_md5 = v;
                Some(Ok(false))
            },
            Err(m) => Some(Err(m)),
        }
    } else if chars_are(title, "Homepage") {
        match first_value(&fields, "Homepage", line) {
            Ok(v) => {
                item.homepage = v;
                Some(Ok(false))
            },
            Err(m) => Some(Err(m)),
        }
    } else if chars_are(title, "Description") {
        let space = chars_of(" ");
        let v = join_from(&fields, 1, &space);
        item.description = string_from_chars(&v);
        Some(Ok(next_continues))
    } else if chars_are(title, "Conffiles") {
        let space = chars_of(" ");
        let v = join_from(&fields, 1, &space);
        let s = string_from_chars(&v);
        let ghost before = item.conffiles@;
        let ghost before_d = item.conffiles.deep_view();
        item.conffiles.push(s);
        proof {
            assert(item.conffiles@.len() == before.len() + 1);
            assert forall|j: int| 0 <= j < before.len() implies item.conffiles@[j] == before[j] by {}
            assert(item.conffiles.deep_view() =~= before_d.push(s@));
        }
        Some(Ok(false))
    } else if chars_are(title, "Origin") {
        match first_value(&fields, "Origin", line) {
            Ok(v) => {
                item.origin = v;
                Some(Ok(false))
            },
            Err(m) => Some(Err(m)),
        }
    } else if chars_are(title, "Bugs") {
        match first_value(&fields, "Bugs", line) {
            Ok(v) => {
                item.bugs = v;
                Some(Ok(false))
            },
            Err(m) => Some(Err(m)),
        }
    } else {
        Some(Ok(false))
    }
}

/// The entries of a dependency field whose pieces are `fields`.
fn entries_of(fields: &Vec<Vec<char>>) -> (r: Vec<Vec<char>>)
    requires
        fields@.len() >= 1,
    ensures
        r.deep_view() == dependency_entries(fields.deep_view().drop_first()),
{
    let empty: Vec<char> = Vec::new();
    let joined = join_from(fields, 1, &empty);
    let comma = chars_of(",");
    proof {
        reveal_strlit(",");
        assert(comma@ =~= seq![',']);
        assert(empty@ =~= Seq::<char>::empty());
        assert(fields.deep_view().skip(1) =~= fields.deep_view().drop_first());
    }
    split_chars(&joined, &comma)
}


/// Once the reading has stopped, later lines change nothing.
proof fn lemma_read_lines_stops(lines: Seq<Seq<char>>, n: nat, m: nat)
    requires
        n <= m,
        !(read_lines(lines, n) matches Some(Ok(_))),
    ensures
        read_lines(lines, m) == read_lines(lines, n),
    decreases m - n,
{
    if n < m {
        lemma_read_lines_stops(lines, n, (m - 1) as nat);
    }
}

/// Reads a whole file (see `from_row_spec`), `None` standing for a file
/// with a dependency entry that cannot be read.
fn read_rows(file: &str) -> (r: Option<Result<Vec<SourcePackage>, String>>)
    ensures
        match from_row_spec(file@) {
            Some(Ok(items)) => r matches Some(Ok(v)) && views_of(v@) == items,
            Some(Err(e)) => r matches Some(Err(m)) && m@ == e,
            None => r is None,
        },
{
    let chars = chars_of(file);
    let nl = chars_of("\n");
    proof {
        reveal_strlit("\n");
        assert(nl@ =~= seq!['\n']);
    }
    let lines = split_chars(&chars, &nl);
    let ghost ls = lines.deep_view();
    let n = lines.len();
    let mut items: Vec<SourcePackage> = Vec::new();
    let mut item = SourcePackage::new();
    let mut cont = false;
    let mut ix: usize = 0;
    proof {
        assert(views_of(items@) =~= Seq::<PackageView>::empty());
        assert(read_lines(ls, 0) == Some(
            Ok::<RowState, Seq<char>>(RowState { items: views_of(items@), item: item@, cont }),
        ));
    }
    while ix < n
        invariant
            n == lines@.len(),
            ls == lines.deep_view(),
            ls == file_lines(file@),
            ix <= n,
            read_lines(ls, ix as nat) == Some(
                Ok::<RowState, Seq<char>>(RowState { items: views_of(items@), item: item@, cont }),
            ),
            cont ==> ix < n && ls[ix as int].len() >= 1 && ls[ix as int][0] == ' ',
        decreases n - ix,
    {
        proof {
            lemma_chars_deep_view(&lines@[ix as int]);
            if ix + 1 < n {
                lemma_chars_deep_view(&lines@[ix + 1]);
            }
        }
        let line = &lines[ix];
        let next_continues = ix + 1 < n && lines[ix + 1].len() >= 1 && lines[ix + 1][0] == ' ';
        assert(next_continues == continues_after(ls, ix as int));
        let ghost st = RowState { items: views_of(items@), item: item@, cont };
        if cont {
            let rest = sub_chars(line, 1, line.len());
            assert(rest@ =~= line@.drop_first());
            let rest_s = string_from_chars(&rest);
            item.description.append("\n");
            item.description.append(rest_s.as_str());
            cont = next_continues;
            assert(item@ =~= PackageView {
                description: st.item.description + "\n"@ + ls[ix as int].drop_first(),
                ..st.item
            });
        } else if line.len() == 0 {
            let ghost before = items@;
            items.push(item);
            item = SourcePackage::new();
            assert(views_of(items@) =~= views_of(before).push(st.item));
        } else {
            match apply_field_exec(&mut item, line, next_continues) {
                None => {
                    proof {
                        lemma_read_lines_stops(ls, (ix + 1) as nat, n as nat);
                    }
                    return None;
                },
                Some(Err(m)) => {
                    proof {
                        lemma_read_lines_stops(ls, (ix + 1) as nat, n as nat);
                    }
                    return Some(Err(m));
                },
                Some(Ok(c)) => {
                    cont = c;
                },
            }
        }
        ix = ix + 1;
    }
    Some(Ok(items))
}

/// Only a `Description` line lets a description go on, and only when the
/// next line continues it.
proof fn lemma_apply_field_cont(item: PackageView, line: Seq<char>, nc: bool)
    ensures
        apply_field(item, line, nc) matches Some(Ok((p, c))) ==> (c ==> nc),
{
}

/// A description goes on only into a line that is there and starts with a
/// space.
proof fn lemma_reach_cont(lines: Seq<Seq<char>>, n: nat)
    ensures
        read_lines(lines, n) matches Some(Ok(st)) && st.cont ==> n < lines.len() && lines[n as int].len()
            >= 1 && lines[n as int][0] == ' ',
{
    if n > 0 {
        match read_lines(lines, (n - 1) as nat) {
            Some(Ok(s)) => {
                let ix = n - 1;
                let line = lines[ix];
                if !s.cont && line.len() != 0 {
                    lemma_apply_field_cont(s.item, line, continues_after(lines, ix));
                }
            },
            _ => {},
        }
    }
}

/// Reading the first `k + m` lines is reading the first `k`, then the `m`
/// after them.
proof fn lemma_read_range_split(lines: Seq<Seq<char>>, k: nat, m: nat, st: RowState)
    ensures
        read_range(lines, 0, k + m, st) == match read_range(lines, 0, k, st) {
            Some(Ok(s)) => read_range(lines, k as int, m, s),
            other => other,
        },
    decreases m,
{
    if m > 0 {
        lemma_read_range_split(lines, k, (m - 1) as nat, st);
        assert((k + m - 1) as nat == k + (m - 1) as nat);
        match read_range(lines, 0, k, st) {
            Some(Ok(s)) => {},
            other => {
                assert(!(read_range(lines, 0, (k + m - 1) as nat, st) matches Some(Ok(_))));
            },
        }
    }
}

/// Lines after others are read as they are read alone.
proof fn lemma_read_range_shift(la: Seq<Seq<char>>, lb: Seq<Seq<char>>, m: nat, st: RowState)
    requires
        m <= lb.len(),
    ensures
        read_range(la + lb, la.len() as int, m, st) == read_range(lb, 0, m, st),
    decreases m,
{
    if m > 0 {
        lemma_read_range_shift(la, lb, (m - 1) as nat, st);
        let l = la + lb;
        let ix = la.len() + m - 1;
        assert(l[ix] == lb[m - 1]);
        assert(continues_after(l, ix) == continues_after(lb, m - 1)) by {
            if m < lb.len() {
                assert(l[ix + 1] == lb[m as int]);
            }
        }
    }
}

/// Lines before others, the last of them empty, are read as they are read
/// alone.
proof fn lemma_read_prefix(la: Seq<Seq<char>>, lb: Seq<Seq<char>>, k: nat)
    requires
        la.len() >= 1,
        la.last().len() == 0,
        k <= la.len(),
    ensures
        read_lines(la + lb, k) == read_lines(la, k),
    decreases k,
{
    if k > 0 {
        lemma_read_prefix(la, lb, (k - 1) as nat);
        let l = la + lb;
        let ix = k - 1;
        match read_lines(la, (k - 1) as nat) {
            Some(Ok(s)) => {
                assert(l[ix] == la[ix]);
                if ix < la.len() - 1 {
                    assert(continues_after(l, ix) == continues_after(la, ix)) by {
                        assert(l[ix + 1] == la[ix + 1]);
                    }
                } else {
                    lemma_reach_cont(la, (k - 1) as nat);
                    assert(!s.cont);
                }
            },
            _ => {},
        }
    }
}

/// Records finished before do not change how the rest is read.
proof fn lemma_read_range_prefix_items(
    lines: Seq<Seq<char>>,
    off: int,
    m: nat,
    x: Seq<PackageView>,
    st: RowState,
)
    ensures
        read_range(lines, off, m, RowState { items: x + st.items, ..st }) == match read_range(
            lines,
            off,
            m,
            st,
        ) {
            Some(Ok(t)) => Some(Ok(RowState { items: x + t.items, ..t })),
            other => other,
        },
    decreases m,
{
    if m > 0 {
        lemma_read_range_prefix_items(lines, off, (m - 1) as nat, x, st);
        match read_range(lines, off, (m - 1) as nat, st) {
            Some(Ok(t)) => {
                let ix = off + m - 1;
                let line = lines[ix];
                if !t.cont && line.len() == 0 {
                    assert((x + t.items).push(t.item) =~= x + t.items.push(t.item));
                }
            },
            _ => {},
        }
    }
}

/// An index that ends with an empty line, a line break and a second index
/// read as the records of the first followed by those of the second; an
/// error in the first stops the reading there.
pub proof fn lemma_from_row_concat(a: Seq<char>, b: Seq<char>)
    requires
        a.len() == 0 || a.last() == '\n',
    ensures
        from_row_spec(a + seq!['\n'] + b) == match from_row_spec(a) {
            Some(Ok(x)) => match from_row_spec(b) {
                Some(Ok(y)) => Some(Ok(x + y)),
                other => other,
            },
            other => other,
        },
{
    let la = file_lines(a);
    let lb = file_lines(b);
    lemma_split_concat(a, b, '\n');
    let l = la + lb;
    assert(file_lines(a + seq!['\n'] + b) == l);
    if a.len() == 0 {
        lemma_split_nonempty(a, seq!['\n']);
        assert(crate::text::first_occurrence(a, seq!['\n']) is None);
        assert(a =~= Seq::<char>::empty());
        assert(la == seq![a]);
    } else {
        let a0 = a.drop_last();
        assert(a =~= a0 + seq!['\n'] + Seq::<char>::empty());
        lemma_split_concat(a0, Seq::<char>::empty(), '\n');
        assert(crate::text::first_occurrence(Seq::<char>::empty(), seq!['\n']) is None);
        assert(split(Seq::<char>::empty(), seq!['\n']) =~= seq![Seq::<char>::empty()]);
    }
    assert(la.len() >= 1 && la.last().len() == 0);
    let ka = la.len();
    lemma_read_range_split(l, ka, lb.len(), start_state());
    lemma_read_prefix(la, lb, ka);
    match read_lines(la, ka) {
        Some(Ok(s)) => {
            let s0 = read_lines(la, (ka - 1) as nat);
            lemma_reach_cont(la, (ka - 1) as nat);
            assert(s.item == empty_package() && !s.cont);
            lemma_read_range_shift(la, lb, lb.len(), s);
            let x = s.items;
            assert(s == RowState { items: x + start_state().items, ..start_state() }) by {
                assert(x + start_state().items =~= x);
            }
            lemma_read_range_prefix_items(lb, 0, lb.len(), x, start_state());
        },
        _ => {},
    }
}

/// The number of empty lines among the first `n` lines.
pub open spec fn empty_lines(lines: Seq<Seq<char>>, n: nat) -> nat
    decreases n,
{
    if n == 0 {
        0
    } else {
        empty_lines(lines, (n - 1) as nat) + if lines[n - 1].len() == 0 {
            1nat
        } else {
            0nat
        }
    }
}

proof fn lemma_records_per_empty_line(lines: Seq<Seq<char>>, n: nat)
    requires
        n <= lines.len(),
    ensures
        read_lines(lines, n) matches Some(Ok(st)) ==> st.items.len() == empty_lines(lines, n),
    decreases n,
{
    if n > 0 {
        lemma_records_per_empty_line(lines, (n - 1) as nat);
        lemma_reach_cont(lines, (n - 1) as nat);
    }
}

/// Reading a file gives one record for each of its empty lines.
pub proof fn lemma_from_row_counts_empty_lines(file: Seq<char>)
    ensures
        from_row_spec(file) matches Some(Ok(items)) ==> items.len() == empty_lines(
            file_lines(file),
            file_lines(file).len(),
        ),
{
    let lines = file_lines(file);
    lemma_records_per_empty_line(lines, lines.len());
}

/// A one-line record of an architecture: its field line, then an empty
/// line.
pub open spec fn arch_record(a: Arch) -> Seq<char> {
    "Architecture: "@ + a.name_spec() + "\n"@
}

proof fn lemma_arch_name(a: Arch)
    ensures
        !a.name_spec().contains(':'),
        !a.name_spec().contains('\n'),
        arch_of(a.name_spec()) == a,
{
    reveal_strlit("amd64");
    reveal_strlit("all");
    reveal_strlit("any");
    reveal_strlit("unknown");
    let name = a.name_spec();
    match a {
        Arch::ALL => {
            assert(name.len() != "amd64"@.len());
        },
        Arch::ANY => {
            assert(name.len() != "amd64"@.len());
            assert(name[1] != "all"@[1]);
        },
        Arch::AMD64 => {},
        Arch::UNKNOWN => {
            assert(name.len() != "amd64"@.len());
            assert(name.len() != "all"@.len());
            assert(name.len() != "any"@.len());
        },
    }
}

proof fn lemma_arch_lines(a: Arch)
    ensures
        file_lines(arch_record(a)) == seq!["Architecture: "@ + a.name_spec(), Seq::<char>::empty()],
        line_fields("Architecture: "@ + a.name_spec()) == seq!["Architecture"@, a.name_spec()],
        "Architecture"@ != "Package"@,
        ("Architecture: "@ + a.name_spec()).len() > 0,
{
    reveal_strlit("Architecture: ");
    reveal_strlit("Architecture");
    reveal_strlit(": ");
    reveal_strlit("\n");
    reveal_strlit("Package");
    lemma_arch_name(a);
    let name = a.name_spec();
    let title = "Architecture"@;
    assert(!title.contains(':'));
    assert(!title.contains('\n'));
    let line = "Architecture: "@ + name;
    assert("Architecture: "@ =~= title + ": "@);
    assert(line =~= title + ": "@ + name);
    assert(!line.contains('\n')) by {
        assert forall|i: int| 0 <= i < line.len() implies line[i] != '\n' by {
            if i < title.len() {
                assert(line[i] == title[i]);
            } else if i >= title.len() + 2 {
                assert(line[i] == name[i - title.len() - 2]);
            }
        }
    }
    let empty = Seq::<char>::empty();
    assert(arch_record(a) =~= line + seq!['\n'] + empty);
    lemma_split_concat(line, empty, '\n');
    lemma_split_whole(line, seq!['\n']);
    lemma_split_whole(empty, seq!['\n']);
    lemma_split_first(title, ": "@, name);
    lemma_split_whole(name, ": "@);
    assert(title.len() != "Package"@.len());
}

/// Reading an architecture back from how it is written gives that
/// architecture: the one record read from `Architecture: <name>` holds it
/// and nothing else.
pub proof fn lemma_arch_round_trip(a: Arch)
    ensures
        from_row_spec(arch_record(a)) == Some(
            Ok::<Seq<PackageView>, Seq<char>>(seq![PackageView { arch: seq![a], ..empty_package() }]),
        ),
{
    lemma_arch_name(a);
    lemma_arch_lines(a);
    let lines = file_lines(arch_record(a));
    let line = "Architecture: "@ + a.name_spec();
    let item = PackageView { arch: seq![a], ..empty_package() };
    assert(empty_package().arch.push(a) =~= seq![a]);
    let fields = line_fields(line);
    assert(fields.drop_first() =~= seq![a.name_spec()]);
    assert(fields[0] == "Architecture"@);
    assert(apply_field(empty_package(), line, continues_after(lines, 0)) == Some(
        Ok::<(PackageView, bool), Seq<char>>((item, false)),
    ));
    assert(lines[0] == line);
    assert(read_line(lines, 0, start_state()) == Some(
        Ok::<RowState, Seq<char>>(RowState { items: Seq::empty(), item, cont: false }),
    ));
    assert(read_range(lines, 0, 0, start_state()) == Some(Ok::<RowState, Seq<char>>(start_state())));
    assert(read_lines(lines, 1) == Some(
        Ok::<RowState, Seq<char>>(RowState { items: Seq::empty(), item, cont: false }),
    ));
    assert(read_lines(lines, 2) == Some(
        Ok::<RowState, Seq<char>>(RowState { items: seq![item], item: empty_package(), cont: false }),
    ));
}

/// The reading of a file of one field line `title: v` and an empty line:
/// the one record that the field makes of a fresh record, or the field's
/// error.
proof fn lemma_one_field(title: Seq<char>, v: Seq<char>)
    requires
        title.len() > 0,
        !title.contains(':'),
        !title.contains('\n'),
        !v.contains(':'),
        !v.contains('\n'),
    ensures
        line_fields(title + ": "@ + v) == seq![title, v],
        from_row_spec(title + ": "@ + v + "\n"@) == match apply_field(
            empty_package(),
            title + ": "@ + v,
            false,
        ) {
            Some(Ok((p, _c))) => Some(Ok(seq![p])),
            Some(Err(e)) => Some(Err(e)),
            None => None,
        },
{
    reveal_strlit(": ");
    reveal_strlit("\n");
    let line = title + ": "@ + v;
    assert(!line.contains('\n')) by {
        assert forall|i: int| 0 <= i < line.len() implies line[i] != '\n' by {
            if i < title.len() {
                assert(line[i] == title[i]);
            } else if i >= title.len() + 2 {
                assert(line[i] == v[i - title.len() - 2]);
            }
        }
    }
    let empty = Seq::<char>::empty();
    assert(line + "\n"@ =~= line + seq!['\n'] + empty);
    lemma_split_concat(line, empty, '\n');
    lemma_split_whole(line, seq!['\n']);
    lemma_split_whole(empty, seq!['\n']);
    lemma_split_first(title, ": "@, v);
    lemma_split_whole(v, ": "@);
    let lines = file_lines(line + "\n"@);
    assert(lines =~= seq![line, empty]);
    assert(line.len() > 0);
    assert(!continues_after(lines, 0));
    lemma_apply_field_cont(empty_package(), line, false);
    assert(read_range(lines, 0, 0, start_state()) == Some(Ok::<RowState, Seq<char>>(start_state())));
    assert(lines[0] == line);
    match apply_field(empty_package(), line, false) {
        Some(Ok((p, c))) => {
            let st1 = RowState { items: Seq::empty(), item: p, cont: false };
            assert(read_lines(lines, 1) == Some(Ok::<RowState, Seq<char>>(st1)));
            assert(read_lines(lines, 2) == Some(
                Ok::<RowState, Seq<char>>(RowState { items: seq![p], item: empty_package(), cont: false }),
            ));
        },
        _ => {
            assert(read_lines(lines, 2) == read_lines(lines, 1));
        },
    }
}

/// Upper-case ASCII letters made lower case; other characters kept.
pub open spec fn ascii_lower(s: Seq<char>) -> Seq<char> {
    s.map_values(
        |c: char|
            if 65 <= (c as u32) <= 90 {
                ((c as u32) + 32) as char
            } else {
                c
            },
    )
}

/// A one-line record of a priority, written by its name in lower case.
pub open spec fn priority_record(p: Priority) -> Seq<char> {
    "Priority: "@ + ascii_lower(p.name_spec()) + "\n"@
}

/// Reading a priority back from its name in lower case gives that
/// priority: `Priority: optional` reads as `OPTIONAL`, and so on for
/// every priority.
pub proof fn lemma_priority_round_trip(p: Priority)
    ensures
        from_row_spec(priority_record(p)) == Some(
            Ok::<Seq<PackageView>, Seq<char>>(seq![PackageView { priority: p, ..empty_package() }]),
        ),
{
    reveal_strlit("Priority: ");
    reveal_strlit("Priority");
    reveal_strlit(": ");
    reveal_strlit("Package");
    reveal_strlit("Architecture");
    reveal_strlit("Version");
    reveal_strlit("REQUIRED");
    reveal_strlit("IMPORTANT");
    reveal_strlit("STANDARD");
    reveal_strlit("OPTIONAL");
    reveal_strlit("EXTRA");
    reveal_strlit("UNKNOWN");
    reveal_strlit("required");
    reveal_strlit("important");
    reveal_strlit("standard");
    reveal_strlit("optional");
    reveal_strlit("extra");
    let v = ascii_lower(p.name_spec());
    match p {
        Priority::REQUIRED => {
            assert(v =~= "required"@);
            assert(v.len() != "extra"@.len() && v[0] != "optional"@[0] && v.len()
                != "important"@.len());
        },
        Priority::IMPORTANT => {
            assert(v =~= "important"@);
            assert(v.len() != "extra"@.len() && v.len() != "optional"@.len());
        },
        Priority::STANDARD => {
            assert(v =~= "standard"@);
            assert(v.len() != "extra"@.len() && v[0] != "optional"@[0] && v.len()
                != "important"@.len() && v[0] != "required"@[0]);
        },
        Priority::OPTIONAL => {
            assert(v =~= "optional"@);
            assert(v.len() != "extra"@.len());
        },
        Priority::EXTRA => {
            assert(v =~= "extra"@);
        },
        Priority::UNKNOWN => {
            assert(v.len() == 7);
            assert(v.len() != "extra"@.len() && v.len() != "optional"@.len() && v.len()
                != "important"@.len() && v.len() != "required"@.len() && v.len()
                != "standard"@.len());
        },
    }
    assert(!v.contains(':') && !v.contains('\n'));
    let title = "Priority"@;
    assert(!title.contains(':') && !title.contains('\n'));
    assert("Priority: "@ =~= title + ": "@);
    assert(priority_record(p) =~= title + ": "@ + v + "\n"@);
    lemma_one_field(title, v);
    assert(title.len() != "Package"@.len() && title.len() != "Architecture"@.len()
        && title.len() != "Version"@.len());
    let fields = line_fields(title + ": "@ + v);
    assert(fields.drop_first() =~= seq![v]);
}

/// Whatever a `Priority` field holds, the record read from it has either
/// the priority whose lower-case name the field holds, or `UNKNOWN`.
pub proof fn lemma_priority_field(v: Seq<char>)
    requires
        !v.contains(':'),
        !v.contains('\n'),
    ensures
        from_row_spec("Priority: "@ + v + "\n"@) matches Some(Ok(r)) && r.len() == 1 && (
        r[0].priority == Priority::UNKNOWN || ascii_lower(r[0].priority.name_spec()) == v),
{
    reveal_strlit("Priority: ");
    reveal_strlit("Priority");
    reveal_strlit(": ");
    reveal_strlit("Package");
    reveal_strlit("Architecture");
    reveal_strlit("Version");
    let title = "Priority"@;
    assert(!title.contains(':') && !title.contains('\n'));
    assert("Priority: "@ =~= title + ": "@);
    assert("Priority: "@ + v + "\n"@ =~= title + ": "@ + v + "\n"@);
    lemma_one_field(title, v);
    assert(title.len() != "Package"@.len() && title.len() != "Architecture"@.len()
        && title.len() != "Version"@.len());
    let fields = line_fields(title + ": "@ + v);
    assert(fields.drop_first() =~= seq![v]);
    let q = priority_of(v);
    if q != Priority::UNKNOWN {
        let w = ascii_lower(q.name_spec());
        reveal_strlit("required");
        reveal_strlit("important");
        reveal_strlit("standard");
        reveal_strlit("optional");
        reveal_strlit("extra");
        reveal_strlit("REQUIRED");
        reveal_strlit("IMPORTANT");
        reveal_strlit("STANDARD");
        reveal_strlit("OPTIONAL");
        reveal_strlit("EXTRA");
        match q {
            Priority::REQUIRED => assert(w =~= "required"@),
            Priority::IMPORTANT => assert(w =~= "important"@),
            Priority::STANDARD => assert(w =~= "standard"@),
            Priority::OPTIONAL => assert(w =~= "optional"@),
            Priority::EXTRA => assert(w =~= "extra"@),
            Priority::UNKNOWN => {},
        }
    }
}

/// A record is essential exactly when its `Essential` field says `yes`.
pub proof fn lemma_essential_field(v: Seq<char>)
    requires
        !v.contains(':'),
        !v.contains('\n'),
    ensures
        from_row_spec("Essential: "@ + v + "\n"@) == Some(
            Ok::<Seq<PackageView>, Seq<char>>(
                seq![PackageView { essential: v == "yes"@, ..empty_package() }],
            ),
        ),
{
    reveal_strlit("Essential: ");
    reveal_strlit("Essential");
    reveal_strlit(": ");
    reveal_strlit("Package");
    reveal_strlit("Architecture");
    reveal_strlit("Version");
    reveal_strlit("Priority");
    let title = "Essential"@;
    assert(!title.contains(':') && !title.contains('\n'));
    assert("Essential: "@ =~= title + ": "@);
    assert("Essential: "@ + v + "\n"@ =~= title + ": "@ + v + "\n"@);
    lemma_one_field(title, v);
    assert(title.len() != "Package"@.len() && title.len() != "Architecture"@.len()
        && title.len() != "Version"@.len() && title.len() != "Priority"@.len());
    let fields = line_fields(title + ": "@ + v);
    assert(fields.drop_first() =~= seq![v]);
}

/// A `Package` field gives the record its name, the value as written.
pub proof fn lemma_field_package(v: Seq<char>)
    requires
        !v.contains(':'),
        !v.contains('\n'),
    ensures
        from_row_spec("Package: "@ + v + "\n"@) == Some(
            Ok::<Seq<PackageView>, Seq<char>>(seq![PackageView { package: v, ..empty_package() }]),
        ),
{
    reveal_strlit("Package: ");
    reveal_strlit("Package");
    reveal_strlit(": ");
    let title = "Package"@;
    assert(!title.contains(':') && !title.contains('\n'));
    assert("Package: "@ =~= title + ": "@);
    assert("Package: "@ + v + "\n"@ =~= title + ": "@ + v + "\n"@);
    lemma_one_field(title, v);
    assert(line_fields(title + ": "@ + v).drop_first() =~= seq![v]);
}

/// A `Version` field gives the record its version, the value as written.
pub proof fn lemma_field_version(v: Seq<char>)
    requires
        !v.contains(':'),
        !v.contains('\n'),
    ensures
        from_row_spec("Version: "@ + v + "\n"@) == Some(
            Ok::<Seq<PackageView>, Seq<char>>(seq![PackageView { version: v, ..empty_package() }]),
        ),
{
    reveal_strlit("Version: ");
    reveal_strlit("Version");
    reveal_strlit(": ");
    reveal_strlit("Package");
    reveal_strlit("Architecture");
    let title = "Version"@;
    assert(!title.contains(':') && !title.contains('\n'));
    assert("Version: "@ =~= title + ": "@);
    assert("Version: "@ + v + "\n"@ =~= title + ": "@ + v + "\n"@);
    lemma_one_field(title, v);
    assert(title[0] != "Package"@[0]);
    assert(title.len() != "Architecture"@.len());
    assert(line_fields(title + ": "@ + v).drop_first() =~= seq![v]);
}

/// A `Section` field gives the record its section: `ADMIN` for `admin`, `UNKNOWN` for anything else, the value as written.
pub proof fn lemma_field_section(v: Seq<char>)
    requires
        !v.contains(':'),
        !v.contains('\n'),
    ensures
        from_row_spec("Section: "@ + v + "\n"@) == Some(
            Ok::<Seq<PackageView>, Seq<char>>(seq![PackageView { section: if v == "admin"@ { Section::ADMIN } else { Section::UNKNOWN }, ..empty_package() }]),
        ),
{
    reveal_strlit("Section: ");
    reveal_strlit("Section");
    reveal_strlit(": ");
    reveal_strlit("Package");
    reveal_strlit("Architecture");
    reveal_strlit("Version");
    reveal_strlit("Priority");
    reveal_strlit("Essential");
    let title = "Section"@;
    assert(!title.contains(':') && !title.contains('\n'));
    assert("Section: "@ =~= title + ": "@);
    assert("Section: "@ + v + "\n"@ =~= title + ": "@ + v + "\n"@);
    lemma_one_field(title, v);
    assert(title[0] != "Package"@[0]);
    assert(title.len() != "Architecture"@.len());
    assert(title[0] != "Version"@[0]);
    assert(title.len() != "Priority"@.len());
    assert(title.len() != "Essential"@.len());
    assert(line_fields(title + ": "@ + v).drop_first() =~= seq![v]);
}

/// A `Maintainer` field gives the record its maintainer, the value as written.
pub proof fn lemma_field_maintainer(v: Seq<char>)
    requires
        !v.contains(':'),
        !v.contains('\n'),
    ensures
        from_row_spec("Maintainer: "@ + v + "\n"@) == Some(
            Ok::<Seq<PackageView>, Seq<char>>(seq![PackageView { maintainer: v, ..empty_package() }]),
        ),
{
    reveal_strlit("Maintainer: ");
    reveal_strlit("Maintainer");
    reveal_strlit(": ");
    reveal_strlit("Package");
    reveal_strlit("Architecture");
    reveal_strlit("Version");
    reveal_strlit("Priority");
    reveal_strlit("Essential");
    reveal_strlit("Section");
    let title = "Maintainer"@;
    assert(!title.contains(':') && !title.contains('\n'));
    assert("Maintainer: "@ =~= title + ": "@);
    assert("Maintainer: "@ + v + "\n"@ =~= title + ": "@ + v + "\n"@);
    lemma_one_field(title, v);
    assert(title.len() != "Package"@.len());
    assert(title.len() != "Architecture"@.len());
    assert(title.len() != "Version"@.len());
    assert(title.len() != "Priority"@.len());
    assert(title.len() != "Essential"@.len());
    assert(title.len() != "Section"@.len());
    assert(line_fields(title + ": "@ + v).drop_first() =~= seq![v]);
}

/// A `Original-Maintainer` field gives the record its original maintainer, the value as written.
pub proof fn lemma_field_original_maintainer(v: Seq<char>)
    requires
        !v.contains(':'),
        !v.contains('\n'),
    ensures
        from_row_spec("Original-Maintainer: "@ + v + "\n"@) == Some(
            Ok::<Seq<PackageView>, Seq<char>>(seq![PackageView { original_maintainer: v, ..empty_package() }]),
        ),
{
    reveal_strlit("Original-Maintainer: ");
    reveal_strlit("Original-Maintainer");
    reveal_strlit(": ");
    reveal_strlit("Package");
    reveal_strlit("Architecture");
    reveal_strlit("Version");
    reveal_strlit("Priority");
    reveal_strlit("Essential");
    reveal_strlit("Section");
    reveal_strlit("Maintainer");
    let title = "Original-Maintainer"@;
    assert(!title.contains(':') && !title.contains('\n'));
    assert("Original-Maintainer: "@ =~= title + ": "@);
    assert("Original-Maintainer: "@ + v + "\n"@ =~= title + ": "@ + v + "\n"@);
    lemma_one_field(title, v);
    assert(title.len() != "Package"@.len());
    assert(title.len() != "Architecture"@.len());
    assert(title.len() != "Version"@.len());
    assert(title.len() != "Priority"@.len());
    assert(title.len() != "Essential"@.len());
    assert(title.len() != "Section"@.len());
    assert(title.len() != "Maintainer"@.len());
    assert(line_fields(title + ": "@ + v).drop_first() =~= seq![v]);
}

/// A `Filename` field gives the record its file name, the value as written.
pub proof fn lemma_field_filename(v: Seq<char>)
    requires
        !v.contains(':'),
        !v.contains('\n'),
    ensures
        from_row_spec("Filename: "@ + v + "\n"@) == Some(
            Ok::<Seq<PackageView>, Seq<char>>(seq![PackageView { filename: v, ..empty_package() }]),
        ),
{
    reveal_strlit("Filename: ");
    reveal_strlit("Filename");
    reveal_strlit(": ");
    reveal_strlit("Package");
    reveal_strlit("Architecture");
    reveal_strlit("Version");
    reveal_strlit("Priority");
    reveal_strlit("Essential");
    reveal_strlit("Section");
    reveal_strlit("Maintainer");
    reveal_strlit("Original-Maintainer");
    reveal_strlit("Pre-Depends");
    reveal_strlit("Depends");
    reveal_strlit("Suggests");
    let title = "Filename"@;
    assert(!title.contains(':') && !title.contains('\n'));
    assert("Filename: "@ =~= title + ": "@);
    assert("Filename: "@ + v + "\n"@ =~= title + ": "@ + v + "\n"@);
    lemma_one_field(title, v);
    assert(title.len() != "Package"@.len());
    assert(title.len() != "Architecture"@.len());
    assert(title.len() != "Version"@.len());
    assert(title[0] != "Priority"@[0]);
    assert(title.len() != "Essential"@.len());
    assert(title.len() != "Section"@.len());
    assert(title.len() != "Maintainer"@.len());
    assert(title.len() != "Original-Maintainer"@.len());
    assert(title.len() != "Pre-Depends"@.len());
    assert(title.len() != "Depends"@.len());
    assert(title[0] != "Suggests"@[0]);
    assert(line_fields(title + ": "@ + v).drop_first() =~= seq![v]);
}

/// A `MD5sum` field gives the record its checksum, the value as written.
pub proof fn lemma_field_md5sum(v: Seq<char>)
    requires
        !v.contains(':'),
        !v.contains('\n'),
    ensures
        from_row_spec("MD5sum: "@ + v + "\n"@) == Some(
            Ok::<Seq<PackageView>, Seq<char>>(seq![PackageView { chksum_md5: v, ..empty_package() }]),
        ),
{
    reveal_strlit("MD5sum: ");
    reveal_strlit("MD5sum");
    reveal_strlit(": ");
    reveal_strlit("Package");
    reveal_strlit("Architecture");
    reveal_strlit("Version");
    reveal_strlit("Priority");
    reveal_strlit("Essential");
    reveal_strlit("Section");
    reveal_strlit("Maintainer");
    reveal_strlit("Original-Maintainer");
    reveal_strlit("Pre-Depends");
    reveal_strlit("Depends");
    reveal_strlit("Suggests");
    reveal_strlit("Filename");
    let title = "MD5sum"@;
    assert(!title.contains(':') && !title.contains('\n'));
    assert("MD5sum: "@ =~= title + ": "@);
    assert("MD5sum: "@ + v + "\n"@ =~= title + ": "@ + v + "\n"@);
    lemma_one_field(title, v);
    assert(title.len() != "Package"@.len());
    assert(title.len() != "Architecture"@.len());
    assert(title.len() != "Version"@.len());
    assert(title.len() != "Priority"@.len());
    assert(title.len() != "Essential"@.len());
    assert(title.len() != "Section"@.len());
    assert(title.len() != "Maintainer"@.len());
    assert(title.len() != "Original-Maintainer"@.len());
    assert(title.len() != "Pre-Depends"@.len());
    assert(title.len() != "Depends"@.len());
    assert(title.len() != "Suggests"@.len());
    assert(title.len() != "Filename"@.len());
    assert(line_fields(title + ": "@ + v).drop_first() =~= seq![v]);
}

/// A `Homepage` field gives the record its home page, the value as written.
pub proof fn lemma_field_homepage(v: Seq<char>)
    requires
        !v.contains(':'),
        !v.contains('\n'),
    ensures
        from_row_spec("Homepage: "@ + v + "\n"@) == Some(
            Ok::<Seq<PackageView>, Seq<char>>(seq![PackageView { homepage: v, ..empty_package() }]),
        ),
{
    reveal_strlit("Homepage: ");
    reveal_strlit("Homepage");
    reveal_strlit(": ");
    reveal_strlit("Package");
    reveal_strlit("Architecture");
    reveal_strlit("Version");
    reveal_strlit("Priority");
    reveal_strlit("Essential");
    reveal_strlit("Section");
    reveal_strlit("Maintainer");
    reveal_strlit("Original-Maintainer");
    reveal_strlit("Pre-Depends");
    reveal_strlit("Depends");
    reveal_strlit("Suggests");
    reveal_strlit("Filename");
    reveal_strlit("MD5sum");
    let title = "Homepage"@;
    assert(!title.contains(':') && !title.contains('\n'));
    assert("Homepage: "@ =~= title + ": "@);
    assert("Homepage: "@ + v + "\n"@ =~= title + ": "@ + v + "\n"@);
    lemma_one_field(title, v);
    assert(title.len() != "Package"@.len());
    assert(title.len() != "Architecture"@.len());
    assert(title.len() != "Version"@.len());
    assert(title[0] != "Priority"@[0]);
    assert(title.len() != "Essential"@.len());
    assert(title.len() != "Section"@.len());
    assert(title.len() != "Maintainer"@.len());
    assert(title.len() != "Original-Maintainer"@.len());
    assert(title.len() != "Pre-Depends"@.len());
    assert(title.len() != "Depends"@.len());
    assert(title[0] != "Suggests"@[0]);
    assert(title[0] != "Filename"@[0]);
    assert(title.len() != "MD5sum"@.len());
    assert(line_fields(title + ": "@ + v).drop_first() =~= seq![v]);
}

/// A `Description` field gives the record its description, the value as written.
pub proof fn lemma_field_description(v: Seq<char>)
    requires
        !v.contains(':'),
        !v.contains('\n'),
    ensures
        from_row_spec("Description: "@ + v + "\n"@) == Some(
            Ok::<Seq<PackageView>, Seq<char>>(seq![PackageView { description: v, ..empty_package() }]),
        ),
{
    reveal_strlit("Description: ");
    reveal_strlit("Description");
    reveal_strlit(": ");
    reveal_strlit("Package");
    reveal_strlit("Architecture");
    reveal_strlit("Version");
    reveal_strlit("Priority");
    reveal_strlit("Essential");
    reveal_strlit("Section");
    reveal_strlit("Maintainer");
    reveal_strlit("Original-Maintainer");
    reveal_strlit("Pre-Depends");
    reveal_strlit("Depends");
    reveal_strlit("Suggests");
    reveal_strlit("Filename");
    reveal_strlit("MD5sum");
    reveal_strlit("Homepage");
    let title = "Description"@;
    assert(!title.contains(':') && !title.contains('\n'));
    assert("Description: "@ =~= title + ": "@);
    assert("Description: "@ + v + "\n"@ =~= title + ": "@ + v + "\n"@);
    lemma_one_field(title, v);
    assert(title.len() != "Package"@.len());
    assert(title.len() != "Architecture"@.len());
    assert(title.len() != "Version"@.len());
    assert(title.len() != "Priority"@.len());
    assert(title.len() != "Essential"@.len());
    assert(title.len() != "Section"@.len());
    assert(title.len() != "Maintainer"@.len());
    assert(title.len() != "Original-Maintainer"@.len());
    assert(title[0] != "Pre-Depends"@[0]);
    assert(title.len() != "Depends"@.len());
    assert(title.len() != "Suggests"@.len());
    assert(title.len() != "Filename"@.len());
    assert(title.len() != "MD5sum"@.len());
    assert(title.len() != "Homepage"@.len());
    assert(line_fields(title + ": "@ + v).drop_first() =~= seq![v]);
}

/// A `Conffiles` field gives the record its one configuration file, the value as written.
pub proof fn lemma_field_conffiles(v: Seq<char>)
    requires
        !v.contains(':'),
        !v.contains('\n'),
    ensures
        from_row_spec("Conffiles: "@ + v + "\n"@) == Some(
            Ok::<Seq<PackageView>, Seq<char>>(seq![PackageView { conffiles: seq![v], ..empty_package() }]),
        ),
{
    reveal_strlit("Conffiles: ");
    reveal_strlit("Conffiles");
    reveal_strlit(": ");
    reveal_strlit("Package");
    reveal_strlit("Architecture");
    reveal_strlit("Version");
    reveal_strlit("Priority");
    reveal_strlit("Essential");
    reveal_strlit("Section");
    reveal_strlit("Maintainer");
    reveal_strlit("Original-Maintainer");
    reveal_strlit("Pre-Depends");
    reveal_strlit("Depends");
    reveal_strlit("Suggests");
    reveal_strlit("Filename");
    reveal_strlit("MD5sum");
    reveal_strlit("Homepage");
    reveal_strlit("Description");
    let title = "Conffiles"@;
    assert(!title.contains(':') && !title.contains('\n'));
    assert("Conffiles: "@ =~= title + ": "@);
    assert("Conffiles: "@ + v + "\n"@ =~= title + ": "@ + v + "\n"@);
    lemma_one_field(title, v);
    assert(title.len() != "Package"@.len());
    assert(title.len() != "Architecture"@.len());
    assert(title.len() != "Version"@.len());
    assert(title.len() != "Priority"@.len());
    assert(title[0] != "Essential"@[0]);
    assert(title.len() != "Section"@.len());
    assert(title.len() != "Maintainer"@.len());
    assert(title.len() != "Original-Maintainer"@.len());
    assert(title.len() != "Pre-Depends"@.len());
    assert(title.len() != "Depends"@.len());
    assert(title.len() != "Suggests"@.len());
    assert(title.len() != "Filename"@.len());
    assert(title.len() != "MD5sum"@.len());
    assert(title.len() != "Homepage"@.len());
    assert(title.len() != "Description"@.len());
    assert(line_fields(title + ": "@ + v).drop_first() =~= seq![v]);
    assert(empty_package().conffiles.push(v) =~= seq![v]);
}

/// A `Origin` field gives the record its origin, the value as written.
pub proof fn lemma_field_origin(v: Seq<char>)
    requires
        !v.contains(':'),
        !v.contains('\n'),
    ensures
        from_row_spec("Origin: "@ + v + "\n"@) == Some(
            Ok::<Seq<PackageView>, Seq<char>>(seq![PackageView { origin: v, ..empty_package() }]),
        ),
{
    reveal_strlit("Origin: ");
    reveal_strlit("Origin");
    reveal_strlit(": ");
    reveal_strlit("Package");
    reveal_strlit("Architecture");
    reveal_strlit("Version");
    reveal_strlit("Priority");
    reveal_strlit("Essential");
    reveal_strlit("Section");
    reveal_strlit("Maintainer");
    reveal_strlit("Original-Maintainer");
    reveal_strlit("Pre-Depends");
    reveal_strlit("Depends");
    reveal_strlit("Suggests");
    reveal_strlit("Filename");
    reveal_strlit("MD5sum");
    reveal_strlit("Homepage");
    reveal_strlit("Description");
    reveal_strlit("Conffiles");
    let title = "Origin"@;
    assert(!title.contains(':') && !title.contains('\n'));
    assert("Origin: "@ =~= title + ": "@);
    assert("Origin: "@ + v + "\n"@ =~= title + ": "@ + v + "\n"@);
    lemma_one_field(title, v);
    assert(title.len() != "Package"@.len());
    assert(title.len() != "Architecture"@.len());
    assert(title.len() != "Version"@.len());
    assert(title.len() != "Priority"@.len());
    assert(title.len() != "Essential"@.len());
    assert(title.len() != "Section"@.len());
    assert(title.len() != "Maintainer"@.len());
    assert(title.len() != "Original-Maintainer"@.len());
    assert(title.len() != "Pre-Depends"@.len());
    assert(title.len() != "Depends"@.len());
    assert(title.len() != "Suggests"@.len());
    assert(title.len() != "Filename"@.len());
    assert(title[0] != "MD5sum"@[0]);
    assert(title.len() != "Homepage"@.len());
    assert(title.len() != "Description"@.len());
    assert(title.len() != "Conffiles"@.len());
    assert(line_fields(title + ": "@ + v).drop_first() =~= seq![v]);
}

/// A `Bugs` field gives the record where its bugs go, the value as written.
pub proof fn lemma_field_bugs(v: Seq<char>)
    requires
        !v.contains(':'),
        !v.contains('\n'),
    ensures
        from_row_spec("Bugs: "@ + v + "\n"@) == Some(
            Ok::<Seq<PackageView>, Seq<char>>(seq![PackageView { bugs: v, ..empty_package() }]),
        ),
{
    reveal_strlit("Bugs: ");
    reveal_strlit("Bugs");
    reveal_strlit(": ");
    reveal_strlit("Package");
    reveal_strlit("Architecture");
    reveal_strlit("Version");
    reveal_strlit("Priority");
    reveal_strlit("Essential");
    reveal_strlit("Section");
    reveal_strlit("Maintainer");
    reveal_strlit("Original-Maintainer");
    reveal_strlit("Pre-Depends");
    reveal_strlit("Depends");
    reveal_strlit("Suggests");
    reveal_strlit("Filename");
    reveal_strlit("MD5sum");
    reveal_strlit("Homepage");
    reveal_strlit("Description");
    reveal_strlit("Conffiles");
    reveal_strlit("Origin");
    let title = "Bugs"@;
    assert(!title.contains(':') && !title.contains('\n'));
    assert("Bugs: "@ =~= title + ": "@);
    assert("Bugs: "@ + v + "\n"@ =~= title + ": "@ + v + "\n"@);
    lemma_one_field(title, v);
    assert(title.len() != "Package"@.len());
    assert(title.len() != "Architecture"@.len());
    assert(title.len() != "Version"@.len());
    assert(title.len() != "Priority"@.len());
    assert(title.len() != "Essential"@.len());
    assert(title.len() != "Section"@.len());
    assert(title.len() != "Maintainer"@.len());
    assert(title.len() != "Original-Maintainer"@.len());
    assert(title.len() != "Pre-Depends"@.len());
    assert(title.len() != "Depends"@.len());
    assert(title.len() != "Suggests"@.len());
    assert(title.len() != "Filename"@.len());
    assert(title.len() != "MD5sum"@.len());
    assert(title.len() != "Homepage"@.len());
    assert(title.len() != "Description"@.len());
    assert(title.len() != "Conffiles"@.len());
    assert(title.len() != "Origin"@.len());
    assert(line_fields(title + ": "@ + v).drop_first() =~= seq![v]);
}

/// The reading of a file of one line without `": "` and an empty line.
proof fn lemma_one_bare_line(title: Seq<char>)
    requires
        title.len() > 0,
        !title.contains(':'),
        !title.contains('\n'),
    ensures
        line_fields(title) == seq![title],
        from_row_spec(title + "\n"@) == match apply_field(empty_package(), title, false) {
            Some(Ok((p, _c))) => Some(Ok(seq![p])),
            Some(Err(e)) => Some(Err(e)),
            None => None,
        },
{
    reveal_strlit(": ");
    reveal_strlit("\n");
    let empty = Seq::<char>::empty();
    assert(title + "\n"@ =~= title + seq!['\n'] + empty);
    lemma_split_concat(title, empty, '\n');
    lemma_split_whole(title, seq!['\n']);
    lemma_split_whole(empty, seq!['\n']);
    lemma_split_whole(title, ": "@);
    let lines = file_lines(title + "\n"@);
    assert(lines =~= seq![title, empty]);
    assert(!continues_after(lines, 0));
    lemma_apply_field_cont(empty_package(), title, false);
    assert(read_range(lines, 0, 0, start_state()) == Some(Ok::<RowState, Seq<char>>(start_state())));
    match apply_field(empty_package(), title, false) {
        Some(Ok((p, c))) => {
            let st1 = RowState { items: Seq::empty(), item: p, cont: false };
            assert(read_lines(lines, 1) == Some(Ok::<RowState, Seq<char>>(st1)));
            assert(read_lines(lines, 2) == Some(
                Ok::<RowState, Seq<char>>(RowState { items: seq![p], item: empty_package(), cont: false }),
            ));
        },
        _ => {
            assert(read_lines(lines, 2) == read_lines(lines, 1));
        },
    }
}

/// A `Package` line without a value is refused, with a message that names
/// the field and shows the line.
pub proof fn lemma_no_value_package()
    ensures
        from_row_spec("Package\n"@) == Some(
            Err::<Seq<PackageView>, Seq<char>>("invalid 'Package' format: Package"@),
        ),
{
    reveal_strlit("Package\n");
    reveal_strlit("Package");
    reveal_strlit("\n");
    reveal_strlit("invalid '");
    reveal_strlit("' format: ");
    reveal_strlit("invalid 'Package' format: Package");
    let title = "Package"@;
    assert(!title.contains(':') && !title.contains('\n'));
    assert("Package\n"@ =~= title + "\n"@);
    lemma_one_bare_line(title);
    assert(line_fields(title).drop_first().len() == 0);
    assert(field_error(title, title) =~= "invalid 'Package' format: Package"@);
}

/// A `Architecture` line without a value is refused, with a message that names
/// the field and shows the line.
pub proof fn lemma_no_value_architecture()
    ensures
        from_row_spec("Architecture\n"@) == Some(
            Err::<Seq<PackageView>, Seq<char>>("invalid 'Architecture' format: Architecture"@),
        ),
{
    reveal_strlit("Architecture\n");
    reveal_strlit("Architecture");
    reveal_strlit("\n");
    reveal_strlit("invalid '");
    reveal_strlit("' format: ");
    reveal_strlit("invalid 'Architecture' format: Architecture");
    reveal_strlit("Package");
    let title = "Architecture"@;
    assert(!title.contains(':') && !title.contains('\n'));
    assert("Architecture\n"@ =~= title + "\n"@);
    lemma_one_bare_line(title);
    assert(title.len() != "Package"@.len());
    assert(line_fields(title).drop_first().len() == 0);
    assert(field_error(title, title) =~= "invalid 'Architecture' format: Architecture"@);
}

/// A `Version` line without a value is refused, with a message that names
/// the field and shows the line.
pub proof fn lemma_no_value_version()
    ensures
        from_row_spec("Version\n"@) == Some(
            Err::<Seq<PackageView>, Seq<char>>("invalid 'Version' format: Version"@),
        ),
{
    reveal_strlit("Version\n");
    reveal_strlit("Version");
    reveal_strlit("\n");
    reveal_strlit("invalid '");
    reveal_strlit("' format: ");
    reveal_strlit("invalid 'Version' format: Version");
    reveal_strlit("Package");
    reveal_strlit("Architecture");
    let title = "Version"@;
    assert(!title.contains(':') && !title.contains('\n'));
    assert("Version\n"@ =~= title + "\n"@);
    lemma_one_bare_line(title);
    assert(title[0] != "Package"@[0]);
    assert(title.len() != "Architecture"@.len());
    assert(line_fields(title).drop_first().len() == 0);
    assert(field_error(title, title) =~= "invalid 'Version' format: Version"@);
}

/// A `Priority` line without a value is refused, with a message that names
/// the field and shows the line.
pub proof fn lemma_no_value_priority()
    ensures
        from_row_spec("Priority\n"@) == Some(
            Err::<Seq<PackageView>, Seq<char>>("invalid 'Priority' format: Priority"@),
        ),
{
    reveal_strlit("Priority\n");
    reveal_strlit("Priority");
    reveal_strlit("\n");
    reveal_strlit("invalid '");
    reveal_strlit("' format: ");
    reveal_strlit("invalid 'Priority' format: Priority");
    reveal_strlit("Package");
    reveal_strlit("Architecture");
    reveal_strlit("Version");
    let title = "Priority"@;
    assert(!title.contains(':') && !title.contains('\n'));
    assert("Priority\n"@ =~= title + "\n"@);
    lemma_one_bare_line(title);
    assert(title.len() != "Package"@.len());
    assert(title.len() != "Architecture"@.len());
    assert(title.len() != "Version"@.len());
    assert(line_fields(title).drop_first().len() == 0);
    assert(field_error(title, title) =~= "invalid 'Priority' format: Priority"@);
}

/// A `Essential` line without a value is refused, with a message that names
/// the field and shows the line.
pub proof fn lemma_no_value_essential()
    ensures
        from_row_spec("Essential\n"@) == Some(
            Err::<Seq<PackageView>, Seq<char>>("invalid 'Essential' format: Essential"@),
        ),
{
    reveal_strlit("Essential\n");
    reveal_strlit("Essential");
    reveal_strlit("\n");
    reveal_strlit("invalid '");
    reveal_strlit("' format: ");
    reveal_strlit("invalid 'Essential' format: Essential");
    reveal_strlit("Package");
    reveal_strlit("Architecture");
    reveal_strlit("Version");
    reveal_strlit("Priority");
    let title = "Essential"@;
    assert(!title.contains(':') && !title.contains('\n'));
    assert("Essential\n"@ =~= title + "\n"@);
    lemma_one_bare_line(title);
    assert(title.len() != "Package"@.len());
    assert(title.len() != "Architecture"@.len());
    assert(title.len() != "Version"@.len());
    assert(title.len() != "Priority"@.len());
    assert(line_fields(title).drop_first().len() == 0);
    assert(field_error(title, title) =~= "invalid 'Essential' format: Essential"@);
}

/// A `Section` line without a value is refused, with a message that names
/// the field and shows the line.
pub proof fn lemma_no_value_section()
    ensures
        from_row_spec("Section\n"@) == Some(
            Err::<Seq<PackageView>, Seq<char>>("invalid 'Section' format: Section"@),
        ),
{
    reveal_strlit("Section\n");
    reveal_strlit("Section");
    reveal_strlit("\n");
    reveal_strlit("invalid '");
    reveal_strlit("' format: ");
    reveal_strlit("invalid 'Section' format: Section");
    reveal_strlit("Package");
    reveal_strlit("Architecture");
    reveal_strlit("Version");
    reveal_strlit("Priority");
    reveal_strlit("Essential");
    let title = "Section"@;
    assert(!title.contains(':') && !title.contains('\n'));
    assert("Section\n"@ =~= title + "\n"@);
    lemma_one_bare_line(title);
    assert(title[0] != "Package"@[0]);
    assert(title.len() != "Architecture"@.len());
    assert(title[0] != "Version"@[0]);
    assert(title.len() != "Priority"@.len());
    assert(title.len() != "Essential"@.len());
    assert(line_fields(title).drop_first().len() == 0);
    assert(field_error(title, title) =~= "invalid 'Section' format: Section"@);
}

/// A `Filename` line without a value is refused, with a message that names
/// the field and shows the line.
pub proof fn lemma_no_value_filename()
    ensures
        from_row_spec("Filename\n"@) == Some(
            Err::<Seq<PackageView>, Seq<char>>("invalid 'Filename' format: Filename"@),
        ),
{
    reveal_strlit("Filename\n");
    reveal_strlit("Filename");
    reveal_strlit("\n");
    reveal_strlit("invalid '");
    reveal_strlit("' format: ");
    reveal_strlit("invalid 'Filename' format: Filename");
    reveal_strlit("Package");
    reveal_strlit("Architecture");
    reveal_strlit("Version");
    reveal_strlit("Priority");
    reveal_strlit("Essential");
    reveal_strlit("Section");
    reveal_strlit("Maintainer");
    reveal_strlit("Original-Maintainer");
    reveal_strlit("Pre-Depends");
    reveal_strlit("Depends");
    reveal_strlit("Suggests");
    let title = "Filename"@;
    assert(!title.contains(':') && !title.contains('\n'));
    assert("Filename\n"@ =~= title + "\n"@);
    lemma_one_bare_line(title);
    assert(title.len() != "Package"@.len());
    assert(title.len() != "Architecture"@.len());
    assert(title.len() != "Version"@.len());
    assert(title[0] != "Priority"@[0]);
    assert(title.len() != "Essential"@.len());
    assert(title.len() != "Section"@.len());
    assert(title.len() != "Maintainer"@.len());
    assert(title.len() != "Original-Maintainer"@.len());
    assert(title.len() != "Pre-Depends"@.len());
    assert(title.len() != "Depends"@.len());
    assert(title[0] != "Suggests"@[0]);
    assert(line_fields(title).drop_first().len() == 0);
    assert(field_error(title, title) =~= "invalid 'Filename' format: Filename"@);
}

/// A `MD5sum` line without a value is refused, with a message that names
/// the field and shows the line.
pub proof fn lemma_no_value_md5sum()
    ensures
        from_row_spec("MD5sum\n"@) == Some(
            Err::<Seq<PackageView>, Seq<char>>("invalid 'MD5sum' format: MD5sum"@),
        ),
{
    reveal_strlit("MD5sum\n");
    reveal_strlit("MD5sum");
    reveal_strlit("\n");
    reveal_strlit("invalid '");
    reveal_strlit("' format: ");
    reveal_strlit("invalid 'MD5sum' format: MD5sum");
    reveal_strlit("Package");
    reveal_strlit("Architecture");
    reveal_strlit("Version");
    reveal_strlit("Priority");
    reveal_strlit("Essential");
    reveal_strlit("Section");
    reveal_strlit("Maintainer");
    reveal_strlit("Original-Maintainer");
    reveal_strlit("Pre-Depends");
    reveal_strlit("Depends");
    reveal_strlit("Suggests");
    reveal_strlit("Filename");
    let title = "MD5sum"@;
    assert(!title.contains(':') && !title.contains('\n'));
    assert("MD5sum\n"@ =~= title + "\n"@);
    lemma_one_bare_line(title);
    assert(title.len() != "Package"@.len());
    assert(title.len() != "Architecture"@.len());
    assert(title.len() != "Version"@.len());
    assert(title.len() != "Priority"@.len());
    assert(title.len() != "Essential"@.len());
    assert(title.len() != "Section"@.len());
    assert(title.len() != "Maintainer"@.len());
    assert(title.len() != "Original-Maintainer"@.len());
    assert(title.len() != "Pre-Depends"@.len());
    assert(title.len() != "Depends"@.len());
    assert(title.len() != "Suggests"@.len());
    assert(title.len() != "Filename"@.len());
    assert(line_fields(title).drop_first().len() == 0);
    assert(field_error(title, title) =~= "invalid 'MD5sum' format: MD5sum"@);
}

/// A `Homepage` line without a value is refused, with a message that names
/// the field and shows the line.
pub proof fn lemma_no_value_homepage()
    ensures
        from_row_spec("Homepage\n"@) == Some(
            Err::<Seq<PackageView>, Seq<char>>("invalid 'Homepage' format: Homepage"@),
        ),
{
    reveal_strlit("Homepage\n");
    reveal_strlit("Homepage");
    reveal_strlit("\n");
    reveal_strlit("invalid '");
    reveal_strlit("' format: ");
    reveal_strlit("invalid 'Homepage' format: Homepage");
    reveal_strlit("Package");
    reveal_strlit("Architecture");
    reveal_strlit("Version");
    reveal_strlit("Priority");
    reveal_strlit("Essential");
    reveal_strlit("Section");
    reveal_strlit("Maintainer");
    reveal_strlit("Original-Maintainer");
    reveal_strlit("Pre-Depends");
    reveal_strlit("Depends");
    reveal_strlit("Suggests");
    reveal_strlit("Filename");
    reveal_strlit("MD5sum");
    let title = "Homepage"@;
    assert(!title.contains(':') && !title.contains('\n'));
    assert("Homepage\n"@ =~= title + "\n"@);
    lemma_one_bare_line(title);
    assert(title.len() != "Package"@.len());
    assert(title.len() != "Architecture"@.len());
    assert(title.len() != "Version"@.len());
    assert(title[0] != "Priority"@[0]);
    assert(title.len() != "Essential"@.len());
    assert(title.len() != "Section"@.len());
    assert(title.len() != "Maintainer"@.len());
    assert(title.len() != "Original-Maintainer"@.len());
    assert(title.len() != "Pre-Depends"@.len());
    assert(title.len() != "Depends"@.len());
    assert(title[0] != "Suggests"@[0]);
    assert(title[0] != "Filename"@[0]);
    assert(title.len() != "MD5sum"@.len());
    assert(line_fields(title).drop_first().len() == 0);
    assert(field_error(title, title) =~= "invalid 'Homepage' format: Homepage"@);
}

/// A `Origin` line without a value is refused, with a message that names
/// the field and shows the line.
pub proof fn lemma_no_value_origin()
    ensures
        from_row_spec("Origin\n"@) == Some(
            Err::<Seq<PackageView>, Seq<char>>("invalid 'Origin' format: Origin"@),
        ),
{
    reveal_strlit("Origin\n");
    reveal_strlit("Origin");
    reveal_strlit("\n");
    reveal_strlit("invalid '");
    reveal_strlit("' format: ");
    reveal_strlit("invalid 'Origin' format: Origin");
    reveal_strlit("Package");
    reveal_strlit("Architecture");
    reveal_strlit("Version");
    reveal_strlit("Priority");
    reveal_strlit("Essential");
    reveal_strlit("Section");
    reveal_strlit("Maintainer");
    reveal_strlit("Original-Maintainer");
    reveal_strlit("Pre-Depends");
    reveal_strlit("Depends");
    reveal_strlit("Suggests");
    reveal_strlit("Filename");
    reveal_strlit("MD5sum");
    reveal_strlit("Homepage");
    reveal_strlit("Description");
    reveal_strlit("Conffiles");
    let title = "Origin"@;
    assert(!title.contains(':') && !title.contains('\n'));
    assert("Origin\n"@ =~= title + "\n"@);
    lemma_one_bare_line(title);
    assert(title.len() != "Package"@.len());
    assert(title.len() != "Architecture"@.len());
    assert(title.len() != "Version"@.len());
    assert(title.len() != "Priority"@.len());
    assert(title.len() != "Essential"@.len());
    assert(title.len() != "Section"@.len());
    assert(title.len() != "Maintainer"@.len());
    assert(title.len() != "Original-Maintainer"@.len());
    assert(title.len() != "Pre-Depends"@.len());
    assert(title.len() != "Depends"@.len());
    assert(title.len() != "Suggests"@.len());
    assert(title.len() != "Filename"@.len());
    assert(title[0] != "MD5sum"@[0]);
    assert(title.len() != "Homepage"@.len());
    assert(title.len() != "Description"@.len());
    assert(title.len() != "Conffiles"@.len());
    assert(line_fields(title).drop_first().len() == 0);
    assert(field_error(title, title) =~= "invalid 'Origin' format: Origin"@);
}

/// A `Bugs` line without a value is refused, with a message that names
/// the field and shows the line.
pub proof fn lemma_no_value_bugs()
    ensures
        from_row_spec("Bugs\n"@) == Some(
            Err::<Seq<PackageView>, Seq<char>>("invalid 'Bugs' format: Bugs"@),
        ),
{
    reveal_strlit("Bugs\n");
    reveal_strlit("Bugs");
    reveal_strlit("\n");
    reveal_strlit("invalid '");
    reveal_strlit("' format: ");
    reveal_strlit("invalid 'Bugs' format: Bugs");
    reveal_strlit("Package");
    reveal_strlit("Architecture");
    reveal_strlit("Version");
    reveal_strlit("Priority");
    reveal_strlit("Essential");
    reveal_strlit("Section");
    reveal_strlit("Maintainer");
    reveal_strlit("Original-Maintainer");
    reveal_strlit("Pre-Depends");
    reveal_strlit("Depends");
    reveal_strlit("Suggests");
    reveal_strlit("Filename");
    reveal_strlit("MD5sum");
    reveal_strlit("Homepage");
    reveal_strlit("Description");
    reveal_strlit("Conffiles");
    reveal_strlit("Origin");
    let title = "Bugs"@;
    assert(!title.contains(':') && !title.contains('\n'));
    assert("Bugs\n"@ =~= title + "\n"@);
    lemma_one_bare_line(title);
    assert(title.len() != "Package"@.len());
    assert(title.len() != "Architecture"@.len());
    assert(title.len() != "Version"@.len());
    assert(title.len() != "Priority"@.len());
    assert(title.len() != "Essential"@.len());
    assert(title.len() != "Section"@.len());
    assert(title.len() != "Maintainer"@.len());
    assert(title.len() != "Original-Maintainer"@.len());
    assert(title.len() != "Pre-Depends"@.len());
    assert(title.len() != "Depends"@.len());
    assert(title.len() != "Suggests"@.len());
    assert(title.len() != "Filename"@.len());
    assert(title.len() != "MD5sum"@.len());
    assert(title.len() != "Homepage"@.len());
    assert(title.len() != "Description"@.len());
    assert(title.len() != "Conffiles"@.len());
    assert(title.len() != "Origin"@.len());
    assert(line_fields(title).drop_first().len() == 0);
    assert(field_error(title, title) =~= "invalid 'Bugs' format: Bugs"@);
}

/// A description goes on in the line after it that starts with a space:
/// the record's description is the first line's value, a line break, and
/// the next line without its leading space.
pub proof fn lemma_description_continued(v: Seq<char>, w: Seq<char>)
    requires
        !v.contains(':'),
        !v.contains('\n'),
        !w.contains('\n'),
    ensures
        from_row_spec("Description: "@ + v + "\n "@ + w + "\n"@) == Some(
            Ok::<Seq<PackageView>, Seq<char>>(
                seq![PackageView { description: v + "\n"@ + w, ..empty_package() }],
            ),
        ),
{
    reveal_strlit("Description: ");
    reveal_strlit("Description");
    reveal_strlit(": ");
    reveal_strlit("\n ");
    reveal_strlit("\n");
    let title = "Description"@;
    assert(!title.contains(':') && !title.contains('\n'));
    reveal_strlit("Package");
    reveal_strlit("Architecture");
    reveal_strlit("Version");
    reveal_strlit("Priority");
    reveal_strlit("Essential");
    reveal_strlit("Section");
    reveal_strlit("Maintainer");
    reveal_strlit("Original-Maintainer");
    reveal_strlit("Pre-Depends");
    reveal_strlit("Depends");
    reveal_strlit("Suggests");
    reveal_strlit("Filename");
    reveal_strlit("MD5sum");
    reveal_strlit("Homepage");
    assert(title.len() != "Package"@.len());
    assert(title.len() != "Architecture"@.len());
    assert(title.len() != "Version"@.len());
    assert(title.len() != "Priority"@.len());
    assert(title.len() != "Essential"@.len());
    assert(title.len() != "Section"@.len());
    assert(title.len() != "Maintainer"@.len());
    assert(title.len() != "Original-Maintainer"@.len());
    assert(title[0] != "Pre-Depends"@[0]);
    assert(title.len() != "Depends"@.len());
    assert(title.len() != "Suggests"@.len());
    assert(title.len() != "Filename"@.len());
    assert(title.len() != "MD5sum"@.len());
    assert(title.len() != "Homepage"@.len());
    let l0 = title + ": "@ + v;
    let l1 = seq![' '] + w;
    let empty = Seq::<char>::empty();
    assert(!l0.contains('\n')) by {
        assert forall|i: int| 0 <= i < l0.len() implies l0[i] != '\n' by {
            if i < title.len() {
                assert(l0[i] == title[i]);
            } else if i >= title.len() + 2 {
                assert(l0[i] == v[i - title.len() - 2]);
            }
        }
    }
    assert(!l1.contains('\n')) by {
        assert forall|i: int| 0 <= i < l1.len() implies l1[i] != '\n' by {
            if i > 0 {
                assert(l1[i] == w[i - 1]);
            }
        }
    }
    let file = "Description: "@ + v + "\n "@ + w + "\n"@;
    assert(file =~= l0 + seq!['\n'] + (l1 + seq!['\n'] + empty));
    lemma_split_concat(l0, l1 + seq!['\n'] + empty, '\n');
    lemma_split_concat(l1, empty, '\n');
    lemma_split_whole(l0, seq!['\n']);
    lemma_split_whole(l1, seq!['\n']);
    lemma_split_whole(empty, seq!['\n']);
    let lines = file_lines(file);
    assert(lines =~= seq![l0, l1, empty]);
    lemma_split_first(title, ": "@, v);
    lemma_split_whole(v, ": "@);
    assert(line_fields(l0) =~= seq![title, v]);
    assert(line_fields(l0).drop_first() =~= seq![v]);
    assert(continues_after(lines, 0));
    assert(!continues_after(lines, 1));
    let item1 = PackageView { description: v, ..empty_package() };
    assert(apply_field(empty_package(), l0, true) == Some(
        Ok::<(PackageView, bool), Seq<char>>((item1, true)),
    ));
    assert(read_range(lines, 0, 0, start_state()) == Some(Ok::<RowState, Seq<char>>(start_state())));
    assert(lines[0] == l0);
    let st1 = RowState { items: Seq::empty(), item: item1, cont: true };
    assert(read_lines(lines, 1) == Some(Ok::<RowState, Seq<char>>(st1)));
    assert(l1.drop_first() =~= w);
    let item2 = PackageView { description: v + "\n"@ + w, ..empty_package() };
    assert(read_lines(lines, 2) == Some(
        Ok::<RowState, Seq<char>>(RowState { items: Seq::empty(), item: item2, cont: false }),
    ));
    assert(read_lines(lines, 3) == Some(
        Ok::<RowState, Seq<char>>(RowState { items: seq![item2], item: empty_package(), cont: false }),
    ));
}

/// The text of an entry `name (relation version)` holds no `:`, `,` or
/// line break when its words hold none.
proof fn lemma_dep_text(p: Seq<char>, r: Seq<char>, v: Seq<char>)
    requires
        no_white(p),
        no_white(r),
        no_white(v),
        !p.contains(':') && !r.contains(':') && !v.contains(':'),
        !p.contains(',') && !r.contains(',') && !v.contains(','),
    ensures
        ({
            let dep = p + seq![' '] + r + seq![' '] + v + seq![')'];
            !dep.contains(':') && !dep.contains(',') && !dep.contains('\n')
        }),
{
    let dep = p + seq![' '] + r + seq![' '] + v + seq![')'];
    assert forall|i: int| 0 <= i < dep.len() implies dep[i] != ':' && dep[i] != ',' && dep[i]
        != '\n' by {
        let a = p.len() as int;
        let b = a + 1 + r.len();
        let c = b + 1 + v.len();
        if i < a {
            assert(dep[i] == p[i]);
            assert(!is_white(p[i]));
        } else if a < i < b {
            assert(dep[i] == r[i - a - 1]);
            assert(!is_white(r[i - a - 1]));
        } else if b < i < c {
            assert(dep[i] == v[i - b - 1]);
            assert(!is_white(v[i - b - 1]));
        }
    }
}

/// A `Depends` field with one entry `name (relation version)` gives the
/// record a dependency table with just that name and that version.
pub proof fn lemma_field_depends_entry(p: Seq<char>, r: Seq<char>, v: Seq<char>)
    requires
        p.len() > 0,
        no_white(p),
        no_white(r),
        no_white(v),
        !p.contains(':') && !r.contains(':') && !v.contains(':'),
        !p.contains(',') && !r.contains(',') && !v.contains(','),
    ensures
        from_row_spec("Depends: "@ + p + seq![' '] + r + seq![' '] + v + seq![')'] + "\n"@) == Some(
            Ok::<Seq<PackageView>, Seq<char>>(
                seq![PackageView { depends: Map::empty().insert(p, Some(v)), ..empty_package() }],
            ),
        ),
{
    reveal_strlit("Depends: ");
    reveal_strlit("Depends");
    reveal_strlit(": ");
    let title = "Depends"@;
    assert(!title.contains(':') && !title.contains('\n'));
    reveal_strlit("Package");
    reveal_strlit("Architecture");
    reveal_strlit("Version");
    reveal_strlit("Priority");
    reveal_strlit("Essential");
    reveal_strlit("Section");
    reveal_strlit("Maintainer");
    reveal_strlit("Original-Maintainer");
    reveal_strlit("Pre-Depends");
    assert(title[0] != "Package"@[0]);
    assert(title.len() != "Architecture"@.len());
    assert(title[0] != "Version"@[0]);
    assert(title.len() != "Priority"@.len());
    assert(title.len() != "Essential"@.len());
    assert(title[0] != "Section"@[0]);
    assert(title.len() != "Maintainer"@.len());
    assert(title.len() != "Original-Maintainer"@.len());
    assert(title.len() != "Pre-Depends"@.len());
    let empty = Seq::<char>::empty();
    let dep = p + seq![' '] + r + seq![' '] + v + seq![')'];
    lemma_parse_depends_entry(p, r, v, empty);
    assert(dep + empty =~= dep);
    lemma_dep_text(p, r, v);
    assert("Depends: "@ =~= title + ": "@);
    assert("Depends: "@ + p + seq![' '] + r + seq![' '] + v + seq![')'] + "\n"@ =~= title + ": "@ + dep
        + "\n"@);
    lemma_one_field(title, dep);
    let rest = line_fields(title + ": "@ + dep).drop_first();
    assert(rest =~= seq![dep]);
    assert(join(rest, Seq::empty()) == dep);
    lemma_split_whole(dep, seq![',']);
    let deps = dependency_entries(rest);
    assert(deps =~= seq![dep]);
    assert(entries_readable(deps));
    assert(deps.drop_last() =~= Seq::<Seq<char>>::empty());
    assert(deps.last() == dep);
    assert(parse_depends_spec(dep) == (p, Some(v)));
    assert(with_entries(Map::empty(), Seq::<Seq<char>>::empty()) == Map::<
        Seq<char>,
        Option<Seq<char>>,
    >::empty());
    assert(with_entries(Map::empty(), deps) == Map::<Seq<char>, Option<Seq<char>>>::empty().insert(
        p,
        Some(v),
    ));
}

/// A `Pre-Depends` field with one entry `name (relation version)` gives the
/// record a dependency table with just that name and that version.
pub proof fn lemma_field_pre_depends_entry(p: Seq<char>, r: Seq<char>, v: Seq<char>)
    requires
        p.len() > 0,
        no_white(p),
        no_white(r),
        no_white(v),
        !p.contains(':') && !r.contains(':') && !v.contains(':'),
        !p.contains(',') && !r.contains(',') && !v.contains(','),
    ensures
        from_row_spec("Pre-Depends: "@ + p + seq![' '] + r + seq![' '] + v + seq![')'] + "\n"@) == Some(
            Ok::<Seq<PackageView>, Seq<char>>(
                seq![PackageView { pre_depends: Map::empty().insert(p, Some(v)), ..empty_package() }],
            ),
        ),
{
    reveal_strlit("Pre-Depends: ");
    reveal_strlit("Pre-Depends");
    reveal_strlit(": ");
    let title = "Pre-Depends"@;
    assert(!title.contains(':') && !title.contains('\n'));
    reveal_strlit("Package");
    reveal_strlit("Architecture");
    reveal_strlit("Version");
    reveal_strlit("Priority");
    reveal_strlit("Essential");
    reveal_strlit("Section");
    reveal_strlit("Maintainer");
    reveal_strlit("Original-Maintainer");
    assert(title.len() != "Package"@.len());
    assert(title.len() != "Architecture"@.len());
    assert(title.len() != "Version"@.len());
    assert(title.len() != "Priority"@.len());
    assert(title.len() != "Essential"@.len());
    assert(title.len() != "Section"@.len());
    assert(title.len() != "Maintainer"@.len());
    assert(title.len() != "Original-Maintainer"@.len());
    let empty = Seq::<char>::empty();
    let dep = p + seq![' '] + r + seq![' '] + v + seq![')'];
    lemma_parse_depends_entry(p, r, v, empty);
    assert(dep + empty =~= dep);
    lemma_dep_text(p, r, v);
    assert("Pre-Depends: "@ =~= title + ": "@);
    assert("Pre-Depends: "@ + p + seq![' '] + r + seq![' '] + v + seq![')'] + "\n"@ =~= title + ": "@ + dep
        + "\n"@);
    lemma_one_field(title, dep);
    let rest = line_fields(title + ": "@ + dep).drop_first();
    assert(rest =~= seq![dep]);
    assert(join(rest, Seq::empty()) == dep);
    lemma_split_whole(dep, seq![',']);
    let deps = dependency_entries(rest);
    assert(deps =~= seq![dep]);
    assert(entries_readable(deps));
    assert(deps.drop_last() =~= Seq::<Seq<char>>::empty());
    assert(deps.last() == dep);
    assert(parse_depends_spec(dep) == (p, Some(v)));
    assert(with_entries(Map::empty(), Seq::<Seq<char>>::empty()) == Map::<
        Seq<char>,
        Option<Seq<char>>,
    >::empty());
    assert(with_entries(Map::empty(), deps) == Map::<Seq<char>, Option<Seq<char>>>::empty().insert(
        p,
        Some(v),
    ));
}

impl SourcePackage {
    /// Reads the records of an index file.
    ///
    /// Each line is a field `Title: value`; an empty line ends a record, and
    /// every record so ended is in the result, in the order of the file.  A
    /// `Description` goes on in the lines after it that start with a space.
    /// The result is an error, with the line in its message, at the first of
    /// the fields `Package`, `Architecture`, `Version`, `Priority`,
    /// `Essential`, `Section`, `Filename`, `MD5sum`, `Homepage`, `Origin`,
    /// `Bugs` that has no value.  The whole reading is `from_row_spec`.
    pub fn from_row(file: &str) -> (r: Result<Vec<SourcePackage>, String>)
        requires
            from_row_spec(file@) is Some,
        ensures
            match from_row_spec(file@) {
                Some(Ok(items)) => r matches Ok(v) && views_of(v@) == items,
                Some(Err(e)) => r matches Err(m) && m@ == e,
                None => false,
            },
    {
        match read_rows(file) {
            Some(res) => res,
            None => Err(String::new()),
        }
    }

    /// `from_row` for any file: `None` for a file on which `from_row` has no
    /// result, because a dependency entry in it cannot be read.
    pub fn from_row_checked(file: &str) -> (r: Option<Result<Vec<SourcePackage>, String>>)
        ensures
            match from_row_spec(file@) {
                Some(Ok(items)) => r matches Some(Ok(v)) && views_of(v@) == items,
                Some(Err(e)) => r matches Some(Err(m)) && m@ == e,
                None => r is None,
            },
    {
        read_rows(file)
    }
}

} // verus!
