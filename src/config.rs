//! Manifest scanning: which files are configuration files of which
//! ecosystem, and the dependencies and scripts they declare.
use vstd::prelude::*;
use crate::classify::eq_lit;
use crate::filesystem::FileSystemAnalyzer;
use crate::text::{
    char_views, chars_of, lines_of, occurs_at, seq_starts_with, slice_chars, split_lines,
    starts_with, string_from_chars, trim_chars, trimmed, matches_at,
};
use crate::tree::opt_view;

verus! {

/// Name/value pairs, as character sequences.
pub open spec fn pairs_view(v: Seq<(String, String)>) -> Seq<(Seq<char>, Seq<char>)> {
    v.map_values(|p: (String, String)| (p.0@, p.1@))
}

/// What an optional list of pairs holds.
pub open spec fn opt_pairs_view(o: Option<Vec<(String, String)>>) -> Option<
    Seq<(Seq<char>, Seq<char>)>,
> {
    match o {
        Some(v) => Some(pairs_view(v@)),
        None => None,
    }
}

/// The first index of an entry with key `k`, or -1.
pub open spec fn key_index(es: Seq<(Seq<char>, Seq<char>)>, k: Seq<char>) -> int
    decreases es.len(),
{
    if es.len() == 0 {
        -1
    } else {
        let p = key_index(es.drop_last(), k);
        if p >= 0 {
            p
        } else if es.last().0 == k {
            es.len() - 1
        } else {
            -1
        }
    }
}

/// Map insertion on a list of entries: the value of an existing key is
/// replaced in place, a new key is appended.
pub open spec fn insert_entry(es: Seq<(Seq<char>, Seq<char>)>, k: Seq<char>, v: Seq<char>) -> Seq<
    (Seq<char>, Seq<char>),
> {
    let i = key_index(es, k);
    if i >= 0 {
        es.update(i, (k, v))
    } else {
        es.push((k, v))
    }
}

/// The entries, or none when there are none.
pub open spec fn non_empty(es: Seq<(Seq<char>, Seq<char>)>) -> Option<Seq<(Seq<char>, Seq<char>)>> {
    if es.len() == 0 {
        None
    } else {
        Some(es)
    }
}

proof fn lemma_key_index_range(es: Seq<(Seq<char>, Seq<char>)>, k: Seq<char>)
    ensures
        -1 <= key_index(es, k) < es.len(),
        key_index(es, k) >= 0 ==> es[key_index(es, k)].0 == k,
        key_index(es, k) < 0 ==> forall|i: int| 0 <= i < es.len() ==> es[i].0 != k,
        key_index(es, k) >= 0 ==> forall|i: int| 0 <= i < key_index(es, k) ==> es[i].0 != k,
    decreases es.len(),
{
    if es.len() > 0 {
        lemma_key_index_range(es.drop_last(), k);
        let p = key_index(es.drop_last(), k);
        if p >= 0 {
            assert(es[p] == es.drop_last()[p]);
            assert forall|i: int| 0 <= i < p implies es[i].0 != k by {
                assert(es[i] == es.drop_last()[i]);
            }
        } else {
            assert forall|i: int| 0 <= i < es.len() - 1 implies es[i].0 != k by {
                assert(es[i] == es.drop_last()[i]);
            }
        }
    }
}

/// Whether no two entries share a key.
pub open spec fn keys_unique(es: Seq<(Seq<char>, Seq<char>)>) -> bool {
    forall|a: int, b: int| 0 <= a < b < es.len() ==> es[a].0 != es[b].0
}

/// Map insertion keeps the keys of a list of entries unique, and afterwards
/// the key maps to the inserted value.
pub proof fn lemma_insert_entry_unique(es: Seq<(Seq<char>, Seq<char>)>, k: Seq<char>, v: Seq<char>)
    requires
        keys_unique(es),
    ensures
        keys_unique(insert_entry(es, k, v)),
        insert_entry(es, k, v)[key_index(insert_entry(es, k, v), k)] == (k, v),
{
    lemma_key_index_range(es, k);
    let r = insert_entry(es, k, v);
    lemma_key_index_range(r, k);
    let i = key_index(es, k);
    if i >= 0 {
        assert forall|a: int, b: int| 0 <= a < b < r.len() implies r[a].0 != r[b].0 by {
            if a != i && b != i {
                assert(r[a] == es[a] && r[b] == es[b]);
            } else if a == i {
                assert(r[b] == es[b]);
            } else {
                assert(r[a] == es[a]);
            }
        }
        assert(r[i].0 == k);
    } else {
        assert forall|a: int, b: int| 0 <= a < b < r.len() implies r[a].0 != r[b].0 by {
            if b < es.len() {
                assert(r[a] == es[a] && r[b] == es[b]);
            } else {
                assert(r[a] == es[a]);
            }
        }
        assert(r[es.len() as int].0 == k);
    }
}

/// Inserts `k` with value `v` as a map would.
pub fn insert_pair(es: &mut Vec<(String, String)>, k: String, v: String)
    ensures
        pairs_view(final(es)@) == insert_entry(pairs_view(old(es)@), k@, v@),
{
    let ghost pv = pairs_view(es@);
    proof {
        lemma_key_index_range(pv, k@);
    }
    let mut i: usize = 0;
    while i < es.len() && es[i].0 != k
        invariant
            i <= es@.len(),
            pv == pairs_view(es@),
            forall|j: int| 0 <= j < i ==> pv[j].0 != k@,
        decreases es.len() - i,
    {
        i = i + 1;
    }
    if i < es.len() {
        assert(key_index(pv, k@) == i) by {
            lemma_key_index_range(pv, k@);
            let p = key_index(pv, k@);
            if p < 0 {
                assert(pv[i as int].0 == k@);
            } else if p < i {
            } else if p > i {
                assert(pv[i as int].0 == k@);
            }
        }
        es[i] = (k, v);
        assert(pairs_view(es@) =~= insert_entry(pv, k@, v@));
    } else {
        assert(key_index(pv, k@) < 0) by {
            lemma_key_index_range(pv, k@);
            if key_index(pv, k@) >= 0 {
                assert(pv[key_index(pv, k@)].0 == k@);
            }
        }
        es.push((k, v));
        assert(pairs_view(es@) =~= insert_entry(pv, k@, v@));
    }
}

/// The first position at or after `i` where `n` occurs in `h`, or -1.
pub open spec fn find_from(h: Seq<char>, n: Seq<char>, i: int) -> int
    decreases h.len() + 1 - i,
{
    if i < 0 || i + n.len() > h.len() {
        -1
    } else if occurs_at(h, n, i) {
        i
    } else {
        find_from(h, n, i + 1)
    }
}

/// The first position where `n` occurs in `h`, or -1.
pub open spec fn find_first(h: Seq<char>, n: Seq<char>) -> int {
    find_from(h, n, 0)
}

proof fn lemma_find_from_range(h: Seq<char>, n: Seq<char>, i: int)
    ensures
        find_from(h, n, i) == -1 || (i <= find_from(h, n, i) && find_from(h, n, i) + n.len()
            <= h.len()),
    decreases h.len() + 1 - i,
{
    if !(i < 0 || i + n.len() > h.len()) && !occurs_at(h, n, i) {
        lemma_find_from_range(h, n, i + 1);
    }
}

/// The first position where `n` occurs in `h`.
pub fn find_chars(h: &Vec<char>, n: &Vec<char>) -> (r: Option<usize>)
    ensures
        match r {
            Some(i) => find_first(h@, n@) == i as int,
            None => find_first(h@, n@) == -1,
        },
{
    if n.len() > h.len() {
        return None;
    }
    let last = h.len() - n.len();
    let mut i: usize = 0;
    while i <= last
        invariant
            last == h.len() - n.len(),
            n.len() <= h.len(),
            find_first(h@, n@) == find_from(h@, n@, i as int),
        decreases last + 1 - i,
    {
        if matches_at(h, n, i) {
            return Some(i);
        }
        if i == last {
            assert(find_from(h@, n@, i + 1) == -1);
            return None;
        }
        i = i + 1;
    }
    None
}

/// One requirement specifier split into a name and a version: at the first
/// `==` (version as written), else at the first `>=` (version kept with its
/// `>=`), both parts trimmed; otherwise the whole text with version `*`.
pub open spec fn split_requirement(s: Seq<char>) -> (Seq<char>, Seq<char>) {
    let i = find_first(s, "=="@);
    let j = find_first(s, ">="@);
    if i >= 0 {
        (trimmed(s.take(i)), trimmed(s.skip(i + 2)))
    } else if j >= 0 {
        (trimmed(s.take(j)), ">="@ + trimmed(s.skip(j + 2)))
    } else {
        (s, "*"@)
    }
}

/// Splits a requirement specifier into a name and a version.
pub fn split_requirement_exec(s: &Vec<char>) -> (r: (String, String))
    ensures
        (r.0@, r.1@) == split_requirement(s@),
{
    let eq2 = chars_of("==");
    let ge = chars_of(">=");
    proof {
        reveal_strlit("==");
        reveal_strlit(">=");
        lemma_find_from_range(s@, "=="@, 0);
        lemma_find_from_range(s@, ">="@, 0);
    }
    match find_chars(s, &eq2) {
        Some(i) => {
            let name = trim_chars(&slice_chars(s, 0, i));
            let ver = trim_chars(&slice_chars(s, i + 2, s.len()));
            assert(s@.subrange(0, i as int) =~= s@.take(i as int));
            assert(s@.subrange(i + 2, s@.len() as int) =~= s@.skip(i + 2));
            (string_from_chars(name.as_slice()), string_from_chars(ver.as_slice()))
        },
        None => match find_chars(s, &ge) {
            Some(j) => {
                assert(ge@.len() == 2);
                assert(find_from(s@, ">="@, 0) == j);
                let n = s.len();
                assert(j + 2 <= n);
                let name = trim_chars(&slice_chars(s, 0, j));
                let ver = trim_chars(&slice_chars(s, j + 2, n));
                assert(s@.subrange(0, j as int) =~= s@.take(j as int));
                assert(s@.subrange(j + 2, s@.len() as int) =~= s@.skip(j + 2));
                let mut full = ge;
                let mut k: usize = 0;
                let ghost base = full@;
                while k < ver.len()
                    invariant
                        k <= ver@.len(),
                        full@ == base + ver@.take(k as int),
                    decreases ver.len() - k,
                {
                    full.push(ver[k]);
                    k = k + 1;
                    assert(full@ =~= base + ver@.take(k as int));
                }
                assert(ver@.take(k as int) =~= ver@);
                (string_from_chars(name.as_slice()), string_from_chars(full.as_slice()))
            },
            None => (string_from_chars(s.as_slice()), "*".to_string()),
        },
    }
}

/// The entries that the lines of a requirements file declare, in order of
/// first declaration; a later line for the same name replaces the version.
/// Blank lines and `#` comments are skipped.
pub open spec fn requirement_entries(lines: Seq<Seq<char>>) -> Seq<(Seq<char>, Seq<char>)>
    decreases lines.len(),
{
    if lines.len() == 0 {
        Seq::empty()
    } else {
        let prev = requirement_entries(lines.drop_last());
        let t = trimmed(lines.last());
        if t.len() == 0 || t[0] == '#' {
            prev
        } else {
            insert_entry(prev, split_requirement(t).0, split_requirement(t).1)
        }
    }
}

/// The members of the object stored under `field` in a JSON document, in
/// the document library's order, each with its value if that is a string;
/// none if the text is no JSON document or holds no such object.
pub uninterp spec fn json_members_of(content: Seq<char>, field: Seq<char>) -> Option<
    Seq<(Seq<char>, Option<Seq<char>>)>,
>;

/// The entries of the table stored under `field` in a TOML document, in the
/// document library's order: each key, its value if that is a string, and,
/// if the value is a table, the string stored there under `inner` (if any);
/// none if the text is no TOML document or holds no such table.
pub uninterp spec fn toml_entries_of(content: Seq<char>, field: Seq<char>, inner: Seq<char>) -> Option<
    Seq<(Seq<char>, Option<Seq<char>>, Option<Option<Seq<char>>>)>,
>;

/// The items of the array stored under `field` of the table `table` in a
/// TOML document, each with its value if that is a string; none if the text
/// is no TOML document or holds no such array.
pub uninterp spec fn toml_array_of(content: Seq<char>, table: Seq<char>, field: Seq<char>) -> Option<
    Seq<Option<Seq<char>>>,
>;

/// Member lists as character sequences.
pub open spec fn members_view(o: Option<Vec<(String, Option<String>)>>) -> Option<
    Seq<(Seq<char>, Option<Seq<char>>)>,
> {
    match o {
        Some(v) => Some(v@.map_values(|m: (String, Option<String>)| (m.0@, opt_view(m.1)))),
        None => None,
    }
}

/// TOML table entries as character sequences.
pub open spec fn toml_entries_view(o: Option<Vec<(String, Option<String>, Option<Option<String>>)>>) -> Option<
    Seq<(Seq<char>, Option<Seq<char>>, Option<Option<Seq<char>>>)>,
> {
    match o {
        Some(v) => Some(
            v@.map_values(
                |m: (String, Option<String>, Option<Option<String>>)|
                    (
                        m.0@,
                        opt_view(m.1),
                        match m.2 {
                            Some(x) => Some(opt_view(x)),
                            None => None,
                        },
                    ),
            ),
        ),
        None => None,
    }
}

/// TOML array items as character sequences.
pub open spec fn toml_items_view(o: Option<Vec<Option<String>>>) -> Option<Seq<Option<Seq<char>>>> {
    match o {
        Some(v) => Some(v@.map_values(|m: Option<String>| opt_view(m))),
        None => None,
    }
}

/// Relies on `serde_json::from_str::<serde_json::Value>`, `Value::get`,
/// `Value::as_object` and `Value::as_str`: the members of one object of a
/// JSON document, as the parsed document holds them.
#[verifier::external_body]
fn json_object_members(content: &str, field: &str) -> (r: Option<Vec<(String, Option<String>)>>)
    ensures
        members_view(r) == json_members_of(content@, field@),
{
    let v: serde_json::Value = serde_json::from_str(content).ok()?;
    let obj = v.get(field)?.as_object()?;
    Some(obj.iter().map(|(k, x)| (k.clone(), x.as_str().map(|t| t.to_string()))).collect())
}

/// Relies on `toml::from_str::<toml::Value>`, `Value::get`, `Value::as_table`
/// and `Value::as_str`: the entries of one table of a TOML document, as the
/// parsed document holds them.
#[verifier::external_body]
fn toml_table_entries(content: &str, field: &str, inner: &str) -> (r: Option<
    Vec<(String, Option<String>, Option<Option<String>>)>,
>)
    ensures
        toml_entries_view(r) == toml_entries_of(content@, field@, inner@),
{
    let v: toml::Value = toml::from_str(content).ok()?;
    let t = v.get(field)?.as_table()?;
    Some(t.iter().map(|(k, d)| (
        k.clone(),
        d.as_str().map(|x| x.to_string()),
        d.as_table().map(|dt| dt.get(inner).and_then(|x| x.as_str()).map(|x| x.to_string())),
    )).collect())
}

/// Relies on `toml::from_str::<toml::Value>`, `Value::get`, `Value::as_table`,
/// `Value::as_array` and `Value::as_str`: the items of one array of a TOML
/// document, as the parsed document holds them.
#[verifier::external_body]
fn toml_string_array(content: &str, table: &str, field: &str) -> (r: Option<Vec<Option<String>>>)
    ensures
        toml_items_view(r) == toml_array_of(content@, table@, field@),
{
    let v: toml::Value = toml::from_str(content).ok()?;
    let arr = v.get(table)?.as_table()?.get(field)?.as_array()?;
    Some(arr.iter().map(|x| x.as_str().map(|t| t.to_string())).collect())
}

/// Inserts each string-valued member of `ms`, its name followed by `suffix`.
pub open spec fn insert_members(
    es: Seq<(Seq<char>, Seq<char>)>,
    ms: Seq<(Seq<char>, Option<Seq<char>>)>,
    suffix: Seq<char>,
) -> Seq<(Seq<char>, Seq<char>)>
    decreases ms.len(),
{
    if ms.len() == 0 {
        es
    } else {
        let prev = insert_members(es, ms.drop_last(), suffix);
        match ms.last().1 {
            Some(v) => insert_entry(prev, ms.last().0 + suffix, v),
            None => prev,
        }
    }
}

/// A member list, absent counting as empty.
pub open spec fn members_or_empty(o: Option<Seq<(Seq<char>, Option<Seq<char>>)>>) -> Seq<
    (Seq<char>, Option<Seq<char>>),
> {
    match o {
        Some(m) => m,
        None => Seq::empty(),
    }
}

/// What a `package.json` declares: its dependencies, then its development
/// dependencies under their name followed by ` (dev)`; and its scripts.
pub open spec fn package_json_of(content: Seq<char>) -> (
    Option<Seq<(Seq<char>, Seq<char>)>>,
    Option<Seq<(Seq<char>, Seq<char>)>>,
) {
    package_entries(
        json_members_of(content, "dependencies"@),
        json_members_of(content, "devDependencies"@),
        json_members_of(content, "scripts"@),
    )
}

/// The dependencies and scripts given the members of the dependencies, the
/// development dependencies and the scripts objects.
pub open spec fn package_entries(
    deps: Option<Seq<(Seq<char>, Option<Seq<char>>)>>,
    dev: Option<Seq<(Seq<char>, Option<Seq<char>>)>>,
    scripts: Option<Seq<(Seq<char>, Option<Seq<char>>)>>,
) -> (Option<Seq<(Seq<char>, Seq<char>)>>, Option<Seq<(Seq<char>, Seq<char>)>>) {
    let d = insert_members(Seq::empty(), members_or_empty(deps), Seq::empty());
    let all = insert_members(d, members_or_empty(dev), " (dev)"@);
    let sc = insert_members(Seq::empty(), members_or_empty(scripts), Seq::empty());
    (non_empty(all), non_empty(sc))
}

/// The dependencies of a Cargo dependency table, given its entries.
pub open spec fn cargo_entries(t: Option<Seq<(Seq<char>, Option<Seq<char>>, Option<Option<Seq<char>>>)>>) -> Option<
    Seq<(Seq<char>, Seq<char>)>,
> {
    match t {
        Some(ts) => non_empty(insert_cargo(ts)),
        None => None,
    }
}

/// The dependencies of a `project.dependencies` array, given its items.
pub open spec fn pyproject_entries(t: Option<Seq<Option<Seq<char>>>>) -> Option<Seq<(Seq<char>, Seq<char>)>> {
    match t {
        Some(items) => non_empty(insert_requirements(items)),
        None => None,
    }
}

/// The version a Cargo dependency entry states: its string value, else the
/// `version` string of its table, else `*`.
pub open spec fn cargo_version(e: (Seq<char>, Option<Seq<char>>, Option<Option<Seq<char>>>)) -> Seq<
    char,
> {
    match e.1 {
        Some(v) => v,
        None => match e.2 {
            Some(Some(v)) => v,
            _ => "*"@,
        },
    }
}

/// Inserts each Cargo dependency entry of `ts` with its version.
pub open spec fn insert_cargo(ts: Seq<(Seq<char>, Option<Seq<char>>, Option<Option<Seq<char>>>)>) -> Seq<
    (Seq<char>, Seq<char>),
>
    decreases ts.len(),
{
    if ts.len() == 0 {
        Seq::empty()
    } else {
        insert_entry(insert_cargo(ts.drop_last()), ts.last().0, cargo_version(ts.last()))
    }
}

/// What a `Cargo.toml` declares: the entries of its `dependencies` table.
pub open spec fn cargo_toml_of(content: Seq<char>) -> Option<Seq<(Seq<char>, Seq<char>)>> {
    cargo_entries(toml_entries_of(content, "dependencies"@, "version"@))
}

/// Inserts each string item of `items` split as a requirement specifier.
pub open spec fn insert_requirements(items: Seq<Option<Seq<char>>>) -> Seq<(Seq<char>, Seq<char>)>
    decreases items.len(),
{
    if items.len() == 0 {
        Seq::empty()
    } else {
        let prev = insert_requirements(items.drop_last());
        match items.last() {
            Some(s) => insert_entry(prev, split_requirement(s).0, split_requirement(s).1),
            None => prev,
        }
    }
}

/// What a `pyproject.toml` declares: the specifiers of `project.dependencies`.
pub open spec fn pyproject_of(content: Seq<char>) -> Option<Seq<(Seq<char>, Seq<char>)>> {
    pyproject_entries(toml_array_of(content, "project"@, "dependencies"@))
}

/// What a manifest of ecosystem `file_type` declares: dependencies and
/// scripts for `npm`, `cargo`, `pip` and `python`, nothing for the others.
pub open spec fn parsed_config(content: Seq<char>, file_type: Seq<char>) -> (
    Option<Seq<(Seq<char>, Seq<char>)>>,
    Option<Seq<(Seq<char>, Seq<char>)>>,
) {
    if file_type == "npm"@ {
        package_json_of(content)
    } else if file_type == "cargo"@ {
        (cargo_toml_of(content), None)
    } else if file_type == "pip"@ {
        (non_empty(requirement_entries(lines_of(content))), None)
    } else if file_type == "python"@ {
        (pyproject_of(content), None)
    } else {
        (None, None)
    }
}

fn insert_member_list(es: &mut Vec<(String, String)>, ms: &Vec<(String, Option<String>)>, suffix: &str)
    ensures
        pairs_view(final(es)@) == insert_members(
            pairs_view(old(es)@),
            ms@.map_values(|m: (String, Option<String>)| (m.0@, opt_view(m.1))),
            suffix@,
        ),
{
    let ghost mv = ms@.map_values(|m: (String, Option<String>)| (m.0@, opt_view(m.1)));
    let ghost start = pairs_view(es@);
    let mut i: usize = 0;
    while i < ms.len()
        invariant
            i <= ms@.len(),
            mv == ms@.map_values(|m: (String, Option<String>)| (m.0@, opt_view(m.1))),
            pairs_view(es@) == insert_members(start, mv.take(i as int), suffix@),
        decreases ms.len() - i,
    {
        assert(mv.take(i + 1).drop_last() =~= mv.take(i as int));
        assert(mv.take(i + 1).last() == mv[i as int]);
        match &ms[i].1 {
            Some(v) => {
                let key = ms[i].0.clone().concat(suffix);
                insert_pair(es, key, v.clone());
            },
            None => {},
        }
        i = i + 1;
    }
    assert(mv.take(i as int) =~= mv);
}

/// A file that the scan found: its path relative to the root, its name, and
/// its text if it could be read as such.
pub struct FoundFile {
    pub path: String,
    pub name: String,
    pub content: Option<String>,
}

/// A configuration file found in the repository.
pub struct ConfigFile {
    pub path: String,
    /// The ecosystem tag, such as `npm` or `cargo`.
    pub file_type: String,
    pub content: String,
    /// Dependency name to version specifier, one entry per name.
    pub parsed_dependencies: Option<Vec<(String, String)>>,
    /// Script name to command, one entry per name.
    pub scripts: Option<Vec<(String, String)>>,
}

fn members_or_default(o: Option<Vec<(String, Option<String>)>>) -> (r: Vec<(String, Option<String>)>)
    ensures
        r@.map_values(|m: (String, Option<String>)| (m.0@, opt_view(m.1))) == members_or_empty(
            members_view(o),
        ),
{
    match o {
        Some(m) => m,
        None => {
            let v: Vec<(String, Option<String>)> = Vec::new();
            assert(v@.map_values(|m: (String, Option<String>)| (m.0@, opt_view(m.1))) =~= Seq::<
                (Seq<char>, Option<Seq<char>>),
            >::empty());
            v
        },
    }
}

fn non_empty_pairs(v: Vec<(String, String)>) -> (r: Option<Vec<(String, String)>>)
    ensures
        opt_pairs_view(r) == non_empty(pairs_view(v@)),
{
    if v.len() == 0 {
        None
    } else {
        Some(v)
    }
}

/// The value of a `ConfigFile`, with its strings as character sequences.
pub struct ConfigFileView {
    pub path: Seq<char>,
    pub file_type: Seq<char>,
    pub content: Seq<char>,
    pub parsed_dependencies: Option<Seq<(Seq<char>, Seq<char>)>>,
    pub scripts: Option<Seq<(Seq<char>, Seq<char>)>>,
}

impl View for ConfigFile {
    type V = ConfigFileView;

    open spec fn view(&self) -> ConfigFileView {
        ConfigFileView {
            path: self.path@,
            file_type: self.file_type@,
            content: self.content@,
            parsed_dependencies: opt_pairs_view(self.parsed_dependencies),
            scripts: opt_pairs_view(self.scripts),
        }
    }
}

/// The record of a readable file `f` under ecosystem tag `tag`.
pub open spec fn config_record(f: FoundFile, content: Seq<char>, tag: Seq<char>) -> ConfigFileView {
    ConfigFileView {
        path: f.path@,
        file_type: tag,
        content,
        parsed_dependencies: parsed_config(content, tag).0,
        scripts: parsed_config(content, tag).1,
    }
}

/// Whether a file name matches a manifest pattern: it begins with it.
pub open spec fn name_matches(name: Seq<char>, pattern: Seq<char>) -> bool {
    seq_starts_with(name, pattern)
}

/// The records of the readable files of `found` that match `p`, in order.
pub open spec fn configs_for_pattern(p: (Seq<char>, Seq<char>), found: Seq<FoundFile>) -> Seq<
    ConfigFileView,
>
    decreases found.len(),
{
    if found.len() == 0 {
        Seq::empty()
    } else {
        let prev = configs_for_pattern(p, found.drop_last());
        let f = found.last();
        if name_matches(f.name@, p.0) && f.content is Some {
            prev.push(config_record(f, f.content->0@, p.1))
        } else {
            prev
        }
    }
}

/// The records for each pattern of `pats` in turn.
pub open spec fn configs_of(pats: Seq<(Seq<char>, Seq<char>)>, found: Seq<FoundFile>) -> Seq<
    ConfigFileView,
>
    decreases pats.len(),
{
    if pats.len() == 0 {
        Seq::empty()
    } else {
        configs_of(pats.drop_last(), found) + configs_for_pattern(pats.last(), found)
    }
}

/// The views of a sequence of configuration files.
pub open spec fn config_views(s: Seq<ConfigFile>) -> Seq<ConfigFileView> {
    s.map_values(|c: ConfigFile| c@)
}

impl FileSystemAnalyzer {
    /// Whether a file name matches one of the manifest patterns.
    pub fn is_config_candidate(&self, name: &str) -> (r: bool)
        ensures
            r == exists|i: int|
                0 <= i < config_patterns().len() && name_matches(name@, #[trigger] config_patterns()[i].0),
    {
        let pats = config_pattern_table();
        let n = chars_of(name);
        let ghost pv = pats@.map_values(|p: (&'static str, &'static str)| (p.0@, p.1@));
        let mut i: usize = 0;
        while i < pats.len()
            invariant
                i <= pats@.len(),
                pv == pats@.map_values(|p: (&'static str, &'static str)| (p.0@, p.1@)),
                pv == config_patterns(),
                n@ == name@,
                forall|k: int| 0 <= k < i ==> !name_matches(name@, #[trigger] config_patterns()[k].0),
            decreases pats.len() - i,
        {
            let p = chars_of(pats[i].0);
            assert(pv[i as int].0 == pats@[i as int].0@);
            if starts_with(&n, &p) {
                return true;
            }
            i = i + 1;
        }
        false
    }

    /// The configuration files among `found`: for each manifest pattern in
    /// turn, every readable file whose name matches it, in the order found,
    /// with the dependencies and scripts its ecosystem declares.
    pub fn config_files_from(&self, found: &Vec<FoundFile>) -> (r: Vec<ConfigFile>)
        ensures
            config_views(r@) == configs_of(config_patterns(), found@),
    {
        let pats = config_pattern_table();
        let ghost pv = pats@.map_values(|p: (&'static str, &'static str)| (p.0@, p.1@));
        let mut r: Vec<ConfigFile> = Vec::new();
        let mut i: usize = 0;
        assert(config_views(r@) =~= configs_of(pv.take(0), found@));
        while i < pats.len()
            invariant
                i <= pats@.len(),
                pv == pats@.map_values(|p: (&'static str, &'static str)| (p.0@, p.1@)),
                pv == config_patterns(),
                config_views(r@) == configs_of(pv.take(i as int), found@),
            decreases pats.len() - i,
        {
            assert(pv.take(i + 1).drop_last() =~= pv.take(i as int));
            assert(pv.take(i + 1).last() == pv[i as int]);
            let (pattern, tag) = pats[i];
            let pc = chars_of(pattern);
            let ghost base = config_views(r@);
            let mut j: usize = 0;
            assert(configs_for_pattern(pv[i as int], found@.take(0)) =~= Seq::empty());
            assert(base + Seq::empty() =~= base);
            while j < found.len()
                invariant
                    j <= found@.len(),
                    i < pv.len(),
                    pc@ == pv[i as int].0,
                    tag@ == pv[i as int].1,
                    config_views(r@) == base + configs_for_pattern(pv[i as int], found@.take(j as int)),
                decreases found.len() - j,
            {
                assert(found@.take(j + 1).drop_last() =~= found@.take(j as int));
                assert(found@.take(j + 1).last() == found@[j as int]);
                let f = &found[j];
                let name = chars_of(f.name.as_str());
                if starts_with(&name, &pc) {
                    match &f.content {
                        Some(c) => {
                            let (deps, scripts) = self.parse_config_file(c.as_str(), tag);
                            let ghost pre = config_views(r@);
                            r.push(
                                ConfigFile {
                                    path: f.path.clone(),
                                    file_type: tag.to_string(),
                                    content: c.clone(),
                                    parsed_dependencies: deps,
                                    scripts,
                                },
                            );
                            assert(config_views(r@) =~= pre.push(r@.last()@));
                        },
                        None => {},
                    }
                }
                j = j + 1;
            }
            assert(found@.take(j as int) =~= found@);
            i = i + 1;
        }
        assert(pv.take(i as int) =~= pv);
        r
    }

    /// The dependencies and scripts of a `package.json`; none of either when
    /// the text is no JSON document.
    pub fn parse_package_json(&self, content: &str) -> (r: (
        Option<Vec<(String, String)>>,
        Option<Vec<(String, String)>>,
    ))
        ensures
            (opt_pairs_view(r.0), opt_pairs_view(r.1)) == package_json_of(content@),
    {
        let d = json_object_members(content, "dependencies");
        let dev = json_object_members(content, "devDependencies");
        let sc = json_object_members(content, "scripts");
        self.package_entries_from(d, dev, sc)
    }

    /// The dependencies (development ones under their name followed by
    /// ` (dev)`) and the scripts, given the members of the three objects of
    /// a `package.json`.
    pub fn package_entries_from(
        &self,
        deps: Option<Vec<(String, Option<String>)>>,
        dev: Option<Vec<(String, Option<String>)>>,
        scripts: Option<Vec<(String, Option<String>)>>,
    ) -> (r: (Option<Vec<(String, String)>>, Option<Vec<(String, String)>>))
        ensures
            (opt_pairs_view(r.0), opt_pairs_view(r.1)) == package_entries(
                members_view(deps),
                members_view(dev),
                members_view(scripts),
            ),
    {
        let mut out: Vec<(String, String)> = Vec::new();
        assert(pairs_view(out@) =~= Seq::empty());
        let d = members_or_default(deps);
        insert_member_list(&mut out, &d, "");
        let dv = members_or_default(dev);
        insert_member_list(&mut out, &dv, " (dev)");
        let mut sc_out: Vec<(String, String)> = Vec::new();
        assert(pairs_view(sc_out@) =~= Seq::empty());
        let sc = members_or_default(scripts);
        insert_member_list(&mut sc_out, &sc, "");
        proof {
            reveal_strlit("");
            assert(Seq::<char>::empty() =~= ""@);
        }
        (non_empty_pairs(out), non_empty_pairs(sc_out))
    }

    /// The dependencies of a `Cargo.toml`; none when the text is no TOML
    /// document or has no `dependencies` table. No scripts.
    pub fn parse_cargo_toml(&self, content: &str) -> (r: (
        Option<Vec<(String, String)>>,
        Option<Vec<(String, String)>>,
    ))
        ensures
            opt_pairs_view(r.0) == cargo_toml_of(content@),
            r.1 is None,
    {
        let entries = toml_table_entries(content, "dependencies", "version");
        (self.cargo_dependencies_from(entries), None)
    }

    /// The dependencies of a Cargo dependency table, given its entries: the
    /// string value, else the `version` string of a table, else `*`.
    pub fn cargo_dependencies_from(
        &self,
        entries: Option<Vec<(String, Option<String>, Option<Option<String>>)>>,
    ) -> (r: Option<Vec<(String, String)>>)
        ensures
            opt_pairs_view(r) == cargo_entries(toml_entries_view(entries)),
    {
        let entries = match entries {
            Some(t) => t,
            None => {
                return None;
            },
        };
        let ghost tv = toml_entries_view(Some(entries))->0;
        let mut deps: Vec<(String, String)> = Vec::new();
        let mut i: usize = 0;
        while i < entries.len()
            invariant
                i <= entries@.len(),
                tv == toml_entries_view(Some(entries))->0,
                pairs_view(deps@) == insert_cargo(tv.take(i as int)),
            decreases entries.len() - i,
        {
            assert(tv.take(i + 1).drop_last() =~= tv.take(i as int));
            assert(tv.take(i + 1).last() == tv[i as int]);
            let e = &entries[i];
            let version = match &e.1 {
                Some(v) => v.clone(),
                None => match &e.2 {
                    Some(Some(v)) => v.clone(),
                    _ => "*".to_string(),
                },
            };
            insert_pair(&mut deps, e.0.clone(), version);
            i = i + 1;
        }
        assert(tv.take(i as int) =~= tv);
        non_empty_pairs(deps)
    }

    /// The dependencies of a `pyproject.toml`, from `project.dependencies`;
    /// none when there is no such array. No scripts.
    pub fn parse_pyproject_toml(&self, content: &str) -> (r: (
        Option<Vec<(String, String)>>,
        Option<Vec<(String, String)>>,
    ))
        ensures
            opt_pairs_view(r.0) == pyproject_of(content@),
            r.1 is None,
    {
        let items = toml_string_array(content, "project", "dependencies");
        (self.pyproject_dependencies_from(items), None)
    }

    /// The dependencies of a `project.dependencies` array, given its items:
    /// each string item split as a requirement specifier.
    pub fn pyproject_dependencies_from(&self, items: Option<Vec<Option<String>>>) -> (r: Option<
        Vec<(String, String)>,
    >)
        ensures
            opt_pairs_view(r) == pyproject_entries(toml_items_view(items)),
    {
        let items = match items {
            Some(t) => t,
            None => {
                return None;
            },
        };
        let ghost iv = toml_items_view(Some(items))->0;
        let mut deps: Vec<(String, String)> = Vec::new();
        let mut i: usize = 0;
        while i < items.len()
            invariant
                i <= items@.len(),
                iv == toml_items_view(Some(items))->0,
                pairs_view(deps@) == insert_requirements(iv.take(i as int)),
            decreases items.len() - i,
        {
            assert(iv.take(i + 1).drop_last() =~= iv.take(i as int));
            assert(iv.take(i + 1).last() == iv[i as int]);
            match &items[i] {
                Some(spec_text) => {
                    let c = chars_of(spec_text.as_str());
                    let (name, ver) = split_requirement_exec(&c);
                    insert_pair(&mut deps, name, ver);
                },
                None => {},
            }
            i = i + 1;
        }
        assert(iv.take(i as int) =~= iv);
        non_empty_pairs(deps)
    }

    /// The dependencies and scripts of a manifest of ecosystem `file_type`.
    pub fn parse_config_file(&self, content: &str, file_type: &str) -> (r: (
        Option<Vec<(String, String)>>,
        Option<Vec<(String, String)>>,
    ))
        ensures
            (opt_pairs_view(r.0), opt_pairs_view(r.1)) == parsed_config(content@, file_type@),
    {
        let t = chars_of(file_type);
        if eq_lit(&t, "npm") {
            self.parse_package_json(content)
        } else if eq_lit(&t, "cargo") {
            self.parse_cargo_toml(content)
        } else if eq_lit(&t, "pip") {
            self.parse_requirements_txt(content)
        } else if eq_lit(&t, "python") {
            self.parse_pyproject_toml(content)
        } else {
            (None, None)
        }
    }

    /// The dependencies of a `requirements.txt`: `name==version`,
    /// `name>=version` or a bare name (version `*`) per line. No scripts.
    pub fn parse_requirements_txt(&self, content: &str) -> (r: (
        Option<Vec<(String, String)>>,
        Option<Vec<(String, String)>>,
    ))
        ensures
            opt_pairs_view(r.0) == non_empty(requirement_entries(lines_of(content@))),
            r.1 is None,
    {
        let text = chars_of(content);
        let lines = split_lines(&text);
        let ghost ls = char_views(lines@);
        let mut deps: Vec<(String, String)> = Vec::new();
        let mut i: usize = 0;
        while i < lines.len()
            invariant
                i <= lines@.len(),
                ls == char_views(lines@),
                ls == lines_of(content@),
                pairs_view(deps@) == requirement_entries(ls.take(i as int)),
            decreases lines.len() - i,
        {
            assert(ls.take(i + 1).drop_last() =~= ls.take(i as int));
            assert(ls.take(i + 1).last() == lines@[i as int]@);
            let t = trim_chars(&lines[i]);
            if t.len() == 0 || t[0] == '#' {
            } else {
                let (name, ver) = split_requirement_exec(&t);
                insert_pair(&mut deps, name, ver);
            }
            i = i + 1;
        }
        assert(ls.take(i as int) =~= ls);
        if deps.len() == 0 {
            (None, None)
        } else {
            (Some(deps), None)
        }
    }
}

/// The manifest name patterns and their ecosystem tags, in scan order.
pub open spec fn config_patterns() -> Seq<(Seq<char>, Seq<char>)> {
    seq![
        ("package.json"@, "npm"@),
        ("Cargo.toml"@, "cargo"@),
        ("requirements.txt"@, "pip"@),
        ("Pipfile"@, "pipenv"@),
        ("pyproject.toml"@, "python"@),
        ("pom.xml"@, "maven"@),
        ("build.gradle"@, "gradle"@),
        ("composer.json"@, "composer"@),
        ("Gemfile"@, "bundler"@),
        ("go.mod"@, "go"@),
        ("pubspec.yaml"@, "dart"@),
        ("project.clj"@, "leiningen"@),
        ("mix.exs"@, "mix"@),
        ("rebar.config"@, "rebar"@),
        ("stack.yaml"@, "stack"@),
        ("cabal.project"@, "cabal"@),
        ("dune-project"@, "dune"@),
        (".travis.yml"@, "travis"@),
        (".github/workflows"@, "github-actions"@),
        ("Dockerfile"@, "docker"@),
        ("docker-compose.yml"@, "docker-compose"@),
        ("kubernetes.yaml"@, "kubernetes"@),
        ("terraform.tf"@, "terraform"@),
        ("ansible.yml"@, "ansible"@),
        (".eslintrc"@, "eslint"@),
        (".prettierrc"@, "prettier"@),
        ("tsconfig.json"@, "typescript"@),
        ("webpack.config.js"@, "webpack"@),
        ("vite.config.js"@, "vite"@),
        ("rollup.config.js"@, "rollup"@),
        ("jest.config.js"@, "jest"@),
        ("cypress.json"@, "cypress"@),
        (".env"@, "environment"@),
        (".gitignore"@, "git"@),
        (".gitattributes"@, "git"@),
    ]
}

fn config_pattern_table() -> (r: Vec<(&'static str, &'static str)>)
    ensures
        r@.map_values(|p: (&'static str, &'static str)| (p.0@, p.1@)) == config_patterns(),
{
    let r = vec![
        ("package.json", "npm"),
        ("Cargo.toml", "cargo"),
        ("requirements.txt", "pip"),
        ("Pipfile", "pipenv"),
        ("pyproject.toml", "python"),
        ("pom.xml", "maven"),
        ("build.gradle", "gradle"),
        ("composer.json", "composer"),
        ("Gemfile", "bundler"),
        ("go.mod", "go"),
        ("pubspec.yaml", "dart"),
        ("project.clj", "leiningen"),
        ("mix.exs", "mix"),
        ("rebar.config", "rebar"),
        ("stack.yaml", "stack"),
        ("cabal.project", "cabal"),
        ("dune-project", "dune"),
        (".travis.yml", "travis"),
        (".github/workflows", "github-actions"),
        ("Dockerfile", "docker"),
        ("docker-compose.yml", "docker-compose"),
        ("kubernetes.yaml", "kubernetes"),
        ("terraform.tf", "terraform"),
        ("ansible.yml", "ansible"),
        (".eslintrc", "eslint"),
        (".prettierrc", "prettier"),
        ("tsconfig.json", "typescript"),
        ("webpack.config.js", "webpack"),
        ("vite.config.js", "vite"),
        ("rollup.config.js", "rollup"),
        ("jest.config.js", "jest"),
        ("cypress.json", "cypress"),
        (".env", "environment"),
        (".gitignore", "git"),
        (".gitattributes", "git"),
    ];
    assert(r@.map_values(|p: (&'static str, &'static str)| (p.0@, p.1@)) =~= config_patterns());
    r
}

proof fn lemma_requirements_unique(lines: Seq<Seq<char>>)
    ensures
        keys_unique(requirement_entries(lines)),
    decreases lines.len(),
{
    if lines.len() > 0 {
        lemma_requirements_unique(lines.drop_last());
        let t = trimmed(lines.last());
        if !(t.len() == 0 || t[0] == '#') {
            lemma_insert_entry_unique(
                requirement_entries(lines.drop_last()),
                split_requirement(t).0,
                split_requirement(t).1,
            );
        }
    }
}

proof fn lemma_members_unique(
    es: Seq<(Seq<char>, Seq<char>)>,
    ms: Seq<(Seq<char>, Option<Seq<char>>)>,
    suffix: Seq<char>,
)
    requires
        keys_unique(es),
    ensures
        keys_unique(insert_members(es, ms, suffix)),
    decreases ms.len(),
{
    if ms.len() > 0 {
        lemma_members_unique(es, ms.drop_last(), suffix);
        if let Some(v) = ms.last().1 {
            lemma_insert_entry_unique(insert_members(es, ms.drop_last(), suffix), ms.last().0 + suffix, v);
        }
    }
}

proof fn lemma_cargo_unique(ts: Seq<(Seq<char>, Option<Seq<char>>, Option<Option<Seq<char>>>)>)
    ensures
        keys_unique(insert_cargo(ts)),
    decreases ts.len(),
{
    if ts.len() > 0 {
        lemma_cargo_unique(ts.drop_last());
        lemma_insert_entry_unique(insert_cargo(ts.drop_last()), ts.last().0, cargo_version(ts.last()));
    }
}

proof fn lemma_pyproject_unique(items: Seq<Option<Seq<char>>>)
    ensures
        keys_unique(insert_requirements(items)),
    decreases items.len(),
{
    if items.len() > 0 {
        lemma_pyproject_unique(items.drop_last());
        if let Some(t) = items.last() {
            lemma_insert_entry_unique(
                insert_requirements(items.drop_last()),
                split_requirement(t).0,
                split_requirement(t).1,
            );
        }
    }
}

/// Whatever a manifest holds, the dependencies and the scripts parsed from
/// it name each key once.
pub proof fn lemma_parsed_keys_unique(content: Seq<char>, file_type: Seq<char>)
    ensures
        parsed_config(content, file_type).0 is Some ==> keys_unique(
            parsed_config(content, file_type).0->0,
        ),
        parsed_config(content, file_type).1 is Some ==> keys_unique(
            parsed_config(content, file_type).1->0,
        ),
{
    assert(keys_unique(Seq::empty()));
    lemma_requirements_unique(lines_of(content));
    if let Some(ts) = toml_entries_of(content, "dependencies"@, "version"@) {
        lemma_cargo_unique(ts);
    }
    if let Some(items) = toml_array_of(content, "project"@, "dependencies"@) {
        lemma_pyproject_unique(items);
    }
    let d = insert_members(
        Seq::empty(),
        members_or_empty(json_members_of(content, "dependencies"@)),
        Seq::empty(),
    );
    lemma_members_unique(Seq::empty(), members_or_empty(json_members_of(content, "dependencies"@)), Seq::empty());
    lemma_members_unique(d, members_or_empty(json_members_of(content, "devDependencies"@)), " (dev)"@);
    lemma_members_unique(Seq::empty(), members_or_empty(json_members_of(content, "scripts"@)), Seq::empty());
}

} // verus!
