//! The manifest data model: project metadata plus two key-value tables,
//! one pinning package versions and one naming scripts.
//!
//! Tables are kept as vectors of `(key, value)` pairs whose keys are
//! unique; contracts speak about them through `table_view` (sequences of
//! character sequences) and the spec-level operations `has_key`,
//! `value_of`, `tbl_insert` and `tbl_remove`.

use vstd::prelude::*;

verus! {

/// Project metadata as it appears in the manifest's project table.
pub struct Project {
    pub name: String,
    pub version: String,
    pub description: String,
    pub main_script: String,
}

/// Mathematical image of `Project`: each field as a character sequence.
#[verifier::ext_equal]
pub struct ProjectView {
    pub name: Seq<char>,
    pub version: Seq<char>,
    pub description: Seq<char>,
    pub main_script: Seq<char>,
}

impl View for Project {
    type V = ProjectView;

    open spec fn view(&self) -> ProjectView {
        ProjectView {
            name: self.name@,
            version: self.version@,
            description: self.description@,
            main_script: self.main_script@,
        }
    }
}

impl Project {
    pub fn new(name: String, version: String, description: String, main_script: String) -> (r:
        Project)
        ensures
            r.name == name,
            r.version == version,
            r.description == description,
            r.main_script == main_script,
    {
        Project { name, version, description, main_script }
    }
}

/// A key-value table as the specifications see it.
pub type TableView = Seq<(Seq<char>, Seq<char>)>;

/// The image of an executable table: both strings of every pair viewed
/// as character sequences.
pub open spec fn table_view(t: Seq<(String, String)>) -> TableView {
    t.map_values(|p: (String, String)| (p.0@, p.1@))
}

/// Whether some pair of the table carries the key `k`.
pub open spec fn has_key(t: TableView, k: Seq<char>) -> bool {
    exists|i: int| 0 <= i < t.len() && t[i].0 == k
}

/// An index at which `k` occurs; under `unique_keys` it is the only one.
pub open spec fn key_at(t: TableView, k: Seq<char>) -> int {
    choose|i: int| 0 <= i < t.len() && t[i].0 == k
}

/// The value stored under `k`.
pub open spec fn value_of(t: TableView, k: Seq<char>) -> Seq<char> {
    t[key_at(t, k)].1
}

/// No key occurs twice.
pub open spec fn unique_keys(t: TableView) -> bool {
    forall|i: int, j: int| 0 <= i < j < t.len() ==> t[i].0 != t[j].0
}

/// Replace the value under `k` if present, otherwise append the pair.
pub open spec fn tbl_insert(t: TableView, k: Seq<char>, v: Seq<char>) -> TableView {
    if has_key(t, k) {
        t.update(key_at(t, k), (k, v))
    } else {
        t.push((k, v))
    }
}

/// Drop the pair carrying `k`; the table is unchanged if `k` is absent.
pub open spec fn tbl_remove(t: TableView, k: Seq<char>) -> TableView {
    if has_key(t, k) {
        t.remove(key_at(t, k))
    } else {
        t
    }
}

/// Under unique keys, every in-range index holding `k` is `key_at`.
pub proof fn lemma_key_at_unique(t: TableView, k: Seq<char>, i: int)
    requires
        unique_keys(t),
        0 <= i < t.len(),
        t[i].0 == k,
    ensures
        has_key(t, k),
        key_at(t, k) == i,
{
    assert(has_key(t, k));
    let j = key_at(t, k);
    if i < j {
        assert(t[i].0 != t[j].0);
    } else if j < i {
        assert(t[j].0 != t[i].0);
    }
}

/// Inserting keeps keys unique.
pub proof fn lemma_insert_unique(t: TableView, k: Seq<char>, v: Seq<char>)
    requires
        unique_keys(t),
    ensures
        unique_keys(tbl_insert(t, k, v)),
{
    let r = tbl_insert(t, k, v);
    if has_key(t, k) {
        let at = key_at(t, k);
        assert forall|i: int, j: int| 0 <= i < j < r.len() implies r[i].0 != r[j].0 by {
            if i != at && j != at {
                assert(t[i].0 != t[j].0);
            } else if i == at {
                assert(t[j].0 != k) by { lemma_key_at_unique(t, k, at); }
            } else {
                assert(t[i].0 != k) by { lemma_key_at_unique(t, k, at); }
            }
        }
    } else {
        assert forall|i: int, j: int| 0 <= i < j < r.len() implies r[i].0 != r[j].0 by {
            if j == t.len() {
                assert(r[j].0 == k);
                assert(!(exists|m: int| 0 <= m < t.len() && t[m].0 == k));
                assert(t[i].0 != k);
            } else {
                assert(t[i].0 != t[j].0);
            }
        }
    }
}

/// Removing keeps keys unique.
pub proof fn lemma_remove_unique(t: TableView, k: Seq<char>)
    requires
        unique_keys(t),
    ensures
        unique_keys(tbl_remove(t, k)),
{
    let r = tbl_remove(t, k);
    if has_key(t, k) {
        let at = key_at(t, k);
        assert forall|i: int, j: int| 0 <= i < j < r.len() implies r[i].0 != r[j].0 by {
            let oi = if i < at { i } else { i + 1 };
            let oj = if j < at { j } else { j + 1 };
            assert(r[i] == t[oi]);
            assert(r[j] == t[oj]);
            assert(t[oi].0 != t[oj].0);
        }
    }
}

/// Whole-manifest state: metadata plus the two tables.
pub struct Config {
    pub project: Project,
    pub packages: Vec<(String, String)>,
    pub scripts: Vec<(String, String)>,
}

/// Mathematical image of `Config`.
#[verifier::ext_equal]
pub struct ConfigView {
    pub project: ProjectView,
    pub packages: TableView,
    pub scripts: TableView,
}

impl View for Config {
    type V = ConfigView;

    open spec fn view(&self) -> ConfigView {
        ConfigView {
            project: self.project@,
            packages: table_view(self.packages@),
            scripts: table_view(self.scripts@),
        }
    }
}

impl Config {
    /// Well-formedness: both tables keep their keys unique.
    pub open spec fn wf(&self) -> bool {
        unique_keys(self@.packages) && unique_keys(self@.scripts)
    }

    pub fn new(project: Project, packages: Vec<(String, String)>, scripts: Vec<(String, String)>)
        -> (r: Config)
        ensures
            r.project == project,
            r.packages == packages,
            r.scripts == scripts,
    {
        Config { project, packages, scripts }
    }
}

/// What `tbl_insert` does to `has_key` and `value_of`.
pub proof fn lemma_insert_props(t: TableView, k: Seq<char>, v: Seq<char>)
    requires
        unique_keys(t),
    ensures
        has_key(tbl_insert(t, k, v), k),
        value_of(tbl_insert(t, k, v), k) == v,
        forall|k2: Seq<char>| k2 != k ==> has_key(tbl_insert(t, k, v), k2) == has_key(t, k2),
        forall|k2: Seq<char>|
            k2 != k && has_key(t, k2) ==> value_of(tbl_insert(t, k, v), k2) == value_of(t, k2),
{
    let r = tbl_insert(t, k, v);
    lemma_insert_unique(t, k, v);
    if has_key(t, k) {
        let at = key_at(t, k);
        assert(r[at] == (k, v));
        assert(has_key(r, k));
        lemma_key_at_unique(r, k, at);
        assert forall|k2: Seq<char>| k2 != k implies has_key(r, k2) == has_key(t, k2) by {
            if has_key(r, k2) {
                let i = key_at(r, k2);
                assert(r[i].0 == k2);
                assert(i != at);
                assert(t[i].0 == k2);
                assert(has_key(t, k2));
            }
            if has_key(t, k2) {
                let i = key_at(t, k2);
                assert(t[i].0 == k2);
                lemma_key_at_unique(t, k, at);
                assert(i != at);
                assert(r[i].0 == k2);
                assert(has_key(r, k2));
            }
        }
        assert forall|k2: Seq<char>| k2 != k && has_key(t, k2) implies value_of(r, k2) == value_of(
            t,
            k2,
        ) by {
            let i = key_at(t, k2);
            lemma_key_at_unique(t, k, at);
            assert(i != at);
            assert(r[i].0 == k2);
            lemma_key_at_unique(r, k2, i);
        }
    } else {
        let at = t.len() as int;
        assert(r[at] == (k, v));
        assert(has_key(r, k));
        lemma_key_at_unique(r, k, at);
        assert forall|k2: Seq<char>| k2 != k implies has_key(r, k2) == has_key(t, k2) by {
            if has_key(r, k2) {
                let i = key_at(r, k2);
                assert(r[i].0 == k2);
                assert(i != at);
                assert(has_key(t, k2));
            }
            if has_key(t, k2) {
                let i = key_at(t, k2);
                assert(r[i].0 == k2);
                assert(has_key(r, k2));
            }
        }
        assert forall|k2: Seq<char>| k2 != k && has_key(t, k2) implies value_of(r, k2) == value_of(
            t,
            k2,
        ) by {
            let i = key_at(t, k2);
            assert(r[i].0 == k2);
            lemma_key_at_unique(r, k2, i);
        }
    }
}

/// What `tbl_remove` does to `has_key` and `value_of`.
pub proof fn lemma_remove_props(t: TableView, k: Seq<char>)
    requires
        unique_keys(t),
    ensures
        !has_key(tbl_remove(t, k), k),
        forall|k2: Seq<char>| k2 != k ==> has_key(tbl_remove(t, k), k2) == has_key(t, k2),
        forall|k2: Seq<char>|
            k2 != k && has_key(t, k2) ==> value_of(tbl_remove(t, k), k2) == value_of(t, k2),
{
    let r = tbl_remove(t, k);
    lemma_remove_unique(t, k);
    if has_key(t, k) {
        let at = key_at(t, k);
        assert(t[at].0 == k);
        assert forall|i: int| 0 <= i < r.len() implies r[i].0 != k by {
            let oi = if i < at { i } else { i + 1 };
            assert(r[i] == t[oi]);
            lemma_key_at_unique(t, k, at);
        }
        assert(!has_key(r, k));
        assert forall|k2: Seq<char>| k2 != k implies has_key(r, k2) == has_key(t, k2) by {
            if has_key(r, k2) {
                let i = key_at(r, k2);
                let oi = if i < at { i } else { i + 1 };
                assert(r[i] == t[oi]);
                assert(has_key(t, k2));
            }
            if has_key(t, k2) {
                let i = key_at(t, k2);
                assert(t[i].0 == k2);
                assert(i != at);
                let ni = if i < at { i } else { i - 1 };
                assert(r[ni] == t[i]);
                assert(has_key(r, k2));
            }
        }
        assert forall|k2: Seq<char>| k2 != k && has_key(t, k2) implies value_of(r, k2) == value_of(
            t,
            k2,
        ) by {
            let i = key_at(t, k2);
            assert(t[i].0 == k2);
            assert(i != at);
            let ni = if i < at { i } else { i - 1 };
            assert(r[ni] == t[i]);
            lemma_key_at_unique(r, k2, ni);
        }
    }
}

/// Whether the table holds the key `k`.
pub fn table_contains_key(t: &Vec<(String, String)>, k: &String) -> (r: bool)
    ensures
        r == has_key(table_view(t@), k@),
{
    let mut i: usize = 0;
    while i < t.len()
        invariant
            0 <= i <= t.len(),
            forall|j: int| 0 <= j < i ==> table_view(t@)[j].0 != k@,
        decreases t.len() - i,
    {
        if t[i].0 == *k {
            assert(table_view(t@)[i as int].0 == k@);
            return true;
        }
        i += 1;
    }
    false
}

/// The value under `k`, if the table holds that key.
pub fn table_get<'a>(t: &'a Vec<(String, String)>, k: &String) -> (r: Option<&'a String>)
    ensures
        match r {
            Some(v) => has_key(table_view(t@), k@) && unique_keys(table_view(t@)) ==> v@
                == value_of(table_view(t@), k@),
            None => !has_key(table_view(t@), k@),
        },
        r is Some <==> has_key(table_view(t@), k@),
{
    let mut i: usize = 0;
    while i < t.len()
        invariant
            0 <= i <= t.len(),
            forall|j: int| 0 <= j < i ==> table_view(t@)[j].0 != k@,
        decreases t.len() - i,
    {
        if t[i].0 == *k {
            assert(table_view(t@)[i as int].0 == k@);
            proof {
                if unique_keys(table_view(t@)) {
                    lemma_key_at_unique(table_view(t@), k@, i as int);
                }
            }
            return Some(&t[i].1);
        }
        i += 1;
    }
    None
}

/// Store `v` under `k`: replace the pair in place if the key is
/// present, append `(k, v)` otherwise.
pub fn table_set(t: &mut Vec<(String, String)>, k: String, v: String)
    requires
        unique_keys(table_view(old(t)@)),
    ensures
        table_view(final(t)@) == tbl_insert(table_view(old(t)@), k@, v@),
        unique_keys(table_view(final(t)@)),
{
    let mut i: usize = 0;
    while i < t.len()
        invariant
            0 <= i <= t.len(),
            t@ == old(t)@,
            unique_keys(table_view(t@)),
            forall|j: int| 0 <= j < i ==> table_view(t@)[j].0 != k@,
        decreases t.len() - i,
    {
        if t[i].0 == k {
            proof {
                lemma_key_at_unique(table_view(t@), k@, i as int);
                lemma_insert_unique(table_view(t@), k@, v@);
            }
            t[i] = (k, v);
            proof {
                assert(table_view(t@) =~= tbl_insert(table_view(old(t)@), k@, v@));
            }
            return;
        }
        i += 1;
    }
    assert(!has_key(table_view(t@), k@));
    proof {
        lemma_insert_unique(table_view(t@), k@, v@);
    }
    t.push((k, v));
    proof {
        assert(table_view(t@) =~= tbl_insert(table_view(old(t)@), k@, v@));
    }
}

/// Drop the pair under `k`; the table is left as it was if `k` is absent.
pub fn table_remove_key(t: &mut Vec<(String, String)>, k: &String)
    requires
        unique_keys(table_view(old(t)@)),
    ensures
        table_view(final(t)@) == tbl_remove(table_view(old(t)@), k@),
        unique_keys(table_view(final(t)@)),
{
    let mut i: usize = 0;
    while i < t.len()
        invariant
            0 <= i <= t.len(),
            t@ == old(t)@,
            unique_keys(table_view(t@)),
            forall|j: int| 0 <= j < i ==> table_view(t@)[j].0 != k@,
        decreases t.len() - i,
    {
        if t[i].0 == *k {
            proof {
                lemma_key_at_unique(table_view(t@), k@, i as int);
                lemma_remove_unique(table_view(t@), k@);
            }
            t.remove(i);
            proof {
                assert(table_view(t@) =~= tbl_remove(table_view(old(t)@), k@));
            }
            return;
        }
        i += 1;
    }
    assert(!has_key(table_view(t@), k@));
    assert(table_view(t@) =~= tbl_remove(table_view(old(t)@), k@));
}

} // verus!
