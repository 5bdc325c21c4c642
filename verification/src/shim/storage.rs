//! What the shim remembers of sandboxes and containers: one record per name,
//! saying which runtime it lives in.

use vstd::prelude::*;
use vstd::string::*;

use crate::common::ChariotError;
use crate::text::{join_path, same_text};

verus! {

/// A value that can be copied with its view kept.
pub trait Duplicate: View + Sized {
    /// A copy of this value.
    fn duplicate(&self) -> (r: Self)
        ensures
            r@ == self@,
    ;
}

/// A row that is stored under a string key.
pub trait Keyed: Duplicate {
    /// The key of a row, read from its view.
    spec fn key_of(v: Self::V) -> Seq<char>;

    /// The key of this row.
    fn key(&self) -> (k: &String)
        ensures
            k@ == Self::key_of(self@),
    ;
}

/// No two entries of `s` have the same key.
pub open spec fn unique_keys<V>(s: Seq<V>, key: spec_fn(V) -> Seq<char>) -> bool {
    forall|i: int, j: int|
        0 <= i < s.len() && 0 <= j < s.len() && i != j ==> key(s[i]) != key(s[j])
}

/// The map from key to entry that a sequence of entries stands for; a later
/// entry replaces an earlier one with the same key.
pub open spec fn rows_map<V>(s: Seq<V>, key: spec_fn(V) -> Seq<char>) -> Map<Seq<char>, V>
    decreases s.len(),
{
    if s.len() == 0 {
        Map::empty()
    } else {
        rows_map(s.drop_last(), key).insert(key(s.last()), s.last())
    }
}

proof fn lemma_rows_map_domain<V>(s: Seq<V>, key: spec_fn(V) -> Seq<char>, k: Seq<char>)
    ensures
        rows_map(s, key).contains_key(k) <==> exists|i: int| 0 <= i < s.len() && key(s[i]) == k,
    decreases s.len(),
{
    if s.len() > 0 {
        let d = s.drop_last();
        lemma_rows_map_domain(d, key, k);
        if exists|i: int| 0 <= i < s.len() && key(s[i]) == k {
            let i: int = choose|i: int| 0 <= i < s.len() && key(s[i]) == k;
            if i < s.len() - 1 {
                assert(key(d[i]) == k);
            }
        }
        if exists|i: int| 0 <= i < d.len() && key(d[i]) == k {
            let i: int = choose|i: int| 0 <= i < d.len() && key(d[i]) == k;
            assert(key(s[i]) == k);
        }
    }
}

proof fn lemma_rows_map_value<V>(s: Seq<V>, key: spec_fn(V) -> Seq<char>, i: int)
    requires
        unique_keys(s, key),
        0 <= i < s.len(),
    ensures
        rows_map(s, key).contains_key(key(s[i])),
        rows_map(s, key)[key(s[i])] == s[i],
    decreases s.len(),
{
    if i < s.len() - 1 {
        let d = s.drop_last();
        assert(unique_keys(d, key)) by {
            assert forall|a: int, b: int|
                0 <= a < d.len() && 0 <= b < d.len() && a != b implies key(d[a]) != key(d[b]) by {
                assert(d[a] == s[a] && d[b] == s[b]);
            }
        }
        assert(d[i] == s[i]);
        lemma_rows_map_value(d, key, i);
        assert(key(s[i]) != key(s.last()));
    }
}

proof fn lemma_rows_map_push<V>(s: Seq<V>, key: spec_fn(V) -> Seq<char>, v: V)
    ensures
        rows_map(s.push(v), key) == rows_map(s, key).insert(key(v), v),
{
    assert(s.push(v).drop_last() =~= s);
}

proof fn lemma_rows_map_remove<V>(s: Seq<V>, key: spec_fn(V) -> Seq<char>, i: int)
    requires
        unique_keys(s, key),
        0 <= i < s.len(),
    ensures
        rows_map(s.remove(i), key) == rows_map(s, key).remove(key(s[i])),
    decreases s.len(),
{
    let d = s.drop_last();
    let k = key(s[i]);
    assert(unique_keys(d, key)) by {
        assert forall|a: int, b: int|
            0 <= a < d.len() && 0 <= b < d.len() && a != b implies key(d[a]) != key(d[b]) by {
            assert(d[a] == s[a] && d[b] == s[b]);
        }
    }
    if i == s.len() - 1 {
        assert(s.remove(i) =~= d);
        assert(!rows_map(d, key).contains_key(k)) by {
            lemma_rows_map_domain(d, key, k);
            if exists|j: int| 0 <= j < d.len() && key(d[j]) == k {
                let j: int = choose|j: int| 0 <= j < d.len() && key(d[j]) == k;
                assert(d[j] == s[j]);
            }
        }
        assert(rows_map(s, key).remove(k) =~= rows_map(d, key));
    } else {
        assert(d[i] == s[i]);
        lemma_rows_map_remove(d, key, i);
        assert(s.remove(i) =~= d.remove(i).push(s.last()));
        lemma_rows_map_push(d.remove(i), key, s.last());
        assert(key(s.last()) != k);
        assert(rows_map(s.remove(i), key) =~= rows_map(s, key).remove(k));
    }
}

proof fn lemma_unique_remove<V>(s: Seq<V>, key: spec_fn(V) -> Seq<char>, i: int)
    requires
        unique_keys(s, key),
        0 <= i < s.len(),
    ensures
        unique_keys(s.remove(i), key),
{
    let r = s.remove(i);
    assert forall|a: int, b: int|
        0 <= a < r.len() && 0 <= b < r.len() && a != b implies key(r[a]) != key(r[b]) by {
        let sa: int = if a < i { a } else { a + 1 };
        let sb: int = if b < i { b } else { b + 1 };
        assert(r[a] == s[sa] && r[b] == s[sb]);
    }
}

/// Rows kept one per key.
pub struct Table<R> {
    rows: Vec<R>,
}

impl<R: Keyed> Table<R> {
    /// The views of the stored records, in storage order.
    pub closed spec fn entries(&self) -> Seq<R::V> {
        self.rows@.map_values(|r: R| r@)
    }

    /// The key function on record views.
    pub open spec fn key_fn() -> spec_fn(R::V) -> Seq<char> {
        |v: R::V| R::key_of(v)
    }

    /// No two stored records share a key.
    pub closed spec fn wf(&self) -> bool {
        unique_keys(self.entries(), Self::key_fn())
    }

    /// The stored records by key.
    pub closed spec fn records(&self) -> Map<Seq<char>, R::V> {
        rows_map(self.entries(), Self::key_fn())
    }

    /// An empty table.
    pub fn new() -> (t: Self)
        ensures
            t.wf(),
            t.records() == Map::<Seq<char>, R::V>::empty(),
    {
        let t = Table { rows: Vec::new() };
        assert(t.entries() =~= Seq::<R::V>::empty());
        t
    }

    fn find(&self, key: &str) -> (r: Option<usize>)
        ensures
            r matches Some(i) ==> i < self.rows.len() && R::key_of(self.rows@[i as int]@) == key@,
            r is None ==> forall|i: int| 0 <= i < self.rows.len() ==> R::key_of(#[trigger] self.rows@[i]@) != key@,
    {
        let mut i: usize = 0;
        while i < self.rows.len()
            invariant
                i <= self.rows.len(),
                forall|j: int| 0 <= j < i ==> R::key_of(#[trigger] self.rows@[j]@) != key@,
            decreases self.rows.len() - i,
        {
            if same_text(self.rows[i].key().as_str(), key) {
                return Some(i);
            }
            i = i + 1;
        }
        None
    }

    proof fn lemma_absent(&self, key: Seq<char>)
        requires
            forall|i: int| 0 <= i < self.rows.len() ==> R::key_of(#[trigger] self.rows@[i]@) != key,
        ensures
            !self.records().contains_key(key),
    {
        lemma_rows_map_domain(self.entries(), Self::key_fn(), key);
        if exists|i: int| 0 <= i < self.entries().len() && (Self::key_fn())(self.entries()[i]) == key {
            let i: int = choose|i: int| 0 <= i < self.entries().len() && (Self::key_fn())(self.entries()[i]) == key;
            assert(R::key_of(self.rows@[i]@) == key);
        }
    }

    proof fn lemma_present(&self, i: int)
        requires
            self.wf(),
            0 <= i < self.rows.len(),
        ensures
            self.records().contains_key(R::key_of(self.rows@[i]@)),
            self.records()[R::key_of(self.rows@[i]@)] == self.rows@[i]@,
    {
        lemma_rows_map_value(self.entries(), Self::key_fn(), i);
    }

    /// Stores `row`, replacing the record with the same key if there is one.
    pub fn put(&mut self, row: R)
        requires
            old(self).wf(),
        ensures
            final(self).wf(),
            final(self).records() == old(self).records().insert(R::key_of(row@), row@),
    {
        let found = self.find(row.key().as_str());
        let ghost key = R::key_of(row@);
        let ghost before = self.records();
        match found {
            Some(i) => {
                proof {
                    lemma_rows_map_remove(self.entries(), Self::key_fn(), i as int);
                    lemma_unique_remove(self.entries(), Self::key_fn(), i as int);
                }
                let ghost old_entries = self.entries();
                self.rows.remove(i);
                assert(self.entries() =~= old_entries.remove(i as int));
            },
            None => {
                proof {
                    self.lemma_absent(key);
                    assert(before.remove(key) =~= before);
                }
            },
        }
        // Now no stored record has the key of `row`.
        let ghost mid = self.entries();
        proof {
            lemma_rows_map_domain(mid, Self::key_fn(), key);
            if exists|j: int| 0 <= j < mid.len() && (Self::key_fn())(mid[j]) == key {
                let j: int = choose|j: int| 0 <= j < mid.len() && (Self::key_fn())(mid[j]) == key;
                assert(self.records().contains_key(key));
            }
        }
        let ghost row_view = row@;
        self.rows.push(row);
        proof {
            assert(self.entries() =~= mid.push(row_view));
            lemma_rows_map_push(mid, Self::key_fn(), row_view);
            assert(self.records() =~= before.remove(key).insert(key, row_view));
            assert(before.remove(key).insert(key, row_view) =~= before.insert(key, row_view));
        }
    }

    /// A copy of the record stored under `key`.
    pub fn get(&self, key: &str) -> (r: Option<R>)
        requires
            self.wf(),
        ensures
            r is Some <==> self.records().contains_key(key@),
            r matches Some(row) ==> row@ == self.records()[key@],
    {
        match self.find(key) {
            Some(i) => {
                proof {
                    self.lemma_present(i as int);
                }
                Some(self.rows[i].duplicate())
            },
            None => {
                proof {
                    self.lemma_absent(key@);
                }
                None
            },
        }
    }

    /// Forgets the record stored under `key`; false when there was none.
    pub fn delete(&mut self, key: &str) -> (removed: bool)
        requires
            old(self).wf(),
        ensures
            final(self).wf(),
            removed == old(self).records().contains_key(key@),
            final(self).records() == old(self).records().remove(key@),
    {
        match self.find(key) {
            Some(i) => {
                proof {
                    self.lemma_present(i as int);
                    lemma_rows_map_remove(self.entries(), Self::key_fn(), i as int);
                    lemma_unique_remove(self.entries(), Self::key_fn(), i as int);
                }
                let ghost old_entries = self.entries();
                self.rows.remove(i);
                assert(self.entries() =~= old_entries.remove(i as int));
                true
            },
            None => {
                proof {
                    self.lemma_absent(key@);
                    assert(self.records().remove(key@) =~= self.records());
                }
                false
            },
        }
    }

    /// Copies of all stored records, each key once.
    pub fn all(&self) -> (v: Vec<R>)
        requires
            self.wf(),
        ensures
            unique_keys(v@.map_values(|r: R| r@), Self::key_fn()),
            forall|i: int| 0 <= i < v.len() ==> #[trigger] self.records().contains_key(R::key_of(v@[i]@))
                && self.records()[R::key_of(v@[i]@)] == v@[i]@,
            forall|k: Seq<char>| #[trigger] self.records().contains_key(k) ==> exists|i: int|
                0 <= i < v.len() && R::key_of(v@[i]@) == k,
    {
        let mut v: Vec<R> = Vec::new();
        let mut i: usize = 0;
        while i < self.rows.len()
            invariant
                self.wf(),
                i <= self.rows.len(),
                v.len() == i,
                forall|j: int| 0 <= j < i ==> #[trigger] v@[j]@ == self.rows@[j]@,
            decreases self.rows.len() - i,
        {
            v.push(self.rows[i].duplicate());
            i = i + 1;
        }
        proof {
            let vs = v@.map_values(|r: R| r@);
            assert(vs =~= self.entries());
            assert forall|i: int| 0 <= i < v.len() implies #[trigger] self.records().contains_key(
                R::key_of(v@[i]@),
            ) && self.records()[R::key_of(v@[i]@)] == v@[i]@ by {
                self.lemma_present(i);
            }
            assert forall|k: Seq<char>| #[trigger] self.records().contains_key(k) implies exists|i: int|
                0 <= i < v.len() && R::key_of(v@[i]@) == k by {
                lemma_rows_map_domain(self.entries(), Self::key_fn(), k);
                let i: int = choose|i: int| 0 <= i < self.entries().len() && (Self::key_fn())(self.entries()[i]) == k;
                assert(R::key_of(v@[i]@) == k);
            }
        }
        v
    }
}

/// Which sandbox a container belongs to and which runtime runs it.
#[derive(Debug, Clone)]
pub struct Container {
    pub id: String,
    pub sandbox: String,
    pub runtime: String,
}

/// Which runtime runs a pod sandbox.
#[derive(Debug, Clone)]
pub struct Sandbox {
    pub id: String,
    pub runtime: String,
}

pub struct ContainerView {
    pub id: Seq<char>,
    pub sandbox: Seq<char>,
    pub runtime: Seq<char>,
}

pub struct SandboxView {
    pub id: Seq<char>,
    pub runtime: Seq<char>,
}

impl View for Container {
    type V = ContainerView;

    open spec fn view(&self) -> ContainerView {
        ContainerView { id: self.id@, sandbox: self.sandbox@, runtime: self.runtime@ }
    }
}

impl View for Sandbox {
    type V = SandboxView;

    open spec fn view(&self) -> SandboxView {
        SandboxView { id: self.id@, runtime: self.runtime@ }
    }
}

impl Duplicate for Container {
    fn duplicate(&self) -> (r: Container) {
        Container { id: self.id.clone(), sandbox: self.sandbox.clone(), runtime: self.runtime.clone() }
    }
}

impl Duplicate for Sandbox {
    fn duplicate(&self) -> (r: Sandbox) {
        Sandbox { id: self.id.clone(), runtime: self.runtime.clone() }
    }
}

/// A record together with the name it is kept under (its file name).
pub struct Stored<R> {
    pub key: String,
    pub record: R,
}

impl<R: View> View for Stored<R> {
    type V = (Seq<char>, R::V);

    open spec fn view(&self) -> (Seq<char>, R::V) {
        (self.key@, self.record@)
    }
}

impl<R: Duplicate> Duplicate for Stored<R> {
    fn duplicate(&self) -> (r: Stored<R>) {
        Stored { key: self.key.clone(), record: self.record.duplicate() }
    }
}

impl<R: Duplicate> Keyed for Stored<R> {
    open spec fn key_of(v: (Seq<char>, R::V)) -> Seq<char> {
        v.0
    }

    fn key(&self) -> (k: &String) {
        &self.key
    }
}

/// `vs` lists the records of `m`: each key's record once, in some order.
pub open spec fn lists<V>(m: Map<Seq<char>, V>, vs: Seq<V>) -> bool {
    exists|ks: Seq<Seq<char>>|
        {
            &&& #[trigger] ks.len() == vs.len()
            &&& ks.no_duplicates()
            &&& forall|k: Seq<char>| m.contains_key(k) <==> ks.contains(k)
            &&& forall|i: int| 0 <= i < ks.len() ==> m[ks[i]] == vs[i]
        }
}

/// The text of the error a read or removal of an unknown record answers
/// with: what the operating system reports for a file that does not exist.
pub open spec fn not_found_text() -> Seq<char> {
    "No such file or directory (os error 2)"@
}

fn not_found() -> (e: ChariotError)
    ensures
        e == ChariotError::IOError(e->IOError_0),
        e->IOError_0@ == not_found_text(),
{
    ChariotError::IOError("No such file or directory (os error 2)".to_owned())
}

/// A name that, joined to a record directory, names a directory rather than
/// a file: the empty name, `.` and `..`.
pub open spec fn directory_name(n: Seq<char>) -> bool {
    n.len() == 0 || n == seq!['.'] || n == seq!['.', '.']
}

/// Only three names stand for a directory: the empty name, `.` and `..`.
/// Every other name, of any length, names a record file.
pub proof fn law_only_dot_names_are_directories(n: Seq<char>)
    ensures
        n.len() >= 3 ==> !directory_name(n),
        n.len() == 1 ==> (directory_name(n) <==> n[0] == '.'),
        n.len() == 2 ==> (directory_name(n) <==> n[0] == '.' && n[1] == '.'),
        n.len() == 0 ==> directory_name(n),
{
    if n.len() == 1 && n[0] == '.' {
        assert(n =~= seq!['.']);
    }
    if n.len() == 2 && n[0] == '.' && n[1] == '.' {
        assert(n =~= seq!['.', '.']);
    }
}

/// The text of the error a record operation on a directory answers with.
pub open spec fn directory_text() -> Seq<char> {
    "Is a directory (os error 21)"@
}

/// The text of the error reading or removing the record named `n` answers
/// with when there is none.
pub open spec fn failure_text(n: Seq<char>) -> Seq<char> {
    if directory_name(n) {
        directory_text()
    } else {
        not_found_text()
    }
}

/// Whether `name` names a directory rather than a record file.
pub fn is_directory_name(name: &str) -> (b: bool)
    ensures
        b == directory_name(name@),
{
    proof {
        reveal_strlit(".");
        reveal_strlit("..");
        assert("."@ =~= seq!['.']);
        assert(".."@ =~= seq!['.', '.']);
    }
    name.unicode_len() == 0 || same_text(name, ".") || same_text(name, "..")
}

fn is_a_directory() -> (e: ChariotError)
    ensures
        e == ChariotError::IOError(e->IOError_0),
        e->IOError_0@ == directory_text(),
{
    ChariotError::IOError("Is a directory (os error 21)".to_owned())
}

/// Records of one kind, each kept under a name.
pub struct Shelf<R> {
    table: Table<Stored<R>>,
}

impl<R: Duplicate> Shelf<R> {
    /// No two rows share a name.
    pub closed spec fn wf(&self) -> bool {
        self.table.wf()
    }

    /// The records by name.
    pub closed spec fn records(&self) -> Map<Seq<char>, R::V> {
        self.table.records().map_values(|e: (Seq<char>, R::V)| e.1)
    }

    /// No records.
    pub fn new() -> (s: Self)
        ensures
            s.wf(),
            s.records() == Map::<Seq<char>, R::V>::empty(),
    {
        let s = Shelf { table: Table::new() };
        assert(s.records() =~= Map::<Seq<char>, R::V>::empty());
        s
    }

    /// Keeps `record` under `key`, replacing what was kept there.
    pub fn put(&mut self, key: String, record: R)
        requires
            old(self).wf(),
        ensures
            final(self).wf(),
            final(self).records() == old(self).records().insert(key@, record@),
    {
        let ghost k = key@;
        let ghost v = record@;
        self.table.put(Stored { key, record });
        assert(self.records() =~= old(self).records().insert(k, v));
    }

    /// A copy of the record kept under `key`.
    pub fn get(&self, key: &str) -> (r: Option<R>)
        requires
            self.wf(),
        ensures
            r is Some <==> self.records().contains_key(key@),
            r matches Some(rec) ==> rec@ == self.records()[key@],
    {
        match self.table.get(key) {
            Some(stored) => Some(stored.record),
            None => None,
        }
    }

    /// Forgets the record kept under `key`; false when there was none.
    pub fn delete(&mut self, key: &str) -> (removed: bool)
        requires
            old(self).wf(),
        ensures
            final(self).wf(),
            removed == old(self).records().contains_key(key@),
            final(self).records() == old(self).records().remove(key@),
    {
        let removed = self.table.delete(key);
        assert(self.records() =~= old(self).records().remove(key@));
        removed
    }

    /// Copies of all records, each once.
    pub fn all(&self) -> (v: Vec<R>)
        requires
            self.wf(),
        ensures
            lists(self.records(), v@.map_values(|r: R| r@)),
    {
        let rows = self.table.all();
        let mut v: Vec<R> = Vec::new();
        let mut i: usize = 0;
        while i < rows.len()
            invariant
                i <= rows.len(),
                v.len() == i,
                forall|j: int| 0 <= j < i ==> #[trigger] v@[j]@ == rows@[j].record@,
            decreases rows.len() - i,
        {
            v.push(rows[i].record.duplicate());
            i = i + 1;
        }
        proof {
            let key_fn = Table::<Stored<R>>::key_fn();
            let ks = rows@.map_values(|r: Stored<R>| r.key@);
            let vs = v@.map_values(|r: R| r@);
            let entries = rows@.map_values(|r: Stored<R>| r@);
            assert forall|a: int, b: int| 0 <= a < ks.len() && 0 <= b < ks.len() && a != b implies ks[a] != ks[b] by {
                assert(key_fn(entries[a]) == ks[a]);
                assert(key_fn(entries[b]) == ks[b]);
            }
            assert forall|k: Seq<char>| self.records().contains_key(k) <==> ks.contains(k) by {
                if self.table.records().contains_key(k) {
                    let i: int = choose|i: int| 0 <= i < rows.len() && Stored::<R>::key_of(rows@[i]@) == k;
                    assert(ks[i] == k);
                }
                if ks.contains(k) {
                    let i: int = choose|i: int| 0 <= i < ks.len() && ks[i] == k;
                    assert(self.table.records().contains_key(Stored::<R>::key_of(rows@[i]@)));
                }
            }
            assert forall|i: int| 0 <= i < ks.len() implies self.records()[ks[i]] == vs[i] by {
                assert(self.table.records().contains_key(Stored::<R>::key_of(rows@[i]@)));
            }
            assert(ks.len() == vs.len());
        }
        v
    }
}

/// The stored records.
pub struct StorageView {
    pub containers: Map<Seq<char>, ContainerView>,
    pub sandboxes: Map<Seq<char>, SandboxView>,
}

/// The sandbox and container records, each kept under a name; the shim
/// keeps a record under its id.
pub struct Storage {
    containers: Shelf<Container>,
    sandboxes: Shelf<Sandbox>,
}

impl View for Storage {
    type V = StorageView;

    closed spec fn view(&self) -> StorageView {
        StorageView { containers: self.containers.records(), sandboxes: self.sandboxes.records() }
    }
}

/// The records `pairs` of names and records leave: every name that occurs is
/// kept, with the record of its last occurrence.
pub open spec fn loaded<V>(m: Map<Seq<char>, V>, pairs: Seq<(Seq<char>, V)>) -> bool {
    &&& forall|k: Seq<char>| #[trigger] m.contains_key(k) <==> exists|i: int|
        0 <= i < pairs.len() && pairs[i].0 == k
    &&& forall|i: int| 0 <= i < pairs.len() && (forall|j: int| i < j < pairs.len() ==> pairs[j].0 != pairs[i].0)
        ==> #[trigger] m[pairs[i].0] == pairs[i].1
}

impl<R: Duplicate> Shelf<R> {
    /// Keeps each record of `pairs` under its name, in order.
    pub fn load(pairs: &Vec<(String, R)>) -> (s: Self)
        ensures
            s.wf(),
            loaded(s.records(), pairs@.map_values(|p: (String, R)| (p.0@, p.1@))),
    {
        let ghost ps = pairs@.map_values(|p: (String, R)| (p.0@, p.1@));
        let mut s = Shelf::new();
        let mut i: usize = 0;
        while i < pairs.len()
            invariant
                i <= pairs.len(),
                ps == pairs@.map_values(|p: (String, R)| (p.0@, p.1@)),
                s.wf(),
                loaded(s.records(), ps.take(i as int)),
            decreases pairs.len() - i,
        {
            let ghost before = s.records();
            s.put(pairs[i].0.clone(), pairs[i].1.duplicate());
            proof {
                let t = ps.take(i + 1);
                let prev = ps.take(i as int);
                assert(t[i as int] == ps[i as int]);
                assert(ps[i as int] == (pairs@[i as int].0@, pairs@[i as int].1@));
                assert(forall|a: int| 0 <= a < i ==> prev[a] == t[a]);
                assert forall|k: Seq<char>| #[trigger] s.records().contains_key(k) <==> exists|a: int|
                    0 <= a < t.len() && t[a].0 == k by {
                    if k == t[i as int].0 {
                        assert(t[i as int].0 == k);
                    }
                    if exists|a: int| 0 <= a < t.len() && t[a].0 == k {
                        let a: int = choose|a: int| 0 <= a < t.len() && t[a].0 == k;
                        if a < i {
                            assert(prev[a].0 == k);
                        }
                    }
                    if before.contains_key(k) {
                        let a: int = choose|a: int| 0 <= a < prev.len() && prev[a].0 == k;
                        assert(t[a].0 == k);
                    }
                }
                assert forall|a: int| 0 <= a < t.len() && (forall|j: int| a < j < t.len() ==> t[j].0 != t[a].0)
                    implies #[trigger] s.records()[t[a].0] == t[a].1 by {
                    if a < i {
                        assert(t[i as int].0 != t[a].0);
                        assert(forall|j: int| a < j < prev.len() ==> prev[j] == t[j]);
                        assert(prev[a] == t[a]);
                    }
                }
            }
            i = i + 1;
        }
        assert(ps.take(pairs.len() as int) =~= ps);
        s
    }
}

impl Storage {
    #[verifier::type_invariant]
    closed spec fn inv(&self) -> bool {
        self.containers.wf() && self.sandboxes.wf()
    }

    /// A store with no records.
    pub fn new() -> (s: Storage)
        ensures
            s@.containers == Map::<Seq<char>, ContainerView>::empty(),
            s@.sandboxes == Map::<Seq<char>, SandboxView>::empty(),
    {
        Storage { containers: Shelf::new(), sandboxes: Shelf::new() }
    }

    /// A store holding the given records, each under the name paired with it
    /// (the name of the file it was read from); of records with the same
    /// name, the later one is kept.
    pub fn load(sandboxes: &Vec<(String, Sandbox)>, containers: &Vec<(String, Container)>) -> (s: Storage)
        ensures
            loaded(s@.sandboxes, sandboxes@.map_values(|p: (String, Sandbox)| (p.0@, p.1@))),
            loaded(s@.containers, containers@.map_values(|p: (String, Container)| (p.0@, p.1@))),
    {
        Storage { containers: Shelf::load(containers), sandboxes: Shelf::load(sandboxes) }
    }

    /// Records `c` under its id, replacing an earlier record with that id. An
    /// id that names a directory is refused and nothing changes.
    pub fn persist_container(&mut self, c: &Container) -> (r: Result<(), ChariotError>)
        ensures
            final(self)@.sandboxes == old(self)@.sandboxes,
            r is Ok ==> final(self)@.containers == old(self)@.containers.insert(c.id@, c@),
            r is Err ==> final(self)@.containers == old(self)@.containers,
            !c.id@.contains('/') ==> (r is Ok <==> !directory_name(c.id@)),
            !c.id@.contains('/') ==> (r is Ok <==> (c.id@.len() >= 3 || (c.id@.len() == 1 && c.id@[0] != '.') || (
            c.id@.len() == 2 && (c.id@[0] != '.' || c.id@[1] != '.')))),
            r matches Err(e) ==> e == ChariotError::IOError(e->IOError_0) && e->IOError_0@ == directory_text(),
    {
        proof {
            use_type_invariant(&*self);
        }
        proof {
            law_only_dot_names_are_directories(c.id@);
        }
        if is_directory_name(c.id.as_str()) {
            return Err(is_a_directory());
        }
        let mut shelf = Shelf::new();
        std::mem::swap(&mut shelf, &mut self.containers);
        shelf.put(c.id.clone(), c.duplicate());
        self.containers = shelf;
        Ok(())
    }

    /// The record of container `id`.
    pub fn get_container(&self, id: &str) -> (r: Result<Container, ChariotError>)
        ensures
            !id@.contains('/') ==> (r is Ok <==> !directory_name(id@) && self@.containers.contains_key(id@)),
            r matches Ok(c) ==> self@.containers.contains_key(id@) && c@ == self@.containers[id@],
            r matches Err(e) ==> e == ChariotError::IOError(e->IOError_0) && (!id@.contains('/')
                ==> e->IOError_0@ == failure_text(id@)),
    {
        proof {
            use_type_invariant(self);
        }
        if is_directory_name(id) {
            return Err(is_a_directory());
        }
        match self.containers.get(id) {
            Some(c) => Ok(c),
            None => Err(not_found()),
        }
    }

    /// All container records, each once.
    pub fn list_containers(&self) -> (v: Vec<Container>)
        ensures
            lists(self@.containers, v@.map_values(|c: Container| c@)),
    {
        proof {
            use_type_invariant(self);
        }
        self.containers.all()
    }

    /// Forgets container `id`; an error when it is not stored.
    pub fn remove_container(&mut self, id: &str) -> (r: Result<(), ChariotError>)
        ensures
            final(self)@.sandboxes == old(self)@.sandboxes,
            r is Ok ==> old(self)@.containers.contains_key(id@) && final(self)@.containers
                == old(self)@.containers.remove(id@),
            r is Err ==> final(self)@.containers == old(self)@.containers,
            !id@.contains('/') ==> (r is Ok <==> !directory_name(id@) && old(self)@.containers.contains_key(id@)),
            r matches Err(e) ==> e == ChariotError::IOError(e->IOError_0) && (!id@.contains('/')
                ==> e->IOError_0@ == failure_text(id@)),
    {
        proof {
            use_type_invariant(&*self);
        }
        if is_directory_name(id) {
            return Err(is_a_directory());
        }
        let mut shelf = Shelf::new();
        std::mem::swap(&mut shelf, &mut self.containers);
        let removed = shelf.delete(id);
        self.containers = shelf;
        if removed {
            Ok(())
        } else {
            Err(not_found())
        }
    }

    /// Records `s` under its id, replacing an earlier record with that id. An
    /// id that names a directory is refused and nothing changes.
    pub fn persist_sandbox(&mut self, s: &Sandbox) -> (r: Result<(), ChariotError>)
        ensures
            final(self)@.containers == old(self)@.containers,
            r is Ok ==> final(self)@.sandboxes == old(self)@.sandboxes.insert(s.id@, s@),
            r is Err ==> final(self)@.sandboxes == old(self)@.sandboxes,
            !s.id@.contains('/') ==> (r is Ok <==> !directory_name(s.id@)),
            !s.id@.contains('/') ==> (r is Ok <==> (s.id@.len() >= 3 || (s.id@.len() == 1 && s.id@[0] != '.') || (
            s.id@.len() == 2 && (s.id@[0] != '.' || s.id@[1] != '.')))),
            r matches Err(e) ==> e == ChariotError::IOError(e->IOError_0) && e->IOError_0@ == directory_text(),
    {
        proof {
            use_type_invariant(&*self);
        }
        proof {
            law_only_dot_names_are_directories(s.id@);
        }
        if is_directory_name(s.id.as_str()) {
            return Err(is_a_directory());
        }
        let mut shelf = Shelf::new();
        std::mem::swap(&mut shelf, &mut self.sandboxes);
        shelf.put(s.id.clone(), s.duplicate());
        self.sandboxes = shelf;
        Ok(())
    }

    /// The record of sandbox `id`.
    pub fn get_sandbox(&self, id: &str) -> (r: Result<Sandbox, ChariotError>)
        ensures
            !id@.contains('/') ==> (r is Ok <==> !directory_name(id@) && self@.sandboxes.contains_key(id@)),
            r matches Ok(s) ==> self@.sandboxes.contains_key(id@) && s@ == self@.sandboxes[id@],
            r matches Err(e) ==> e == ChariotError::IOError(e->IOError_0) && (!id@.contains('/')
                ==> e->IOError_0@ == failure_text(id@)),
    {
        proof {
            use_type_invariant(self);
        }
        if is_directory_name(id) {
            return Err(is_a_directory());
        }
        match self.sandboxes.get(id) {
            Some(s) => Ok(s),
            None => Err(not_found()),
        }
    }

    /// All sandbox records, each once.
    pub fn list_sandboxes(&self) -> (v: Vec<Sandbox>)
        ensures
            lists(self@.sandboxes, v@.map_values(|s: Sandbox| s@)),
    {
        proof {
            use_type_invariant(self);
        }
        self.sandboxes.all()
    }

    /// Forgets sandbox `id`; an error when it is not stored.
    pub fn remove_sandbox(&mut self, id: &str) -> (r: Result<(), ChariotError>)
        ensures
            final(self)@.containers == old(self)@.containers,
            r is Ok ==> old(self)@.sandboxes.contains_key(id@) && final(self)@.sandboxes
                == old(self)@.sandboxes.remove(id@),
            r is Err ==> final(self)@.sandboxes == old(self)@.sandboxes,
            !id@.contains('/') ==> (r is Ok <==> !directory_name(id@) && old(self)@.sandboxes.contains_key(id@)),
            r matches Err(e) ==> e == ChariotError::IOError(e->IOError_0) && (!id@.contains('/')
                ==> e->IOError_0@ == failure_text(id@)),
    {
        proof {
            use_type_invariant(&*self);
        }
        if is_directory_name(id) {
            return Err(is_a_directory());
        }
        let mut shelf = Shelf::new();
        std::mem::swap(&mut shelf, &mut self.sandboxes);
        let removed = shelf.delete(id);
        self.sandboxes = shelf;
        if removed {
            Ok(())
        } else {
            Err(not_found())
        }
    }
}

/// After a record is persisted, reading its id gives that record back, and
/// every other id reads as it did before.
pub proof fn law_read_after_persist<V>(
    before: Map<Seq<char>, V>,
    after: Map<Seq<char>, V>,
    id: Seq<char>,
    record: V,
    other: Seq<char>,
)
    requires
        after == before.insert(id, record),
    ensures
        after.contains_key(id),
        after[id] == record,
        other != id ==> (after.contains_key(other) == before.contains_key(other)),
        other != id && before.contains_key(other) ==> after[other] == before[other],
{
}

/// After a record is removed, its id no longer reads, and every other id
/// reads as it did before.
pub proof fn law_read_after_remove<V>(
    before: Map<Seq<char>, V>,
    after: Map<Seq<char>, V>,
    id: Seq<char>,
    other: Seq<char>,
)
    requires
        after == before.remove(id),
    ensures
        !after.contains_key(id),
        other != id ==> (after.contains_key(other) == before.contains_key(other)),
        other != id && before.contains_key(other) ==> after[other] == before[other],
{
}

/// Where the file-system engine keeps its records: one directory for
/// sandboxes and one for containers under a root, one file per id.
#[derive(Debug)]
pub struct FsEngine {
    sandbox_path: String,
    container_path: String,
}

/// `dir/name`.
pub open spec fn path_in(dir: Seq<char>, name: Seq<char>) -> Seq<char> {
    dir + seq!['/'] + name
}

/// The two record directories of an engine.
pub struct FsEngineView {
    pub sandbox_path: Seq<char>,
    pub container_path: Seq<char>,
}

impl View for FsEngine {
    type V = FsEngineView;

    closed spec fn view(&self) -> FsEngineView {
        FsEngineView { sandbox_path: self.sandbox_path@, container_path: self.container_path@ }
    }
}

impl FsEngine {
    /// The layout under root `p`: `p/sandboxes` and `p/containers`.
    pub fn layout(p: &str) -> (e: FsEngine)
        ensures
            e@.sandbox_path == path_in(p@, "sandboxes"@),
            e@.container_path == path_in(p@, "containers"@),
    {
        FsEngine { sandbox_path: join_path(p, "sandboxes"), container_path: join_path(p, "containers") }
    }

    /// The directory of sandbox records.
    pub fn sandbox_path(&self) -> (s: &String)
        ensures
            s@ == self@.sandbox_path,
    {
        &self.sandbox_path
    }

    /// The directory of container records.
    pub fn container_path(&self) -> (s: &String)
        ensures
            s@ == self@.container_path,
    {
        &self.container_path
    }

    /// The file that holds the record of sandbox `id`.
    pub fn sandbox_file(&self, id: &str) -> (s: String)
        ensures
            s@ == path_in(self@.sandbox_path, id@),
    {
        join_path(self.sandbox_path.as_str(), id)
    }

    /// The file that holds the record of container `id`.
    pub fn container_file(&self, id: &str) -> (s: String)
        ensures
            s@ == path_in(self@.container_path, id@),
    {
        join_path(self.container_path.as_str(), id)
    }
}

} // verus!
