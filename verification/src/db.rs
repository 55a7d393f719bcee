//! The usage store: one record per program name, holding how often it was
//! launched and whether the user banned it from the list. Records are
//! reconciled against the freshly discovered catalog and persisted as a
//! full, name-sorted overwrite.

use vstd::prelude::*;

use crate::strutil::{lex_le, lemma_lex_le_total, lemma_lex_le_trans};

verus! {

/// The mathematical value of a usage record.
pub struct DbEntryV {
    pub name: Seq<char>,
    pub launch_count: nat,
    pub blacklisted: bool,
}

/// One persisted usage record.
#[derive(Debug)]
pub struct DbEntry {
    pub name: String,
    pub launch_count: usize,
    pub blacklisted: bool,
}

impl View for DbEntry {
    type V = DbEntryV;

    open spec fn view(&self) -> DbEntryV {
        DbEntryV {
            name: self.name@,
            launch_count: self.launch_count as nat,
            blacklisted: self.blacklisted,
        }
    }
}

impl Clone for DbEntry {
    fn clone(&self) -> (r: Self)
        ensures
            r == *self,
    {
        DbEntry { name: self.name.clone(), launch_count: self.launch_count, blacklisted: self.blacklisted }
    }
}

impl DbEntry {
    /// A fresh record: never launched, not blacklisted.
    pub fn new(name: String) -> (r: Self)
        ensures
            r@ == (DbEntryV { name: name@, launch_count: 0, blacklisted: false }),
    {
        DbEntry { name, launch_count: 0, blacklisted: false }
    }
}

/// The record views of a vector of records.
pub open spec fn entry_views(s: Seq<DbEntry>) -> Seq<DbEntryV> {
    s.map_values(|e: DbEntry| e@)
}

/// The whole usage store held in memory.
#[derive(Debug)]
pub struct Db {
    pub entries: Vec<DbEntry>,
}

impl View for Db {
    type V = Seq<DbEntryV>;

    open spec fn view(&self) -> Seq<DbEntryV> {
        entry_views(self.entries@)
    }
}

/// Some record in `s` carries this name.
pub open spec fn has_record(s: Seq<DbEntryV>, name: Seq<char>) -> bool {
    exists|i: int| 0 <= i < s.len() && s[i].name == name
}

/// The first record in `s` with this name, if any.
pub open spec fn find_record(s: Seq<DbEntryV>, name: Seq<char>) -> Option<DbEntryV>
    decreases s.len(),
{
    if s.len() == 0 {
        None
    } else if s[0].name == name {
        Some(s[0])
    } else {
        find_record(s.skip(1), name)
    }
}

pub proof fn lemma_find_record_some(s: Seq<DbEntryV>, name: Seq<char>)
    ensures
        has_record(s, name) <==> find_record(s, name) is Some,
        match find_record(s, name) {
            Some(e) => e.name == name,
            None => true,
        },
    decreases s.len(),
{
    if s.len() == 0 {
    } else if s[0].name == name {
    } else {
        lemma_find_record_some(s.skip(1), name);
        if has_record(s, name) {
            let i = choose|i: int| 0 <= i < s.len() && s[i].name == name;
            assert(s.skip(1)[i - 1] == s[i]);
        }
        if has_record(s.skip(1), name) {
            let i = choose|i: int| 0 <= i < s.skip(1).len() && s.skip(1)[i].name == name;
            assert(s[i + 1] == s.skip(1)[i]);
        }
    }
}

impl Db {
    /// Where the store file lives under the given home directory.
    pub fn get_full_path(home: &str) -> (r: String)
        ensures
            r@ == home@ + "/.config/spellbook/"@ + "spells.toml"@,
    {
        let mut path = <String as vstd::string::StringExecFns>::from_str(home);
        <String as vstd::string::StringExecFns>::append(&mut path, "/.config/spellbook/");
        <String as vstd::string::StringExecFns>::append(&mut path, "spells.toml");
        path
    }

    /// A store with no records, the fallback for a missing or unreadable
    /// store file.
    pub fn empty() -> (r: Self)
        ensures
            r@ =~= Seq::<DbEntryV>::empty(),
    {
        Db { entries: Vec::new() }
    }

    /// The first record with this name, cloned, or a fresh default record
    /// when none exists: the usage joined to a discovered application.
    pub fn entry_for(&self, name: &String) -> (r: DbEntry)
        ensures
            r@ == match find_record(self@, name@) {
                Some(e) => e,
                None => DbEntryV { name: name@, launch_count: 0, blacklisted: false },
            },
    {
        let n = self.entries.len();
        let mut i: usize = 0;
        proof {
            assert(self@.skip(0) =~= self@);
        }
        while i < n
            invariant
                n == self.entries@.len(),
                i <= n,
                find_record(self@, name@) == find_record(self@.skip(i as int), name@),
            decreases n - i,
        {
            proof {
                assert(self@.skip(i as int)[0] == self@[i as int]);
                assert(self@[i as int] == self.entries@[i as int]@);
            }
            if crate::strutil::str_eq(self.entries[i].name.as_str(), name.as_str()) {
                return self.entries[i].clone();
            }
            proof {
                assert(self@.skip(i as int).skip(1) =~= self@.skip(i + 1));
            }
            i += 1;
        }
        assert(self@.skip(i as int).len() == 0);
        DbEntry::new(name.clone())
    }
}

/// What reconciliation yields: every already-known record unchanged and in
/// place, then one fresh default record for each newly discovered name, in
/// discovery order.
pub open spec fn reconcile_spec(existing: Seq<DbEntryV>, names: Seq<Seq<char>>) -> Seq<DbEntryV>
    decreases names.len(),
{
    if names.len() == 0 {
        existing
    } else {
        let rest = if has_record(existing, names[0]) {
            existing
        } else {
            existing.push(DbEntryV { name: names[0], launch_count: 0, blacklisted: false })
        };
        reconcile_spec(rest, names.skip(1))
    }
}

impl Db {
    /// Adds a default record for every discovered name that has none yet;
    /// existing records, including those of programs no longer discovered,
    /// are kept unchanged.
    pub fn reconcile(&mut self, names: &Vec<String>)
        ensures
            final(self)@ == reconcile_spec(old(self)@, names@.map_values(|n: String| n@)),
    {
        let ghost all_names = names@.map_values(|n: String| n@);
        let n = names.len();
        let mut i: usize = 0;
        proof {
            assert(all_names.skip(0) =~= all_names);
        }
        while i < n
            invariant
                all_names == names@.map_values(|n: String| n@),
                n == names@.len(),
                i <= n,
                reconcile_spec(old(self)@, all_names) == reconcile_spec(
                    self@,
                    all_names.skip(i as int),
                ),
            decreases n - i,
        {
            proof {
                assert(all_names.len() == names@.len());
                assert(all_names[i as int] == names@[i as int]@);
                assert(all_names.skip(i as int)[0] == all_names[i as int]);
            }
            let ghost before = self@;
            if !self.has_entry(&names[i]) {
                let e = DbEntry::new(names[i].clone());
                self.entries.push(e);
                proof {
                    assert(self@ =~= before.push(
                        DbEntryV { name: names@[i as int]@, launch_count: 0, blacklisted: false },
                    ));
                }
            }
            proof {
                assert(all_names.skip(i as int).skip(1) =~= all_names.skip(i + 1));
            }
            i += 1;
        }
        assert(all_names.skip(i as int).len() == 0);
    }

    /// One launch recorded: every record with this name, one more launch.
    pub open spec fn bump_spec(s: Seq<DbEntryV>, name: Seq<char>) -> Seq<DbEntryV> {
        s.map_values(
            |e: DbEntryV|
                if e.name == name {
                    DbEntryV { launch_count: e.launch_count + 1, ..e }
                } else {
                    e
                },
        )
    }

    /// The ban recorded: every record with this name, blacklisted.
    pub open spec fn ban_spec(s: Seq<DbEntryV>, name: Seq<char>) -> Seq<DbEntryV> {
        s.map_values(
            |e: DbEntryV|
                if e.name == name {
                    DbEntryV { blacklisted: true, ..e }
                } else {
                    e
                },
        )
    }

    /// Adds one launch to every record with this name.
    pub fn increment(&mut self, name: &String)
        requires
            forall|i: int|
                0 <= i < old(self)@.len() && old(self)@[i].name == name@ ==> old(
                    self,
                )@[i].launch_count < usize::MAX,
        ensures
            final(self)@ == Self::bump_spec(old(self)@, name@),
    {
        let n = self.entries.len();
        let mut i: usize = 0;
        while i < n
            invariant
                n == self.entries@.len(),
                i <= n,
                self@.len() == old(self)@.len(),
                forall|j: int|
                    0 <= j < old(self)@.len() && old(self)@[j].name == name@ ==> old(
                        self,
                    )@[j].launch_count < usize::MAX,
                forall|j: int| 0 <= j < i ==> self@[j] == Self::bump_spec(old(self)@, name@)[j],
                forall|j: int| i <= j < n ==> self@[j] == old(self)@[j],
            decreases n - i,
        {
            let ghost pre = self@;
            let ghost pre_entries = self.entries@;
            if crate::strutil::str_eq(self.entries[i].name.as_str(), name.as_str()) {
                proof {
                    assert(self@[i as int] == old(self)@[i as int]);
                    assert(old(self)@[i as int].name == name@);
                    assert(old(self)@[i as int].launch_count < usize::MAX);
                }
                let mut e = self.entries[i].clone();
                assert(e@ == old(self)@[i as int]);
                e.launch_count = e.launch_count + 1;
                vstd::pervasive::VecAdditionalExecFns::set(&mut self.entries, i, e);
                proof {
                    assert(self.entries@ == pre_entries.update(i as int, e));
                    assert forall|j: int| 0 <= j < n && j != i implies self@[j] == pre[j] by {
                        assert(self.entries@[j] == pre_entries[j]);
                        assert(self@[j] == self.entries@[j]@);
                        assert(pre[j] == pre_entries[j]@);
                    }
                    assert(self@[i as int] == Self::bump_spec(old(self)@, name@)[i as int]);
                }
            } else {
                proof {
                    assert(self@[i as int] == old(self)@[i as int]);
                    assert(self@[i as int].name != name@);
                    assert(self@[i as int] == Self::bump_spec(old(self)@, name@)[i as int]);
                }
            }
            proof {
                assert forall|j: int| 0 <= j < i + 1 implies self@[j] == Self::bump_spec(
                    old(self)@,
                    name@,
                )[j] by {
                    if j < i {
                        assert(self@[j] == pre[j]);
                        assert(pre[j] == Self::bump_spec(old(self)@, name@)[j]);
                    }
                }
            }
            i += 1;
        }
        assert(self@ =~= Self::bump_spec(old(self)@, name@));
    }

    /// Blacklists every record with this name.
    pub fn blacklist(&mut self, name: &String)
        ensures
            final(self)@ == Self::ban_spec(old(self)@, name@),
    {
        let n = self.entries.len();
        let mut i: usize = 0;
        while i < n
            invariant
                n == self.entries@.len(),
                i <= n,
                self@.len() == old(self)@.len(),
                forall|j: int| 0 <= j < i ==> self@[j] == Self::ban_spec(old(self)@, name@)[j],
                forall|j: int| i <= j < n ==> self@[j] == old(self)@[j],
            decreases n - i,
        {
            let ghost pre = self@;
            let ghost pre_entries = self.entries@;
            if crate::strutil::str_eq(self.entries[i].name.as_str(), name.as_str()) {
                proof {
                    assert(self@[i as int] == old(self)@[i as int]);
                    assert(old(self)@[i as int].name == name@);
                }
                let mut e = self.entries[i].clone();
                assert(e@ == old(self)@[i as int]);
                e.blacklisted = true;
                vstd::pervasive::VecAdditionalExecFns::set(&mut self.entries, i, e);
                proof {
                    assert(self.entries@ == pre_entries.update(i as int, e));
                    assert forall|j: int| 0 <= j < n && j != i implies self@[j] == pre[j] by {
                        assert(self.entries@[j] == pre_entries[j]);
                        assert(self@[j] == self.entries@[j]@);
                        assert(pre[j] == pre_entries[j]@);
                    }
                    assert(self@[i as int] == Self::ban_spec(old(self)@, name@)[i as int]);
                }
            } else {
                proof {
                    assert(self@[i as int] == old(self)@[i as int]);
                    assert(self@[i as int].name != name@);
                    assert(self@[i as int] == Self::ban_spec(old(self)@, name@)[i as int]);
                }
            }
            proof {
                assert forall|j: int| 0 <= j < i + 1 implies self@[j] == Self::ban_spec(
                    old(self)@,
                    name@,
                )[j] by {
                    if j < i {
                        assert(self@[j] == pre[j]);
                        assert(pre[j] == Self::ban_spec(old(self)@, name@)[j]);
                    }
                }
            }
            i += 1;
        }
        assert(self@ =~= Self::ban_spec(old(self)@, name@));
    }

    /// Records in non-decreasing lexicographic name order, the shape in
    /// which the store is persisted.
    pub open spec fn sorted_by_name(s: Seq<DbEntryV>) -> bool {
        forall|i: int, j: int| 0 <= i < j < s.len() ==> lex_le(s[i].name, s[j].name)
    }

    /// Whether any record carries this name.
    pub fn has_entry(&self, name: &String) -> (r: bool)
        ensures
            r == has_record(self@, name@),
    {
        let n = self.entries.len();
        let mut i: usize = 0;
        while i < n
            invariant
                n == self.entries@.len(),
                i <= n,
                forall|j: int| 0 <= j < i ==> self@[j].name != name@,
            decreases n - i,
        {
            if crate::strutil::str_eq(self.entries[i].name.as_str(), name.as_str()) {
                assert(self@[i as int].name == name@);
                return true;
            }
            i += 1;
        }
        false
    }
}

/// N recorded launches of one name, one after the other.
pub open spec fn bump_n_spec(s: Seq<DbEntryV>, name: Seq<char>, n: nat) -> Seq<DbEntryV>
    decreases n,
{
    if n == 0 {
        s
    } else {
        Db::bump_spec(bump_n_spec(s, name, (n - 1) as nat), name)
    }
}

/// After N launches of one name, each record with that name holds
/// exactly N more launches, and every other record stands unchanged.
pub proof fn lemma_bump_n(s: Seq<DbEntryV>, name: Seq<char>, n: nat)
    ensures
        bump_n_spec(s, name, n).len() == s.len(),
        forall|i: int|
            0 <= i < s.len() && s[i].name == name ==> #[trigger] bump_n_spec(s, name, n)[i] == (
            DbEntryV { launch_count: s[i].launch_count + n, ..s[i] }),
        forall|i: int|
            0 <= i < s.len() && s[i].name != name ==> #[trigger] bump_n_spec(s, name, n)[i]
                == s[i],
    decreases n,
{
    if n > 0 {
        lemma_bump_n(s, name, (n - 1) as nat);
    }
}

/// Sorts records by name, lexicographically by code point, keeping
/// exactly the same records: the deterministic order of the persisted
/// store.
pub fn sort_entries_by_name(v: &mut Vec<DbEntry>)
    ensures
        Db::sorted_by_name(entry_views(final(v)@)),
        final(v)@.to_multiset() == old(v)@.to_multiset(),
{
    broadcast use vstd::seq_lib::to_multiset_update;
    broadcast use vstd::seq_lib::group_to_multiset_ensures;
    broadcast use vstd::multiset::group_multiset_axioms;

    let n = v.len();
    if n == 0 {
        return ;
    }
    let mut i: usize = 1;
    while i < n
        invariant
            n == v@.len(),
            1 <= i || n == 0,
            i <= n,
            v@.to_multiset() == old(v)@.to_multiset(),
            forall|a: int, b: int| 0 <= a < b < i ==> lex_le(v@[a]@.name, v@[b]@.name),
        decreases n - i,
    {
        let mut j: usize = i;
        while j > 0 && !crate::strutil::lex_le_exec(v[j - 1].name.as_str(), v[j].name.as_str())
            invariant
                n == v@.len(),
                j <= i,
                i < n,
                v@.to_multiset() == old(v)@.to_multiset(),
                forall|a: int, b: int|
                    0 <= a < b <= i && a != j && b != j ==> lex_le(v@[a]@.name, v@[b]@.name),
                forall|b: int| j < b <= i ==> lex_le(v@[j as int]@.name, v@[b]@.name),
            decreases j,
        {
            let ghost s = v@;
            proof {
                lemma_lex_le_total(s[j - 1]@.name, s[j as int]@.name);
            }
            let x = v[j - 1].clone();
            let y = v[j].clone();
            vstd::pervasive::VecAdditionalExecFns::set(v, j - 1, y);
            vstd::pervasive::VecAdditionalExecFns::set(v, j, x);
            proof {
                let s1 = s.update(j - 1, s[j as int]);
                assert(v@ =~= s1.update(j as int, s[j - 1]));
                vstd::seq_lib::to_multiset_update(s1, j as int, s[j - 1]);
                vstd::seq_lib::to_multiset_update(s, j - 1, s[j as int]);
                assert(s1[j as int] == s[j as int]);
                s.to_multiset_ensures();
                assert(s.contains(s[j - 1]));
                assert(s.to_multiset().count(s[j - 1]) > 0);
                assert(v@.to_multiset() =~= s.to_multiset());
                assert forall|a: int, b: int|
                    0 <= a < b <= i && a != j - 1 && b != j - 1 implies lex_le(
                    v@[a]@.name,
                    v@[b]@.name,
                ) by {
                    if b == j {
                        assert(v@[b]@ == s[j - 1]@);
                    } else if a == j {
                        assert(v@[a]@ == s[j - 1]@);
                    }
                }
                assert forall|b: int| j - 1 < b <= i implies #[trigger] lex_le(
                    v@[j - 1]@.name,
                    v@[b]@.name,
                ) by {
                    assert(v@[j - 1]@ == s[j as int]@);
                    if b == j {
                        assert(v@[b]@ == s[j - 1]@);
                    }
                }
            }
            j -= 1;
        }
        proof {
            let s = v@;
            assert forall|a: int, b: int| 0 <= a < b < i + 1 implies lex_le(
                s[a]@.name,
                s[b]@.name,
            ) by {
                if a == j {
                } else if b == j {
                    assert(j > 0);
                    assert(lex_le(s[j - 1]@.name, s[j as int]@.name));
                    if a < j - 1 {
                        assert(lex_le(s[a]@.name, s[j - 1]@.name));
                        lemma_lex_le_trans(s[a]@.name, s[j - 1]@.name, s[j as int]@.name);
                    }
                }
            }
        }
        i += 1;
    }
    proof {
        assert forall|a: int, b: int|
            0 <= a < b < entry_views(v@).len() implies lex_le(
            entry_views(v@)[a].name,
            entry_views(v@)[b].name,
        ) by {
            assert(entry_views(v@)[a] == v@[a]@);
            assert(entry_views(v@)[b] == v@[b]@);
        }
    }
}

} // verus!
