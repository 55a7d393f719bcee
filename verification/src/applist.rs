//! The filtered, ordered view over the catalog: the full set of
//! discovered applications cross-joined with their usage records, the
//! active filter string, the cursor, and the in-memory store that is
//! persisted after each launch or ban.

use vstd::prelude::*;

use crate::application::{app_views, Application, ApplicationV};
use crate::config::ApplicationListOrder;
use crate::db::{entry_views, Db, DbEntry};
use crate::strutil::{
    contains_ci, contains_sub, lemma_lex_le_total, lemma_lex_le_trans, lex_le, lower,
};

verus! {

/// The filter's match rule: the ASCII-folded filter occurs in the
/// ASCII-folded name, and the application is not blacklisted.
pub open spec fn matches_filter(a: ApplicationV, filter: Seq<char>) -> bool {
    contains_sub(lower(a.name), lower(filter)) && !a.db_entry.blacklisted
}

/// The view the list shows: the full set filtered, order kept.
pub open spec fn filtered_spec(apps: Seq<ApplicationV>, filter: Seq<char>) -> Seq<ApplicationV> {
    apps.filter(|a: ApplicationV| matches_filter(a, filter))
}

/// Where the cursor lands when the view is recomputed: gone when the
/// view is empty, else the old position clamped to the new last index.
pub open spec fn clamped_cursor(old_cursor: Option<usize>, new_len: nat) -> Option<usize> {
    if new_len == 0 {
        None
    } else {
        let want = match old_cursor {
            Some(i) => i as nat,
            None => 0,
        };
        if want < new_len {
            Some(want as usize)
        } else {
            Some((new_len - 1) as usize)
        }
    }
}

/// The chooser's list state.
#[derive(Debug)]
pub struct ApplicationListState {
    pub applications: Vec<Application>,
    pub filtered_applications: Vec<Application>,
    pub filter: String,
    pub cursor: Option<usize>,
    pub store: Db,
}

impl ApplicationListState {
    /// The state's standing invariant: the filtered view is exactly the
    /// full set filtered by the active filter, and the cursor is absent
    /// exactly when the view is empty, else in bounds.
    pub open spec fn wf(&self) -> bool {
        &&& app_views(self.filtered_applications@) == filtered_spec(
            app_views(self.applications@),
            self.filter@,
        )
        &&& match self.cursor {
            Some(i) => i < self.filtered_applications@.len(),
            None => self.filtered_applications@.len() == 0,
        }
    }

    /// A fresh state over a discovered catalog and its reconciled
    /// store: empty filter, cursor on the first entry if any.
    pub fn new(applications: Vec<Application>, store: Db) -> (r: Self)
        ensures
            r.wf(),
            app_views(r.applications@) == app_views(applications@),
            r.filter@.len() == 0,
            r.store@ == store@,
    {
        let mut state = ApplicationListState {
            applications,
            filtered_applications: Vec::new(),
            filter: String::new(),
            cursor: None,
            store,
        };
        let empty_filter = String::new();
        state.update(empty_filter.as_str());
        state
    }

    /// Replaces the filter string and recomputes the view; the cursor
    /// is clamped into the new view.
    pub fn update(&mut self, filter: &str)
        ensures
            final(self).wf(),
            final(self).applications@ == old(self).applications@,
            final(self).store@ == old(self).store@,
            final(self).filter@ == filter@,
            app_views(final(self).filtered_applications@) == filtered_spec(
                app_views(old(self).applications@),
                filter@,
            ),
            final(self).cursor == clamped_cursor(
                old(self).cursor,
                app_views(final(self).filtered_applications@).len(),
            ),
    {
        let ghost apps = app_views(self.applications@);
        let n = self.applications.len();
        let mut kept: Vec<Application> = Vec::new();
        let mut i: usize = 0;
        proof {
            assert(apps.take(0) =~= Seq::<ApplicationV>::empty());
            assert(Seq::<ApplicationV>::empty().filter(
                |a: ApplicationV| matches_filter(a, filter@),
            ) =~= Seq::<ApplicationV>::empty());
            assert(app_views(kept@) =~= Seq::<ApplicationV>::empty());
        }
        while i < n
            invariant
                apps == app_views(self.applications@),
                n == self.applications@.len(),
                i <= n,
                app_views(kept@) == apps.take(i as int).filter(
                    |a: ApplicationV| matches_filter(a, filter@),
                ),
            decreases n - i,
        {
            let ghost done = app_views(kept@);
            let ghost f = |a: ApplicationV| matches_filter(a, filter@);
            proof {
                assert(apps[i as int] == self.applications@[i as int]@);
            }
            let keep = if self.applications[i].db_entry.blacklisted {
                false
            } else {
                contains_ci(self.applications[i].name.as_str(), filter)
            };
            assert(keep == matches_filter(apps[i as int], filter@));
            if keep {
                let a = self.applications[i].clone();
                kept.push(a);
                assert(app_views(kept@) =~= done.push(apps[i as int]));
            }
            proof {
                assert(apps.take(i + 1) =~= apps.take(i as int) + seq![apps[i as int]]);
                vstd::prelude::Seq::filter_distributes_over_add(
                    apps.take(i as int),
                    seq![apps[i as int]],
                    f,
                );
                reveal_with_fuel(Seq::filter, 2);
                assert(seq![apps[i as int]].drop_last() =~= Seq::<ApplicationV>::empty());
                assert(seq![apps[i as int]].filter(f) == if f(apps[i as int]) {
                    seq![apps[i as int]]
                } else {
                    Seq::<ApplicationV>::empty()
                });
                if keep {
                    assert(done + seq![apps[i as int]] =~= done.push(apps[i as int]));
                } else {
                    assert(done + Seq::<ApplicationV>::empty() =~= done);
                }
            }
            i += 1;
        }
        proof {
            assert(apps.take(n as int) =~= apps);
        }
        let new_len = kept.len();
        let new_cursor: Option<usize> = if new_len == 0 {
            None
        } else {
            let want: usize = match self.cursor {
                Some(i) => i,
                None => 0,
            };
            if want < new_len {
                Some(want)
            } else {
                Some(new_len - 1)
            }
        };
        self.filtered_applications = kept;
        self.filter = <String as vstd::string::StringExecFns>::from_str(filter);
        self.cursor = new_cursor;
    }

    /// The application under the cursor, if any.
    pub fn selected(&self) -> (r: Option<Application>)
        requires
            self.wf(),
        ensures
            match (r, self.cursor) {
                (Some(a), Some(i)) => a@ == app_views(self.filtered_applications@)[i as int],
                (None, None) => true,
                _ => false,
            },
    {
        match self.cursor {
            Some(i) => Some(self.filtered_applications[i].clone()),
            None => None,
        }
    }

    /// Moves the cursor one step up; it never leaves the view.
    pub fn select_previous(&mut self)
        requires
            old(self).wf(),
        ensures
            final(self).wf(),
            final(self).applications@ == old(self).applications@,
            final(self).filtered_applications@ == old(self).filtered_applications@,
            final(self).filter@ == old(self).filter@,
            final(self).store@ == old(self).store@,
            final(self).cursor == match old(self).cursor {
                Some(i) => Some(if i == 0 {
                    0usize
                } else {
                    (i - 1) as usize
                }),
                None => None::<usize>,
            },
    {
        match self.cursor {
            Some(i) => {
                if i > 0 {
                    self.cursor = Some(i - 1);
                } else {
                    self.cursor = Some(0);
                }
            },
            None => {},
        }
    }

    /// Moves the cursor one step down; it never leaves the view.
    pub fn select_next(&mut self)
        requires
            old(self).wf(),
        ensures
            final(self).wf(),
            final(self).applications@ == old(self).applications@,
            final(self).filtered_applications@ == old(self).filtered_applications@,
            final(self).filter@ == old(self).filter@,
            final(self).store@ == old(self).store@,
            final(self).cursor == match old(self).cursor {
                Some(i) => Some(
                    if i + 1 < old(self).filtered_applications@.len() {
                        (i + 1) as usize
                    } else {
                        i
                    },
                ),
                None => None::<usize>,
            },
    {
        let len = self.filtered_applications.len();
        match self.cursor {
            Some(i) => {
                assert(i < len);
                if i + 1 < len {
                    self.cursor = Some(i + 1);
                }
            },
            None => {},
        }
    }
}

// ---------------------------------------------------------------------
// Recording launches and bans.
// ---------------------------------------------------------------------
/// One application after a launch of `name` is recorded.
pub open spec fn bump_app(a: ApplicationV, name: Seq<char>) -> ApplicationV {
    if a.name == name {
        ApplicationV {
            db_entry: crate::db::DbEntryV {
                launch_count: a.db_entry.launch_count + 1,
                ..a.db_entry
            },
            ..a
        }
    } else {
        a
    }
}

/// One application after a ban of `name` is recorded.
pub open spec fn ban_app(a: ApplicationV, name: Seq<char>) -> ApplicationV {
    if a.name == name {
        ApplicationV { db_entry: crate::db::DbEntryV { blacklisted: true, ..a.db_entry }, ..a }
    } else {
        a
    }
}

/// Every element of a filtered sequence comes from the sequence.
proof fn lemma_filter_subset<A>(s: Seq<A>, p: spec_fn(A) -> bool)
    ensures
        forall|i: int| 0 <= i < s.filter(p).len() ==> s.contains(#[trigger] s.filter(p)[i]),
    decreases s.len(),
{
    reveal(Seq::filter);
    if s.len() == 0 {
    } else {
        let t = s.drop_last();
        lemma_filter_subset(t, p);
        let out = s.filter(p);
        let sub = t.filter(p);
        assert forall|i: int| 0 <= i < out.len() implies s.contains(#[trigger] out[i]) by {
            if p(s.last()) && i == out.len() - 1 {
                assert(out[i] == s.last());
                assert(s[s.len() - 1] == s.last());
            } else {
                assert(out[i] == sub[i]);
                assert(t.contains(sub[i]));
                let j = choose|j: int| 0 <= j < t.len() && t[j] == sub[i];
                assert(s[j] == t[j]);
            }
        }
    }
}

/// Filtering commutes with a map that changes neither membership in the
/// filter nor order.
proof fn lemma_filter_map_commute<A>(s: Seq<A>, f: spec_fn(A) -> A, p: spec_fn(A) -> bool)
    requires
        forall|x: A| #[trigger] p(f(x)) == p(x),
    ensures
        s.map_values(f).filter(p) == s.filter(p).map_values(f),
    decreases s.len(),
{
    reveal_with_fuel(Seq::filter, 2);
    if s.len() == 0 {
        assert(s.map_values(f) =~= Seq::<A>::empty());
        assert(s.filter(p) =~= Seq::<A>::empty());
        assert(s.filter(p).map_values(f) =~= Seq::<A>::empty());
    } else {
        let t = s.drop_last();
        let x = s.last();
        lemma_filter_map_commute(t, f, p);
        let m = s.map_values(f);
        assert(m.drop_last() =~= t.map_values(f));
        assert(m.last() == f(x));
        if p(x) {
            assert(s.filter(p) == t.filter(p).push(x));
            assert(m.filter(p) == m.drop_last().filter(p).push(f(x)));
            assert(t.filter(p).push(x).map_values(f) =~= t.filter(p).map_values(f).push(f(x)));
        } else {
            assert(s.filter(p) == t.filter(p));
            assert(m.filter(p) == m.drop_last().filter(p));
        }
    }
}

/// Applies a view-level rewrite to every application with this name.
fn apply_bump(v: &mut Vec<Application>, name: &String)
    requires
        forall|i: int|
            0 <= i < old(v)@.len() && old(v)@[i]@.name == name@ ==> old(
                v,
            )@[i].db_entry.launch_count < usize::MAX,
    ensures
        app_views(final(v)@) == app_views(old(v)@).map_values(
            |a: ApplicationV| bump_app(a, name@),
        ),
{
    let ghost goal = app_views(old(v)@).map_values(|a: ApplicationV| bump_app(a, name@));
    let n = v.len();
    let mut i: usize = 0;
    while i < n
        invariant
            goal == app_views(old(v)@).map_values(|a: ApplicationV| bump_app(a, name@)),
            n == v@.len(),
            i <= n,
            v@.len() == old(v)@.len(),
            forall|j: int|
                0 <= j < old(v)@.len() && old(v)@[j]@.name == name@ ==> old(
                    v,
                )@[j].db_entry.launch_count < usize::MAX,
            forall|j: int| 0 <= j < i ==> app_views(v@)[j] == goal[j],
            forall|j: int| i <= j < n ==> v@[j] == old(v)@[j],
        decreases n - i,
    {
        let ghost pre = v@;
        if crate::strutil::str_eq(v[i].name.as_str(), name.as_str()) {
            proof {
                assert(v@[i as int] == old(v)@[i as int]);
                assert(old(v)@[i as int]@.name == name@);
            }
            let mut a = v[i].clone();
            assert(a@ == old(v)@[i as int]@);
            let c = a.db_entry.launch_count;
            a.db_entry.launch_count = c + 1;
            vstd::pervasive::VecAdditionalExecFns::set(v, i, a);
            proof {
                assert(app_views(v@)[i as int] == goal[i as int]);
            }
        } else {
            proof {
                assert(v@[i as int] == old(v)@[i as int]);
                assert(app_views(v@)[i as int] == v@[i as int]@);
                assert(app_views(v@)[i as int] == goal[i as int]);
            }
        }
        proof {
            assert forall|j: int| 0 <= j < i + 1 implies app_views(v@)[j] == goal[j] by {
                if j < i {
                    assert(app_views(v@)[j] == v@[j]@);
                    assert(app_views(pre)[j] == pre[j]@);
                }
            }
            assert forall|j: int| i + 1 <= j < n implies v@[j] == old(v)@[j] by {}
        }
        i += 1;
    }
    assert(app_views(v@) =~= goal);
}

/// Applies the ban rewrite to every application with this name.
fn apply_ban(v: &mut Vec<Application>, name: &String)
    ensures
        app_views(final(v)@) == app_views(old(v)@).map_values(
            |a: ApplicationV| ban_app(a, name@),
        ),
{
    let ghost goal = app_views(old(v)@).map_values(|a: ApplicationV| ban_app(a, name@));
    let n = v.len();
    let mut i: usize = 0;
    while i < n
        invariant
            goal == app_views(old(v)@).map_values(|a: ApplicationV| ban_app(a, name@)),
            n == v@.len(),
            i <= n,
            v@.len() == old(v)@.len(),
            forall|j: int| 0 <= j < i ==> app_views(v@)[j] == goal[j],
            forall|j: int| i <= j < n ==> v@[j] == old(v)@[j],
        decreases n - i,
    {
        let ghost pre = v@;
        if crate::strutil::str_eq(v[i].name.as_str(), name.as_str()) {
            proof {
                assert(v@[i as int] == old(v)@[i as int]);
                assert(old(v)@[i as int]@.name == name@);
            }
            let mut a = v[i].clone();
            assert(a@ == old(v)@[i as int]@);
            a.db_entry.blacklisted = true;
            vstd::pervasive::VecAdditionalExecFns::set(v, i, a);
            proof {
                assert(app_views(v@)[i as int] == goal[i as int]);
            }
        } else {
            proof {
                assert(v@[i as int] == old(v)@[i as int]);
                assert(app_views(v@)[i as int] == v@[i as int]@);
                assert(app_views(v@)[i as int] == goal[i as int]);
            }
        }
        proof {
            assert forall|j: int| 0 <= j < i + 1 implies app_views(v@)[j] == goal[j] by {
                if j < i {
                    assert(app_views(v@)[j] == v@[j]@);
                    assert(app_views(pre)[j] == pre[j]@);
                }
            }
        }
        i += 1;
    }
    assert(app_views(v@) =~= goal);
}

impl ApplicationListState {
    /// Records one launch of the given application: every application
    /// and store record under its name gains one launch; view, filter
    /// and cursor stand as they were.
    pub fn increment_launch_count(&mut self, filtered_application: &Application)
        requires
            old(self).wf(),
            forall|i: int|
                0 <= i < old(self).applications@.len() && old(self).applications@[i]@.name
                    == filtered_application@.name ==> old(
                    self,
                ).applications@[i].db_entry.launch_count < usize::MAX,
            forall|i: int|
                0 <= i < old(self).store@.len() && old(self).store@[i].name
                    == filtered_application@.name ==> old(self).store@[i].launch_count
                    < usize::MAX,
        ensures
            final(self).wf(),
            app_views(final(self).applications@) == app_views(old(self).applications@).map_values(
                |a: ApplicationV| bump_app(a, filtered_application@.name),
            ),
            app_views(final(self).filtered_applications@) == app_views(
                old(self).filtered_applications@,
            ).map_values(|a: ApplicationV| bump_app(a, filtered_application@.name)),
            final(self).store@ == Db::bump_spec(old(self).store@, filtered_application@.name),
            final(self).filter@ == old(self).filter@,
            final(self).cursor == old(self).cursor,
    {
        let ghost name = filtered_application@.name;
        let ghost apps0 = app_views(self.applications@);
        let ghost view0 = app_views(self.filtered_applications@);
        let ghost f = |a: ApplicationV| bump_app(a, name);
        let ghost p = |a: ApplicationV| matches_filter(a, self.filter@);
        proof {
            lemma_filter_subset(apps0, p);
        }
        assert(view0 == apps0.filter(p));
        proof {
            assert forall|i: int|
                0 <= i < self.filtered_applications@.len()
                    && self.filtered_applications@[i]@.name == name implies self.filtered_applications@[i].db_entry.launch_count
                < usize::MAX by {
                assert(view0[i] == self.filtered_applications@[i]@);
                assert(apps0.contains(apps0.filter(p)[i]));
                assert(apps0.contains(view0[i]));
                let j = choose|j: int| 0 <= j < apps0.len() && apps0[j] == view0[i];
                assert(self.applications@[j]@ == apps0[j]);
            }
        }
        apply_bump(&mut self.applications, &filtered_application.name);
        apply_bump(&mut self.filtered_applications, &filtered_application.name);
        self.store.increment(&filtered_application.name);
        proof {
            assert forall|x: ApplicationV| #[trigger] p(f(x)) == p(x) by {}
            lemma_filter_map_commute(apps0, f, p);
            assert(apps0.map_values(f).filter(p) == apps0.filter(p).map_values(f));
            assert(app_views(self.applications@) == apps0.map_values(f));
            assert(app_views(self.filtered_applications@) == view0.map_values(f));
            assert(filtered_spec(app_views(self.applications@), self.filter@)
                == apps0.map_values(f).filter(p));
        }
    }

    /// Records the ban of the given application: every application and
    /// store record under its name is blacklisted, and the view is
    /// recomputed under the unchanged filter, so the application
    /// disappears from it at once.
    pub fn blacklist(&mut self, filtered_application: &Application)
        requires
            old(self).wf(),
        ensures
            final(self).wf(),
            app_views(final(self).applications@) == app_views(old(self).applications@).map_values(
                |a: ApplicationV| ban_app(a, filtered_application@.name),
            ),
            final(self).store@ == Db::ban_spec(old(self).store@, filtered_application@.name),
            final(self).filter@ == old(self).filter@,
            app_views(final(self).filtered_applications@) == filtered_spec(
                app_views(final(self).applications@),
                old(self).filter@,
            ),
    {
        apply_ban(&mut self.applications, &filtered_application.name);
        self.store.blacklist(&filtered_application.name);
        let current_filter = self.filter.clone();
        self.update(current_filter.as_str());
    }
}

// ---------------------------------------------------------------------
// Ordering.
// ---------------------------------------------------------------------
/// The ordering policy as a relation: alphabetical goes by the
/// case-folded name; most-used goes by descending launch count, ties
/// broken by the case-folded name.
pub open spec fn app_le(order: ApplicationListOrder, a: ApplicationV, b: ApplicationV) -> bool {
    match order {
        ApplicationListOrder::Alphabetical => lex_le(lower(a.name), lower(b.name)),
        ApplicationListOrder::MostUsed => a.db_entry.launch_count > b.db_entry.launch_count || (
        a.db_entry.launch_count == b.db_entry.launch_count && lex_le(
            lower(a.name),
            lower(b.name),
        )),
    }
}

proof fn lemma_app_le_total(order: ApplicationListOrder, a: ApplicationV, b: ApplicationV)
    ensures
        app_le(order, a, b) || app_le(order, b, a),
{
    lemma_lex_le_total(lower(a.name), lower(b.name));
}

proof fn lemma_app_le_trans(
    order: ApplicationListOrder,
    a: ApplicationV,
    b: ApplicationV,
    c: ApplicationV,
)
    requires
        app_le(order, a, b),
        app_le(order, b, c),
    ensures
        app_le(order, a, c),
{
    if lex_le(lower(a.name), lower(b.name)) && lex_le(lower(b.name), lower(c.name)) {
        lemma_lex_le_trans(lower(a.name), lower(b.name), lower(c.name));
    }
}

fn app_le_exec(order: ApplicationListOrder, a: &Application, b: &Application) -> (r: bool)
    ensures
        r == app_le(order, a@, b@),
{
    match order {
        ApplicationListOrder::Alphabetical => {
            let la = crate::strutil::lower_str(a.name.as_str());
            let lb = crate::strutil::lower_str(b.name.as_str());
            crate::strutil::lex_le_exec(la.as_str(), lb.as_str())
        },
        ApplicationListOrder::MostUsed => {
            if a.db_entry.launch_count > b.db_entry.launch_count {
                true
            } else if a.db_entry.launch_count == b.db_entry.launch_count {
                let la = crate::strutil::lower_str(a.name.as_str());
                let lb = crate::strutil::lower_str(b.name.as_str());
                crate::strutil::lex_le_exec(la.as_str(), lb.as_str())
            } else {
                false
            }
        },
    }
}

/// Applications in non-decreasing order under the policy.
pub open spec fn apps_sorted(order: ApplicationListOrder, s: Seq<ApplicationV>) -> bool {
    forall|i: int, j: int| 0 <= i < j < s.len() ==> app_le(order, s[i], s[j])
}

/// Sorts applications under the given policy, keeping exactly the same
/// applications.
pub fn sort_applications(v: &mut Vec<Application>, order: ApplicationListOrder)
    ensures
        apps_sorted(order, app_views(final(v)@)),
        app_views(final(v)@).to_multiset() == app_views(old(v)@).to_multiset(),
{
    broadcast use vstd::seq_lib::to_multiset_update;
    broadcast use vstd::seq_lib::group_to_multiset_ensures;
    broadcast use vstd::multiset::group_multiset_axioms;

    let n = v.len();
    if n == 0 {
        assert(app_views(v@) =~= app_views(old(v)@));
        return ;
    }
    let mut i: usize = 1;
    while i < n
        invariant
            n == v@.len(),
            1 <= i <= n,
            app_views(v@).to_multiset() == app_views(old(v)@).to_multiset(),
            forall|a: int, b: int| 0 <= a < b < i ==> app_le(order, v@[a]@, v@[b]@),
        decreases n - i,
    {
        let mut j: usize = i;
        while j > 0 && !app_le_exec(order, &v[j - 1], &v[j])
            invariant
                n == v@.len(),
                j <= i,
                i < n,
                app_views(v@).to_multiset() == app_views(old(v)@).to_multiset(),
                forall|a: int, b: int|
                    0 <= a < b <= i && a != j && b != j ==> app_le(order, v@[a]@, v@[b]@),
                forall|b: int| j < b <= i ==> app_le(order, v@[j as int]@, v@[b]@),
            decreases j,
        {
            let ghost s = v@;
            let ghost sv = app_views(s);
            proof {
                lemma_app_le_total(order, s[j - 1]@, s[j as int]@);
            }
            let x = v[j - 1].clone();
            let y = v[j].clone();
            vstd::pervasive::VecAdditionalExecFns::set(v, j - 1, y);
            vstd::pervasive::VecAdditionalExecFns::set(v, j, x);
            proof {
                assert(app_views(v@) =~= sv.update(j - 1, sv[j as int]).update(
                    j as int,
                    sv[j - 1],
                ));
                let s1 = sv.update(j - 1, sv[j as int]);
                vstd::seq_lib::to_multiset_update(s1, j as int, sv[j - 1]);
                vstd::seq_lib::to_multiset_update(sv, j - 1, sv[j as int]);
                assert(s1[j as int] == sv[j as int]);
                sv.to_multiset_ensures();
                assert(sv.contains(sv[j - 1]));
                assert(sv.to_multiset().count(sv[j - 1]) > 0);
                assert(app_views(v@).to_multiset() =~= sv.to_multiset());
                assert forall|a: int, b: int|
                    0 <= a < b <= i && a != j - 1 && b != j - 1 implies app_le(
                    order,
                    v@[a]@,
                    v@[b]@,
                ) by {
                    if b == j {
                        assert(v@[b]@ == s[j - 1]@);
                    } else if a == j {
                        assert(v@[a]@ == s[j - 1]@);
                    }
                }
                assert forall|b: int| j - 1 < b <= i implies #[trigger] app_le(
                    order,
                    v@[j - 1]@,
                    v@[b]@,
                ) by {
                    assert(v@[j - 1]@ == s[j as int]@);
                    if b == j {
                        assert(v@[b]@ == s[j - 1]@);
                    }
                }
            }
            j -= 1;
        }
        proof {
            let s = v@;
            assert forall|a: int, b: int| 0 <= a < b < i + 1 implies app_le(
                order,
                s[a]@,
                s[b]@,
            ) by {
                if a == j {
                } else if b == j {
                    assert(j > 0);
                    assert(app_le(order, s[j - 1]@, s[j as int]@));
                    if a < j - 1 {
                        assert(app_le(order, s[a]@, s[j - 1]@));
                        lemma_app_le_trans(order, s[a]@, s[j - 1]@, s[j as int]@);
                    }
                }
            }
        }
        i += 1;
    }
    proof {
        assert forall|a: int, b: int|
            0 <= a < b < app_views(v@).len() implies app_le(
            order,
            app_views(v@)[a],
            app_views(v@)[b],
        ) by {
            assert(app_views(v@)[a] == v@[a]@);
            assert(app_views(v@)[b] == v@[b]@);
        }
    }
}

/// Filtering keeps the order it found: the view over an ordered full
/// set is ordered the same way.
pub proof fn lemma_view_ordered(
    order: ApplicationListOrder,
    apps: Seq<ApplicationV>,
    filter: Seq<char>,
)
    requires
        apps_sorted(order, apps),
    ensures
        apps_sorted(order, filtered_spec(apps, filter)),
    decreases apps.len(),
{
    reveal(Seq::filter);
    if apps.len() > 0 {
        let t = apps.drop_last();
        let last = apps.last();
        assert(apps_sorted(order, t)) by {
            assert forall|i: int, j: int| 0 <= i < j < t.len() implies app_le(
                order,
                t[i],
                t[j],
            ) by {
                assert(t[i] == apps[i]);
                assert(t[j] == apps[j]);
            }
        }
        lemma_view_ordered(order, t, filter);
        let out = filtered_spec(apps, filter);
        let sub = filtered_spec(t, filter);
        let p = |a: ApplicationV| matches_filter(a, filter);
        lemma_filter_subset(t, p);
        if p(last) {
            assert(out == sub.push(last));
            assert forall|i: int, j: int| 0 <= i < j < out.len() implies app_le(
                order,
                out[i],
                out[j],
            ) by {
                if j == out.len() - 1 {
                    assert(out[i] == sub[i]);
                    assert(t.contains(sub[i]));
                    let k = choose|k: int| 0 <= k < t.len() && t[k] == sub[i];
                    assert(t[k] == apps[k]);
                    assert(app_le(order, apps[k], apps[apps.len() - 1]));
                } else {
                    assert(out[i] == sub[i]);
                    assert(out[j] == sub[j]);
                }
            }
        } else {
            assert(out == sub);
        }
    }
}

impl ApplicationListState {
    /// Re-sorts the full set under the policy and recomputes the view,
    /// which then shows its applications in that same order.
    pub fn set_ordering(&mut self, order: ApplicationListOrder)
        requires
            old(self).wf(),
        ensures
            final(self).wf(),
            apps_sorted(order, app_views(final(self).applications@)),
            apps_sorted(order, app_views(final(self).filtered_applications@)),
            app_views(final(self).applications@).to_multiset() == app_views(
                old(self).applications@,
            ).to_multiset(),
            final(self).filter@ == old(self).filter@,
            final(self).store@ == old(self).store@,
            app_views(final(self).filtered_applications@) == filtered_spec(
                app_views(final(self).applications@),
                old(self).filter@,
            ),
    {
        sort_applications(&mut self.applications, order);
        let current_filter = self.filter.clone();
        self.update(current_filter.as_str());
        proof {
            lemma_view_ordered(order, app_views(self.applications@), self.filter@);
        }
    }

    /// The records to persist: the store's full record set, name-sorted
    /// for a deterministic file.
    pub fn persisted_entries(&self) -> (r: Vec<DbEntry>)
        ensures
            crate::db::Db::sorted_by_name(entry_views(r@)),
            r@.to_multiset() == self.store.entries@.to_multiset(),
    {
        let n = self.store.entries.len();
        let mut out: Vec<DbEntry> = Vec::new();
        let mut i: usize = 0;
        while i < n
            invariant
                n == self.store.entries@.len(),
                i <= n,
                out@ == self.store.entries@.take(i as int),
            decreases n - i,
        {
            out.push(self.store.entries[i].clone());
            assert(out@ =~= self.store.entries@.take(i + 1));
            i += 1;
        }
        assert(self.store.entries@.take(n as int) =~= self.store.entries@);
        crate::db::sort_entries_by_name(&mut out);
        out
    }
}

// ---------------------------------------------------------------------
// What the view can never show.
// ---------------------------------------------------------------------
/// A blacklisted application is absent from the filtered view, for
/// every filter string: every application the view holds is not
/// blacklisted, and every non-blacklisted match is in the view.
pub proof fn lemma_blacklisted_absent(apps: Seq<ApplicationV>, filter: Seq<char>)
    ensures
        forall|i: int|
            0 <= i < filtered_spec(apps, filter).len() ==> !(#[trigger] filtered_spec(
                apps,
                filter,
            )[i]).db_entry.blacklisted,
        forall|a: ApplicationV|
            apps.contains(a) && matches_filter(a, filter) ==> #[trigger] filtered_spec(
                apps,
                filter,
            ).contains(a),
{
    broadcast use vstd::seq_lib::group_filter_ensures;

}

/// The cursor can never leave the view: in every well-formed state —
/// and every state operation here yields one — the cursor is absent
/// exactly when the view is empty, and otherwise stands on one of its
/// entries.
pub proof fn lemma_cursor_in_bounds(state: &ApplicationListState)
    requires
        state.wf(),
    ensures
        match state.cursor {
            Some(i) => 0 < state.filtered_applications@.len() && i
                < state.filtered_applications@.len(),
            None => state.filtered_applications@.len() == 0,
        },
{
}

} // verus!
