//! The directory of users: calendars by stable identity, and a secondary
//! index from display names to identities.
use vstd::prelude::*;

use crate::day::Day;
use crate::mask::{available_in, tz_ok};
use crate::parse::token_views;
use crate::process::DispatchError;
use crate::text::{decimal, push_decimal};
use crate::user::{User, UserModel};

verus! {

/// Some entry of `e` has identity `id`.
pub open spec fn has_id(e: Seq<(u64, UserModel)>, id: u64) -> bool {
    exists|i: int| 0 <= i < e.len() && #[trigger] e[i].0 == id
}

/// The position of the entry of identity `id` in `e`.
pub open spec fn id_index(e: Seq<(u64, UserModel)>, id: u64) -> int {
    choose|i: int| 0 <= i < e.len() && #[trigger] e[i].0 == id
}

/// Some binding of `b` is for the name `n`.
pub open spec fn has_name(b: Seq<(Seq<char>, u64)>, n: Seq<char>) -> bool {
    exists|i: int| 0 <= i < b.len() && #[trigger] b[i].0 == n
}

/// The position of the binding of name `n` in `b`.
pub open spec fn name_index(b: Seq<(Seq<char>, u64)>, n: Seq<char>) -> int {
    choose|i: int| 0 <= i < b.len() && #[trigger] b[i].0 == n
}

/// The entries `e` after storing user `u` under `id`: in place when the
/// identity is present, at the end otherwise.
pub open spec fn entries_with(e: Seq<(u64, UserModel)>, id: u64, u: UserModel) -> Seq<(u64, UserModel)> {
    if has_id(e, id) {
        e.update(id_index(e, id), (id, u))
    } else {
        e.push((id, u))
    }
}

/// The names of the users of `e` available at local hour `h` of day `d` as
/// read at offset `tz`, in the order of `e`.
pub open spec fn available_names(e: Seq<(u64, UserModel)>, d: int, h: int, tz: int) -> Seq<Seq<char>> {
    e.filter(|p: (u64, UserModel)| available_in(p.1.schedule, d, h, tz)).map_values(
        |p: (u64, UserModel)| p.1.name,
    )
}

/// Each name followed by a comma and a space.
pub open spec fn name_list(names: Seq<Seq<char>>) -> Seq<char> {
    names.map_values(|n: Seq<char>| n + seq![',', ' ']).flatten()
}

/// The report line for one hour: `"<Day> at <hour>: a, b, "` and a line
/// break, or nothing when nobody is available.
pub open spec fn slot_report(names: Seq<Seq<char>>, d: Day, h: int) -> Seq<char> {
    if names.len() == 0 {
        Seq::empty()
    } else {
        d.name_view() + " at "@ + decimal(h as nat) + ": "@ + name_list(names) + seq!['\n']
    }
}

/// The report lines of the first `n` hours of day `d`.
pub open spec fn day_report(e: Seq<(u64, UserModel)>, d: Day, tz: int, n: nat) -> Seq<char>
    decreases n,
{
    if n == 0 {
        Seq::empty()
    } else {
        day_report(e, d, tz, (n - 1) as nat) + slot_report(
            available_names(e, d.idx(), n - 1, tz),
            d,
            n - 1,
        )
    }
}

/// Name bindings as plain values.
pub open spec fn binding_views(v: Seq<(String, u64)>) -> Seq<(Seq<char>, u64)> {
    v.map_values(|p: (String, u64)| (p.0@, p.1))
}

/// No identity occurs twice in `e`.
pub open spec fn unique_ids(e: Seq<(u64, UserModel)>) -> bool {
    forall|i: int, j: int| 0 <= i < j < e.len() ==> #[trigger] e[i].0 != #[trigger] e[j].0
}

/// The users of `e` by identity.
pub open spec fn entry_map(e: Seq<(u64, UserModel)>) -> Map<u64, UserModel> {
    Map::new(|id: u64| has_id(e, id), |id: u64| e[id_index(e, id)].1)
}

/// Identities and names are unique in `e` and `b`, and every name of `b`
/// leads to an identity of `e`.
pub open spec fn directory_ok(e: Seq<(u64, UserModel)>, b: Seq<(Seq<char>, u64)>) -> bool {
    &&& unique_ids(e)
    &&& forall|i: int, j: int| 0 <= i < j < b.len() ==> #[trigger] b[i].0 != #[trigger] b[j].0
    &&& forall|i: int| 0 <= i < b.len() ==> has_id(e, #[trigger] b[i].1)
}

proof fn lemma_keep_ids(e: Seq<(u64, UserModel)>, e2: Seq<(u64, UserModel)>, b: Seq<(Seq<char>, u64)>)
    requires
        directory_ok(e, b),
        e2.len() >= e.len(),
        unique_ids(e2),
        forall|a: int| 0 <= a < e.len() ==> #[trigger] e2[a].0 == e[a].0,
    ensures
        directory_ok(e2, b),
{
    assert forall|i: int| 0 <= i < b.len() implies has_id(e2, #[trigger] b[i].1) by {
        let a = id_index(e, b[i].1);
        assert(e2[a].0 == b[i].1);
    }
}

proof fn lemma_entry_at(e: Seq<(u64, UserModel)>, i: int)
    requires
        unique_ids(e),
        0 <= i < e.len(),
    ensures
        has_id(e, e[i].0),
        id_index(e, e[i].0) == i,
        entry_map(e).contains_key(e[i].0),
        entry_map(e)[e[i].0] == e[i].1,
{
    assert(has_id(e, e[i].0));
    let j = id_index(e, e[i].0);
    assert(e[j].0 == e[i].0);
}

proof fn lemma_entries_with(e: Seq<(u64, UserModel)>, id: u64, u: UserModel)
    requires
        unique_ids(e),
    ensures
        unique_ids(entries_with(e, id, u)),
        entry_map(entries_with(e, id, u)) == entry_map(e).insert(id, u),
        forall|k: u64| has_id(entries_with(e, id, u), k) <==> (has_id(e, k) || k == id),
{
    let e2 = entries_with(e, id, u);
    if has_id(e, id) {
        let j = id_index(e, id);
        assert(e[j].0 == id);
        assert forall|a: int| 0 <= a < e.len() implies #[trigger] e2[a].0 == e[a].0 by {}
    } else {
        assert forall|a: int| 0 <= a < e.len() implies #[trigger] e2[a].0 == e[a].0 by {}
        assert(e2[e.len() as int].0 == id);
        assert forall|a: int, b: int| 0 <= a < b < e2.len() implies #[trigger] e2[a].0
            != #[trigger] e2[b].0 by {
            if b == e.len() {
                assert(e[a].0 == e2[a].0);
            }
        }
    }
    assert forall|k: u64| has_id(e2, k) <==> (has_id(e, k) || k == id) by {
        if has_id(e2, k) {
            let a = id_index(e2, k);
            if a < e.len() && k != id {
                assert(e[a].0 == k);
            }
        }
        if has_id(e, k) {
            let a = id_index(e, k);
            assert(e2[a].0 == k);
        }
        if k == id && !has_id(e, id) {
            assert(e2[e.len() as int].0 == id);
        }
    }
    assert forall|k: u64| #[trigger] entry_map(e2).contains_key(k) implies entry_map(e2)[k]
        == entry_map(e).insert(id, u)[k] by {
        let a = id_index(e2, k);
        lemma_entry_at(e2, a);
        if k != id {
            assert(e2[a] == e[a]);
            lemma_entry_at(e, a);
        }
    }
    assert(entry_map(e2) =~= entry_map(e).insert(id, u));
}

/// The outcome of binding `name` to `id`, given the name index `names` and
/// the users by identity `users`.
pub open spec fn bind_result(
    names: Map<Seq<char>, u64>,
    users: Map<u64, UserModel>,
    name: Seq<char>,
    id: u64,
) -> Result<(), DispatchError> {
    if names.contains_key(name) {
        if names[name] == id {
            Ok(())
        } else {
            Err(DispatchError::NameAlreadyBound)
        }
    } else if users.contains_key(id) {
        Ok(())
    } else {
        Err(DispatchError::UserNotFound)
    }
}

/// The name index after binding `name` to `id`.
pub open spec fn names_after_bind(
    names: Map<Seq<char>, u64>,
    users: Map<u64, UserModel>,
    name: Seq<char>,
    id: u64,
) -> Map<Seq<char>, u64> {
    if !names.contains_key(name) && users.contains_key(id) {
        names.insert(name, id)
    } else {
        names
    }
}

/// A name keeps its first identity: once `name` is bound to `id1`, binding
/// it to another identity fails and leaves the binding as it was.
pub proof fn lemma_name_bound_once(
    names: Map<Seq<char>, u64>,
    users: Map<u64, UserModel>,
    name: Seq<char>,
    id1: u64,
    id2: u64,
)
    requires
        bind_result(names, users, name, id1) is Ok,
        id1 != id2,
    ensures
        names_after_bind(names, users, name, id1)[name] == id1,
        bind_result(names_after_bind(names, users, name, id1), users, name, id2) == Err::<
            (),
            DispatchError,
        >(DispatchError::NameAlreadyBound),
        names_after_bind(names_after_bind(names, users, name, id1), users, name, id2)
            == names_after_bind(names, users, name, id1),
{
}

/// Changing the user stored under a present identity, in place, keeps the
/// directory well formed.
pub proof fn lemma_user_edit_keeps_wf(
    before: ScheduleCollection,
    after: ScheduleCollection,
    id: u64,
    x: UserModel,
)
    requires
        before.wf(),
        before.user_map().contains_key(id),
        after.entries() == before.entries().update(id_index(before.entries(), id), (id, x)),
        after.bindings() == before.bindings(),
    ensures
        after.wf(),
        after.user_map() == before.user_map().insert(id, x),
{
    let e = before.entries();
    let j = id_index(e, id);
    assert(e[j].0 == id);
    assert(after.entries() == entries_with(e, id, x));
    lemma_entries_with(e, id, x);
    let e2 = after.entries();
    assert forall|a: int| 0 <= a < e.len() implies #[trigger] e2[a].0 == e[a].0 by {}
    lemma_keep_ids(e, e2, before.bindings());
}

/// The users of the system, by stable identity, with the names they
/// registered under.
#[derive(Debug)]
pub struct ScheduleCollection {
    users: Vec<(u64, User)>,
    name_id_map: Vec<(String, u64)>,
}

impl ScheduleCollection {
    /// The users with their identities, in the order they were first stored.
    pub closed spec fn entries(&self) -> Seq<(u64, UserModel)> {
        self.users@.map_values(|p: (u64, User)| (p.0, p.1@))
    }

    /// The name bindings, in the order they were made.
    pub closed spec fn bindings(&self) -> Seq<(Seq<char>, u64)> {
        binding_views(self.name_id_map@)
    }

    /// The users by identity.
    pub open spec fn user_map(&self) -> Map<u64, UserModel> {
        entry_map(self.entries())
    }

    /// The identities by display name.
    pub open spec fn name_map(&self) -> Map<Seq<char>, u64> {
        Map::new(
            |n: Seq<char>| has_name(self.bindings(), n),
            |n: Seq<char>| self.bindings()[name_index(self.bindings(), n)].1,
        )
    }

    /// Identities and names are unique, and every name leads to a stored
    /// user.
    pub open spec fn wf(&self) -> bool {
        directory_ok(self.entries(), self.bindings())
    }

    /// An empty directory.
    pub fn new() -> (r: ScheduleCollection)
        ensures
            r.wf(),
            r.entries() == Seq::<(u64, UserModel)>::empty(),
            r.bindings() == Seq::<(Seq<char>, u64)>::empty(),
    {
        let r = ScheduleCollection { users: Vec::new(), name_id_map: Vec::new() };
        assert(r.entries() =~= Seq::<(u64, UserModel)>::empty());
        assert(r.bindings() =~= Seq::<(Seq<char>, u64)>::empty());
        r
    }

    /// Position of the binding of `name`, if there is one.
    fn find_name(&self, name: &str) -> (r: Option<usize>)
        requires
            self.wf(),
        ensures
            r is Some <==> has_name(self.bindings(), name@),
            r matches Some(i) ==> i < self.bindings().len() && self.bindings()[i as int].0 == name@
                && self.name_map()[name@] == self.bindings()[i as int].1,
    {
        let mut i: usize = 0;
        while i < self.name_id_map.len()
            invariant
                i <= self.name_id_map@.len(),
                self.wf(),
                self.bindings().len() == self.name_id_map@.len(),
                forall|k: int| 0 <= k < i ==> #[trigger] self.bindings()[k].0 != name@,
            decreases self.name_id_map@.len() - i,
        {
            assert(self.bindings()[i as int].0 == self.name_id_map@[i as int].0@);
            if crate::parse::same_text(self.name_id_map[i].0.as_str(), name) {
                proof {
                    let j = name_index(self.bindings(), name@);
                    assert(self.bindings()[j].0 == name@);
                    assert(j == i);
                }
                return Some(i);
            }
            i = i + 1;
        }
        None
    }

    /// Position of the user of identity `id`, if stored.
    fn find_id(&self, id: u64) -> (r: Option<usize>)
        requires
            self.wf(),
        ensures
            r is Some <==> has_id(self.entries(), id),
            r matches Some(i) ==> i < self.entries().len() && self.entries()[i as int].0 == id
                && id_index(self.entries(), id) == i,
    {
        let mut i: usize = 0;
        while i < self.users.len()
            invariant
                i <= self.users@.len(),
                self.wf(),
                self.entries().len() == self.users@.len(),
                forall|k: int| 0 <= k < i ==> #[trigger] self.entries()[k].0 != id,
            decreases self.users@.len() - i,
        {
            assert(self.entries()[i as int].0 == self.users@[i as int].0);
            if self.users[i].0 == id {
                proof {
                    let j = id_index(self.entries(), id);
                    assert(self.entries()[j].0 == id);
                    assert(j == i);
                }
                return Some(i);
            }
            i = i + 1;
        }
        None
    }

    /// The identity bound to `name`.
    pub fn get_id(&self, name: &str) -> (r: Option<&u64>)
        requires
            self.wf(),
        ensures
            r is Some <==> self.name_map().contains_key(name@),
            r matches Some(id) ==> *id == self.name_map()[name@],
    {
        match self.find_name(name) {
            Some(i) => Some(&self.name_id_map[i].1),
            None => None,
        }
    }

    /// Whether a user of identity `id` is stored.
    pub fn id_exists(&self, id: u64) -> (r: bool)
        requires
            self.wf(),
        ensures
            r == self.user_map().contains_key(id),
    {
        self.find_id(id).is_some()
    }

    /// The user bound to `name`.
    pub fn user(&self, name: &str) -> (r: Option<&User>)
        requires
            self.wf(),
        ensures
            r is Some <==> self.name_map().contains_key(name@),
            r matches Some(u) ==> u@ == self.user_map()[self.name_map()[name@]],
    {
        match self.find_name(name) {
            Some(i) => {
                let id = self.name_id_map[i].1;
                proof {
                    assert(self.bindings()[i as int].1 == id);
                    assert(has_id(self.entries(), id));
                }
                match self.find_id(id) {
                    Some(j) => {
                        assert(self.entries()[j as int].1 == self.users@[j as int].1@);
                        Some(&self.users[j].1)
                    },
                    None => None,
                }
            },
            None => None,
        }
    }

    /// The user bound to `name`, to change in place.
    pub fn mut_user(&mut self, name: &str) -> (r: Option<&mut User>)
        requires
            old(self).wf(),
        ensures
            r is Some <==> old(self).name_map().contains_key(name@),
            match r {
                Some(u) => {
                    let id = old(self).name_map()[name@];
                    &&& (*u)@ == old(self).user_map()[id]
                    &&& final(self).entries() == old(self).entries().update(
                        id_index(old(self).entries(), id),
                        (id, (*final(u))@),
                    )
                    &&& final(self).bindings() == old(self).bindings()
                },
                None => *final(self) == *old(self),
            },
    {
        match self.find_name(name) {
            Some(i) => {
                let id = self.name_id_map[i].1;
                proof {
                    assert(self.bindings()[i as int].1 == id);
                    assert(has_id(self.entries(), id));
                }
                match self.find_id(id) {
                    Some(j) => {
                        assert(self.entries()[j as int].1 == self.users@[j as int].1@);
                        Some(&mut self.users[j].1)
                    },
                    None => None,
                }
            },
            None => None,
        }
    }

    /// Stores `user` under `id`, replacing any user stored there.
    pub fn insert_user(&mut self, id: u64, user: User)
        requires
            old(self).wf(),
        ensures
            final(self).wf(),
            final(self).entries() == entries_with(old(self).entries(), id, user@),
            final(self).bindings() == old(self).bindings(),
            final(self).user_map() == old(self).user_map().insert(id, user@),
    {
        let ghost e = self.entries();
        let ghost u = user@;
        proof {
            lemma_entries_with(e, id, u);
            let e2 = entries_with(e, id, u);
            if has_id(e, id) {
                assert(e[id_index(e, id)].0 == id);
            }
            assert forall|a: int| 0 <= a < e.len() implies #[trigger] e2[a].0 == e[a].0 by {}
            lemma_keep_ids(e, e2, self.bindings());
        }
        match self.find_id(id) {
            Some(j) => {
                self.users[j] = (id, user);
                assert(self.entries() =~= entries_with(e, id, u));
            },
            None => {
                self.users.push((id, user));
                assert(self.entries() =~= entries_with(e, id, u));
            },
        }
    }

    /// Binds `name` to `id`. Binding a name again to its own identity
    /// changes nothing; a name bound to another identity cannot be taken,
    /// and only a stored identity can be bound.
    pub fn add_name_id(&mut self, name: &str, id: u64) -> (r: Result<(), DispatchError>)
        requires
            old(self).wf(),
        ensures
            final(self).wf(),
            final(self).entries() == old(self).entries(),
            r == bind_result(old(self).name_map(), old(self).user_map(), name@, id),
            final(self).name_map() == names_after_bind(old(self).name_map(), old(self).user_map(), name@, id),
            final(self).bindings() == if !old(self).name_map().contains_key(name@)
                && old(self).user_map().contains_key(id) {
                old(self).bindings().push((name@, id))
            } else {
                old(self).bindings()
            },
    {
        match self.find_name(name) {
            Some(i) => {
                if self.name_id_map[i].1 == id {
                    Ok(())
                } else {
                    Err(DispatchError::NameAlreadyBound)
                }
            },
            None => {
                if self.find_id(id).is_none() {
                    return Err(DispatchError::UserNotFound);
                }
                let ghost b = self.bindings();
                self.name_id_map.push((String::from_str(name), id));
                assert(self.bindings() =~= b.push((name@, id)));
                proof {
                    let b2 = self.bindings();
                    assert(b2[b.len() as int].0 == name@);
                    assert forall|k: Seq<char>| #[trigger] self.name_map().contains_key(k) implies self.name_map()[k]
                        == old(self).name_map().insert(name@, id)[k] by {
                        let a = name_index(b2, k);
                        assert(b2[a].0 == k);
                        if k != name@ {
                            assert(b[a] == b2[a]);
                            let c = name_index(b, k);
                            assert(b[c].0 == k);
                            assert(a < b.len());
                        }
                    }
                    assert forall|k: Seq<char>| self.name_map().contains_key(k) <==> old(self).name_map().insert(name@, id).contains_key(k) by {
                        if has_name(b, k) {
                            let a = name_index(b, k);
                            assert(b2[a].0 == k);
                        }
                        if has_name(b2, k) && k != name@ {
                            let a = name_index(b2, k);
                            assert(b[a].0 == k);
                        }
                    }
                    assert(self.name_map() =~= old(self).name_map().insert(name@, id));
                }
                Ok(())
            },
        }
    }

    /// The names of the users available at local hour `time` of `day`, read
    /// at offset `timezone`, in the order the users were stored.
    pub fn available_at(&self, day: Day, time: u32, timezone: i32) -> (r: Vec<String>)
        requires
            time < 24,
            tz_ok(timezone as int),
        ensures
            token_views(r@) == available_names(self.entries(), day.idx(), time as int, timezone as int),
    {
        let ghost e = self.entries();
        let ghost pred = |p: (u64, UserModel)| available_in(p.1.schedule, day.idx(), time as int, timezone as int);
        let mut out: Vec<String> = Vec::new();
        let mut i: usize = 0;
        assert(e.subrange(0, 0) =~= Seq::<(u64, UserModel)>::empty());
        proof {
            reveal(Seq::filter);
        }
        assert(token_views(out@) =~= available_names(e.subrange(0, 0), day.idx(), time as int, timezone as int));
        while i < self.users.len()
            invariant
                time < 24,
                tz_ok(timezone as int),
                e == self.entries(),
                pred == (|p: (u64, UserModel)| available_in(p.1.schedule, day.idx(), time as int, timezone as int)),
                e.len() == self.users@.len(),
                i <= e.len(),
                out@.len() == available_names(e.subrange(0, i as int), day.idx(), time as int, timezone as int).len(),
                token_views(out@) == available_names(e.subrange(0, i as int), day.idx(), time as int, timezone as int),
            decreases self.users@.len() - i,
        {
            let ghost before = out@;
            let ghost sub = e.subrange(0, i as int);
            let ghost next = e.subrange(0, i + 1);
            assert(next.drop_last() =~= sub);
            assert(next.last() == e[i as int]);
            assert(e[i as int] == (self.users@[i as int].0, self.users@[i as int].1@));
            proof {
                reveal(Seq::filter);
            }
            let usr = &self.users[i].1;
            assert(pred(e[i as int]) == available_in(usr@.schedule, day.idx(), time as int, timezone as int));
            if usr.is_available(day, time, timezone) {
                let nm = usr.name();
                out.push(nm);
                assert(next.filter(pred) == sub.filter(pred).push(e[i as int]));
                proof {
                    assert forall|k: int| 0 <= k < out@.len() implies #[trigger] token_views(out@)[k]
                        == available_names(next, day.idx(), time as int, timezone as int)[k] by {
                        if k < before.len() {
                            assert(token_views(before)[k] == available_names(sub, day.idx(), time as int, timezone as int)[k]);
                            assert(out@[k] == before[k]);
                        }
                    }
                }
                assert(token_views(out@) =~= available_names(next, day.idx(), time as int, timezone as int));
            } else {
                assert(next.filter(pred) == sub.filter(pred));
            }
            i = i + 1;
        }
        assert(e.subrange(0, e.len() as int) =~= e);
        out
    }

    /// The report line of local hour `time` of `day`, read at offset
    /// `timezone`: the day, the hour and each available name, or nothing
    /// when nobody is available.
    pub fn available_to_string(&self, day: Day, time: u32, timezone: i32) -> (r: String)
        requires
            time < 24,
            tz_ok(timezone as int),
        ensures
            r@ == slot_report(
                available_names(self.entries(), day.idx(), time as int, timezone as int),
                day,
                time as int,
            ),
    {
        let names = self.available_at(day, time, timezone);
        let ghost ns = token_views(names@);
        if names.len() == 0 {
            return String::new();
        }
        let mut s = day.to_string();
        let at = " at ";
        let colon = ": ";
        let comma = ", ";
        let nl = "\n";
        proof {
            reveal_strlit(", ");
            reveal_strlit("\n");
        }
        s.append(at);
        push_decimal(&mut s, time);
        s.append(colon);
        let ghost head = s@;
        let mut k: usize = 0;
        assert(ns.subrange(0, 0).map_values(|n: Seq<char>| n + seq![',', ' ']) =~= Seq::<Seq<char>>::empty());
        while k < names.len()
            invariant
                k <= names@.len(),
                ns == token_views(names@),
                comma@ == seq![',', ' '],
                s@ == head + name_list(ns.subrange(0, k as int)),
            decreases names@.len() - k,
        {
            let ghost prev = ns.subrange(0, k as int);
            s.append(names[k].as_str());
            s.append(comma);
            proof {
                let f = |n: Seq<char>| n + seq![',', ' '];
                assert(ns.subrange(0, k + 1).map_values(f) =~= prev.map_values(f).push(f(ns[k as int])));
                prev.map_values(f).lemma_flatten_push(f(ns[k as int]));
                assert(ns[k as int] == names@[k as int]@);
            }
            k = k + 1;
            assert(s@ =~= head + name_list(ns.subrange(0, k as int)));
        }
        s.append(nl);
        assert(ns.subrange(0, names@.len() as int) =~= ns);
        assert(s@ =~= slot_report(ns, day, time as int));
        s
    }

    /// The report lines of every hour of `day`, read at offset `timezone`.
    pub fn available_day_to_string(&self, day: Day, timezone: i32) -> (r: String)
        requires
            tz_ok(timezone as int),
        ensures
            r@ == day_report(self.entries(), day, timezone as int, 24),
    {
        let mut s = String::new();
        let mut time: u32 = 0;
        while time < 24
            invariant
                time <= 24,
                tz_ok(timezone as int),
                s@ == day_report(self.entries(), day, timezone as int, time as nat),
            decreases 24 - time,
        {
            let line = self.available_to_string(day, time, timezone);
            s.append(line.as_str());
            time = time + 1;
        }
        s
    }

    /// The identities of the stored users, in the order they were first
    /// stored.
    pub fn ids(&self) -> (r: Vec<u64>)
        ensures
            r@ == self.entries().map_values(|p: (u64, UserModel)| p.0),
    {
        let mut out: Vec<u64> = Vec::new();
        let mut i: usize = 0;
        while i < self.users.len()
            invariant
                i <= self.users@.len(),
                self.entries().len() == self.users@.len(),
                out@ == self.entries().subrange(0, i as int).map_values(|p: (u64, UserModel)| p.0),
            decreases self.users@.len() - i,
        {
            assert(self.entries()[i as int].0 == self.users@[i as int].0);
            out.push(self.users[i].0);
            i = i + 1;
            assert(out@ =~= self.entries().subrange(0, i as int).map_values(|p: (u64, UserModel)| p.0));
        }
        assert(self.entries().subrange(0, i as int) =~= self.entries());
        out
    }

    /// The user stored under `id`.
    pub fn user_by_id(&self, id: u64) -> (r: Option<&User>)
        requires
            self.wf(),
        ensures
            r is Some <==> self.user_map().contains_key(id),
            r matches Some(u) ==> u@ == self.user_map()[id],
    {
        match self.find_id(id) {
            Some(j) => {
                assert(self.entries()[j as int].1 == self.users@[j as int].1@);
                Some(&self.users[j].1)
            },
            None => None,
        }
    }

    /// The name bindings, in the order they were made.
    pub fn name_ids(&self) -> (r: Vec<(String, u64)>)
        ensures
            binding_views(r@) == self.bindings(),
    {
        let mut out: Vec<(String, u64)> = Vec::new();
        let mut i: usize = 0;
        while i < self.name_id_map.len()
            invariant
                i <= self.name_id_map@.len(),
                self.bindings().len() == self.name_id_map@.len(),
                out@.len() == i,
                binding_views(out@) == self.bindings().subrange(0, i as int),
            decreases self.name_id_map@.len() - i,
        {
            let ghost before = out@;
            assert(self.bindings()[i as int] == (self.name_id_map@[i as int].0@, self.name_id_map@[i as int].1));
            let name = self.name_id_map[i].0.clone();
            out.push((name, self.name_id_map[i].1));
            proof {
                assert forall|k: int| 0 <= k < out@.len() implies #[trigger] binding_views(out@)[k]
                    == self.bindings().subrange(0, i + 1)[k] by {
                    if k < i {
                        assert(binding_views(before)[k] == self.bindings().subrange(0, i as int)[k]);
                        assert(out@[k] == before[k]);
                    }
                }
            }
            i = i + 1;
            assert(binding_views(out@) =~= self.bindings().subrange(0, i as int));
        }
        assert(self.bindings().subrange(0, i as int) =~= self.bindings());
        out
    }
}

} // verus!
