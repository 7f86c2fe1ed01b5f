//! Compact storage that maps a stable tab id to an owned value.
//!
//! Lookup is linear over a small vector; storage order is not part of the
//! contract, so removal moves the last entry into the freed slot.

use vstd::prelude::*;
use crate::tab::TabId;

verus! {

/// Whether some entry of `s` carries `id`.
pub open spec fn contains_id<T>(s: Seq<(TabId, T)>, id: TabId) -> bool {
    exists|i: int| 0 <= i < s.len() && (#[trigger] s[i]).0 == id
}

/// Index of the first entry of `s` that carries `id`, or -1.
pub open spec fn first_index<T>(s: Seq<(TabId, T)>, id: TabId) -> int
    decreases s.len(),
{
    if s.len() == 0 {
        -1
    } else if s[0].0 == id {
        0
    } else {
        let rest = first_index(s.drop_first(), id);
        if rest < 0 {
            -1
        } else {
            rest + 1
        }
    }
}

/// No two entries carry one id.
pub open spec fn unique_ids<T>(s: Seq<(TabId, T)>) -> bool {
    forall|i: int, j: int| 0 <= i < s.len() && 0 <= j < s.len() && i != j ==> (#[trigger] s[i]).0
        != (#[trigger] s[j]).0
}

/// The entries after removing the one `first_index` finds, with the last
/// entry moved into its slot; unchanged when `id` is absent.
pub open spec fn removed<T>(s: Seq<(TabId, T)>, id: TabId) -> Seq<(TabId, T)> {
    let k = first_index(s, id);
    if k < 0 {
        s
    } else {
        s.update(k, s.last()).drop_last()
    }
}

/// The first match is where a front-to-back scan stops.
pub proof fn lemma_first_index<T>(s: Seq<(TabId, T)>, id: TabId, i: int)
    requires
        0 <= i <= s.len(),
        forall|j: int| 0 <= j < i ==> (#[trigger] s[j]).0 != id,
        i < s.len() ==> s[i].0 == id,
    ensures
        first_index(s, id) == if i < s.len() {
            i
        } else {
            -1
        },
    decreases i,
{
    if i > 0 {
        let rest = s.drop_first();
        assert forall|j: int| 0 <= j < i - 1 implies (#[trigger] rest[j]).0 != id by {
            assert(rest[j] == s[j + 1]);
        }
        lemma_first_index(rest, id, i - 1);
        assert(s[0].0 != id);
    }
}

/// `first_index` finds an entry exactly when one carries the id, and the
/// entry it finds carries it.
pub proof fn lemma_first_index_found<T>(s: Seq<(TabId, T)>, id: TabId)
    ensures
        -1 <= first_index(s, id) < s.len(),
        first_index(s, id) >= 0 <==> contains_id(s, id),
        first_index(s, id) >= 0 ==> s[first_index(s, id)].0 == id,
    decreases s.len(),
{
    if s.len() > 0 {
        let rest = s.drop_first();
        lemma_first_index_found(rest, id);
        if s[0].0 != id {
            if contains_id(s, id) {
                let i = choose|i: int| 0 <= i < s.len() && (#[trigger] s[i]).0 == id;
                assert(rest[i - 1] == s[i]);
            }
            if contains_id(rest, id) {
                let i = choose|i: int| 0 <= i < rest.len() && (#[trigger] rest[i]).0 == id;
                assert(s[i + 1] == rest[i]);
            }
        } else {
            assert(s[0].0 == id);
        }
    }
}

/// Maps each stable tab id to the value it owns.
pub struct SessionStore<T> {
    entries: Vec<(TabId, T)>,
}

impl<T> View for SessionStore<T> {
    type V = Seq<(TabId, T)>;

    closed spec fn view(&self) -> Seq<(TabId, T)> {
        self.entries@
    }
}

impl<T> Default for SessionStore<T> {
    fn default() -> (store: SessionStore<T>)
        ensures
            store@ == Seq::<(TabId, T)>::empty(),
    {
        SessionStore { entries: Vec::new() }
    }
}

impl<T> SessionStore<T> {
    fn position(&self, id: &TabId) -> (index: Option<usize>)
        ensures
            match index {
                Some(i) => i as int == first_index(self@, *id),
                None => first_index(self@, *id) == -1,
            },
    {
        let mut i: usize = 0;
        while i < self.entries.len()
            invariant
                i <= self.entries@.len(),
                forall|j: int| 0 <= j < i ==> (#[trigger] self.entries@[j]).0 != *id,
            decreases self.entries@.len() - i,
        {
            if self.entries[i].0.0 == id.0 {
                proof {
                    lemma_first_index(self@, *id, i as int);
                }
                return Some(i);
            }
            i = i + 1;
        }
        proof {
            lemma_first_index(self@, *id, i as int);
        }
        None
    }

    /// Stores `session` under `id`, or hands it back when `id` is taken: a
    /// live session is never replaced.
    pub fn insert(&mut self, id: TabId, session: T) -> (result: Result<(), T>)
        ensures
            contains_id(old(self)@, id) ==> result == Err::<(), T>(session) && final(self)@
                == old(self)@,
            !contains_id(old(self)@, id) ==> result is Ok && final(self)@ == old(self)@.push(
                (id, session),
            ),
    {
        if self.contains_key(&id) {
            return Err(session);
        }
        self.entries.push((id, session));
        Ok(())
    }

    /// The value stored under `id`.
    pub fn get(&self, id: &TabId) -> (session: Option<&T>)
        ensures
            session is Some <==> contains_id(self@, *id),
            session matches Some(v) ==> *v == self@[first_index(self@, *id)].1,
    {
        proof {
            lemma_first_index_found(self@, *id);
        }
        match self.position(id) {
            Some(i) => Some(&self.entries[i].1),
            None => None,
        }
    }

    /// The value stored under `id`, to change in place.
    pub fn get_mut(&mut self, id: &TabId) -> (session: Option<&mut T>)
        ensures
            session is Some <==> contains_id(old(self)@, *id),
            session is None ==> final(self)@ == old(self)@,
            session matches Some(v) ==> {
                let k = first_index(old(self)@, *id);
                &&& *v == old(self)@[k].1
                &&& final(self)@ == old(self)@.update(k, (*id, *final(v)))
            },
    {
        proof {
            lemma_first_index_found(self@, *id);
        }
        match self.position(id) {
            Some(i) => Some(&mut self.entries[i].1),
            None => None,
        }
    }

    /// Takes the value stored under `id` out of the store.
    pub fn remove(&mut self, id: &TabId) -> (session: Option<T>)
        ensures
            session is Some <==> contains_id(old(self)@, *id),
            session matches Some(v) ==> v == old(self)@[first_index(old(self)@, *id)].1,
            final(self)@ == removed(old(self)@, *id),
    {
        proof {
            lemma_first_index_found(self@, *id);
        }
        match self.position(id) {
            Some(i) => Some(self.entries.swap_remove(i).1),
            None => None,
        }
    }

    /// Whether a value is stored under `id`.
    pub fn contains_key(&self, id: &TabId) -> (found: bool)
        ensures
            found == contains_id(self@, *id),
    {
        proof {
            lemma_first_index_found(self@, *id);
        }
        self.position(id).is_some()
    }

    /// Every stored pair, in storage order, to change in place.
    pub fn entries_mut(&mut self) -> (entries: &mut [(TabId, T)])
        ensures
            entries@ == old(self)@,
            final(self)@ == final(entries)@,
    {
        self.entries.as_mut_slice()
    }
}

/// Inserting keeps ids unique: an insert either adds a fresh id or changes
/// nothing.
pub proof fn law_insert_keeps_ids_unique<T>(s: Seq<(TabId, T)>, id: TabId, session: T)
    requires
        unique_ids(s),
        !contains_id(s, id),
    ensures
        unique_ids(s.push((id, session))),
{
    let t = s.push((id, session));
    assert forall|i: int, j: int| 0 <= i < t.len() && 0 <= j < t.len() && i != j implies (
    #[trigger] t[i]).0 != (#[trigger] t[j]).0 by {
        if i == s.len() {
            assert(s[j] == t[j]);
        } else if j == s.len() {
            assert(s[i] == t[i]);
        } else {
            assert(s[i] == t[i] && s[j] == t[j]);
        }
    }
}

/// Removal frees the id, keeps ids unique, and leaves every other stored
/// pair reachable with its value.
pub proof fn law_remove_keeps_survivors<T>(s: Seq<(TabId, T)>, id: TabId, other: TabId)
    requires
        unique_ids(s),
        other != id,
    ensures
        unique_ids(removed(s, id)),
        !contains_id(removed(s, id), id),
        contains_id(removed(s, id), other) == contains_id(s, other),
        contains_id(s, other) ==> removed(s, id)[first_index(removed(s, id), other)].1 == s[first_index(
            s,
            other,
        )].1,
{
    lemma_first_index_found(s, id);
    lemma_first_index_found(s, other);
    let k = first_index(s, id);
    let r = removed(s, id);
    lemma_first_index_found(r, id);
    lemma_first_index_found(r, other);
    if k >= 0 {
        let last = s.len() - 1;
        assert forall|i: int| 0 <= i < r.len() implies (#[trigger] r[i]) == if i == k {
            s[last]
        } else {
            s[i]
        } by {}
        assert forall|i: int, j: int| 0 <= i < r.len() && 0 <= j < r.len() && i != j implies (
        #[trigger] r[i]).0 != (#[trigger] r[j]).0 by {
            let si = if i == k { last } else { i };
            let sj = if j == k { last } else { j };
            assert(r[i] == s[si] && r[j] == s[sj]);
        }
        if contains_id(r, id) {
            let i = choose|i: int| 0 <= i < r.len() && (#[trigger] r[i]).0 == id;
            let si = if i == k { last } else { i };
            assert(r[i] == s[si]);
            assert(s[k].0 == id);
        }
        if contains_id(s, other) {
            let o = first_index(s, other);
            let ro = if o == last { k } else { o };
            assert(r[ro] == s[o]);
            let f = first_index(r, other);
            let sf = if f == k { last } else { f };
            assert(r[f] == s[sf]);
            assert(s[sf].0 == other);
        } else if contains_id(r, other) {
            let i = choose|i: int| 0 <= i < r.len() && (#[trigger] r[i]).0 == other;
            let si = if i == k { last } else { i };
            assert(r[i] == s[si]);
        }
    }
}

/// A read gives back what an insert stored: after a session is inserted
/// under a fresh id, looking that id up finds it.
pub proof fn law_get_after_insert<T>(s: Seq<(TabId, T)>, id: TabId, session: T)
    requires
        !contains_id(s, id),
    ensures
        contains_id(s.push((id, session)), id),
        s.push((id, session))[first_index(s.push((id, session)), id)].1 == session,
{
    let t = s.push((id, session));
    assert forall|j: int| 0 <= j < s.len() implies (#[trigger] t[j]).0 != id by {
        assert(t[j] == s[j]);
        if t[j].0 == id {
            assert(s[j].0 == id);
        }
    }
    lemma_first_index(t, id, s.len() as int);
    lemma_first_index_found(t, id);
}

} // verus!
