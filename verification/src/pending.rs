//! The table of pending outbound requests: it gives out the request
//! identifiers, each once and in growing order, and keeps for every request
//! that is not resolved yet the deadline by which its response is due.

use crate::model::expired;
use vstd::prelude::*;

verus! {

/// What the table holds, as plain values.
pub struct PendingView {
    /// The identifier that the next request gets. Every identifier below it
    /// was given out.
    pub next_id: nat,
    /// The deadline of each request that is not resolved yet.
    pub entries: Map<u64, u64>,
}

impl PendingView {
    /// What holds of every table: only identifiers that were given out are
    /// pending, and the counter fits its type.
    pub open spec fn wf(self) -> bool {
        &&& self.next_id <= u64::MAX
        &&& self.entries.dom().finite()
        &&& forall|id: u64| self.entries.contains_key(id) ==> id < self.next_id
    }
}

/// Whether the numbers of `s` grow strictly from front to back.
pub open spec fn increasing(s: Seq<u64>) -> bool {
    forall|i: int, j: int| 0 <= i < j < s.len() ==> s[i] < s[j]
}

/// One pending request.
#[derive(Debug, Clone, Copy)]
struct Entry {
    id: u64,
    deadline: u64,
}

/// The table of pending outbound requests.
#[derive(Debug)]
pub struct PendingOutbound {
    next_id: u64,
    entries: Vec<Entry>,
}

/// Whether the identifiers of `s` grow strictly from front to back.
spec fn ids_increasing(s: Seq<Entry>) -> bool {
    forall|i: int, j: int| 0 <= i < j < s.len() ==> s[i].id < s[j].id
}

/// The entries of `s` as a map from identifier to deadline.
spec fn as_map(s: Seq<Entry>) -> Map<u64, u64> {
    Map::new(
        |id: u64| exists|i: int| 0 <= i < s.len() && #[trigger] s[i].id == id,
        |id: u64| s[choose|i: int| 0 <= i < s.len() && #[trigger] s[i].id == id].deadline,
    )
}

/// The entries of `s` whose deadline has not come at `now`, in their order.
spec fn alive(s: Seq<Entry>, now: u64) -> Seq<Entry>
    decreases s.len(),
{
    if s.len() == 0 {
        Seq::empty()
    } else if s.last().deadline > now {
        alive(s.drop_last(), now).push(s.last())
    } else {
        alive(s.drop_last(), now)
    }
}

/// The identifiers of the entries of `s` whose deadline has come at `now`,
/// in their order.
spec fn due(s: Seq<Entry>, now: u64) -> Seq<u64>
    decreases s.len(),
{
    if s.len() == 0 {
        Seq::empty()
    } else if s.last().deadline <= now {
        due(s.drop_last(), now).push(s.last().id)
    } else {
        due(s.drop_last(), now)
    }
}

/// An entry is found in the map under its identifier, with its deadline.
proof fn lemma_entry(s: Seq<Entry>, i: int)
    requires
        ids_increasing(s),
        0 <= i < s.len(),
    ensures
        as_map(s).contains_key(s[i].id),
        as_map(s)[s[i].id] == s[i].deadline,
{
    let id = s[i].id;
    let j = choose|j: int| 0 <= j < s.len() && #[trigger] s[j].id == id;
    assert(j == i) by {
        if j < i {
            assert(s[j].id < s[i].id);
        } else if i < j {
            assert(s[i].id < s[j].id);
        }
    }
}

/// Every key of the map is the identifier of an entry.
proof fn lemma_key(s: Seq<Entry>, id: u64) -> (i: int)
    requires
        ids_increasing(s),
        as_map(s).contains_key(id),
    ensures
        0 <= i < s.len(),
        s[i].id == id,
        as_map(s)[id] == s[i].deadline,
{
    let i = choose|i: int| 0 <= i < s.len() && #[trigger] s[i].id == id;
    lemma_entry(s, i);
    i
}

/// An entry put behind smaller identifiers is an insertion into the map.
proof fn lemma_push(s: Seq<Entry>, e: Entry)
    requires
        ids_increasing(s),
        forall|i: int| 0 <= i < s.len() ==> s[i].id < e.id,
    ensures
        ids_increasing(s.push(e)),
        !as_map(s).contains_key(e.id),
        as_map(s.push(e)) == as_map(s).insert(e.id, e.deadline),
{
    let t = s.push(e);
    assert(ids_increasing(t));
    if as_map(s).contains_key(e.id) {
        let i = lemma_key(s, e.id);
        assert(s[i].id < e.id);
    }
    assert forall|id: u64| #[trigger]
        as_map(t).contains_key(id) <==> as_map(s).insert(e.id, e.deadline).contains_key(id) by {
        if as_map(t).contains_key(id) {
            let i = lemma_key(t, id);
            if i < s.len() {
                assert(s[i].id == id);
            }
        }
        if as_map(s).contains_key(id) {
            let i = lemma_key(s, id);
            assert(t[i].id == id);
        }
        if id == e.id {
            assert(t[s.len() as int].id == id);
        }
    }
    assert forall|id: u64| #[trigger] as_map(t).contains_key(id) implies as_map(t)[id] == as_map(
        s,
    ).insert(e.id, e.deadline)[id] by {
        let i = lemma_key(t, id);
        if i < s.len() {
            assert(s[i].id == id);
            lemma_entry(s, i);
        }
    }
    assert(as_map(t) =~= as_map(s).insert(e.id, e.deadline));
}

/// Taking an entry out is a removal from the map.
proof fn lemma_remove(s: Seq<Entry>, k: int)
    requires
        ids_increasing(s),
        0 <= k < s.len(),
    ensures
        ids_increasing(s.remove(k)),
        as_map(s.remove(k)) == as_map(s).remove(s[k].id),
{
    let t = s.remove(k);
    assert forall|i: int, j: int| 0 <= i < j < t.len() implies t[i].id < t[j].id by {
        let a = if i < k {
            i
        } else {
            i + 1
        };
        let b = if j < k {
            j
        } else {
            j + 1
        };
        assert(t[i] == s[a] && t[j] == s[b]);
    }
    assert forall|id: u64| #[trigger]
        as_map(t).contains_key(id) <==> as_map(s).remove(s[k].id).contains_key(id) by {
        if as_map(t).contains_key(id) {
            let i = lemma_key(t, id);
            let a = if i < k {
                i
            } else {
                i + 1
            };
            assert(s[a].id == id);
            if a < k {
                assert(s[a].id < s[k].id);
            } else {
                assert(s[k].id < s[a].id);
            }
        }
        if as_map(s).contains_key(id) && id != s[k].id {
            let a = lemma_key(s, id);
            let i = if a < k {
                a
            } else {
                a - 1
            };
            assert(t[i].id == id);
        }
    }
    assert forall|id: u64| #[trigger] as_map(t).contains_key(id) implies as_map(t)[id] == as_map(
        s,
    ).remove(s[k].id)[id] by {
        let i = lemma_key(t, id);
        let a = if i < k {
            i
        } else {
            i + 1
        };
        assert(s[a] == t[i]);
        lemma_entry(s, a);
    }
    assert(as_map(t) =~= as_map(s).remove(s[k].id));
}

/// The map has as many keys as there are entries.
proof fn lemma_len(s: Seq<Entry>)
    requires
        ids_increasing(s),
    ensures
        as_map(s).dom().finite(),
        as_map(s).len() == s.len(),
    decreases s.len(),
{
    if s.len() == 0 {
        assert(as_map(s) =~= Map::<u64, u64>::empty());
    } else {
        let front = s.drop_last();
        assert(ids_increasing(front));
        assert(s =~= front.push(s.last()));
        assert forall|i: int| 0 <= i < front.len() implies front[i].id < s.last().id by {
            assert(s[i].id < s[s.len() - 1].id);
        }
        lemma_len(front);
        lemma_push(front, s.last());
    }
}

/// The entries that are alive are those of the map without the expired.
proof fn lemma_alive(s: Seq<Entry>, now: u64)
    requires
        ids_increasing(s),
    ensures
        ids_increasing(alive(s, now)),
        forall|j: int|
            0 <= j < alive(s, now).len() ==> as_map(s).contains_key((#[trigger] alive(s, now)[j]).id),
        as_map(alive(s, now)) == as_map(s).remove_keys(expired(as_map(s), now)),
    decreases s.len(),
{
    if s.len() == 0 {
        assert(as_map(alive(s, now)) =~= as_map(s).remove_keys(expired(as_map(s), now)));
    } else {
        let front = s.drop_last();
        let e = s.last();
        assert(ids_increasing(front));
        assert(s =~= front.push(e));
        lemma_alive(front, now);
        assert forall|i: int| 0 <= i < front.len() implies front[i].id < e.id by {
            assert(s[i].id < s[s.len() - 1].id);
        }
        lemma_push(front, e);
        let kept = alive(front, now);
        assert forall|j: int| 0 <= j < kept.len() implies (#[trigger] kept[j]).id < e.id by {
            let i = lemma_key(front, kept[j].id);
            assert(front[i].id < e.id);
        }
        if e.deadline > now {
            lemma_push(kept, e);
        }
        assert(as_map(alive(s, now)) =~= as_map(s).remove_keys(expired(as_map(s), now)));
    }
}

/// The identifiers that are due are the expired keys of the map, in growing
/// order.
proof fn lemma_due(s: Seq<Entry>, now: u64)
    requires
        ids_increasing(s),
    ensures
        increasing(due(s, now)),
        due(s, now).to_set() == expired(as_map(s), now),
    decreases s.len(),
{
    if s.len() == 0 {
        assert(due(s, now).to_set() =~= expired(as_map(s), now));
    } else {
        let front = s.drop_last();
        let e = s.last();
        assert(ids_increasing(front));
        assert(s =~= front.push(e));
        lemma_due(front, now);
        assert forall|i: int| 0 <= i < front.len() implies front[i].id < e.id by {
            assert(s[i].id < s[s.len() - 1].id);
        }
        lemma_push(front, e);
        let before = due(front, now);
        let all = due(s, now);
        assert forall|j: int| 0 <= j < before.len() implies #[trigger] before[j] < e.id by {
            assert(before.contains(before[j]));
            assert(before.to_set().contains(before[j]));
            let i = lemma_key(front, before[j]);
            assert(front[i].id < e.id);
        }
        assert forall|id: u64| #[trigger]
            all.to_set().contains(id) <==> expired(as_map(s), now).contains(id) by {
            if all.contains(id) {
                let j = choose|j: int| 0 <= j < all.len() && all[j] == id;
                if j < before.len() {
                    assert(before[j] == id);
                    assert(before.contains(id));
                    assert(before.to_set().contains(id));
                }
            }
            if expired(as_map(s), now).contains(id) {
                if id == e.id {
                    assert(all[all.len() - 1] == id);
                } else {
                    assert(before.to_set().contains(id));
                    let j = choose|j: int| 0 <= j < before.len() && before[j] == id;
                    assert(all[j] == id);
                }
            }
        }
        assert(all.to_set() =~= expired(as_map(s), now));
    }
}

impl View for PendingOutbound {
    type V = PendingView;

    closed spec fn view(&self) -> PendingView {
        PendingView { next_id: self.next_id as nat, entries: as_map(self.entries@) }
    }
}

impl PendingOutbound {
    /// What holds of every table between calls.
    pub closed spec fn wf(&self) -> bool {
        &&& ids_increasing(self.entries@)
        &&& forall|i: int|
            0 <= i < self.entries@.len() ==> (#[trigger] self.entries@[i]).id < self.next_id
    }

    /// What a well-formed table holds is well-formed.
    pub proof fn lemma_view_wf(&self)
        requires
            self.wf(),
        ensures
            self@.wf(),
    {
        lemma_len(self.entries@);
        assert forall|id: u64| self@.entries.contains_key(id) implies id < self@.next_id by {
            let i = lemma_key(self.entries@, id);
            assert(self.entries@[i].id < self.next_id);
        }
    }

    /// An empty table that has given out no identifier.
    pub fn new() -> (table: PendingOutbound)
        ensures
            table.wf(),
            table@.next_id == 0,
            table@.entries == Map::<u64, u64>::empty(),
    {
        PendingOutbound::starting_at(0)
    }

    /// An empty table that has given out the identifiers below `next_id`,
    /// as a table does that continues the numbering of an earlier one.
    pub fn starting_at(next_id: u64) -> (table: PendingOutbound)
        ensures
            table.wf(),
            table@.next_id == next_id,
            table@.entries == Map::<u64, u64>::empty(),
    {
        let table = PendingOutbound { next_id, entries: Vec::new() };
        assert(table@.entries =~= Map::<u64, u64>::empty());
        table
    }

    /// The number of pending requests.
    pub fn len(&self) -> (n: usize)
        requires
            self.wf(),
        ensures
            n == self@.entries.len(),
    {
        proof {
            lemma_len(self.entries@);
        }
        self.entries.len()
    }

    /// Where the request `id` stands among the entries, if it is pending.
    fn position(&self, id: u64) -> (r: Option<usize>)
        requires
            self.wf(),
        ensures
            match r {
                Some(i) => i < self.entries@.len() && self.entries@[i as int].id == id
                    && self@.entries.contains_key(id) && self@.entries[id]
                    == self.entries@[i as int].deadline,
                None => !self@.entries.contains_key(id),
            },
    {
        let mut i: usize = 0;
        while i < self.entries.len()
            invariant
                self.wf(),
                i <= self.entries@.len(),
                forall|k: int| 0 <= k < i ==> self.entries@[k].id != id,
            decreases self.entries@.len() - i,
        {
            if self.entries[i].id == id {
                proof {
                    lemma_entry(self.entries@, i as int);
                }
                return Some(i);
            }
            i += 1;
        }
        None
    }

    /// The deadline of the request `id`, if it is pending.
    pub fn deadline(&self, id: u64) -> (r: Option<u64>)
        requires
            self.wf(),
        ensures
            match r {
                Some(d) => self@.entries.contains_key(id) && self@.entries[id] == d,
                None => !self@.entries.contains_key(id),
            },
    {
        match self.position(id) {
            Some(i) => Some(self.entries[i].deadline),
            None => None,
        }
    }

    /// Whether the request `id` is pending.
    pub fn contains(&self, id: u64) -> (b: bool)
        requires
            self.wf(),
        ensures
            b == self@.entries.contains_key(id),
    {
        self.position(id).is_some()
    }

    /// Gives out the next identifier and records a request with it and the
    /// given deadline. Gives `None`, and changes nothing, where no
    /// identifier is left.
    pub fn allocate(&mut self, deadline: u64) -> (r: Option<u64>)
        requires
            old(self).wf(),
        ensures
            final(self).wf(),
            match r {
                Some(id) => id == old(self)@.next_id && id < u64::MAX && final(self)@
                    == (PendingView {
                    next_id: old(self)@.next_id + 1,
                    entries: old(self)@.entries.insert(id, deadline),
                }),
                None => old(self)@.next_id == u64::MAX && final(self)@ == old(self)@,
            },
    {
        if self.next_id == u64::MAX {
            return None;
        }
        let id: u64 = self.next_id;
        proof {
            lemma_push(self.entries@, Entry { id, deadline });
        }
        self.entries.push(Entry { id, deadline });
        self.next_id = id + 1;
        Some(id)
    }

    /// Takes the request `id` out of the table and gives its deadline.
    /// Gives `None`, and changes nothing, where the request is not pending.
    pub fn resolve(&mut self, id: u64) -> (r: Option<u64>)
        requires
            old(self).wf(),
        ensures
            final(self).wf(),
            final(self)@.next_id == old(self)@.next_id,
            match r {
                Some(deadline) => old(self)@.entries.contains_key(id) && old(self)@.entries[id]
                    == deadline && final(self)@.entries == old(self)@.entries.remove(id),
                None => !old(self)@.entries.contains_key(id) && final(self)@ == old(self)@,
            },
    {
        match self.position(id) {
            Some(i) => {
                proof {
                    lemma_remove(self.entries@, i as int);
                }
                let entry: Entry = self.entries.remove(i);
                Some(entry.deadline)
            },
            None => None,
        }
    }

    /// Takes out every request whose deadline has come at `now` and gives
    /// their identifiers in growing order.
    pub fn expire(&mut self, now: u64) -> (ids: Vec<u64>)
        requires
            old(self).wf(),
        ensures
            final(self).wf(),
            final(self)@.next_id == old(self)@.next_id,
            final(self)@.entries == old(self)@.entries.remove_keys(
                expired(old(self)@.entries, now),
            ),
            increasing(ids@),
            ids@.to_set() == expired(old(self)@.entries, now),
    {
        let ghost all = self.entries@;
        let mut ids: Vec<u64> = Vec::new();
        let mut kept: Vec<Entry> = Vec::new();
        let mut i: usize = 0;
        while i < self.entries.len()
            invariant
                self.entries@ == all,
                i <= all.len(),
                kept@ == alive(all.take(i as int), now),
                ids@ == due(all.take(i as int), now),
            decreases all.len() - i,
        {
            let entry: Entry = self.entries[i];
            proof {
                assert(all.take(i + 1).drop_last() =~= all.take(i as int));
                assert(all.take(i + 1).last() == entry);
            }
            if entry.deadline <= now {
                ids.push(entry.id);
            } else {
                kept.push(entry);
            }
            i += 1;
        }
        proof {
            assert(all.take(i as int) =~= all);
            lemma_alive(all, now);
            lemma_due(all, now);
            assert forall|j: int| 0 <= j < kept@.len() implies (#[trigger] kept@[j]).id
                < self.next_id by {
                let a = lemma_key(all, kept@[j].id);
                assert(all[a].id < self.next_id);
            }
        }
        self.entries = kept;
        ids
    }

    /// Takes out every request and gives their identifiers in growing order.
    pub fn drain(&mut self) -> (ids: Vec<u64>)
        requires
            old(self).wf(),
        ensures
            final(self).wf(),
            final(self)@.next_id == old(self)@.next_id,
            final(self)@.entries == Map::<u64, u64>::empty(),
            increasing(ids@),
            ids@.to_set() == old(self)@.entries.dom(),
    {
        let ghost all = self.entries@;
        let mut ids: Vec<u64> = Vec::new();
        let mut i: usize = 0;
        while i < self.entries.len()
            invariant
                self.entries@ == all,
                i <= all.len(),
                ids@.len() == i,
                forall|k: int| 0 <= k < i ==> #[trigger] ids@[k] == all[k].id,
            decreases all.len() - i,
        {
            ids.push(self.entries[i].id);
            i += 1;
        }
        proof {
            assert forall|id: u64| #[trigger]
                ids@.to_set().contains(id) <==> old(self)@.entries.dom().contains(id) by {
                if ids@.contains(id) {
                    let k = choose|k: int| 0 <= k < ids@.len() && ids@[k] == id;
                    lemma_entry(all, k);
                }
                if as_map(all).contains_key(id) {
                    let k = lemma_key(all, id);
                    assert(ids@[k] == id);
                }
            }
            assert(ids@.to_set() =~= old(self)@.entries.dom());
        }
        self.entries.clear();
        assert(self@.entries =~= Map::<u64, u64>::empty());
        ids
    }

    /// The earliest deadline among the pending requests.
    pub fn earliest_deadline(&self) -> (r: Option<u64>)
        requires
            self.wf(),
        ensures
            r is None <==> self@.entries.dom() =~= Set::<u64>::empty(),
            r is Some ==> exists|id: u64|
                self@.entries.contains_key(id) && #[trigger] self@.entries[id] == r->Some_0,
            r is Some ==> forall|id: u64|
                self@.entries.contains_key(id) ==> r->Some_0 <= #[trigger] self@.entries[id],
    {
        if self.entries.len() == 0 {
            return None;
        }
        let mut best: u64 = self.entries[0].deadline;
        let mut i: usize = 1;
        while i < self.entries.len()
            invariant
                1 <= i <= self.entries@.len(),
                exists|k: int| 0 <= k < i && (#[trigger] self.entries@[k]).deadline == best,
                forall|k: int| 0 <= k < i ==> best <= (#[trigger] self.entries@[k]).deadline,
            decreases self.entries@.len() - i,
        {
            if self.entries[i].deadline < best {
                best = self.entries[i].deadline;
            }
            i += 1;
        }
        proof {
            let k = choose|k: int|
                0 <= k < self.entries@.len() && (#[trigger] self.entries@[k]).deadline == best;
            lemma_entry(self.entries@, k);
            assert(self@.entries.contains_key(self.entries@[k].id));
            assert forall|id: u64| self@.entries.contains_key(id) implies best
                <= #[trigger] self@.entries[id] by {
                let a = lemma_key(self.entries@, id);
            }
        }
        Some(best)
    }
}

} // verus!
