//! The inbound exchanges that are open: accepted requests whose channel has
//! not been used yet. Each exchange gets an identifier of its own, given out
//! once and in growing order.

use vstd::prelude::*;

verus! {

/// What the record of open exchanges holds, as plain values.
pub struct ExchangesView {
    /// The identifier that the next exchange gets. Every identifier below it
    /// was given out.
    pub next_id: nat,
    /// The identifiers of the exchanges that are open.
    pub open: Set<u64>,
}

impl ExchangesView {
    /// What holds of every record: only identifiers that were given out are
    /// open, and the counter fits its type.
    pub open spec fn wf(self) -> bool {
        &&& self.next_id <= u64::MAX
        &&& forall|id: u64| self.open.contains(id) ==> id < self.next_id
    }
}

/// The record of open inbound exchanges.
#[derive(Debug)]
pub struct OpenExchanges {
    next_id: u64,
    ids: Vec<u64>,
}

/// Whether the numbers of `s` grow strictly from front to back.
spec fn strictly_increasing(s: Seq<u64>) -> bool {
    forall|i: int, j: int| 0 <= i < j < s.len() ==> s[i] < s[j]
}

/// A number put behind smaller ones is an insertion into the set.
proof fn lemma_push(s: Seq<u64>, x: u64)
    requires
        strictly_increasing(s),
        forall|i: int| 0 <= i < s.len() ==> s[i] < x,
    ensures
        strictly_increasing(s.push(x)),
        s.push(x).to_set() == s.to_set().insert(x),
{
    let t = s.push(x);
    assert forall|id: u64| #[trigger]
        t.to_set().contains(id) <==> s.to_set().insert(x).contains(id) by {
        if t.contains(id) {
            let i = choose|i: int| 0 <= i < t.len() && t[i] == id;
            if i < s.len() {
                assert(s[i] == id);
            }
        }
        if s.contains(id) {
            let i = choose|i: int| 0 <= i < s.len() && s[i] == id;
            assert(t[i] == id);
        }
        if id == x {
            assert(t[s.len() as int] == id);
        }
    }
    assert(t.to_set() =~= s.to_set().insert(x));
}

/// Taking a number out is a removal from the set.
proof fn lemma_remove(s: Seq<u64>, k: int)
    requires
        strictly_increasing(s),
        0 <= k < s.len(),
    ensures
        strictly_increasing(s.remove(k)),
        s.remove(k).to_set() == s.to_set().remove(s[k]),
{
    let t = s.remove(k);
    assert forall|i: int, j: int| 0 <= i < j < t.len() implies t[i] < t[j] by {
        let a = if i < k {
            i
        } else {
            i + 1
        };
        let b = if j < k {
            j
        } else {
            j + 1
        };
        assert(t[i] == s[a] && t[j] == s[b]);
    }
    assert forall|id: u64| #[trigger]
        t.to_set().contains(id) <==> s.to_set().remove(s[k]).contains(id) by {
        if t.contains(id) {
            let i = choose|i: int| 0 <= i < t.len() && t[i] == id;
            let a = if i < k {
                i
            } else {
                i + 1
            };
            assert(s[a] == id);
            if a < k {
                assert(s[a] < s[k]);
            } else {
                assert(s[k] < s[a]);
            }
        }
        if s.contains(id) && id != s[k] {
            let a = choose|a: int| 0 <= a < s.len() && s[a] == id;
            let i = if a < k {
                a
            } else {
                a - 1
            };
            assert(t[i] == id);
        }
    }
    assert(t.to_set() =~= s.to_set().remove(s[k]));
}

impl View for OpenExchanges {
    type V = ExchangesView;

    closed spec fn view(&self) -> ExchangesView {
        ExchangesView { next_id: self.next_id as nat, open: self.ids@.to_set() }
    }
}

impl OpenExchanges {
    /// What holds of every record between calls.
    pub closed spec fn wf(&self) -> bool {
        &&& strictly_increasing(self.ids@)
        &&& forall|i: int| 0 <= i < self.ids@.len() ==> #[trigger] self.ids@[i] < self.next_id
    }

    /// What a well-formed record holds is well-formed.
    pub proof fn lemma_view_wf(&self)
        requires
            self.wf(),
        ensures
            self@.wf(),
    {
        assert forall|id: u64| self@.open.contains(id) implies id < self@.next_id by {
            let i = choose|i: int| 0 <= i < self.ids@.len() && self.ids@[i] == id;
            assert(self.ids@[i] < self.next_id);
        }
    }

    /// A record with no open exchange that has given out no identifier.
    pub fn new() -> (record: OpenExchanges)
        ensures
            record.wf(),
            record@.next_id == 0,
            record@.open == Set::<u64>::empty(),
    {
        OpenExchanges::starting_at(0)
    }

    /// A record with no open exchange that has given out the identifiers
    /// below `next_id`, as a record does that continues the numbering of an
    /// earlier one.
    pub fn starting_at(next_id: u64) -> (record: OpenExchanges)
        ensures
            record.wf(),
            record@.next_id == next_id,
            record@.open == Set::<u64>::empty(),
    {
        let record = OpenExchanges { next_id, ids: Vec::new() };
        assert(record@.open =~= Set::<u64>::empty());
        record
    }

    /// Where the exchange `id` stands among the open ones, if it is open.
    fn position(&self, id: u64) -> (r: Option<usize>)
        ensures
            match r {
                Some(i) => i < self.ids@.len() && self.ids@[i as int] == id,
                None => !self.ids@.contains(id),
            },
    {
        let mut i: usize = 0;
        while i < self.ids.len()
            invariant
                i <= self.ids@.len(),
                forall|k: int| 0 <= k < i ==> self.ids@[k] != id,
            decreases self.ids@.len() - i,
        {
            if self.ids[i] == id {
                return Some(i);
            }
            i += 1;
        }
        None
    }

    /// Whether the exchange `id` is open.
    pub fn is_open(&self, id: u64) -> (b: bool)
        ensures
            b == self@.open.contains(id),
    {
        self.position(id).is_some()
    }

    /// Opens an exchange and gives it the next identifier. Gives `None`, and
    /// changes nothing, where no identifier is left.
    pub fn open(&mut self) -> (r: Option<u64>)
        requires
            old(self).wf(),
        ensures
            final(self).wf(),
            match r {
                Some(id) => id == old(self)@.next_id && id < u64::MAX && final(self)@
                    == (ExchangesView {
                    next_id: old(self)@.next_id + 1,
                    open: old(self)@.open.insert(id),
                }),
                None => old(self)@.next_id == u64::MAX && final(self)@ == old(self)@,
            },
    {
        if self.next_id == u64::MAX {
            return None;
        }
        let id: u64 = self.next_id;
        proof {
            lemma_push(self.ids@, id);
        }
        self.ids.push(id);
        self.next_id = id + 1;
        Some(id)
    }

    /// Closes the exchange `id` and says whether it was open. Changes
    /// nothing where it was not.
    pub fn close(&mut self, id: u64) -> (was_open: bool)
        requires
            old(self).wf(),
        ensures
            final(self).wf(),
            was_open == old(self)@.open.contains(id),
            final(self)@.next_id == old(self)@.next_id,
            final(self)@.open == old(self)@.open.remove(id),
    {
        match self.position(id) {
            Some(i) => {
                proof {
                    lemma_remove(self.ids@, i as int);
                }
                self.ids.remove(i);
                true
            },
            None => {
                assert(self@.open =~= old(self)@.open.remove(id));
                false
            },
        }
    }

    /// Closes every open exchange.
    pub fn close_all(&mut self)
        requires
            old(self).wf(),
        ensures
            final(self).wf(),
            final(self)@.next_id == old(self)@.next_id,
            final(self)@.open == Set::<u64>::empty(),
    {
        self.ids.clear();
        assert(self@.open =~= Set::<u64>::empty());
    }
}

} // verus!
