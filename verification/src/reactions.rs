//! The table of reaction handlers: which message's reactions go to which
//! handler, and until when. Calling handlers is the caller's work.
use vstd::prelude::*;
use std::collections::HashMap;
use vstd::std_specs::iter::IteratorSpec;

verus! {

broadcast use vstd::std_specs::hash::group_hash_axioms;

/// A handler with its optional expiry: the work to run when it expires and the
/// time (nanoseconds since the Unix epoch) after which it has expired.
pub type HandlerEntry<H, E> = (H, Option<(E, i64)>);

/// Whether an entry has expired by `now`: it has an expiry time before `now`.
pub open spec fn is_expired<H, E>(entry: HandlerEntry<H, E>, now: i64) -> bool {
    match entry.1 {
        Some((_, t)) => t < now,
        None => false,
    }
}

/// The messages whose handlers have expired by `now`.
pub open spec fn expired_keys<H, E>(m: Map<u64, HandlerEntry<H, E>>, now: i64) -> Set<u64> {
    Set::new(|k: u64| m.contains_key(k) && is_expired(m[k], now))
}

/// Reaction handlers by message ID; at most one per message.
pub struct ReactionRegistry<H, E> {
    handlers: HashMap<u64, HandlerEntry<H, E>>,
}

impl<H, E> View for ReactionRegistry<H, E> {
    type V = Map<u64, HandlerEntry<H, E>>;

    closed spec fn view(&self) -> Map<u64, HandlerEntry<H, E>> {
        self.handlers@
    }
}

impl<H, E> ReactionRegistry<H, E> {
    /// A table with no handlers.
    pub fn new() -> (r: Self)
        ensures
            r@ == Map::<u64, HandlerEntry<H, E>>::empty(),
    {
        ReactionRegistry { handlers: HashMap::new() }
    }

    /// Sets the handler of a message, replacing any earlier one; tells whether
    /// there was one (which the caller reports).
    pub fn register(&mut self, message_id: u64, handler: H, expiry: Option<(E, i64)>) -> (replaced:
        bool)
        ensures
            final(self)@ == old(self)@.insert(message_id, (handler, expiry)),
            replaced == old(self)@.contains_key(message_id),
    {
        let prev = self.handlers.insert(message_id, (handler, expiry));
        prev.is_some()
    }

    /// Takes out the handler of a message, if it has one, so that it can be called.
    pub fn take(&mut self, message_id: u64) -> (r: Option<HandlerEntry<H, E>>)
        ensures
            final(self)@ == old(self)@.remove(message_id),
            match r {
                Some(e) => old(self)@.contains_key(message_id) && e == old(self)@[message_id],
                None => !old(self)@.contains_key(message_id),
            },
    {
        self.handlers.remove(&message_id)
    }

    /// Settles a handler taken out for a call: it is put back unless the call
    /// said that it is done.
    pub fn settle(&mut self, message_id: u64, entry: HandlerEntry<H, E>, done: bool)
        ensures
            final(self)@ == if done {
                old(self)@
            } else {
                old(self)@.insert(message_id, entry)
            },
    {
        if !done {
            self.handlers.insert(message_id, entry);
        }
    }

    /// Whether a message has a handler.
    pub fn contains(&self, message_id: u64) -> (r: bool)
        ensures
            r == self@.contains_key(message_id),
    {
        self.handlers.contains_key(&message_id)
    }

    /// Removes every handler that has expired by `now`, and hands back the
    /// expiry work of each (with its message ID, each message once, in no
    /// particular order) for the caller to run.
    pub fn expire(&mut self, now: i64) -> (r: Vec<(u64, E)>)
        ensures
            final(self)@ == old(self)@.remove_keys(expired_keys(old(self)@, now)),
            r@.map_values(|p: (u64, E)| p.0).to_set() == expired_keys(old(self)@, now),
            r@.map_values(|p: (u64, E)| p.0).no_duplicates(),
            forall|i: int|
                0 <= i < r@.len() ==> old(self)@.contains_key(#[trigger] r@[i].0) && (old(
                    self,
                )@[r@[i].0].1 matches Some((e, _)) && e == r@[i].1),
    {
        let ghost orig = self.handlers@;
        let ghost exp = expired_keys(orig, now);
        let ghost all = vstd::std_specs::hash::spec_keys_iter(&self.handlers).remaining().unref();
        proof {
            vstd::std_specs::hash::axiom_spec_keys_iter(&self.handlers);
        }
        let mut ids: Vec<u64> = Vec::new();
        let ghost mut pos: Seq<int> = Seq::empty();
        for k in it: self.handlers.keys()
            invariant
                self.handlers@ == orig,
                exp == expired_keys(orig, now),
                it.seq().unref() == all,
                all.to_set() == orig.dom(),
                all.no_duplicates(),
                forall|j: int| 0 <= j < ids@.len() ==> exp.contains(#[trigger] ids@[j]),
                pos.len() == ids@.len(),
                forall|j: int|
                    0 <= j < ids@.len() ==> 0 <= #[trigger] pos[j] < it.index() && ids@[j] == all[pos[j]],
                forall|m: int|
                    0 <= m < it.index() && exp.contains(#[trigger] all[m]) ==> ids@.contains(all[m]),
                ids@.no_duplicates(),
        {
            assert(all.to_set().contains(*k)) by {
                assert(all[it.index() as int] == *k);
            }
            let ghost old_ids = ids@;
            let expired = match self.handlers.get(k) {
                Some(entry) => match &entry.1 {
                    Some((_, t)) => *t < now,
                    None => false,
                },
                None => false,
            };
            assert(expired == exp.contains(*k));
            if expired {
                proof {
                    assert forall|j: int| 0 <= j < ids@.len() implies ids@[j] != *k by {
                        if ids@[j] == *k {
                            assert(all[pos[j]] == all[it.index() as int]);
                        }
                    }
                }
                ids.push(*k);
                proof {
                    pos = pos.push(it.index() as int);
                }
                assert(ids@.last() == all[it.index() as int]);
            }
            proof {
                assert forall|m: int|
                    0 <= m <= it.index() && exp.contains(#[trigger] all[m]) implies ids@.contains(
                    all[m],
                ) by {
                    if m < it.index() {
                        assert(old_ids.contains(all[m]));
                        let j = choose|j: int| 0 <= j < old_ids.len() && old_ids[j] == all[m];
                        assert(ids@[j] == all[m]);
                    } else {
                        assert(ids@[ids@.len() - 1] == all[m]);
                    }
                }
            }
        }
        assert(ids@.to_set() =~= exp) by {
            assert forall|k: u64| exp.contains(k) implies ids@.to_set().contains(k) by {
                assert(all.to_set().contains(k));
                let m = choose|m: int| 0 <= m < all.len() && all[m] == k;
                assert(ids@.contains(all[m]));
            }
        }
        let mut out: Vec<(u64, E)> = Vec::new();
        let mut i: usize = 0;
        while i < ids.len()
            invariant
                i <= ids.len(),
                exp == expired_keys(orig, now),
                ids@.to_set() == exp,
                ids@.no_duplicates(),
                forall|j: int| 0 <= j < ids@.len() ==> exp.contains(#[trigger] ids@[j]),
                self.handlers@ == orig.remove_keys(ids@.take(i as int).to_set()),
                out@.map_values(|p: (u64, E)| p.0) == ids@.take(i as int),
                forall|j: int|
                    0 <= j < out@.len() ==> orig.contains_key(#[trigger] out@[j].0) && (
                    orig[out@[j].0].1 matches Some((e, _)) && e == out@[j].1),
            decreases ids.len() - i,
        {
            let id = ids[i];
            assert(exp.contains(id));
            assert(!ids@.take(i as int).contains(id)) by {
                if ids@.take(i as int).contains(id) {
                    let j = choose|j: int| 0 <= j < i && ids@.take(i as int)[j] == id;
                    assert(ids@[j] == ids@[i as int]);
                }
            }
            assert(self.handlers@.contains_key(id));
            let removed = self.handlers.remove(&id);
            assert(ids@.take(i + 1).to_set() =~= ids@.take(i as int).to_set().insert(id)) by {
                assert(ids@.take(i + 1) =~= ids@.take(i as int).push(id));
                ids@.take(i as int).lemma_push_to_set_commute(id);
            }
            assert(self.handlers@ =~= orig.remove_keys(ids@.take(i + 1).to_set()));
            match removed {
                Some((_, Some((e, _)))) => {
                    let ghost before = out@.map_values(|p: (u64, E)| p.0);
                    out.push((id, e));
                    assert(out@.map_values(|p: (u64, E)| p.0) =~= before.push(id));
                    assert(ids@.take(i + 1) =~= ids@.take(i as int).push(id));
                },
                _ => {
                    assert(false);
                },
            }
            i = i + 1;
        }
        assert(ids@.take(ids.len() as int) =~= ids@);
        out
    }
}

// ---------------------------------------------------------------------------
// Laws of the table
// ---------------------------------------------------------------------------

/// A handler taken out for a call and put back (the call not being done)
/// leaves the table as it was.
pub proof fn law_take_and_put_back<H, E>(m: Map<u64, HandlerEntry<H, E>>, id: u64)
    requires
        m.contains_key(id),
    ensures
        m.remove(id).insert(id, m[id]) == m,
{
    assert(m.remove(id).insert(id, m[id]) =~= m);
}

/// Right after a handler is registered for a message, taking out that
/// message's handler gives it back and leaves the table as if it had never been
/// registered (nor any earlier one for that message).
pub proof fn law_register_then_take<H, E>(
    m: Map<u64, HandlerEntry<H, E>>,
    id: u64,
    entry: HandlerEntry<H, E>,
)
    ensures
        m.insert(id, entry).contains_key(id),
        m.insert(id, entry)[id] == entry,
        m.insert(id, entry).remove(id) == m.remove(id),
{
    assert(m.insert(id, entry).remove(id) =~= m.remove(id));
}

/// A handler without an expiry is never removed by expiry, and is kept unchanged.
pub proof fn law_unexpiring_handler_stays<H, E>(m: Map<u64, HandlerEntry<H, E>>, now: i64, k: u64)
    requires
        m.contains_key(k),
        m[k].1 is None,
    ensures
        m.remove_keys(expired_keys(m, now)).contains_key(k),
        m.remove_keys(expired_keys(m, now))[k] == m[k],
{
}

/// After expiring at some time, nothing is left that has expired by that time.
pub proof fn law_expire_is_complete<H, E>(m: Map<u64, HandlerEntry<H, E>>, now: i64)
    ensures
        expired_keys(m.remove_keys(expired_keys(m, now)), now) == Set::<u64>::empty(),
{
    assert(expired_keys(m.remove_keys(expired_keys(m, now)), now) =~= Set::<u64>::empty());
}

} // verus!
