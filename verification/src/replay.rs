//! The memory of messages that were already received.

use crate::table;
use crate::text;
use std::collections::VecDeque;
use vstd::hash_set::StringHashSet;
use vstd::prelude::*;

verus! {

/// The number of messages that a room remembers.
pub const REPLAY_CAPACITY: usize = 4096;

/// A bounded memory of keys that forgets the oldest first.
pub struct ReplayCache {
    seen: StringHashSet,
    order: VecDeque<String>,
    capacity: usize,
}

/// The plain values held by a [`ReplayCache`].
#[verifier::ext_equal]
pub struct ReplayCacheView {
    pub seen: Set<Seq<char>>,
    pub order: Seq<Seq<char>>,
    pub capacity: usize,
}

impl View for ReplayCache {
    type V = ReplayCacheView;

    closed spec fn view(&self) -> ReplayCacheView {
        ReplayCacheView {
            seen: self.seen@,
            order: text::texts(self.order@),
            capacity: self.capacity,
        }
    }
}

/// A memory without keys.
pub open spec fn empty_cache(capacity: usize) -> ReplayCacheView {
    ReplayCacheView { seen: Set::empty(), order: Seq::empty(), capacity }
}

/// A memory after the oldest keys in excess of its capacity are forgotten.
pub open spec fn evicted(c: ReplayCacheView) -> ReplayCacheView
    decreases c.order.len(),
{
    if c.order.len() > c.capacity {
        evicted(
            ReplayCacheView {
                seen: c.seen.remove(c.order[0]),
                order: c.order.drop_first(),
                capacity: c.capacity,
            },
        )
    } else {
        c
    }
}

/// A memory after a key is offered.
pub open spec fn remembered(c: ReplayCacheView, key: Seq<char>) -> ReplayCacheView {
    if c.seen.contains(key) {
        c
    } else {
        evicted(
            ReplayCacheView {
                seen: c.seen.insert(key),
                order: c.order.push(key),
                capacity: c.capacity,
            },
        )
    }
}

impl ReplayCache {
    /// A memory for a number of keys.
    pub fn with_capacity(capacity: usize) -> (res: ReplayCache)
        ensures
            res@ == empty_cache(capacity),
    {
        let res = ReplayCache { seen: StringHashSet::new(), order: VecDeque::new(), capacity };
        assert(res@.order =~= Seq::empty());
        res
    }

    /// Offer a key; the result tells whether it is new.
    pub fn insert(&mut self, key: String) -> (res: bool)
        ensures
            res == !old(self)@.seen.contains(key@),
            final(self)@ == remembered(old(self)@, key@),
    {
        if self.seen.contains(key.as_str()) {
            return false;
        }
        let ghost before = self@;
        let _ = self.seen.insert(key.clone());
        let ghost ordered = self.order@;
        self.order.push_back(key);
        assert(self@.order =~= before.order.push(key@));
        while self.order.len() > self.capacity
            invariant
                evicted(self@) == remembered(before, key@),
            decreases self.order@.len(),
        {
            let ghost current = self@;
            if let Some(oldest) = self.order.pop_front() {
                assert(oldest@ == current.order[0]);
                let _ = self.seen.remove(oldest.as_str());
                assert(self@.order =~= current.order.drop_first());
            }
        }
        true
    }

    /// The number of keys that are remembered.
    pub fn len(&self) -> (res: usize)
        ensures
            res == self@.seen.len(),
    {
        self.seen.len()
    }
}

impl Default for ReplayCache {
    /// The memory of a room.
    fn default() -> (res: Self)
        ensures
            res@ == empty_cache(REPLAY_CAPACITY),
    {
        ReplayCache::with_capacity(REPLAY_CAPACITY)
    }
}

/// The keys are those of the order, each once, and not more than fit.
pub open spec fn cache_consistent(c: ReplayCacheView) -> bool {
    &&& c.seen == c.order.to_set()
    &&& c.order.no_duplicates()
    &&& c.order.len() <= c.capacity
}

/// The empty memory is consistent.
pub proof fn law_empty_cache_consistent(capacity: usize)
    ensures
        cache_consistent(empty_cache(capacity)),
{
    assert(Seq::<Seq<char>>::empty().to_set() =~= Set::empty());
}

/// A new key is remembered, so that the same key is refused next time; the oldest key is
/// forgotten exactly if the memory was full; and the memory stays consistent, which bounds the
/// number of keys by the capacity.
pub proof fn law_replay_is_refused(c: ReplayCacheView, key: Seq<char>)
    requires
        cache_consistent(c),
        c.capacity > 0,
    ensures
        cache_consistent(remembered(c, key)),
        remembered(c, key).seen.contains(key),
        remembered(c, key).seen.len() <= c.capacity,
        !c.seen.contains(key) ==> remembered(c, key).order == if c.order.len() < c.capacity {
            c.order.push(key)
        } else {
            c.order.drop_first().push(key)
        },
{
    let after = remembered(c, key);
    assert(c.order.to_set().contains(key) == c.order.contains(key));
    if !c.seen.contains(key) {
        let longer = c.order.push(key);
        table::lemma_push_to_set(c.order, key);
        if c.order.len() == c.capacity {
            let oldest = longer[0];
            let shorter = longer.drop_first();
            assert(shorter =~= c.order.drop_first().push(key));
            assert(longer.no_duplicates());
            assert forall|k: Seq<char>| shorter.to_set().contains(k) == longer.to_set().remove(
                oldest,
            ).contains(k) by {
                if shorter.contains(k) {
                    let i = choose|i: int| 0 <= i < shorter.len() && shorter[i] == k;
                    assert(longer[i + 1] == k);
                }
                if longer.contains(k) && k != oldest {
                    let i = choose|i: int| 0 <= i < longer.len() && longer[i] == k;
                    assert(shorter[i - 1] == k);
                }
            }
            assert(shorter.to_set() =~= longer.to_set().remove(oldest));
            let next = ReplayCacheView {
                seen: longer.to_set().remove(oldest),
                order: shorter,
                capacity: c.capacity,
            };
            assert(evicted(next) == next);
            assert(shorter[shorter.len() - 1] == key);
            assert(after == next);
        } else {
            assert(longer[longer.len() - 1] == key);
        }
        assert(after.order.contains(key));
        assert(after.order.to_set().contains(key));
    }
    after.order.unique_seq_to_set();
}

/// A remembered key survives every new key but the one that comes when it is the oldest of a
/// full memory.
pub proof fn law_recent_keys_survive(c: ReplayCacheView, key: Seq<char>, i: int)
    requires
        cache_consistent(c),
        c.capacity > 0,
        0 <= i < c.order.len(),
        i > 0 || c.order.len() < c.capacity || c.seen.contains(key),
    ensures
        remembered(c, key).seen.contains(c.order[i]),
{
    law_replay_is_refused(c, key);
    let after = remembered(c, key);
    let k = c.order[i];
    assert(c.order.contains(k));
    if c.seen.contains(key) {
        assert(c.order.to_set().contains(k));
    } else if c.order.len() < c.capacity {
        assert(after.order[i] == k);
    } else {
        assert(after.order[i - 1] == k);
    }
    if !c.seen.contains(key) {
        assert(after.order.contains(k));
        assert(after.order.to_set().contains(k));
    }
}

/// A key is remembered, and at most so many keys came after it.
pub open spec fn recent(c: ReplayCacheView, key: Seq<char>, later: nat) -> bool {
    &&& cache_consistent(c)
    &&& exists|i: int|
        0 <= i < c.order.len() && #[trigger] c.order[i] == key && c.order.len() - 1 - i <= later
}

/// A memory after some keys are offered one after another.
pub open spec fn remembered_all(c: ReplayCacheView, keys: Seq<Seq<char>>) -> ReplayCacheView
    decreases keys.len(),
{
    if keys.len() == 0 {
        c
    } else {
        remembered(remembered_all(c, keys.drop_last()), keys.last())
    }
}

/// A new key is recent.
pub proof fn lemma_new_key_recent(c: ReplayCacheView, key: Seq<char>)
    requires
        cache_consistent(c),
        c.capacity > 0,
        !c.seen.contains(key),
    ensures
        recent(remembered(c, key), key, 0),
        remembered(c, key).capacity == c.capacity,
{
    law_replay_is_refused(c, key);
    lemma_capacity_kept(c, key);
    let after = remembered(c, key);
    assert(after.order[after.order.len() - 1] == key);
}

/// A recent key stays while fewer keys than fit come after it.
pub proof fn lemma_recent_kept(c: ReplayCacheView, key: Seq<char>, later: nat, new: Seq<char>)
    requires
        recent(c, key, later),
        later + 1 < c.capacity,
    ensures
        recent(remembered(c, new), key, later + 1),
        remembered(c, new).capacity == c.capacity,
{
    law_replay_is_refused(c, new);
    lemma_capacity_kept(c, new);
    let after = remembered(c, new);
    let i = choose|i: int|
        0 <= i < c.order.len() && #[trigger] c.order[i] == key && c.order.len() - 1 - i <= later;
    if c.seen.contains(new) || c.order.len() < c.capacity {
        assert(after.order[i] == key);
    } else {
        assert(after.order[i - 1] == key);
    }
}

/// A recent key is remembered.
pub proof fn lemma_recent_seen(c: ReplayCacheView, key: Seq<char>, later: nat)
    requires
        recent(c, key, later),
    ensures
        c.seen.contains(key),
{
    assert(c.order.contains(key));
    assert(c.order.to_set().contains(key));
}

/// A key that was new stays remembered, and so is refused, while fewer keys than fit are offered
/// after it.
pub proof fn law_keys_are_refused_for_long(
    c: ReplayCacheView,
    key: Seq<char>,
    later: Seq<Seq<char>>,
)
    requires
        cache_consistent(c),
        !c.seen.contains(key),
        later.len() < c.capacity,
    ensures
        recent(remembered_all(remembered(c, key), later), key, later.len()),
        remembered_all(remembered(c, key), later).seen.contains(key),
        remembered_all(remembered(c, key), later).capacity == c.capacity,
    decreases later.len(),
{
    let first = remembered(c, key);
    if later.len() == 0 {
        lemma_new_key_recent(c, key);
    } else {
        let init = later.drop_last();
        law_keys_are_refused_for_long(c, key, init);
        lemma_recent_kept(remembered_all(first, init), key, init.len(), later.last());
    }
    lemma_recent_seen(remembered_all(first, later), key, later.len());
}

/// Forgetting keeps the capacity.
proof fn lemma_evicted_capacity(c: ReplayCacheView)
    ensures
        evicted(c).capacity == c.capacity,
    decreases c.order.len(),
{
    if c.order.len() > c.capacity {
        lemma_evicted_capacity(
            ReplayCacheView {
                seen: c.seen.remove(c.order[0]),
                order: c.order.drop_first(),
                capacity: c.capacity,
            },
        );
    }
}

/// Offering a key keeps the capacity.
pub proof fn lemma_capacity_kept(c: ReplayCacheView, key: Seq<char>)
    ensures
        remembered(c, key).capacity == c.capacity,
{
    if !c.seen.contains(key) {
        lemma_evicted_capacity(
            ReplayCacheView {
                seen: c.seen.insert(key),
                order: c.order.push(key),
                capacity: c.capacity,
            },
        );
    }
}

/// A room remembers 4096 messages: a key is refused while fewer than that many others come after it.
pub proof fn law_rooms_remember_many(key: Seq<char>, later: Seq<Seq<char>>)
    requires
        later.len() < 4096,
    ensures
        remembered_all(remembered(empty_cache(REPLAY_CAPACITY), key), later).seen.contains(key),
{
    law_empty_cache_consistent(REPLAY_CAPACITY);
    law_keys_are_refused_for_long(empty_cache(REPLAY_CAPACITY), key, later);
}

} // verus!
