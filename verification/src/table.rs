//! Sets and maps keyed by texts, kept in ascending order.

use crate::text;
use crate::text::copy_strings;
use crate::text::Rank;
use crate::text::rank_texts;
use vstd::prelude::*;

verus! {

/// Every text comes strictly before the texts that follow it.
pub open spec fn ascending(s: Seq<Seq<char>>) -> bool {
    forall|i: int, j: int| 0 <= i < j < s.len() ==> text::text_before(#[trigger] s[i], #[trigger] s[j])
}

/// The texts of a finite set in ascending order.
pub open spec fn sorted_texts(set: Set<Seq<char>>) -> Seq<Seq<char>> {
    choose|s: Seq<Seq<char>>| ascending(s) && #[trigger] s.to_set() == set
}

/// Two ascending lists with the same members are the same list.
pub proof fn lemma_ascending_unique(a: Seq<Seq<char>>, b: Seq<Seq<char>>)
    requires
        ascending(a),
        ascending(b),
        a.to_set() == b.to_set(),
    ensures
        a == b,
    decreases a.len(),
{
    assert forall|x: Seq<char>| a.contains(x) == b.contains(x) by {
        assert(a.to_set().contains(x) == a.contains(x));
        assert(b.to_set().contains(x) == b.contains(x));
    }
    if a.len() == 0 {
        if b.len() > 0 {
            assert(b.contains(b[0]));
        }
        assert(a =~= b);
    } else {
        assert(a.contains(a[a.len() - 1]));
        let j = choose|j: int| 0 <= j < b.len() && b[j] == a[a.len() - 1];
        assert(b.contains(b[b.len() - 1]));
        let i = choose|i: int| 0 <= i < a.len() && a[i] == b[b.len() - 1];
        if j < b.len() - 1 {
            assert(text::text_before(b[j], b[b.len() - 1]));
            if i < a.len() - 1 {
                assert(text::text_before(a[i], a[a.len() - 1]));
                text::lemma_text_before_transitive(a[i], b[j], a[i]);
            }
            text::lemma_text_before_irreflexive(a[i]);
        }
        let a0 = a.drop_last();
        let b0 = b.drop_last();
        assert forall|x: Seq<char>| a0.to_set().contains(x) == b0.to_set().contains(x) by {
            let last = a.last();
            assert(a0.contains(x) == (a.contains(x) && x != last)) by {
                if a0.contains(x) {
                    let k = choose|k: int| 0 <= k < a0.len() && a0[k] == x;
                    assert(a[k] == x);
                    assert(text::text_before(a[k], a[a.len() - 1]));
                    if x == last {
                        text::lemma_text_before_irreflexive(x);
                    }
                }
                if a.contains(x) && x != last {
                    let k = choose|k: int| 0 <= k < a.len() && a[k] == x;
                    assert(a0[k] == x);
                }
            }
            assert(b0.contains(x) == (b.contains(x) && x != last)) by {
                if b0.contains(x) {
                    let k = choose|k: int| 0 <= k < b0.len() && b0[k] == x;
                    assert(b[k] == x);
                    assert(text::text_before(b[k], b[b.len() - 1]));
                    if x == last {
                        text::lemma_text_before_irreflexive(x);
                    }
                }
                if b.contains(x) && x != last {
                    let k = choose|k: int| 0 <= k < b.len() && b[k] == x;
                    assert(b0[k] == x);
                }
            }
        }
        assert(a0.to_set() =~= b0.to_set());
        lemma_ascending_unique(a0, b0);
        assert(a =~= a0.push(a.last()));
        assert(b =~= b0.push(b.last()));
    }
}

/// An ascending list is what sorting its members gives.
pub proof fn lemma_sorted_is(s: Seq<Seq<char>>)
    requires
        ascending(s),
    ensures
        sorted_texts(s.to_set()) == s,
{
    let t = sorted_texts(s.to_set());
    assert(ascending(t) && t.to_set() == s.to_set());
    lemma_ascending_unique(s, t);
}

/// Every list has an ascending list with the same members.
pub proof fn lemma_sorting(s: Seq<Seq<char>>)
    ensures
        ascending(sorted_texts(s.to_set())),
        sorted_texts(s.to_set()).to_set() == s.to_set(),
    decreases s.len(),
{
    if s.len() == 0 {
        assert(ascending(s));
    } else {
        let head = s.drop_last();
        lemma_sorting(head);
        let t = sorted_texts(head.to_set());
        let x = s.last();
        assert(s =~= head.push(x));
        lemma_push_to_set(head, x);
        if t.contains(x) {
            assert(t.to_set().contains(x));
            assert(s.to_set() =~= t.to_set());
        } else {
            let u = lemma_insert_ascending(t, x);
            assert(ascending(u) && u.to_set() == s.to_set());
        }
    }
}

/// Every finite set of texts can be listed in ascending order.
pub proof fn lemma_sorting_set(set: Set<Seq<char>>)
    requires
        set.finite(),
    ensures
        ascending(sorted_texts(set)),
        sorted_texts(set).to_set() == set,
    decreases set.len(),
{
    if set.len() == 0 {
        assert(set =~= Seq::<Seq<char>>::empty().to_set());
        lemma_sorting(Seq::empty());
    } else {
        let x = set.choose();
        let rest = set.remove(x);
        lemma_sorting_set(rest);
        let longer = sorted_texts(rest).push(x);
        lemma_push_to_set(sorted_texts(rest), x);
        assert(set =~= longer.to_set());
        lemma_sorting(longer);
    }
}

/// A new text can be put into an ascending list.
proof fn lemma_insert_ascending(t: Seq<Seq<char>>, x: Seq<char>) -> (u: Seq<Seq<char>>)
    requires
        ascending(t),
        !t.contains(x),
    ensures
        ascending(u),
        u.to_set() == t.to_set().insert(x),
    decreases t.len(),
{
    if t.len() == 0 {
        let u = t.push(x);
        lemma_push_to_set(t, x);
        u
    } else {
        let last = t.last();
        let head = t.drop_last();
        assert(t =~= head.push(last));
        assert(t.contains(last)) by {
            assert(t[t.len() - 1] == last);
        }
        text::lemma_text_before_total(last, x);
        if text::text_before(last, x) {
            assert forall|i: int| 0 <= i < t.len() implies text::text_before(#[trigger] t[i], x) by {
                if i < t.len() - 1 {
                    text::lemma_text_before_transitive(t[i], t[t.len() - 1], x);
                }
            }
            lemma_push_to_set(t, x);
            t.push(x)
        } else {
            assert(!head.contains(x)) by {
                if head.contains(x) {
                    let k = choose|k: int| 0 <= k < head.len() && head[k] == x;
                    assert(t[k] == x);
                }
            }
            let v = lemma_insert_ascending(head, x);
            let u = v.push(last);
            assert forall|i: int| 0 <= i < v.len() implies text::text_before(#[trigger] v[i], last) by {
                assert(v.to_set().contains(v[i])) by {
                    assert(v.contains(v[i]));
                }
                assert(head.to_set().contains(v[i]) || v[i] == x);
                if v[i] != x {
                    assert(head.contains(v[i]));
                    let k = choose|k: int| 0 <= k < head.len() && head[k] == v[i];
                    assert(text::text_before(t[k], t[t.len() - 1]));
                }
            }
            assert(ascending(u));
            lemma_push_to_set(v, last);
            lemma_push_to_set(head, last);
            assert(u.to_set() =~= t.to_set().insert(x));
            u
        }
    }
}

/// An ascending list has as many items as members.
pub proof fn lemma_ascending_len(s: Seq<Seq<char>>)
    requires
        ascending(s),
    ensures
        s.no_duplicates(),
        s.to_set().len() == s.len(),
        s.to_set().finite(),
{
    assert forall|i: int, j: int| 0 <= i < s.len() && 0 <= j < s.len() && i != j implies s[i]
        != s[j] by {
        if s[i] == s[j] {
            if i < j {
                assert(text::text_before(s[i], s[j]));
            } else {
                assert(text::text_before(s[j], s[i]));
            }
            text::lemma_text_before_irreflexive(s[i]);
        }
    }
    s.unique_seq_to_set();
    vstd::seq_lib::seq_to_set_is_finite(s);
}

/// Where a text stands in an ascending list, or where it would be put.
fn locate(list: &Vec<String>, text: &str) -> (res: (usize, bool))
    requires
        ascending(text::texts(list@)),
    ensures
        res.0 <= list@.len(),
        res.1 ==> res.0 < list@.len() && text::texts(list@)[res.0 as int] == text@,
        forall|i: int| 0 <= i < res.0 ==> text::text_before(#[trigger] text::texts(list@)[i], text@),
        !res.1 ==> forall|i: int|
            res.0 <= i < list@.len() ==> text::text_before(text@, #[trigger] text::texts(list@)[i]),
        res.1 == text::texts(list@).contains(text@),
{
    let mut i: usize = 0;
    while i < list.len()
        invariant
            i <= list@.len(),
            ascending(text::texts(list@)),
            forall|j: int| 0 <= j < i ==> text::text_before(#[trigger] text::texts(list@)[j], text@),
        decreases list.len() - i,
    {
        match rank_texts(list[i].as_str(), text) {
            Rank::Before => {
                i = i + 1;
            },
            Rank::Same => {
                assert(text::texts(list@)[i as int] == text@);
                return (i, true);
            },
            Rank::After => {
                proof {
                    assert forall|j: int| i <= j < list@.len() implies text::text_before(
                        text@,
                        #[trigger] text::texts(list@)[j],
                    ) by {
                        if j > i {
                            text::lemma_text_before_transitive(
                                text@,
                                text::texts(list@)[i as int],
                                text::texts(list@)[j],
                            );
                        }
                    }
                    if text::texts(list@).contains(text@) {
                        let j = choose|j: int| 0 <= j < list@.len() && text::texts(list@)[j] == text@;
                        text::lemma_text_before_irreflexive(text@);
                    }
                }
                return (i, false);
            },
        }
    }
    proof {
        if text::texts(list@).contains(text@) {
            let j = choose|j: int| 0 <= j < list@.len() && text::texts(list@)[j] == text@;
            text::lemma_text_before_irreflexive(text@);
        }
    }
    (i, false)
}

/// The members of a [`TextSet`].
pub type TextSetView = Set<Seq<char>>;

/// A set of texts.
pub struct TextSet {
    items: Vec<String>,
}

impl View for TextSet {
    type V = Set<Seq<char>>;

    closed spec fn view(&self) -> Set<Seq<char>> {
        text::texts(self.items@).to_set()
    }
}

impl TextSet {
    #[verifier::type_invariant]
    spec fn ordered(self) -> bool {
        ascending(text::texts(self.items@))
    }

    /// The empty set.
    pub fn new() -> (res: TextSet)
        ensures
            res@ == Set::<Seq<char>>::empty(),
    {
        let res = TextSet { items: Vec::new() };
        assert(res@ =~= Set::<Seq<char>>::empty());
        res
    }

    /// Decide membership.
    pub fn contains(&self, text: &str) -> (res: bool)
        ensures
            res == self@.contains(text@),
    {
        proof {
            use_type_invariant(self);
        }
        locate(&self.items, text).1
    }

    /// The number of members.
    pub fn len(&self) -> (res: usize)
        ensures
            res == self@.len(),
            self@.finite(),
    {
        proof {
            use_type_invariant(self);
            lemma_ascending_len(text::texts(self.items@));
        }
        self.items.len()
    }

    /// Add a member; the result tells whether it was absent.
    pub fn insert(&mut self, text: &str) -> (res: bool)
        ensures
            res == !old(self)@.contains(text@),
            final(self)@ == old(self)@.insert(text@),
    {
        proof {
            use_type_invariant(&*self);
        }
        let (at, found) = locate(&self.items, text);
        if found {
            assert(old(self)@.insert(text@) =~= old(self)@);
            return false;
        }
        let ghost before = text::texts(self.items@);
        let mut items: Vec<String> = Vec::new();
        std::mem::swap(&mut items, &mut self.items);
        items.insert(at, text.to_owned());
        proof {
            let after = text::texts(items@);
            assert(after =~= before.insert(at as int, text@));
            assert(ascending(after));
            assert forall|x: Seq<char>| after.contains(x) == (before.contains(x) || x == text@) by {
                if after.contains(x) {
                    let k = choose|k: int| 0 <= k < after.len() && after[k] == x;
                    if k < at {
                        assert(before[k] == x);
                    } else if k > at {
                        assert(before[k - 1] == x);
                    }
                }
                if before.contains(x) {
                    let k = choose|k: int| 0 <= k < before.len() && before[k] == x;
                    if k < at {
                        assert(after[k] == x);
                    } else {
                        assert(after[k + 1] == x);
                    }
                }
                if x == text@ {
                    assert(after[at as int] == x);
                }
            }
            assert(after.to_set() =~= before.to_set().insert(text@));
        }
        self.items = items;
        true
    }

    /// Remove a member; the result tells whether it was present.
    pub fn remove(&mut self, text: &str) -> (res: bool)
        ensures
            res == old(self)@.contains(text@),
            final(self)@ == old(self)@.remove(text@),
    {
        proof {
            use_type_invariant(&*self);
        }
        let (at, found) = locate(&self.items, text);
        if !found {
            assert(old(self)@.remove(text@) =~= old(self)@);
            return false;
        }
        let ghost before = text::texts(self.items@);
        let mut items: Vec<String> = Vec::new();
        std::mem::swap(&mut items, &mut self.items);
        let _ = items.remove(at);
        proof {
            let after = text::texts(items@);
            assert(after =~= before.remove(at as int));
            assert(ascending(after));
            lemma_ascending_len(before);
            assert forall|x: Seq<char>| after.contains(x) == (before.contains(x) && x != text@) by {
                if after.contains(x) {
                    let k = choose|k: int| 0 <= k < after.len() && after[k] == x;
                    if k < at {
                        assert(before[k] == x);
                    } else {
                        assert(before[k + 1] == x);
                    }
                }
                if before.contains(x) && x != text@ {
                    let k = choose|k: int| 0 <= k < before.len() && before[k] == x;
                    if k < at {
                        assert(after[k] == x);
                    } else {
                        assert(after[k - 1] == x);
                    }
                }
            }
            assert(after.to_set() =~= before.to_set().remove(text@));
        }
        self.items = items;
        true
    }

    /// The members in ascending order.
    pub fn to_list(&self) -> (res: Vec<String>)
        ensures
            self@.finite(),
            text::texts(res@) == sorted_texts(self@),
            ascending(text::texts(res@)),
            text::texts(res@).to_set() == self@,
    {
        proof {
            use_type_invariant(self);
            lemma_sorted_is(text::texts(self.items@));
            lemma_ascending_len(text::texts(self.items@));
        }
        copy_strings(&self.items)
    }

    /// The set of the texts in a list.
    pub fn from_list(list: &Vec<String>) -> (res: TextSet)
        ensures
            res@ == text::texts(list@).to_set(),
    {
        let mut res = TextSet::new();
        let mut i: usize = 0;
        assert(text::texts(list@).take(0).to_set() =~= Set::<Seq<char>>::empty());
        while i < list.len()
            invariant
                i <= list@.len(),
                res@ == text::texts(list@).take(i as int).to_set(),
            decreases list.len() - i,
        {
            let _ = res.insert(list[i].as_str());
            i = i + 1;
            proof {
                let all = text::texts(list@);
                assert(all.take(i as int) =~= all.take(i - 1).push(all[i - 1]));
                lemma_push_to_set(all.take(i - 1), all[i - 1]);
            }
        }
        assert(text::texts(list@).take(i as int) =~= text::texts(list@));
        res
    }

    /// Copy this set.
    pub fn duplicate(&self) -> (res: TextSet)
        ensures
            res@ == self@,
    {
        proof {
            use_type_invariant(self);
        }
        TextSet { items: copy_strings(&self.items) }
    }
}

/// Appending an item adds it to the members.
pub proof fn lemma_push_to_set(s: Seq<Seq<char>>, x: Seq<char>)
    ensures
        s.push(x).to_set() == s.to_set().insert(x),
{
    s.lemma_push_to_set_commute(x);
}

/// Parallel lists of keys and values.
struct Slots<V> {
    keys: Vec<String>,
    vals: Vec<V>,
}

/// The map that parallel lists of keys and values describe.
spec fn slots_map<V: View>(slots: Slots<V>) -> Map<Seq<char>, V::V> {
    Map::new(
        |k: Seq<char>| text::texts(slots.keys@).contains(k),
        |k: Seq<char>| slots.vals@[text::texts(slots.keys@).index_of(k)]@,
    )
}

/// The key at a place of an ascending list is found at that place.
proof fn lemma_index_of(s: Seq<Seq<char>>, i: int)
    requires
        ascending(s),
        0 <= i < s.len(),
    ensures
        s.index_of(s[i]) == i,
{
    lemma_ascending_len(s);
    let k = s.index_of(s[i]);
    assert(s.contains(s[i]));
    assert(0 <= k < s.len() && s[k] == s[i]);
}

/// A map from texts to values.
pub struct TextMap<V> {
    slots: Slots<V>,
}

impl<V: View> View for TextMap<V> {
    type V = Map<Seq<char>, V::V>;

    closed spec fn view(&self) -> Map<Seq<char>, V::V> {
        slots_map(self.slots)
    }
}

impl<V> TextMap<V> {
    #[verifier::type_invariant]
    spec fn ordered(self) -> bool {
        &&& ascending(text::texts(self.slots.keys@))
        &&& self.slots.keys@.len() == self.slots.vals@.len()
    }
}

impl<V: View> TextMap<V> {
    /// The empty map.
    pub fn new() -> (res: TextMap<V>)
        ensures
            res@ == Map::<Seq<char>, V::V>::empty(),
    {
        let res = TextMap { slots: Slots { keys: Vec::new(), vals: Vec::new() } };
        assert(res@ =~= Map::<Seq<char>, V::V>::empty());
        res
    }

    /// The number of keys.
    pub fn len(&self) -> (res: usize)
        ensures
            res == self@.dom().len(),
            res == sorted_texts(self@.dom()).len(),
            self@.dom().finite(),
    {
        proof {
            use_type_invariant(self);
            lemma_ascending_len(text::texts(self.slots.keys@));
            lemma_sorted_is(text::texts(self.slots.keys@));
            assert(self@.dom() =~= text::texts(self.slots.keys@).to_set());
        }
        self.slots.keys.len()
    }

    /// Decide whether a key is present.
    pub fn contains_key(&self, key: &str) -> (res: bool)
        ensures
            res == self@.contains_key(key@),
    {
        proof {
            use_type_invariant(self);
        }
        locate(&self.slots.keys, key).1
    }

    /// Look up a key.
    pub fn get(&self, key: &str) -> (res: Option<&V>)
        ensures
            match res {
                Some(v) => self@.contains_key(key@) && v@ == self@[key@],
                None => !self@.contains_key(key@),
            },
    {
        proof {
            use_type_invariant(self);
        }
        let (at, found) = locate(&self.slots.keys, key);
        if found {
            proof {
                lemma_index_of(text::texts(self.slots.keys@), at as int);
            }
            Some(&self.slots.vals[at])
        } else {
            None
        }
    }

    /// Bind a key to a value.
    pub fn insert(&mut self, key: &str, val: V)
        ensures
            final(self)@ == old(self)@.insert(key@, val@),
    {
        proof {
            use_type_invariant(&*self);
        }
        let ghost before = self.slots;
        let ghost target = self@.insert(key@, val@);
        let (at, found) = locate(&self.slots.keys, key);
        let mut slots: Slots<V> = Slots { keys: Vec::new(), vals: Vec::new() };
        std::mem::swap(&mut slots, &mut self.slots);
        let mut keys = slots.keys;
        let mut vals = slots.vals;
        if found {
            vals.set(at, val);
            proof {
                let ks = text::texts(keys@);
                let after = Slots { keys, vals };
                assert forall|k: Seq<char>| #[trigger]
                    slots_map(after).contains_key(k) implies slots_map(after)[k] == target[k] by {
                    let i = ks.index_of(k);
                    assert(ks.contains(k));
                    assert(0 <= i < ks.len() && ks[i] == k);
                    lemma_index_of(ks, at as int);
                }
                assert(slots_map(after).dom() =~= target.dom());
                assert(slots_map(after) =~= target);
            }
        } else {
            keys.insert(at, key.to_owned());
            vals.insert(at, val);
            proof {
                let old_keys = text::texts(before.keys@);
                let ks = text::texts(keys@);
                let after = Slots { keys, vals };
                assert(ks =~= old_keys.insert(at as int, key@));
                assert(ascending(ks));
                assert forall|k: Seq<char>| ks.contains(k) == (old_keys.contains(k) || k == key@) by {
                    if ks.contains(k) {
                        let i = choose|i: int| 0 <= i < ks.len() && ks[i] == k;
                        if i < at {
                            assert(old_keys[i] == k);
                        } else if i > at {
                            assert(old_keys[i - 1] == k);
                        }
                    }
                    if old_keys.contains(k) {
                        let i = choose|i: int| 0 <= i < old_keys.len() && old_keys[i] == k;
                        if i < at {
                            assert(ks[i] == k);
                        } else {
                            assert(ks[i + 1] == k);
                        }
                    }
                    if k == key@ {
                        assert(ks[at as int] == k);
                    }
                }
                assert forall|k: Seq<char>| #[trigger]
                    slots_map(after).contains_key(k) implies slots_map(after)[k] == target[k] by {
                    assert(ks.contains(k));
                    let i = choose|i: int| 0 <= i < ks.len() && ks[i] == k;
                    lemma_index_of(ks, i);
                    if i < at {
                        assert(old_keys[i] == k);
                        lemma_index_of(old_keys, i);
                    } else if i > at {
                        assert(old_keys[i - 1] == k);
                        lemma_index_of(old_keys, i - 1);
                    }
                }
                assert(slots_map(after).dom() =~= target.dom());
                assert(slots_map(after) =~= target);
            }
        }
        self.slots = Slots { keys, vals };
    }

    /// Unbind a key and return its value.
    pub fn remove(&mut self, key: &str) -> (res: Option<V>)
        ensures
            final(self)@ == old(self)@.remove(key@),
            match res {
                Some(v) => old(self)@.contains_key(key@) && v@ == old(self)@[key@],
                None => !old(self)@.contains_key(key@),
            },
    {
        proof {
            use_type_invariant(&*self);
        }
        let ghost before = self.slots;
        let ghost target = self@.remove(key@);
        let (at, found) = locate(&self.slots.keys, key);
        if !found {
            assert(target =~= self@);
            return None;
        }
        let mut slots: Slots<V> = Slots { keys: Vec::new(), vals: Vec::new() };
        std::mem::swap(&mut slots, &mut self.slots);
        let mut keys = slots.keys;
        let mut vals = slots.vals;
        let _ = keys.remove(at);
        let val = vals.remove(at);
        proof {
            let old_keys = text::texts(before.keys@);
            lemma_index_of(old_keys, at as int);
            let ks = text::texts(keys@);
            let after = Slots { keys, vals };
            assert(ks =~= old_keys.remove(at as int));
            assert(ascending(ks));
            assert forall|k: Seq<char>| ks.contains(k) == (old_keys.contains(k) && k != key@) by {
                if ks.contains(k) {
                    let i = choose|i: int| 0 <= i < ks.len() && ks[i] == k;
                    lemma_ascending_len(old_keys);
                    if i < at {
                        assert(old_keys[i] == k);
                    } else {
                        assert(old_keys[i + 1] == k);
                    }
                }
                if old_keys.contains(k) && k != key@ {
                    let i = choose|i: int| 0 <= i < old_keys.len() && old_keys[i] == k;
                    if i < at {
                        assert(ks[i] == k);
                    } else {
                        assert(ks[i - 1] == k);
                    }
                }
            }
            assert forall|k: Seq<char>| #[trigger] slots_map(after).contains_key(k) implies slots_map(
                after,
            )[k] == target[k] by {
                assert(ks.contains(k));
                let i = choose|i: int| 0 <= i < ks.len() && ks[i] == k;
                lemma_index_of(ks, i);
                if i < at {
                    assert(old_keys[i] == k);
                    lemma_index_of(old_keys, i);
                } else {
                    assert(old_keys[i + 1] == k);
                    lemma_index_of(old_keys, i + 1);
                }
            }
            assert(slots_map(after).dom() =~= target.dom());
            assert(slots_map(after) =~= target);
        }
        self.slots = Slots { keys, vals };
        Some(val)
    }

    /// The keys in ascending order.
    pub fn keys(&self) -> (res: Vec<String>)
        ensures
            text::texts(res@) == sorted_texts(self@.dom()),
            text::texts(res@).to_set() == self@.dom(),
    {
        proof {
            use_type_invariant(self);
            lemma_sorted_is(text::texts(self.slots.keys@));
            assert(self@.dom() =~= text::texts(self.slots.keys@).to_set());
        }
        copy_strings(&self.slots.keys)
    }

    /// The value of the key at a place of the ascending order.
    pub fn nth(&self, i: usize) -> (res: &V)
        requires
            i < sorted_texts(self@.dom()).len(),
        ensures
            res@ == self@[sorted_texts(self@.dom())[i as int]],
            self@.contains_key(sorted_texts(self@.dom())[i as int]),
    {
        proof {
            use_type_invariant(self);
            let ks = text::texts(self.slots.keys@);
            lemma_sorted_is(ks);
            assert(self@.dom() =~= ks.to_set());
            lemma_index_of(ks, i as int);
            assert(ks.contains(ks[i as int]));
        }
        &self.slots.vals[i]
    }

    /// Unbind every key.
    pub fn clear(&mut self)
        ensures
            final(self)@ == Map::<Seq<char>, V::V>::empty(),
    {
        self.slots = Slots { keys: Vec::new(), vals: Vec::new() };
        assert(self@ =~= Map::<Seq<char>, V::V>::empty());
    }
}

/// The values of a map in the ascending order of its keys.
pub open spec fn sorted_values<T>(m: Map<Seq<char>, T>) -> Seq<T> {
    sorted_texts(m.dom()).map_values(|k: Seq<char>| m[k])
}

/// Choosing from a list keeps what is wanted, and makes no duplicates.
pub proof fn lemma_chosen(s: Seq<Seq<char>>, wanted: spec_fn(Seq<char>) -> bool, x: Seq<char>)
    ensures
        s.filter(wanted).contains(x) <==> s.contains(x) && wanted(x),
        s.no_duplicates() ==> s.filter(wanted).no_duplicates(),
    decreases s.len(),
{
    reveal(Seq::filter);
    if s.len() > 0 {
        let init = s.drop_last();
        let chosen = init.filter(wanted);
        lemma_chosen(init, wanted, x);
        lemma_chosen(init, wanted, s.last());
        assert(s =~= init.push(s.last()));
        assert(s.contains(x) <==> init.contains(x) || x == s.last()) by {
            if init.contains(x) {
                let i = choose|i: int| 0 <= i < init.len() && init[i] == x;
                assert(s[i] == x);
            }
            if s.contains(x) && x != s.last() {
                let i = choose|i: int| 0 <= i < s.len() && s[i] == x;
                assert(init[i] == x);
            }
            assert(s[s.len() - 1] == s.last());
        }
        if wanted(s.last()) {
            let longer = chosen.push(s.last());
            assert(longer.contains(x) <==> chosen.contains(x) || x == s.last()) by {
                if chosen.contains(x) {
                    let i = choose|i: int| 0 <= i < chosen.len() && chosen[i] == x;
                    assert(longer[i] == x);
                }
                if longer.contains(x) && x != s.last() {
                    let i = choose|i: int| 0 <= i < longer.len() && longer[i] == x;
                    assert(chosen[i] == x);
                }
                assert(longer[longer.len() - 1] == s.last());
            }
        }
        if s.no_duplicates() {
            assert(init.no_duplicates());
            if init.contains(s.last()) {
                let i = choose|i: int| 0 <= i < init.len() && init[i] == s.last();
                assert(s[i] == s[s.len() - 1]);
            }
        }
    }
}

} // verus!
