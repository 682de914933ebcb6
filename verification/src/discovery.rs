//! The directory of peers that a bootstrap node keeps.

use crate::protocol::PeerAdvertisement;
use crate::protocol::PeerAdvertisementView;
use crate::table;
use crate::table::TextMap;
use crate::text;
use crate::text::cat2;
use crate::text::cat3;
use crate::text::chars_of;
use crate::text::copy_opt;
use crate::text::same_text;
use crate::text::trim;
use vstd::prelude::*;

verus! {

/// The answer to a query for a peer.
#[derive(Debug, Clone, PartialEq, Eq)]
pub struct DiscoveryResolution {
    pub query: String,
    pub found: bool,
    pub advertisement: Option<PeerAdvertisement>,
    pub reason: Option<String>,
}

/// The plain values held by a [`DiscoveryResolution`].
#[verifier::ext_equal]
pub struct DiscoveryResolutionView {
    pub query: Seq<char>,
    pub found: bool,
    pub advertisement: Option<PeerAdvertisementView>,
    pub reason: Option<Seq<char>>,
}

impl View for DiscoveryResolution {
    type V = DiscoveryResolutionView;

    open spec fn view(&self) -> DiscoveryResolutionView {
        DiscoveryResolutionView {
            query: self.query@,
            found: self.found,
            advertisement: (match self.advertisement { Some(x) => Some(x@), None => None }),
            reason: text::opt_text(self.reason),
        }
    }
}

/// The advertisements of peers, and which peer an alias belongs to.
pub struct DiscoveryDirectory {
    by_peer_id: TextMap<PeerAdvertisement>,
    alias_to_peer_id: TextMap<String>,
}

/// The plain values held by a [`DiscoveryDirectory`].
#[verifier::ext_equal]
pub struct DiscoveryDirectoryView {
    pub by_peer_id: Map<Seq<char>, PeerAdvertisementView>,
    pub alias_to_peer_id: Map<Seq<char>, Seq<char>>,
}

impl View for DiscoveryDirectory {
    type V = DiscoveryDirectoryView;

    closed spec fn view(&self) -> DiscoveryDirectoryView {
        DiscoveryDirectoryView {
            by_peer_id: self.by_peer_id@,
            alias_to_peer_id: self.alias_to_peer_id@,
        }
    }
}

/// The empty directory.
pub open spec fn empty_directory() -> DiscoveryDirectoryView {
    DiscoveryDirectoryView { by_peer_id: Map::empty(), alias_to_peer_id: Map::empty() }
}

/// An alias belongs to one of a set of peers that advertise it.
pub open spec fn alias_dies(d: DiscoveryDirectoryView, dead: Set<Seq<char>>, alias: Seq<char>) -> bool {
    let peer_id = d.alias_to_peer_id[alias];
    dead.contains(peer_id) && d.by_peer_id.contains_key(peer_id)
        && d.by_peer_id[peer_id].alias == Some(alias)
}

/// A directory without a set of peers and their aliases.
pub open spec fn without_peers(
    d: DiscoveryDirectoryView,
    dead: Set<Seq<char>>,
) -> DiscoveryDirectoryView {
    DiscoveryDirectoryView {
        by_peer_id: Map::new(
            |k: Seq<char>| d.by_peer_id.contains_key(k) && !dead.contains(k),
            |k: Seq<char>| d.by_peer_id[k],
        ),
        alias_to_peer_id: Map::new(
            |a: Seq<char>| d.alias_to_peer_id.contains_key(a) && !alias_dies(d, dead, a),
            |a: Seq<char>| d.alias_to_peer_id[a],
        ),
    }
}

/// The peers whose advertisements expired.
pub open spec fn expired_peers(d: DiscoveryDirectoryView, now_ms: u64) -> Set<Seq<char>> {
    Set::new(
        |k: Seq<char>| d.by_peer_id.contains_key(k) && d.by_peer_id[k].expires_at_ms <= now_ms,
    )
}

/// A directory without the advertisements that expired.
pub open spec fn cleaned(d: DiscoveryDirectoryView, now_ms: u64) -> DiscoveryDirectoryView {
    without_peers(d, expired_peers(d, now_ms))
}

/// Why an advertisement is refused, if it is.
pub open spec fn register_error(d: DiscoveryDirectoryView, advert: PeerAdvertisementView) -> Option<
    Seq<char>,
> {
    if text::trimmed(advert.peer_id).len() == 0 {
        Some("peer id cannot be empty"@)
    } else {
        match advert.alias {
            None => None,
            Some(alias) => if text::trimmed(alias).len() == 0 {
                Some("alias cannot be empty"@)
            } else if d.alias_to_peer_id.contains_key(alias) && d.alias_to_peer_id[alias]
                != advert.peer_id {
                Some("alias conflict for '"@ + alias + "'"@)
            } else {
                None
            },
        }
    }
}

/// A directory after an advertisement is registered.
pub open spec fn registered(
    d: DiscoveryDirectoryView,
    advert: PeerAdvertisementView,
) -> DiscoveryDirectoryView {
    let left = without_peers(d, Set::empty().insert(advert.peer_id));
    DiscoveryDirectoryView {
        by_peer_id: d.by_peer_id.insert(advert.peer_id, advert),
        alias_to_peer_id: match advert.alias {
            Some(alias) => left.alias_to_peer_id.insert(alias, advert.peer_id),
            None => left.alias_to_peer_id,
        },
    }
}

/// The answer to a query, for a directory without expired advertisements.
pub open spec fn resolution(d: DiscoveryDirectoryView, query: Seq<char>) -> DiscoveryResolutionView {
    if d.by_peer_id.contains_key(query) {
        DiscoveryResolutionView {
            query,
            found: true,
            advertisement: Some(d.by_peer_id[query]),
            reason: None,
        }
    } else if d.alias_to_peer_id.contains_key(query) && d.by_peer_id.contains_key(
        d.alias_to_peer_id[query],
    ) {
        DiscoveryResolutionView {
            query,
            found: true,
            advertisement: Some(d.by_peer_id[d.alias_to_peer_id[query]]),
            reason: None,
        }
    } else {
        DiscoveryResolutionView {
            query,
            found: false,
            advertisement: None,
            reason: Some("peer not found: no active advertisement for "@ + query),
        }
    }
}

/// The advertisements in the order of the peer ids.
pub open spec fn listing(d: DiscoveryDirectoryView) -> Seq<PeerAdvertisementView> {
    table::sorted_values(d.by_peer_id)
}

/// The views of a list of advertisements.
pub open spec fn advert_views(adverts: Seq<PeerAdvertisement>) -> Seq<PeerAdvertisementView> {
    adverts.map_values(|x: PeerAdvertisement| x@)
}

/// Removing one more peer.
proof fn lemma_one_more(d: DiscoveryDirectoryView, dead: Set<Seq<char>>, peer_id: Seq<char>)
    requires
        d.by_peer_id.contains_key(peer_id),
        !dead.contains(peer_id),
    ensures
        without_peers(without_peers(d, dead), Set::empty().insert(peer_id)) == without_peers(
            d,
            dead.insert(peer_id),
        ),
{
    let a = without_peers(without_peers(d, dead), Set::empty().insert(peer_id));
    let b = without_peers(d, dead.insert(peer_id));
    assert(a.by_peer_id =~= b.by_peer_id);
    assert(a.alias_to_peer_id =~= b.alias_to_peer_id);
}

impl DiscoveryDirectory {
    /// The empty directory.
    pub fn new() -> (res: DiscoveryDirectory)
        ensures
            res@ == empty_directory(),
    {
        DiscoveryDirectory { by_peer_id: TextMap::new(), alias_to_peer_id: TextMap::new() }
    }

    /// Remove a peer and the alias that belongs to it.
    fn remove_peer(&mut self, peer_id: &str)
        ensures
            final(self)@ == without_peers(old(self)@, Set::empty().insert(peer_id@)),
    {
        let ghost want = without_peers(self@, Set::empty().insert(peer_id@));
        let ghost before = self@;
        match self.by_peer_id.remove(peer_id) {
            Some(advert) => {
                if let Some(alias) = &advert.alias {
                    let owned = match self.alias_to_peer_id.get(alias.as_str()) {
                        Some(owner) => same_text(owner.as_str(), peer_id),
                        None => false,
                    };
                    if owned {
                        let _ = self.alias_to_peer_id.remove(alias.as_str());
                    }
                }
            },
            None => {},
        }
        assert(self@.by_peer_id =~= want.by_peer_id);
        assert(self@.alias_to_peer_id =~= want.alias_to_peer_id);
    }

    /// Remove the advertisements that expired.
    pub fn cleanup_expired(&mut self, now_ms: u64)
        ensures
            final(self)@ == cleaned(old(self)@, now_ms),
    {
        let ghost start = self@;
        let keys = self.by_peer_id.keys();
        let ghost all = text::texts(keys@);
        let ghost dead = Set::<Seq<char>>::empty();
        let mut i: usize = 0;
        proof {
            lemma_keys_distinct(keys@, start.by_peer_id);
            let same = without_peers(start, dead);
            assert(same.by_peer_id =~= start.by_peer_id);
            assert(same.alias_to_peer_id =~= start.alias_to_peer_id);
        }
        while i < keys.len()
            invariant
                i <= keys@.len(),
                all == text::texts(keys@),
                all.no_duplicates(),
                all.to_set() == start.by_peer_id.dom(),
                self@ == without_peers(start, dead),
                forall|k: Seq<char>| #[trigger]
                    dead.contains(k) <==> all.take(i as int).contains(k) && expired_peers(
                        start,
                        now_ms,
                    ).contains(k),
            decreases keys.len() - i,
        {
            let key = keys[i].as_str();
            proof {
                assert(key@ == all[i as int]);
                assert(all.contains(key@));
                assert(all.to_set().contains(key@));
                assert(start.by_peer_id.contains_key(key@));
                if dead.contains(key@) {
                    let k = choose|k: int| 0 <= k < i && all.take(i as int)[k] == key@;
                    assert(all[k] == all[i as int]);
                }
            }
            let expired = match self.by_peer_id.get(key) {
                Some(advert) => advert.expires_at_ms <= now_ms,
                None => false,
            };
            if expired {
                self.remove_peer(key);
            }
            proof {
                let next = if expired {
                    dead.insert(key@)
                } else {
                    dead
                };
                if expired {
                    lemma_one_more(start, dead, key@);
                }
                assert forall|k: Seq<char>| #[trigger]
                    next.contains(k) <==> all.take(i + 1).contains(k) && expired_peers(
                        start,
                        now_ms,
                    ).contains(k) by {
                    let longer = all.take(i + 1);
                    assert(longer =~= all.take(i as int).push(key@));
                    if all.take(i as int).contains(k) {
                        let j = choose|j: int| 0 <= j < i && all.take(i as int)[j] == k;
                        assert(longer[j] == k);
                    }
                    if all.take(i + 1).contains(k) && k != key@ {
                        let j = choose|j: int| 0 <= j < longer.len() && longer[j] == k;
                        assert(all.take(i as int)[j] == k);
                    }
                    if k == key@ {
                        assert(longer[i as int] == k);
                    }
                }
                dead = next;
            }
            i = i + 1;
        }
        proof {
            assert(all.take(i as int) =~= all);
            assert forall|k: Seq<char>| dead.contains(k) == expired_peers(
                start,
                now_ms,
            ).contains(k) by {
                if expired_peers(start, now_ms).contains(k) {
                    assert(all.to_set().contains(k));
                    assert(all.contains(k));
                }
            }
            assert(dead =~= expired_peers(start, now_ms));
        }
    }

    /// Register the advertisement of a peer.
    pub fn register(&mut self, advert: PeerAdvertisement) -> (res: Result<(), String>)
        ensures
            match res {
                Ok(_) => register_error(old(self)@, advert@) is None && final(self)@ == registered(
                    old(self)@,
                    advert@,
                ),
                Err(e) => register_error(old(self)@, advert@) == Some(e@) && final(self)@ == old(
                    self,
                )@,
            },
    {
        if chars_of(trim(advert.peer_id.as_str()).as_str()).len() == 0 {
            return Err("peer id cannot be empty".to_owned());
        }
        if let Some(alias) = &advert.alias {
            if chars_of(trim(alias.as_str()).as_str()).len() == 0 {
                return Err("alias cannot be empty".to_owned());
            }
            if let Some(owner) = self.alias_to_peer_id.get(alias.as_str()) {
                if !same_text(owner.as_str(), advert.peer_id.as_str()) {
                    return Err(cat3("alias conflict for '", alias.as_str(), "'"));
                }
            }
        }
        let ghost want = registered(self@, advert@);
        let peer_id = advert.peer_id.clone();
        let alias = copy_opt(&advert.alias);
        self.remove_peer(peer_id.as_str());
        self.by_peer_id.insert(peer_id.as_str(), advert);
        if let Some(alias) = alias {
            self.alias_to_peer_id.insert(alias.as_str(), peer_id);
        }
        assert(self@.by_peer_id =~= want.by_peer_id);
        assert(self@.alias_to_peer_id =~= want.alias_to_peer_id);
        Ok(())
    }

    /// Look a peer up by its id or its alias.
    pub fn resolve(&mut self, query: &str, now_ms: u64) -> (res: DiscoveryResolution)
        ensures
            final(self)@ == cleaned(old(self)@, now_ms),
            res@ == resolution(cleaned(old(self)@, now_ms), query@),
    {
        self.cleanup_expired(now_ms);
        if let Some(advert) = self.by_peer_id.get(query) {
            return DiscoveryResolution {
                query: query.to_owned(),
                found: true,
                advertisement: Some(advert.duplicate()),
                reason: None,
            };
        }
        if let Some(peer_id) = self.alias_to_peer_id.get(query) {
            if let Some(advert) = self.by_peer_id.get(peer_id.as_str()) {
                return DiscoveryResolution {
                    query: query.to_owned(),
                    found: true,
                    advertisement: Some(advert.duplicate()),
                    reason: None,
                };
            }
        }
        DiscoveryResolution {
            query: query.to_owned(),
            found: false,
            advertisement: None,
            reason: Some(cat2("peer not found: no active advertisement for ", query)),
        }
    }

    /// List the advertisements in the order of the peer ids.
    pub fn list(&mut self, now_ms: u64) -> (res: Vec<PeerAdvertisement>)
        ensures
            final(self)@ == cleaned(old(self)@, now_ms),
            advert_views(res@) == listing(cleaned(old(self)@, now_ms)),
    {
        self.cleanup_expired(now_ms);
        let n: usize = self.by_peer_id.len();
        let ghost all = listing(self@);
        let mut res: Vec<PeerAdvertisement> = Vec::new();
        let mut i: usize = 0;
        while i < n
            invariant
                i <= n == all.len(),
                n == table::sorted_texts(self.by_peer_id@.dom()).len(),
                all == table::sorted_values(self.by_peer_id@),
                self@ == cleaned(old(self)@, now_ms),
                res@.len() == i,
                forall|j: int| 0 <= j < i ==> (#[trigger] res@[j])@ == all[j],
            decreases n - i,
        {
            let advert = self.by_peer_id.nth(i).duplicate();
            assert(advert@ == all[i as int]);
            res.push(advert);
            i = i + 1;
        }
        assert(advert_views(res@) =~= all);
        res
    }
}

/// The keys of a map are listed once each.
proof fn lemma_keys_distinct<T>(keys: Seq<String>, m: Map<Seq<char>, T>)
    requires
        text::texts(keys) == table::sorted_texts(m.dom()),
        text::texts(keys).to_set() == m.dom(),
    ensures
        text::texts(keys).no_duplicates(),
{
    let s = text::texts(keys);
    table::lemma_sorting(s);
    assert forall|i: int, j: int| 0 <= i < s.len() && 0 <= j < s.len() && i != j implies s[i]
        != s[j] by {
        if s[i] == s[j] {
            if i < j {
                assert(text::text_before(s[i], s[j]));
            } else {
                assert(text::text_before(s[j], s[i]));
            }
            text::lemma_text_before_irreflexive(s[i]);
        }
    }
}

/// A peer advertises an alias.
pub open spec fn advertises(d: DiscoveryDirectoryView, peer_id: Seq<char>, alias: Seq<char>) -> bool {
    d.by_peer_id.contains_key(peer_id) && d.by_peer_id[peer_id].alias == Some(alias)
}

/// Advertisements are filed under their peer ids, and the index of aliases is exact: an alias
/// leads to a peer if and only if that peer advertises the alias.
pub open spec fn directory_sound(d: DiscoveryDirectoryView) -> bool {
    &&& forall|k: Seq<char>| #[trigger]
        d.by_peer_id.contains_key(k) ==> d.by_peer_id[k].peer_id == k
    &&& forall|a: Seq<char>| #[trigger]
        d.alias_to_peer_id.contains_key(a) ==> advertises(d, d.alias_to_peer_id[a], a)
    &&& forall|k: Seq<char>, a: Seq<char>| #[trigger]
        advertises(d, k, a) ==> d.alias_to_peer_id.contains_key(a) && d.alias_to_peer_id[a] == k
}

/// Registering and expiring keep the directory sound: no alias ever leads to a peer that does not
/// advertise it, and no two peers hold one alias.
pub proof fn law_directory_stays_sound(
    d: DiscoveryDirectoryView,
    advert: PeerAdvertisementView,
    now_ms: u64,
)
    requires
        directory_sound(d),
    ensures
        directory_sound(empty_directory()),
        directory_sound(cleaned(d, now_ms)),
        register_error(d, advert) is None ==> directory_sound(registered(d, advert)),
{
    let c = cleaned(d, now_ms);
    let dead = expired_peers(d, now_ms);
    assert forall|a: Seq<char>| #[trigger] c.alias_to_peer_id.contains_key(a) implies advertises(
        c,
        c.alias_to_peer_id[a],
        a,
    ) by {
        assert(d.alias_to_peer_id.contains_key(a));
        assert(advertises(d, d.alias_to_peer_id[a], a));
        assert(!alias_dies(d, dead, a));
    }
    assert forall|k: Seq<char>, a: Seq<char>| #[trigger] advertises(c, k, a) implies
        c.alias_to_peer_id.contains_key(a) && c.alias_to_peer_id[a] == k by {
        assert(advertises(d, k, a));
        assert(!alias_dies(d, dead, a));
    }
    if register_error(d, advert) is None {
        let r = registered(d, advert);
        let one = Set::empty().insert(advert.peer_id);
        assert forall|a: Seq<char>| #[trigger] r.alias_to_peer_id.contains_key(
            a,
        ) implies advertises(r, r.alias_to_peer_id[a], a) by {
            if advert.alias != Some(a) {
                assert(d.alias_to_peer_id.contains_key(a));
                assert(advertises(d, d.alias_to_peer_id[a], a));
                assert(!alias_dies(d, one, a));
            }
        }
        assert forall|k: Seq<char>, a: Seq<char>| #[trigger] advertises(r, k, a) implies
            r.alias_to_peer_id.contains_key(a) && r.alias_to_peer_id[a] == k by {
            if k != advert.peer_id {
                assert(advertises(d, k, a));
                assert(!alias_dies(d, one, a));
            }
        }
    }
}

/// A peer that registered is found by its id and by its alias until its advertisement expires,
/// and is not found any more once it expired.
pub proof fn law_registered_until_expiry(
    d: DiscoveryDirectoryView,
    advert: PeerAdvertisementView,
    now_ms: u64,
)
    requires
        directory_sound(d),
        register_error(d, advert) is None,
    ensures
        ({
            let c = cleaned(registered(d, advert), now_ms);
            if now_ms < advert.expires_at_ms {
                &&& resolution(c, advert.peer_id).advertisement == Some(advert)
                &&& resolution(c, advert.peer_id).found
                &&& match advert.alias {
                    Some(alias) => resolution(c, alias).found && (!d.by_peer_id.contains_key(alias)
                        ==> resolution(c, alias).advertisement == Some(advert)),
                    None => true,
                }
            } else {
                &&& !c.by_peer_id.contains_key(advert.peer_id)
                &&& match advert.alias {
                    Some(alias) => !c.alias_to_peer_id.contains_key(alias),
                    None => true,
                }
            }
        }),
{
    let r = registered(d, advert);
    law_directory_stays_sound(d, advert, now_ms);
    let c = cleaned(r, now_ms);
    let dead = expired_peers(r, now_ms);
    if let Some(alias) = advert.alias {
        assert(r.alias_to_peer_id.contains_key(alias));
        assert(r.alias_to_peer_id[alias] == advert.peer_id);
        assert(advertises(r, advert.peer_id, alias));
        assert(alias_dies(r, dead, alias) == dead.contains(advert.peer_id));
    }
}

/// An alias that leads to one peer is refused to another, and the refusal changes nothing.
pub proof fn law_alias_conflict(
    d: DiscoveryDirectoryView,
    advert: PeerAdvertisementView,
    alias: Seq<char>,
)
    requires
        advert.alias == Some(alias),
        d.alias_to_peer_id.contains_key(alias),
        d.alias_to_peer_id[alias] != advert.peer_id,
    ensures
        register_error(d, advert) is Some,
{
}

/// The listing of a sound directory holds every advertisement once, in ascending order of the
/// peer ids.
pub proof fn law_listing_is_ordered(d: DiscoveryDirectoryView, i: int, j: int)
    requires
        directory_sound(d),
        d.by_peer_id.dom().finite(),
        0 <= i < j < listing(d).len(),
    ensures
        text::text_before(listing(d)[i].peer_id, listing(d)[j].peer_id),
{
    let keys = table::sorted_texts(d.by_peer_id.dom());
    table::lemma_sorting_set(d.by_peer_id.dom());
    assert(keys.to_set().contains(keys[i])) by {
        assert(keys.contains(keys[i]));
    }
    assert(keys.to_set().contains(keys[j])) by {
        assert(keys.contains(keys[j]));
    }
    assert(d.by_peer_id.contains_key(keys[i]));
    assert(d.by_peer_id.contains_key(keys[j]));
}

/// An advertisement is accepted exactly if it names a peer, and names its alias, if it has one, and
/// no other peer holds that alias.
pub proof fn law_when_adverts_are_accepted(d: DiscoveryDirectoryView, advert: PeerAdvertisementView)
    requires
        directory_sound(d),
    ensures
        register_error(d, advert) is None <==> {
            &&& text::trimmed(advert.peer_id).len() > 0
            &&& advert.alias matches Some(alias) ==> text::trimmed(alias).len() > 0 && forall|
                peer: Seq<char>,
            | #[trigger] advertises(d, peer, alias) ==> peer == advert.peer_id
        },
{
    match advert.alias {
        Some(alias) => {
            if d.alias_to_peer_id.contains_key(alias) {
                assert(advertises(d, d.alias_to_peer_id[alias], alias));
            }
        },
        None => {},
    }
}

/// A search finds a peer exactly if the directory holds an advertisement with the id or the alias
/// that is looked for, and gives such an advertisement.
pub proof fn law_searches_find_what_is_advertised(d: DiscoveryDirectoryView, query: Seq<char>)
    requires
        directory_sound(d),
    ensures
        ({
            let answer = resolution(d, query);
            &&& answer.query == query
            &&& answer.found <==> d.by_peer_id.contains_key(query) || exists|peer: Seq<char>|
                #[trigger] advertises(d, peer, query)
            &&& answer.found <==> answer.advertisement is Some
            &&& answer.found <==> answer.reason is None
            &&& answer.advertisement matches Some(advert) ==> {
                &&& d.by_peer_id.contains_key(advert.peer_id)
                &&& d.by_peer_id[advert.peer_id] == advert
                &&& advert.peer_id == query || advert.alias == Some(query)
                &&& d.by_peer_id.contains_key(query) ==> advert.peer_id == query
            }
        }),
{
    if d.alias_to_peer_id.contains_key(query) {
        assert(advertises(d, d.alias_to_peer_id[query], query));
    }
}

/// Exactly the advertisements that have expired leave the directory, and the others stay as they
/// were.
pub proof fn law_only_expired_adverts_leave(
    d: DiscoveryDirectoryView,
    now_ms: u64,
    peer: Seq<char>,
)
    ensures
        ({
            let after = cleaned(d, now_ms);
            &&& after.by_peer_id.contains_key(peer) <==> d.by_peer_id.contains_key(peer)
                && d.by_peer_id[peer].expires_at_ms > now_ms
            &&& after.by_peer_id.contains_key(peer) ==> after.by_peer_id[peer]
                == d.by_peer_id[peer]
        }),
{
}

/// A registration enters its own advertisement, in place of an earlier one of the same peer, and
/// leaves those of all other peers, with their aliases.
pub proof fn law_registrations_leave_others_alone(
    d: DiscoveryDirectoryView,
    advert: PeerAdvertisementView,
    other: Seq<char>,
)
    requires
        directory_sound(d),
        register_error(d, advert) is None,
        other != advert.peer_id,
    ensures
        ({
            let after = registered(d, advert);
            &&& after.by_peer_id.contains_key(advert.peer_id)
            &&& after.by_peer_id[advert.peer_id] == advert
            &&& after.by_peer_id.contains_key(other) <==> d.by_peer_id.contains_key(other)
            &&& d.by_peer_id.contains_key(other) ==> {
                &&& after.by_peer_id[other] == d.by_peer_id[other]
                &&& d.by_peer_id[other].alias matches Some(alias)
                    ==> after.alias_to_peer_id.contains_key(alias)
                    && after.alias_to_peer_id[alias] == other
            }
        }),
{
    law_directory_stays_sound(d, advert, 0);
    let after = registered(d, advert);
    if d.by_peer_id.contains_key(other) {
        match d.by_peer_id[other].alias {
            Some(alias) => {
                assert(advertises(after, other, alias));
            },
            None => {},
        }
    }
}

/// The listing holds exactly the advertisements of the directory.
pub proof fn law_the_listing_is_complete(
    d: DiscoveryDirectoryView,
    advert: PeerAdvertisementView,
)
    requires
        directory_sound(d),
        d.by_peer_id.dom().finite(),
    ensures
        listing(d).contains(advert) <==> d.by_peer_id.contains_key(advert.peer_id)
            && d.by_peer_id[advert.peer_id] == advert,
        listing(d).len() == d.by_peer_id.dom().len(),
{
    let keys = table::sorted_texts(d.by_peer_id.dom());
    let list = listing(d);
    table::lemma_sorting_set(d.by_peer_id.dom());
    table::lemma_ascending_len(keys);
    if list.contains(advert) {
        let i = choose|i: int| 0 <= i < list.len() && list[i] == advert;
        assert(keys.contains(keys[i]));
        assert(keys.to_set().contains(keys[i]));
        assert(d.by_peer_id.contains_key(keys[i]));
        assert(advert == d.by_peer_id[keys[i]]);
    }
    if d.by_peer_id.contains_key(advert.peer_id) && d.by_peer_id[advert.peer_id] == advert {
        assert(keys.to_set().contains(advert.peer_id));
        let i = choose|i: int| 0 <= i < keys.len() && keys[i] == advert.peer_id;
        assert(list[i] == advert);
    }
}

} // verus!
