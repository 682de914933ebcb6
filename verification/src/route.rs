//! How a peer is found in the directory and reached: direct addresses first, relayed ones behind
//! them.

use crate::discovery::DiscoveryResolution;
use crate::discovery::DiscoveryResolutionView;
use crate::network;
use crate::network::P2pError;
use crate::network::P2pErrorView;
use crate::peer;
use crate::peer::Multiaddr;
use crate::peer::MultiaddrView;
use crate::primitives;
use crate::protocol::PeerAdvertisement;
use crate::protocol::PeerAdvertisementView;
use crate::reply;
use crate::reply::Reply;
use crate::reply::ReplyView;
use crate::report;
use crate::report::indent;
use crate::shell;
use crate::shell::finish_dial;
use crate::swarm;
use crate::swarm::text_or_else;
use crate::text;
use crate::text::cat2;
use crate::text::Lines;
use vstd::prelude::*;

verus! {

/// What a peer is searched for.
#[derive(Debug, Clone, Copy, PartialEq, Eq)]
pub enum SearchUse {
    Connect,
    Resolve,
}

/// A way to a peer.
pub struct Route {
    pub relayed: bool,
    pub addr: Multiaddr,
}

/// The plain values held by a [`Route`].
#[verifier::ext_equal]
pub struct RouteView {
    pub relayed: bool,
    pub addr: MultiaddrView,
}

impl View for Route {
    type V = RouteView;

    open spec fn view(&self) -> RouteView {
        RouteView {
            relayed: self.relayed,
            addr: self.addr@,
        }
    }
}

/// The address that a text denotes, if it can be dialed: it names a peer.
pub open spec fn dialable(text: Seq<char>) -> Option<MultiaddrView> {
    match primitives::multiaddr_parts(text) {
        Some(addr) => if peer::addr_peer(addr) is Some {
            Some(addr)
        } else {
            None
        },
        None => None,
    }
}

/// The ways over those of some addresses that can be dialed, in their order.
pub open spec fn routes_over(addrs: Seq<Seq<char>>, relayed: bool) -> Seq<RouteView>
    decreases addrs.len(),
{
    if addrs.len() == 0 {
        Seq::empty()
    } else {
        let before = routes_over(addrs.drop_last(), relayed);
        match dialable(addrs.last()) {
            Some(addr) => before.push(RouteView { relayed, addr }),
            None => before,
        }
    }
}

/// The ways to a peer: over its direct addresses, then over its relayed ones.
pub open spec fn advert_routes(advert: PeerAdvertisementView) -> Seq<RouteView> {
    routes_over(advert.direct_addrs, false) + routes_over(advert.relayed_addrs, true)
}

/// The views of some ways.
pub open spec fn route_views(ways: Seq<Route>) -> Seq<RouteView> {
    ways.map_values(|way: Route| way@)
}

/// Append the ways over some addresses.
fn add_routes(ways: &mut Vec<Route>, addrs: &Vec<String>, relayed: bool)
    ensures
        route_views(final(ways)@) == route_views(old(ways)@) + routes_over(text::texts(addrs@), relayed),
{
    let ghost start = route_views(ways@);
    let ghost all = text::texts(addrs@);
    let mut i: usize = 0;
    assert(all.take(0) =~= Seq::empty());
    assert(start + routes_over(all.take(0), relayed) =~= start);
    while i < addrs.len()
        invariant
            i <= addrs@.len(),
            all == text::texts(addrs@),
            route_views(ways@) == start + routes_over(all.take(i as int), relayed),
        decreases addrs.len() - i,
    {
        let ghost before = ways@;
        let ghost done = routes_over(all.take(i as int), relayed);
        assert(all.take(i + 1).drop_last() =~= all.take(i as int));
        assert(all.take(i + 1).last() == addrs@[i as int]@);
        match Multiaddr::parse(addrs[i].as_str()) {
            Some(addr) => if addr.peer().is_some() {
                let way = Route { relayed, addr };
                let ghost shown = way@;
                ways.push(way);
                assert(route_views(ways@) =~= route_views(before).push(shown));
                assert((start + done).push(shown) =~= start + done.push(shown));
            },
            None => {},
        }
        i = i + 1;
    }
    assert(all.take(i as int) =~= all);
}

/// Plan the ways to a peer.
pub fn plan_routes(advert: &PeerAdvertisement) -> (res: Vec<Route>)
    ensures
        route_views(res@) == advert_routes(advert@),
{
    let mut ways: Vec<Route> = Vec::new();
    assert(route_views(ways@) =~= Seq::empty());
    add_routes(&mut ways, &advert.direct_addrs, false);
    add_routes(&mut ways, &advert.relayed_addrs, true);
    assert(route_views(ways@) =~= advert_routes(advert@));
    ways
}

/// The word for a way.
pub open spec fn route_word(relayed: bool) -> Seq<char> {
    if relayed {
        "relay"@
    } else {
        "direct"@
    }
}

/// The word for a way.
fn route_name(relayed: bool) -> (res: &'static str)
    ensures
        res@ == route_word(relayed),
{
    if relayed {
        "relay"
    } else {
        "direct"
    }
}

/// The word for the first of some ways.
pub open spec fn first_route_word(ways: Seq<RouteView>) -> Seq<char> {
    if ways.len() == 0 {
        "none"@
    } else {
        route_word(ways[0].relayed)
    }
}

/// What `/resolve-peer` says of a peer that was found.
pub open spec fn advert_lines(advert: PeerAdvertisementView) -> Seq<Seq<char>> {
    seq![
        "peer: "@ + advert.peer_id,
        "alias: "@ + swarm::text_or(advert.alias, "none"@),
        "nat: "@ + advert.nat_status,
        "route: "@ + first_route_word(advert_routes(advert)),
        "direct addresses:"@,
    ] + report::indented("  "@, advert.direct_addrs) + seq!["relayed addresses:"@] + report::indented(
        "  "@,
        advert.relayed_addrs,
    )
}

/// Tell of a peer that was found.
fn advert_report(advert: &PeerAdvertisement) -> (res: Lines)
    ensures
        res@ == advert_lines(advert@),
{
    let ways = plan_routes(advert);
    let word = if ways.len() == 0 {
        "none"
    } else {
        assert(route_views(ways@)[0] == ways@[0]@);
        route_name(ways[0].relayed)
    };
    let mut lines = Lines::new();
    lines.add(cat2("peer: ", advert.peer_id.as_str()));
    lines.add(cat2("alias: ", text_or_else(&advert.alias, "none").as_str()));
    lines.add(cat2("nat: ", advert.nat_status.as_str()));
    lines.add(cat2("route: ", word));
    lines.say("direct addresses:");
    lines.extend(&indent("  ", &advert.direct_addrs));
    lines.say("relayed addresses:");
    lines.extend(&indent("  ", &advert.relayed_addrs));
    assert(lines@ =~= advert_lines(advert@));
    lines
}

/// What is to be done once a search has ended.
pub enum SearchNext {
    /// It is answered.
    Done(Reply),
    /// Dial the first of some ways. There is at least one.
    Dial { ways: Vec<Route> },
}

/// The plain values held by a [`SearchNext`].
#[verifier::ext_equal]
pub enum SearchNextView {
    Done(ReplyView),
    Dial { ways: Seq<RouteView> },
}

impl View for SearchNext {
    type V = SearchNextView;

    open spec fn view(&self) -> SearchNextView {
        match *self {
            SearchNext::Done(x0) => SearchNextView::Done(x0@),
            SearchNext::Dial { ways } => SearchNextView::Dial { ways: ways@.map_values(|x: Route| x@) },
        }
    }
}

/// The end of a search: what was found, or why the network node cannot tell.
pub type SearchEnd = Result<DiscoveryResolutionView, P2pErrorView>;

/// The view of the end of a search.
pub open spec fn search_end(end: Result<DiscoveryResolution, P2pError>) -> SearchEnd {
    match end {
        Ok(resolution) => Ok(resolution@),
        Err(e) => Err(e@),
    }
}

/// What is done at the end of a search. A peer that was found is shown, or dialed.
pub open spec fn search_step(wanted: SearchUse, end: SearchEnd) -> SearchNextView {
    match end {
        Err(e) => SearchNextView::Done(reply::failed(network::p2p_error_text(e))),
        Ok(DiscoveryResolutionView { found: true, advertisement: Some(advert), .. }) => match wanted {
            SearchUse::Resolve => SearchNextView::Done(reply::printed(advert_lines(advert))),
            SearchUse::Connect => if advert_routes(advert).len() == 0 {
                SearchNextView::Done(reply::failed("no usable route to "@ + advert.peer_id))
            } else {
                SearchNextView::Dial { ways: advert_routes(advert) }
            },
        },
        Ok(DiscoveryResolutionView { query, reason, .. }) => SearchNextView::Done(
            reply::failed(swarm::text_or(reason, "peer not found: "@ + query)),
        ),
    }
}

/// Go on with a command once a search has ended.
pub fn finish_search(wanted: SearchUse, end: &Result<DiscoveryResolution, P2pError>) -> (res:
    SearchNext)
    ensures
        res@ == search_step(wanted, search_end(*end)),
        res matches SearchNext::Dial { ways } ==> ways@.len() > 0,
{
    let resolution = match end {
        Err(e) => return SearchNext::Done(Reply::fail(e.message())),
        Ok(resolution) => resolution,
    };
    if resolution.found {
        if let Some(advert) = &resolution.advertisement {
            return match wanted {
                SearchUse::Resolve => SearchNext::Done(Reply::print(advert_report(advert))),
                SearchUse::Connect => {
                    let ways = plan_routes(advert);
                    if ways.len() == 0 {
                        SearchNext::Done(
                            Reply::fail(cat2("no usable route to ", advert.peer_id.as_str())),
                        )
                    } else {
                        SearchNext::Dial { ways }
                    }
                },
            };
        }
    }
    let instead = cat2("peer not found: ", resolution.query.as_str());
    SearchNext::Done(Reply::fail(text_or_else(&resolution.reason, instead.as_str())))
}

/// What is to be done once a way was dialed.
pub enum RouteNext {
    /// It is answered.
    Done(Reply),
    /// Dial another of the ways, given by its position.
    Dial(usize),
}

/// The plain values held by a [`RouteNext`].
#[verifier::ext_equal]
pub enum RouteNextView {
    Done(ReplyView),
    Dial(usize),
}

impl View for RouteNext {
    type V = RouteNextView;

    open spec fn view(&self) -> RouteNextView {
        match *self {
            RouteNext::Done(x0) => RouteNextView::Done(x0@),
            RouteNext::Dial(x0) => RouteNextView::Dial(x0),
        }
    }
}

/// What is done once a way was dialed: where the dialing could not begin, the next way is tried.
pub open spec fn route_step(
    ways: Seq<RouteView>,
    tried: usize,
    error: Option<P2pErrorView>,
) -> RouteNextView {
    let way = ways[tried as int];
    match error {
        None => RouteNextView::Done(
            reply::printed(
                seq!["route: "@ + route_word(way.relayed)] + shell::dial_reply(way.addr, None).lines,
            ),
        ),
        Some(e) => if tried + 1 < ways.len() {
            RouteNextView::Dial((tried + 1) as usize)
        } else {
            RouteNextView::Done(reply::failed(network::p2p_error_text(e)))
        },
    }
}

/// Go on once a way was dialed.
pub fn finish_route(ways: &Vec<Route>, tried: usize, error: &Option<P2pError>) -> (res: RouteNext)
    requires
        tried < ways@.len(),
    ensures
        res@ == route_step(
            route_views(ways@),
            tried,
            match *error {
                Some(e) => Some(e@),
                None => None,
            },
        ),
        res matches RouteNext::Dial(next) ==> next < ways@.len(),
{
    assert(route_views(ways@)[tried as int] == ways@[tried as int]@);
    match error {
        None => {
            let way = &ways[tried];
            let mut lines = Lines::new();
            lines.add(cat2("route: ", route_name(way.relayed)));
            let dialed = finish_dial(&way.addr, error);
            lines.extend(&dialed.lines);
            assert(lines@ =~= seq!["route: "@ + route_word(way.relayed)] + shell::dial_reply(
                way.addr@,
                None,
            ).lines);
            RouteNext::Done(Reply::print(lines))
        },
        Some(e) => if ways.len() - tried > 1 {
            RouteNext::Dial(tried + 1)
        } else {
            RouteNext::Done(Reply::fail(e.message()))
        },
    }
}

/// A way leads over one of some addresses.
pub open spec fn leads_over(way: RouteView, addrs: Seq<Seq<char>>) -> bool {
    exists|k: int| 0 <= k < addrs.len() && #[trigger] dialable(addrs[k]) == Some(way.addr)
}

/// The ways over some addresses are those of the addresses that can be dialed.
proof fn lemma_routes_over(addrs: Seq<Seq<char>>, relayed: bool)
    ensures
        forall|i: int|
            0 <= i < routes_over(addrs, relayed).len() ==> {
                let way = #[trigger] routes_over(addrs, relayed)[i];
                way.relayed == relayed && leads_over(way, addrs)
            },
        routes_over(addrs, relayed).len() == 0 ==> forall|k: int|
            0 <= k < addrs.len() ==> #[trigger] dialable(addrs[k]) is None,
    decreases addrs.len(),
{
    if addrs.len() > 0 {
        let init = addrs.drop_last();
        lemma_routes_over(init, relayed);
        assert forall|i: int| 0 <= i < routes_over(addrs, relayed).len() implies {
            let way = #[trigger] routes_over(addrs, relayed)[i];
            way.relayed == relayed && leads_over(way, addrs)
        } by {
            let way = routes_over(addrs, relayed)[i];
            if i < routes_over(init, relayed).len() {
                assert(way == routes_over(init, relayed)[i]);
                let k = choose|k: int|
                    0 <= k < init.len() && #[trigger] dialable(init[k]) == Some(way.addr);
                assert(dialable(addrs[k]) == Some(way.addr));
            } else {
                assert(dialable(addrs[addrs.len() - 1]) == Some(way.addr));
            }
        }
        assert forall|k: int|
            routes_over(addrs, relayed).len() == 0 && 0 <= k
                < addrs.len() implies #[trigger] dialable(addrs[k]) is None by {
            if k < init.len() {
                assert(dialable(init[k]) is None);
            }
        }
    }
}

/// Direct ways come first: a relayed way stands behind every direct one, and a relay is dialed
/// first only where no direct address can be dialed. Every way leads over an address that the peer
/// advertises, and where there is no way, none of them can be dialed.
pub proof fn law_direct_routes_come_first(advert: PeerAdvertisementView)
    ensures
        forall|i: int, j: int|
            0 <= i < j < advert_routes(advert).len() && (#[trigger] advert_routes(advert)[i]).relayed
                ==> (#[trigger] advert_routes(advert)[j]).relayed,
        advert_routes(advert).len() == 0 || advert_routes(advert)[0].relayed ==> forall|k: int|
            0 <= k < advert.direct_addrs.len() ==> #[trigger] dialable(advert.direct_addrs[k])
                is None,
        advert_routes(advert).len() == 0 ==> forall|k: int|
            0 <= k < advert.relayed_addrs.len() ==> #[trigger] dialable(advert.relayed_addrs[k])
                is None,
        forall|i: int|
            0 <= i < advert_routes(advert).len() ==> {
                let way = #[trigger] advert_routes(advert)[i];
                leads_over(
                    way,
                    if way.relayed {
                        advert.relayed_addrs
                    } else {
                        advert.direct_addrs
                    },
                )
            },
{
    lemma_routes_over(advert.direct_addrs, false);
    lemma_routes_over(advert.relayed_addrs, true);
    let near = routes_over(advert.direct_addrs, false);
    let far = routes_over(advert.relayed_addrs, true);
    let all = advert_routes(advert);
    assert forall|i: int| 0 <= i < all.len() implies #[trigger] all[i] == if i < near.len() {
        near[i]
    } else {
        far[i - near.len()]
    } by {}
}

/// The way that a connection ends with: the first, from a position on, whose dialing begins, or
/// the last one.
pub open spec fn last_tried(errors: Seq<Option<P2pErrorView>>, from: int) -> int
    decreases errors.len() - from,
{
    if from + 1 >= errors.len() || errors[from] is None {
        from
    } else {
        last_tried(errors, from + 1)
    }
}

/// Every way is tried before a connection is given up: following the steps with what each dialing
/// gave ends at the first way whose dialing began, and in an error only where none did.
pub proof fn law_all_routes_are_tried(
    ways: Seq<RouteView>,
    errors: Seq<Option<P2pErrorView>>,
    tried: usize,
)
    requires
        errors.len() == ways.len(),
        ways.len() <= usize::MAX,
        tried < ways.len(),
    ensures
        ({
            let end = last_tried(errors, tried as int);
            &&& tried <= end < ways.len()
            &&& forall|i: int| tried <= i < end ==> route_step(ways, i as usize, #[trigger] errors[i])
                == RouteNextView::Dial((i + 1) as usize)
            &&& route_step(ways, end as usize, errors[end]) is Done
            &&& errors[end] is Some ==> end == ways.len() - 1
        }),
    decreases ways.len() - tried,
{
    if tried + 1 < errors.len() && errors[tried as int] is Some {
        law_all_routes_are_tried(ways, errors, (tried + 1) as usize);
    }
}

/// Every address that can be dialed is a way, and the ways are in the order of the addresses.
pub proof fn law_every_dialable_address_is_a_way(addrs: Seq<Seq<char>>, relayed: bool, text: Seq<char>)
    ensures
        ({
            let ways = routes_over(addrs, relayed);
            let more = routes_over(addrs.push(text), relayed);
            &&& forall|i: int| 0 <= i < ways.len() ==> (#[trigger] ways[i]).relayed == relayed
            &&& match primitives::multiaddr_parts(text) {
                Some(addr) => if peer::addr_peer(addr) is Some {
                    more == ways.push(RouteView { relayed, addr })
                } else {
                    more == ways
                },
                None => more == ways,
            }
        }),
        addrs.len() == 0 ==> routes_over(addrs, relayed).len() == 0,
    decreases addrs.len(),
{
    assert(addrs.push(text).drop_last() =~= addrs);
    if addrs.len() > 0 {
        law_every_dialable_address_is_a_way(addrs.drop_last(), relayed, addrs.last());
    }
}

/// All ways over the direct addresses of a peer and all ways over its relayed addresses are tried.
pub proof fn law_direct_and_relayed_ways_are_tried(advert: PeerAdvertisementView)
    ensures
        ({
            let direct = routes_over(advert.direct_addrs, false);
            let over = routes_over(advert.relayed_addrs, true);
            let ways = advert_routes(advert);
            &&& ways.len() == direct.len() + over.len()
            &&& forall|i: int| 0 <= i < direct.len() ==> #[trigger] ways[i] == direct[i]
            &&& forall|i: int|
                direct.len() <= i < ways.len() ==> #[trigger] ways[i] == over[i - direct.len()]
        }),
{
}

/// What is said of a peer that was found names it, its alias, how it is reached, and every address
/// that it advertises.
pub proof fn law_found_peers_are_shown(advert: PeerAdvertisementView)
    ensures
        ({
            let lines = advert_lines(advert);
            &&& lines.contains("peer: "@ + advert.peer_id)
            &&& advert.alias matches Some(alias) ==> lines.contains("alias: "@ + alias)
            &&& lines.contains("nat: "@ + advert.nat_status)
            &&& advert_routes(advert).len() == 0 ==> lines.contains("route: "@ + "none"@)
            &&& advert_routes(advert).len() > 0 ==> lines.contains(
                "route: "@ + if advert_routes(advert)[0].relayed {
                    "relay"@
                } else {
                    "direct"@
                },
            )
            &&& forall|i: int|
                0 <= i < advert.direct_addrs.len() ==> lines.contains(
                    "  "@ + #[trigger] advert.direct_addrs[i],
                )
            &&& forall|j: int|
                0 <= j < advert.relayed_addrs.len() ==> lines.contains(
                    "  "@ + #[trigger] advert.relayed_addrs[j],
                )
            &&& lines.len() == 6 + advert.direct_addrs.len() + advert.relayed_addrs.len()
        }),
{
    let lines = advert_lines(advert);
    assert(lines[0] == "peer: "@ + advert.peer_id);
    assert(lines[1] == "alias: "@ + swarm::text_or(advert.alias, "none"@));
    assert(lines[2] == "nat: "@ + advert.nat_status);
    assert(lines[3] == "route: "@ + first_route_word(advert_routes(advert)));
    assert forall|i: int| 0 <= i < advert.direct_addrs.len() implies lines.contains(
        "  "@ + #[trigger] advert.direct_addrs[i],
    ) by {
        assert(lines[5 + i] == "  "@ + advert.direct_addrs[i]);
    }
    assert forall|j: int| 0 <= j < advert.relayed_addrs.len() implies lines.contains(
        "  "@ + #[trigger] advert.relayed_addrs[j],
    ) by {
        assert(lines[6 + advert.direct_addrs.len() + j] == "  "@ + advert.relayed_addrs[j]);
    }
}

/// The end of a search is told or acted upon: an error and a peer that was not found are said, a
/// peer that was found is shown or dialed over its ways, and one without a way is an error.
pub proof fn law_searches_end(found: DiscoveryResolutionView, advert: PeerAdvertisementView, e: P2pErrorView)
    requires
        found.found,
        found.advertisement == Some(advert),
    ensures
        search_step(SearchUse::Resolve, SearchEnd::Ok(found)) == SearchNextView::Done(
            reply::printed(advert_lines(advert)),
        ),
        advert_routes(advert).len() > 0 ==> search_step(SearchUse::Connect, SearchEnd::Ok(found))
            == (SearchNextView::Dial { ways: advert_routes(advert) }),
        advert_routes(advert).len() == 0 ==> {
            &&& search_step(SearchUse::Connect, SearchEnd::Ok(found)) matches SearchNextView::Done(r)
            &&& r.error is Some
        },
        forall|wanted: SearchUse| #[trigger]
            search_step(
                wanted,
                SearchEnd::Ok(DiscoveryResolutionView { found: false, ..found }),
            ) matches SearchNextView::Done(r) && r.error is Some,
        forall|wanted: SearchUse| #[trigger]
            search_step(wanted, SearchEnd::Err(e)) == SearchNextView::Done(
                reply::failed(network::p2p_error_text(e)),
            ),
{
}

/// Once a dialing began, the user is told over which kind of way and to which address.
pub proof fn law_the_way_is_told(ways: Seq<RouteView>, tried: usize)
    requires
        tried < ways.len(),
    ensures
        match route_step(ways, tried, None) {
            RouteNextView::Done(reply) => {
                &&& reply.error is None
                &&& reply.lines.contains("  "@ + peer::addr_text(ways[tried as int].addr))
                &&& ways[tried as int].relayed ==> reply.lines.contains("route: relay"@)
                &&& !ways[tried as int].relayed ==> reply.lines.contains("route: direct"@)
            },
            RouteNextView::Dial(_) => false,
        },
{
    reveal_strlit("route: ");
    reveal_strlit("relay");
    reveal_strlit("direct");
    reveal_strlit("route: relay");
    reveal_strlit("route: direct");
    assert("route: "@ + "relay"@ =~= "route: relay"@);
    assert("route: "@ + "direct"@ =~= "route: direct"@);
    match route_step(ways, tried, None) {
        RouteNextView::Done(reply) => {
            assert(reply.lines[0] == "route: "@ + route_word(ways[tried as int].relayed));
            assert(reply.lines[2] == "  "@ + peer::addr_text(ways[tried as int].addr));
        },
        RouteNextView::Dial(_) => {},
    }
}

} // verus!
