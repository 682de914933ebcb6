//! Peer ids and multiaddresses.

use crate::primitives;
use crate::primitives::AddrPart;
use crate::primitives::parse_multiaddr;
use crate::primitives::parse_peer_id;
use crate::text::cat2;
use crate::text::copy_opt;
use crate::text::same_text;
use vstd::prelude::*;

verus! {

/// The id of a peer, held as its canonical text.
pub struct PeerId {
    text: String,
}

impl View for PeerId {
    type V = Seq<char>;

    closed spec fn view(&self) -> Seq<char> {
        self.text@
    }
}

impl PeerId {
    #[verifier::type_invariant]
    spec fn canonical(self) -> bool {
        primitives::peer_id_text(self.text@) == Some(self.text@)
    }

    /// Read a peer id.
    pub fn parse(text: &str) -> (res: Option<PeerId>)
        ensures
            match res {
                Some(peer) => primitives::peer_id_text(text@) == Some(peer@) && primitives::peer_id_text(peer@) == Some(
                    peer@,
                ),
                None => primitives::peer_id_text(text@) is None,
            },
    {
        match parse_peer_id(text) {
            Some(canonical) => Some(PeerId { text: canonical }),
            None => None,
        }
    }

    /// The canonical text.
    pub fn as_text(&self) -> (res: &str)
        ensures
            res@ == self@,
            primitives::peer_id_text(self@) == Some(self@),
    {
        proof {
            use_type_invariant(self);
        }
        self.text.as_str()
    }

    /// Whether two ids are the same.
    pub fn same(&self, other: &PeerId) -> (res: bool)
        ensures
            res == (self@ == other@),
    {
        same_text(self.text.as_str(), other.text.as_str())
    }

    /// Copy this id.
    pub fn duplicate(&self) -> (res: PeerId)
        ensures
            res@ == self@,
    {
        proof {
            use_type_invariant(self);
        }
        PeerId { text: self.text.clone() }
    }
}

/// The parts of a multiaddress: the text of each protocol, and its peer id where it has one.
pub type MultiaddrView = Seq<(Seq<char>, Option<Seq<char>>)>;

/// A multiaddress.
pub struct Multiaddr {
    parts: Vec<AddrPart>,
}

impl View for Multiaddr {
    type V = MultiaddrView;

    closed spec fn view(&self) -> MultiaddrView {
        self.parts@.map_values(|part: AddrPart| part@)
    }
}

/// A multiaddress as it is written.
pub open spec fn addr_text(addr: MultiaddrView) -> Seq<char>
    decreases addr.len(),
{
    if addr.len() == 0 {
        Seq::empty()
    } else {
        addr_text(addr.drop_last()) + addr.last().0
    }
}

/// The first peer id in a multiaddress.
pub open spec fn addr_peer(addr: MultiaddrView) -> Option<Seq<char>>
    decreases addr.len(),
{
    if addr.len() == 0 {
        None
    } else if addr[0].1 is Some {
        addr[0].1
    } else {
        addr_peer(addr.drop_first())
    }
}

/// A multiaddress followed by `/p2p/<peer>`.
pub open spec fn addr_with_peer(addr: MultiaddrView, peer: Seq<char>) -> MultiaddrView {
    addr.push(("/p2p/"@ + peer, Some(peer)))
}

/// A multiaddress followed by `/p2p-circuit`.
pub open spec fn addr_with_circuit(addr: MultiaddrView) -> MultiaddrView {
    addr.push(("/p2p-circuit"@, None))
}

/// The views of a list of multiaddresses.
pub open spec fn addr_views(addrs: Seq<Multiaddr>) -> Seq<MultiaddrView> {
    addrs.map_values(|addr: Multiaddr| addr@)
}

/// Copy one protocol of a multiaddress.
fn copy_part(part: &AddrPart) -> (res: AddrPart)
    ensures
        res@ == part@,
{
    AddrPart { text: part.text.clone(), peer: copy_opt(&part.peer) }
}

impl Multiaddr {
    /// Read a multiaddress.
    pub fn parse(text: &str) -> (res: Option<Multiaddr>)
        ensures
            match res {
                Some(addr) => primitives::multiaddr_parts(text@) == Some(addr@),
                None => primitives::multiaddr_parts(text@) is None,
            },
    {
        match parse_multiaddr(text) {
            Some(parts) => Some(Multiaddr { parts }),
            None => None,
        }
    }

    /// Write a multiaddress.
    pub fn to_text(&self) -> (res: String)
        ensures
            res@ == addr_text(self@),
    {
        let mut res = String::new();
        let mut i: usize = 0;
        assert(self@.take(0) =~= Seq::empty());
        while i < self.parts.len()
            invariant
                i <= self.parts@.len(),
                res@ == addr_text(self@.take(i as int)),
            decreases self.parts.len() - i,
        {
            res.append(self.parts[i].text.as_str());
            i = i + 1;
            assert(self@.take(i as int).drop_last() =~= self@.take(i - 1));
        }
        assert(self@.take(i as int) =~= self@);
        res
    }

    /// The first peer id, if there is one.
    pub fn peer(&self) -> (res: Option<&String>)
        ensures
            match res {
                Some(peer) => addr_peer(self@) == Some(peer@),
                None => addr_peer(self@) is None,
            },
    {
        let mut i: usize = 0;
        let n: usize = self.parts.len();
        assert(self@.subrange(0, n as int) =~= self@);
        while i < n
            invariant
                i <= n == self.parts@.len(),
                addr_peer(self@.subrange(i as int, n as int)) == addr_peer(self@),
            decreases n - i,
        {
            let ghost rest = self@.subrange(i as int, n as int);
            assert(rest[0] == self.parts@[i as int]@);
            if let Some(peer) = &self.parts[i].peer {
                return Some(peer);
            }
            assert(rest.drop_first() =~= self@.subrange(i + 1, n as int));
            i = i + 1;
        }
        None
    }

    /// Append `/p2p/<peer>`.
    pub fn with_peer(&self, peer: &str) -> (res: Multiaddr)
        ensures
            res@ == addr_with_peer(self@, peer@),
    {
        let mut res = self.duplicate();
        let part = AddrPart { text: cat2("/p2p/", peer), peer: Some(peer.to_owned()) };
        res.parts.push(part);
        assert(res@ =~= addr_with_peer(self@, peer@));
        res
    }

    /// Append `/p2p-circuit`.
    pub fn with_circuit(&self) -> (res: Multiaddr)
        ensures
            res@ == addr_with_circuit(self@),
    {
        let mut res = self.duplicate();
        let part = AddrPart { text: "/p2p-circuit".to_owned(), peer: None };
        res.parts.push(part);
        assert(res@ =~= addr_with_circuit(self@));
        res
    }

    /// Copy this multiaddress.
    pub fn duplicate(&self) -> (res: Multiaddr)
        ensures
            res@ == self@,
    {
        let mut parts: Vec<AddrPart> = Vec::new();
        let mut i: usize = 0;
        while i < self.parts.len()
            invariant
                i <= self.parts@.len(),
                parts@.len() == i,
                forall|j: int| 0 <= j < i ==> (#[trigger] parts@[j])@ == self.parts@[j]@,
            decreases self.parts.len() - i,
        {
            parts.push(copy_part(&self.parts[i]));
            i = i + 1;
        }
        let res = Multiaddr { parts };
        assert(res@ =~= self@);
        res
    }

    /// Copy a list of multiaddresses.
    pub fn duplicate_all(addrs: &Vec<Multiaddr>) -> (res: Vec<Multiaddr>)
        ensures
            addr_views(res@) == addr_views(addrs@),
    {
        let mut res: Vec<Multiaddr> = Vec::new();
        let mut i: usize = 0;
        while i < addrs.len()
            invariant
                i <= addrs@.len(),
                res@.len() == i,
                forall|j: int| 0 <= j < i ==> (#[trigger] res@[j])@ == addrs@[j]@,
            decreases addrs.len() - i,
        {
            res.push(addrs[i].duplicate());
            i = i + 1;
        }
        assert(addr_views(res@) =~= addr_views(addrs@));
        res
    }
}

/// Appending a peer id to an address appends `/p2p/<peer>` to what is written.
pub proof fn law_with_peer_text(addr: MultiaddrView, peer: Seq<char>)
    ensures
        addr_text(addr_with_peer(addr, peer)) == addr_text(addr) + ("/p2p/"@ + peer),
        addr_peer(addr) is None ==> addr_peer(addr_with_peer(addr, peer)) == Some(peer),
        addr_peer(addr) is Some ==> addr_peer(addr_with_peer(addr, peer)) == addr_peer(addr),
    decreases addr.len(),
{
    let longer = addr_with_peer(addr, peer);
    assert(longer.drop_last() =~= addr);
    if addr.len() > 0 {
        law_with_peer_text(addr.drop_first(), peer);
        assert(longer.drop_first() =~= addr_with_peer(addr.drop_first(), peer));
    } else {
        assert(longer[0].1 == Some(peer));
    }
}

/// The peer of an address is the first that the address names.
pub proof fn law_the_first_peer_counts(addr: MultiaddrView, i: int)
    requires
        0 <= i <= addr.len(),
        forall|j: int| 0 <= j < i ==> (#[trigger] addr[j]).1 is None,
        i < addr.len() ==> addr[i].1 is Some,
    ensures
        i < addr.len() ==> addr_peer(addr) == addr[i].1,
        i == addr.len() ==> addr_peer(addr) is None,
    decreases addr.len(),
{
    if i > 0 {
        assert(addr[0].1 is None);
        let rest = addr.drop_first();
        assert forall|j: int| 0 <= j < i - 1 implies (#[trigger] rest[j]).1 is None by {
            assert(rest[j] == addr[j + 1]);
        }
        law_the_first_peer_counts(rest, i - 1);
    }
}

/// An address over a relay is written with `/p2p-circuit` at its end, and names the same peer.
pub proof fn law_with_circuit_text(addr: MultiaddrView)
    ensures
        addr_text(addr_with_circuit(addr)) == addr_text(addr) + "/p2p-circuit"@,
        addr_peer(addr_with_circuit(addr)) == addr_peer(addr),
    decreases addr.len(),
{
    let longer = addr_with_circuit(addr);
    assert(longer.drop_last() =~= addr);
    if addr.len() > 0 {
        assert(longer[0] == addr[0]);
        law_with_circuit_text(addr.drop_first());
        assert(longer.drop_first() =~= addr_with_circuit(addr.drop_first()));
    } else {
        assert(longer.drop_first() =~= addr);
    }
}

/// An address is written as its parts one after another.
pub proof fn law_addresses_are_written_in_order(a: MultiaddrView, b: MultiaddrView)
    ensures
        addr_text(a + b) == addr_text(a) + addr_text(b),
        a.len() == 1 ==> addr_text(a) == a[0].0,
    decreases b.len(),
{
    reveal_with_fuel(addr_text, 2);
    if b.len() == 0 {
        assert(a + b =~= a);
        assert(addr_text(a) + addr_text(b) =~= addr_text(a));
    } else {
        law_addresses_are_written_in_order(a, b.drop_last());
        assert((a + b).drop_last() =~= a + b.drop_last());
        assert((addr_text(a) + addr_text(b.drop_last())) + b.last().0 =~= addr_text(a) + addr_text(
            b,
        ));
    }
    if a.len() == 1 {
        assert(addr_text(a) =~= a[0].0);
    }
}

} // verus!
