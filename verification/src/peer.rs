//! Peer identities, transport addresses and peer descriptions.

use vstd::prelude::*;

verus! {

/// Opaque stable identifier of a peer (a content-derived fingerprint).
#[derive(Clone, Copy, Debug, PartialEq, Eq, Structural, Hash, PartialOrd, Ord)]
pub struct PeerId(pub u64);

/// Abstract transport address. The membership logic never interprets it.
#[derive(Clone, Copy, Debug, PartialEq, Eq, Structural, Hash, PartialOrd, Ord)]
pub struct Addr(pub u64);

/// A peer's self-description: the addresses it advertises.
#[derive(Debug)]
pub struct PeerAdvertisement {
    pub listen_addrs: Vec<Addr>,
}

/// Mathematical model of a [`PeerAdvertisement`].
pub struct PeerAdvertisementV {
    pub listen_addrs: Seq<Addr>,
}

impl View for PeerAdvertisement {
    type V = PeerAdvertisementV;

    open spec fn view(&self) -> PeerAdvertisementV {
        PeerAdvertisementV { listen_addrs: self.listen_addrs@ }
    }
}

/// Copies a vector of addresses.
pub fn copy_addrs(v: &Vec<Addr>) -> (r: Vec<Addr>)
    ensures
        r@ == v@,
{
    let mut out: Vec<Addr> = Vec::new();
    let mut i: usize = 0;
    while i < v.len()
        invariant
            i <= v.len(),
            out@ == v@.take(i as int),
        decreases v.len() - i,
    {
        out.push(v[i]);
        assert(v@.take(i + 1 as int) == v@.take(i as int).push(v@[i as int]));
        i = i + 1;
    }
    assert(v@.take(v@.len() as int) == v@);
    out
}

/// Whether a vector of addresses holds `x`.
pub fn addrs_contain(v: &Vec<Addr>, x: Addr) -> (r: bool)
    ensures
        r == v@.contains(x),
{
    let mut i: usize = 0;
    while i < v.len()
        invariant
            i <= v.len(),
            forall|j: int| 0 <= j < i ==> v@[j] != x,
        decreases v.len() - i,
    {
        if v[i] == x {
            return true;
        }
        i = i + 1;
    }
    false
}

impl PeerAdvertisement {
    pub fn new(listen_addrs: Vec<Addr>) -> (r: Self)
        ensures
            r@.listen_addrs == listen_addrs@,
    {
        PeerAdvertisement { listen_addrs }
    }

    pub fn clone_adv(&self) -> (r: Self)
        ensures
            r@ == self@,
    {
        PeerAdvertisement { listen_addrs: copy_addrs(&self.listen_addrs) }
    }
}

/// Known facts about a peer before a full exchange: the advertised description
/// may still be missing.
#[derive(Debug)]
pub struct PartialPeerInfo {
    pub peer_id: PeerId,
    pub advertised_info: Option<PeerAdvertisement>,
    pub seen_addrs: Vec<Addr>,
}

/// Complete description of a peer.
#[derive(Debug)]
pub struct PeerInfo {
    pub peer_id: PeerId,
    pub advertised_info: PeerAdvertisement,
    pub seen_addrs: Vec<Addr>,
}

/// Mathematical model of a [`PartialPeerInfo`].
pub struct PartialPeerInfoV {
    pub peer_id: PeerId,
    pub advertised_info: Option<PeerAdvertisementV>,
    pub seen_addrs: Seq<Addr>,
}

/// Mathematical model of a [`PeerInfo`].
pub struct PeerInfoV {
    pub peer_id: PeerId,
    pub advertised_info: PeerAdvertisementV,
    pub seen_addrs: Seq<Addr>,
}

impl View for PartialPeerInfo {
    type V = PartialPeerInfoV;

    open spec fn view(&self) -> PartialPeerInfoV {
        PartialPeerInfoV {
            peer_id: self.peer_id,
            advertised_info: match self.advertised_info {
                Some(a) => Some(a@),
                None => None,
            },
            seen_addrs: self.seen_addrs@,
        }
    }
}

impl View for PeerInfo {
    type V = PeerInfoV;

    open spec fn view(&self) -> PeerInfoV {
        PeerInfoV {
            peer_id: self.peer_id,
            advertised_info: self.advertised_info@,
            seen_addrs: self.seen_addrs@,
        }
    }
}

impl PeerInfoV {
    /// The partial description that stands for this complete one.
    pub open spec fn as_partial(self) -> PartialPeerInfoV {
        PartialPeerInfoV {
            peer_id: self.peer_id,
            advertised_info: Some(self.advertised_info),
            seen_addrs: self.seen_addrs,
        }
    }
}

impl PartialPeerInfoV {
    /// The complete description, when the advertised part is present.
    pub open spec fn sequenced(self) -> Option<PeerInfoV> {
        match self.advertised_info {
            Some(adv) => Some(
                PeerInfoV { peer_id: self.peer_id, advertised_info: adv, seen_addrs: self.seen_addrs },
            ),
            None => None,
        }
    }
}

impl PartialPeerInfo {
    pub fn clone_partial(&self) -> (r: Self)
        ensures
            r@ == self@,
    {
        PartialPeerInfo {
            peer_id: self.peer_id,
            advertised_info: match &self.advertised_info {
                Some(a) => Some(a.clone_adv()),
                None => None,
            },
            seen_addrs: copy_addrs(&self.seen_addrs),
        }
    }

    /// The complete [`PeerInfo`], only when the advertised part is present.
    pub fn sequence(&self) -> (r: Option<PeerInfo>)
        ensures
            match r {
                Some(info) => self@.sequenced() == Some(info@),
                None => self@.sequenced() is None,
            },
    {
        match &self.advertised_info {
            Some(adv) => Some(
                PeerInfo {
                    peer_id: self.peer_id,
                    advertised_info: adv.clone_adv(),
                    seen_addrs: copy_addrs(&self.seen_addrs),
                },
            ),
            None => None,
        }
    }

    /// The partial description of a complete one.
    pub fn from_full(info: &PeerInfo) -> (r: Self)
        ensures
            r@ == info@.as_partial(),
    {
        PartialPeerInfo {
            peer_id: info.peer_id,
            advertised_info: Some(info.advertised_info.clone_adv()),
            seen_addrs: copy_addrs(&info.seen_addrs),
        }
    }
}

impl PeerInfo {
    pub fn clone_full(&self) -> (r: Self)
        ensures
            r@ == self@,
    {
        PeerInfo {
            peer_id: self.peer_id,
            advertised_info: self.advertised_info.clone_adv(),
            seen_addrs: copy_addrs(&self.seen_addrs),
        }
    }
}

/// Builds the complete description of a remote peer from its advertisement and
/// the address the message came from.
pub fn peer_info_from(remote_peer: PeerId, advertised: PeerAdvertisement, remote_addr: Addr) -> (r:
    PeerInfo)
    ensures
        r@.peer_id == remote_peer,
        r@.advertised_info == advertised@,
        r@.seen_addrs == seq![remote_addr],
{
    let mut seen_addrs: Vec<Addr> = Vec::new();
    seen_addrs.push(remote_addr);
    assert(seen_addrs@ =~= seq![remote_addr]);
    PeerInfo { peer_id: remote_peer, advertised_info: advertised, seen_addrs }
}

} // verus!
