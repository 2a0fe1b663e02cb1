//! Protocol parameters, wire messages and deferred I/O intents.

use vstd::prelude::*;

use crate::partial_view::{Transition, TransitionV};
use crate::peer::{PeerAdvertisement, PeerAdvertisementV, PeerId, PeerInfo, PeerInfoV};

verus! {

/// Tuning parameters of the membership protocol.
#[derive(Clone, Copy, Debug, PartialEq, Eq, Structural)]
pub struct Params {
    /// Cap of the active tier.
    pub max_active: usize,
    /// Cap of the passive tier.
    pub max_passive: usize,
    /// Initial time-to-live of forwarded joins and shuffles.
    pub active_random_walk_length: usize,
    /// Reserved walk length for passive-tier repairs.
    pub passive_random_walk_length: usize,
    /// Desired number of peers advertised per shuffle.
    pub shuffle_sample_size: usize,
    /// Milliseconds between periodic shuffles.
    pub shuffle_interval_millis: u64,
    /// Milliseconds between periodic promotion attempts.
    pub promote_interval_millis: u64,
}

impl Default for Params {
    fn default() -> (r: Self)
        ensures
            r.max_active == 5,
            r.max_passive == 30,
            r.active_random_walk_length == 6,
            r.passive_random_walk_length == 3,
            r.shuffle_sample_size == 7,
            r.shuffle_interval_millis == 10000,
            r.promote_interval_millis == 5000,
    {
        Params {
            max_active: 5,
            max_passive: 30,
            active_random_walk_length: 6,
            passive_random_walk_length: 3,
            shuffle_sample_size: 7,
            shuffle_interval_millis: 10000,
            promote_interval_millis: 5000,
        }
    }
}

/// A wire message of the membership protocol.
#[derive(Debug)]
pub enum Message {
    Join { info: PeerAdvertisement },
    ForwardJoin { joined: PeerInfo, ttl: usize },
    Neighbour { info: PeerAdvertisement, need_friends: bool },
    Disconnect,
    Shuffle { origin: PeerInfo, peers: Vec<PeerInfo>, ttl: usize },
    ShuffleReply { peers: Vec<PeerInfo> },
}

/// Mathematical model of a [`Message`].
pub enum MessageV {
    Join { info: PeerAdvertisementV },
    ForwardJoin { joined: PeerInfoV, ttl: usize },
    Neighbour { info: PeerAdvertisementV, need_friends: bool },
    Disconnect,
    Shuffle { origin: PeerInfoV, peers: Seq<PeerInfoV>, ttl: usize },
    ShuffleReply { peers: Seq<PeerInfoV> },
}

impl View for Message {
    type V = MessageV;

    open spec fn view(&self) -> MessageV {
        match self {
            Message::Join { info } => MessageV::Join { info: info@ },
            Message::ForwardJoin { joined, ttl } => MessageV::ForwardJoin {
                joined: joined@,
                ttl: *ttl,
            },
            Message::Neighbour { info, need_friends } => MessageV::Neighbour {
                info: info@,
                need_friends: *need_friends,
            },
            Message::Disconnect => MessageV::Disconnect,
            Message::Shuffle { origin, peers, ttl } => MessageV::Shuffle {
                origin: origin@,
                peers: crate::partial_view::fviews(peers@),
                ttl: *ttl,
            },
            Message::ShuffleReply { peers } => MessageV::ShuffleReply { peers: crate::partial_view::fviews(peers@) },
        }
    }
}

/// A deferred side-effect: the caller performs it after the view lock is
/// released.
#[derive(Debug)]
pub enum Tick {
    /// Open a connection to the peer.
    Connect { to: PeerInfo },
    /// Send a message back to one peer.
    Reply { to: PeerId, message: Message },
    /// Send a message to each of the recipients.
    All { recipients: Vec<PeerId>, message: Message },
    /// Send a message to a peer we may not be connected to.
    Try { recipient: PeerInfo, message: Message },
    /// Close the connection to the peer.
    Disconnect { peer: PeerId },
}

/// Mathematical model of a [`Tick`].
pub enum TickV {
    Connect { to: PeerInfoV },
    Reply { to: PeerId, message: MessageV },
    All { recipients: Seq<PeerId>, message: MessageV },
    Try { recipient: PeerInfoV, message: MessageV },
    Disconnect { peer: PeerId },
}

impl View for Tick {
    type V = TickV;

    open spec fn view(&self) -> TickV {
        match self {
            Tick::Connect { to } => TickV::Connect { to: to@ },
            Tick::Reply { to, message } => TickV::Reply { to: *to, message: message@ },
            Tick::All { recipients, message } => TickV::All {
                recipients: recipients@,
                message: message@,
            },
            Tick::Try { recipient, message } => TickV::Try {
                recipient: recipient@,
                message: message@,
            },
            Tick::Disconnect { peer } => TickV::Disconnect { peer: *peer },
        }
    }
}

/// The models of a sequence of ticks.
pub open spec fn kviews(s: Seq<Tick>) -> Seq<TickV> {
    s.map_values(|t: Tick| t@)
}

/// The deferred side-effect a view transition brings by itself: a demotion
/// closes the connection; promotions and evictions imply nothing.
pub open spec fn implied_tick(t: TransitionV) -> Option<TickV> {
    match t {
        TransitionV::Demoted(info) => Some(TickV::Disconnect { peer: info.peer_id }),
        _ => None,
    }
}

/// The deferred side-effects a list of transitions brings by itself.
pub open spec fn implied_ticks(ts: Seq<TransitionV>) -> Seq<TickV>
    decreases ts.len(),
{
    if ts.len() == 0 {
        Seq::empty()
    } else {
        match implied_tick(ts.last()) {
            Some(k) => implied_ticks(ts.drop_last()).push(k),
            None => implied_ticks(ts.drop_last()),
        }
    }
}

/// Batched output of a state-transforming engine call: the view transitions
/// and the deferred side-effects for the caller to perform.
#[derive(Debug)]
pub struct TnT {
    pub trans: Vec<Transition>,
    pub ticks: Vec<Tick>,
}

/// Mathematical model of a [`TnT`].
pub struct TnTV {
    pub trans: Seq<TransitionV>,
    pub ticks: Seq<TickV>,
}

impl View for TnT {
    type V = TnTV;

    open spec fn view(&self) -> TnTV {
        TnTV { trans: crate::partial_view::tviews(self.trans@), ticks: kviews(self.ticks@) }
    }
}

impl TnT {
    /// An empty batch.
    pub fn empty() -> (r: TnT)
        ensures
            r@.trans == Seq::<TransitionV>::empty(),
            r@.ticks == Seq::<TickV>::empty(),
    {
        let r = TnT { trans: Vec::new(), ticks: Vec::new() };
        assert(r@.trans =~= Seq::<TransitionV>::empty());
        assert(r@.ticks =~= Seq::<TickV>::empty());
        r
    }

    /// Bundles transitions with the side-effects they imply by themselves.
    pub fn from_transitions(trans: Vec<Transition>) -> (r: TnT)
        ensures
            r@.trans == crate::partial_view::tviews(trans@),
            r@.ticks == implied_ticks(crate::partial_view::tviews(trans@)),
    {
        let ghost tv = crate::partial_view::tviews(trans@);
        let mut ticks: Vec<Tick> = Vec::new();
        let mut i: usize = 0;
        assert(kviews(ticks@) =~= implied_ticks(tv.take(0)));
        while i < trans.len()
            invariant
                i <= trans.len(),
                tv == crate::partial_view::tviews(trans@),
                tv.len() == trans@.len(),
                forall|j: int| 0 <= j < tv.len() ==> tv[j] == trans@[j]@,
                kviews(ticks@) == implied_ticks(tv.take(i as int)),
            decreases trans.len() - i,
        {
            proof {
                assert(tv.take(i + 1).drop_last() =~= tv.take(i as int));
                assert(tv.take(i + 1).last() == tv[i as int]);
            }
            match &trans[i] {
                Transition::Demoted(info) => {
                    ticks.push(Tick::Disconnect { peer: info.peer_id });
                    proof {
                        assert(kviews(ticks@) =~= implied_ticks(tv.take(i + 1)));
                    }
                },
                _ => {
                    proof {
                        assert(implied_tick(tv[i as int]) is None);
                        assert(kviews(ticks@) =~= implied_ticks(tv.take(i + 1)));
                    }
                },
            }
            i = i + 1;
        }
        proof {
            assert(tv.take(tv.len() as int) =~= tv);
        }
        TnT { trans, ticks }
    }
}

} // verus!
