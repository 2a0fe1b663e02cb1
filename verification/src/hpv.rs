//! The HyParView membership engine: applies wire messages to the partial
//! view and reports transitions and deferred side-effects.

use vstd::prelude::*;

use crate::partial_view::{
    add_active_rel, add_passive_many_rel, add_passive_rel, addr_union, all_excluded, all_from,
    demote_rel, distinct_fids, fviews, has_fid, has_pid, lemma_add_active_rel_props,
    lemma_add_passive_inv, lemma_add_passive_rel_props, lemma_demote_rel_props, lemma_many_props,
    lemma_sample_concat, seqd, tviews, PartialView, Transition, TransitionV, ViewState,
};
use crate::peer::{
    peer_info_from, Addr, PartialPeerInfo, PartialPeerInfoV, PeerAdvertisement, PeerAdvertisementV,
    PeerId, PeerInfo, PeerInfoV,
};
use crate::tick::{implied_ticks, kviews, Message, MessageV, Params, Tick, TickV, TnT, TnTV};

verus! {

/// The one protocol error that is surfaced: a `Join` from a peer that is
/// already active.
#[derive(Clone, Copy, Debug, PartialEq, Eq, Structural)]
pub enum Error {
    JoinWhileConnected,
}

/// A periodic shuffle offer: the recipient, the advertised peers and the
/// time-to-live of the walk.
#[derive(Debug)]
pub struct Shuffle {
    pub recipient: PeerId,
    pub sample: Vec<PeerInfo>,
    pub ttl: usize,
}

/// Mathematical model of a [`Shuffle`].
pub struct ShuffleV {
    pub recipient: PeerId,
    pub sample: Seq<PeerInfoV>,
    pub ttl: usize,
}

impl View for Shuffle {
    type V = ShuffleV;

    open spec fn view(&self) -> ShuffleV {
        ShuffleV { recipient: self.recipient, sample: fviews(self.sample@), ttl: self.ttl }
    }
}

/// The smaller of two numbers.
pub open spec fn spec_min(a: int, b: int) -> int {
    if a <= b {
        a
    } else {
        b
    }
}

/// The complete description a remote peer earns on its first message: its
/// advertisement, and the address the message came from as the one seen
/// address.
pub open spec fn peer_info_of(remote: PeerId, adv: PeerAdvertisementV, addr: Addr) -> PeerInfoV {
    PeerInfoV { peer_id: remote, advertised_info: adv, seen_addrs: seq![addr] }
}

/// The identifiers of the active peers other than `exclude`, in storage
/// order.
pub open spec fn bcast(s: Seq<PartialPeerInfoV>, exclude: Option<PeerId>) -> Seq<PeerId>
    decreases s.len(),
{
    if s.len() == 0 {
        Seq::empty()
    } else {
        let rest = bcast(s.drop_last(), exclude);
        if Some(s.last().peer_id) == exclude {
            rest
        } else {
            rest.push(s.last().peer_id)
        }
    }
}

/// A saturating decrement.
pub open spec fn sat_dec(ttl: usize) -> usize {
    if ttl == 0 {
        0
    } else {
        (ttl - 1) as usize
    }
}

/// One forwarding hop: the message goes to one active peer other than the
/// sender.
pub open spec fn hop_step(
    active: Seq<PartialPeerInfoV>,
    next: PeerId,
    remote: PeerId,
    msg: MessageV,
    base: Seq<TickV>,
    ticks: Seq<TickV>,
) -> bool {
    &&& has_pid(active, next)
    &&& next != remote
    &&& ticks == base + seq![TickV::All { recipients: seq![next], message: msg }]
}

/// Forwarding to one random active peer other than the sender; when no such
/// peer exists nothing is sent.
pub open spec fn hop_rel(
    active: Seq<PartialPeerInfoV>,
    remote: PeerId,
    msg: MessageV,
    base: Seq<TickV>,
    ticks: Seq<TickV>,
) -> bool {
    if all_excluded(active, Some(remote)) {
        ticks == base
    } else {
        exists|next: PeerId| #[trigger] hop_step(active, next, remote, msg, base, ticks)
    }
}

/// How many peers a sample of size `sz` yields: up to `sz` completely
/// described active peers, topped up from the passive reserve while the
/// sample stays below the configured sample size.
pub open spec fn sample_len(st: ViewState, sz: int, sss: int) -> int {
    let a = spec_min(sz, seqd(st.active).len() as int);
    a + if a < sss {
        spec_min(sz - a, st.passive.len() as int)
    } else {
        0
    }
}

/// Every sampled peer is a completely described active peer or a passive
/// one.
pub open spec fn sample_from(st: ViewState, s: Seq<PeerInfoV>) -> bool {
    forall|i: int|
        0 <= i < s.len() ==> seqd(st.active).contains(#[trigger] s[i]) || st.passive.contains(s[i])
}

/// What holds of every sample drawn from the view.
pub open spec fn sample_props(st: ViewState, sz: int, sss: int, s: Seq<PeerInfoV>) -> bool {
    &&& s.len() == sample_len(st, sz, sss)
    &&& sample_from(st, s)
    &&& distinct_fids(s)
}

/// Connection intents for a list of promotion candidates.
pub open spec fn connect_ticks(cands: Seq<PeerInfoV>) -> Seq<TickV> {
    cands.map_values(|c: PeerInfoV| TickV::Connect { to: c })
}

/// Loss of a connection: the peer is demoted, and a connection intent is
/// emitted for each passive peer chosen to repair the active tier.
pub open spec fn connection_lost_step(
    pre: ViewState,
    post: ViewState,
    remote: PeerId,
    t: Seq<TransitionV>,
    cands: Seq<PeerInfoV>,
    maxa: int,
    out: TnTV,
) -> bool {
    &&& demote_rel(pre, post, remote, t)
    &&& out.trans == t
    &&& cands.len() == spec_min(maxa - post.active.len() as int, post.passive.len() as int)
    &&& all_from(cands, post.passive)
    &&& distinct_fids(cands)
    &&& out.ticks == implied_ticks(t) + connect_ticks(cands)
}

/// Loss of a connection, over all random choices.
pub open spec fn connection_lost_rel(
    pre: ViewState,
    post: ViewState,
    remote: PeerId,
    maxa: int,
    out: TnTV,
) -> bool {
    exists|t: Seq<TransitionV>, cands: Seq<PeerInfoV>|
        #[trigger] connection_lost_step(pre, post, remote, t, cands, maxa, out)
}

/// An established connection promotes the peer into the active tier.
pub open spec fn connection_established_rel(
    pre: ViewState,
    post: ViewState,
    info: PartialPeerInfoV,
    out: TnTV,
) -> bool {
    &&& add_active_rel(pre, post, info, out.trans)
    &&& out.ticks == implied_ticks(out.trans)
}

/// A `Join` from a new peer: it becomes active, and every other active peer
/// learns of it through a `ForwardJoin` walk.
pub open spec fn join_rel(
    pre: ViewState,
    post: ViewState,
    arwl: usize,
    remote: PeerId,
    addr: Addr,
    adv: PeerAdvertisementV,
    out: TnTV,
) -> bool {
    let pinfo = peer_info_of(remote, adv, addr);
    &&& add_active_rel(pre, post, pinfo.as_partial(), out.trans)
    &&& {
        let fwd = bcast(post.active, Some(remote));
        out.ticks == implied_ticks(out.trans) + if fwd.len() > 0 {
            seq![
                TickV::All {
                    recipients: fwd,
                    message: MessageV::ForwardJoin { joined: pinfo, ttl: arwl },
                },
            ]
        } else {
            Seq::<TickV>::empty()
        }
    }
}

/// A `Neighbour` offer: accepted into the active tier when solicited or when
/// there is room, declined with a `Disconnect` reply otherwise.
pub open spec fn neighbour_rel(
    pre: ViewState,
    post: ViewState,
    remote: PeerId,
    addr: Addr,
    adv: PeerAdvertisementV,
    need_friends: bool,
    out: TnTV,
) -> bool {
    if need_friends || pre.active.len() < pre.max_active {
        let pinfo = peer_info_of(remote, adv, addr);
        &&& add_active_rel(pre, post, pinfo.as_partial(), out.trans)
        &&& out.ticks == implied_ticks(out.trans)
    } else {
        &&& post == pre
        &&& out.trans == Seq::<TransitionV>::empty()
        &&& out.ticks == seq![TickV::Reply { to: remote, message: MessageV::Disconnect }]
    }
}

/// A `ForwardJoin` walk: a connection intent when the walk ends here, else
/// the joined peer sinks into the passive reserve at the end of its
/// time-to-live and the walk moves one hop on.
pub open spec fn forward_join_rel(
    pre: ViewState,
    post: ViewState,
    local: PeerId,
    remote: PeerId,
    joined: PeerInfoV,
    ttl: usize,
    out: TnTV,
) -> bool {
    if (ttl == 0 || pre.active.len() < pre.max_active) && !has_pid(pre.active, joined.peer_id)
        && joined.peer_id != local {
        &&& post == pre
        &&& out.trans == Seq::<TransitionV>::empty()
        &&& out.ticks == seq![TickV::Connect { to: joined }]
    } else {
        &&& if ttl == 0 {
            add_passive_rel(pre, post, joined, out.trans)
        } else {
            post == pre && out.trans == Seq::<TransitionV>::empty()
        }
        &&& hop_rel(
            pre.active,
            remote,
            MessageV::ForwardJoin { joined, ttl: sat_dec(ttl) },
            implied_ticks(out.trans),
            out.ticks,
        )
    }
}

/// A `Shuffle` whose walk ends here: a sample of our view is offered back to
/// the origin, and the advertised peers sink into the passive reserve.
pub open spec fn shuffle_zero_step(
    pre: ViewState,
    post: ViewState,
    sss: int,
    origin: PeerInfoV,
    peers: Seq<PeerInfoV>,
    smp: Seq<PeerInfoV>,
    out: TnTV,
) -> bool {
    &&& sample_props(pre, peers.len() as int, sss, smp)
    &&& add_passive_many_rel(pre, post, peers, out.trans)
    &&& out.ticks == (if smp.len() > 0 {
        seq![
            TickV::Try { recipient: origin, message: MessageV::ShuffleReply { peers: smp } },
        ]
    } else {
        Seq::<TickV>::empty()
    }) + implied_ticks(out.trans)
}

/// A `Shuffle` whose walk ends here, over all random choices.
pub open spec fn shuffle_zero_rel(
    pre: ViewState,
    post: ViewState,
    sss: int,
    origin: PeerInfoV,
    peers: Seq<PeerInfoV>,
    out: TnTV,
) -> bool {
    exists|smp: Seq<PeerInfoV>| #[trigger] shuffle_zero_step(pre, post, sss, origin, peers, smp, out)
}

/// A `Shuffle` still walking: the origin's seen addresses learn the sender's
/// address when the origin sent it, and the walk moves one hop on.
pub open spec fn shuffle_fwd_rel(
    pre: ViewState,
    post: ViewState,
    remote: PeerId,
    addr: Addr,
    origin: PeerInfoV,
    peers: Seq<PeerInfoV>,
    ttl: usize,
    out: TnTV,
) -> bool {
    let origin2 = if origin.peer_id == remote {
        PeerInfoV { seen_addrs: addr_union(origin.seen_addrs, seq![addr]), ..origin }
    } else {
        origin
    };
    &&& post == pre
    &&& out.trans == Seq::<TransitionV>::empty()
    &&& hop_rel(
        pre.active,
        remote,
        MessageV::Shuffle { origin: origin2, peers, ttl: sat_dec(ttl) },
        Seq::<TickV>::empty(),
        out.ticks,
    )
}

/// What applying one wire message does to the view, and what it returns, for
/// every outcome of the random choices involved.
pub open spec fn apply_rel(
    pre: ViewState,
    post: ViewState,
    params: Params,
    local: PeerId,
    remote: PeerId,
    addr: Addr,
    msg: MessageV,
    r: Result<TnTV, Error>,
) -> bool {
    match msg {
        MessageV::Join { info } => {
            if has_pid(pre.active, remote) {
                r == Err::<TnTV, Error>(Error::JoinWhileConnected) && post == pre
            } else {
                r matches Ok(out) && join_rel(
                    pre,
                    post,
                    params.active_random_walk_length,
                    remote,
                    addr,
                    info,
                    out,
                )
            }
        },
        MessageV::ForwardJoin { joined, ttl } => r matches Ok(out) && forward_join_rel(
            pre,
            post,
            local,
            remote,
            joined,
            ttl,
            out,
        ),
        MessageV::Neighbour { info, need_friends } => r matches Ok(out) && neighbour_rel(
            pre,
            post,
            remote,
            addr,
            info,
            need_friends,
            out,
        ),
        MessageV::Disconnect => r matches Ok(out) && demote_rel(pre, post, remote, out.trans)
            && out.ticks == implied_ticks(out.trans),
        MessageV::Shuffle { origin, peers, ttl } => {
            if ttl == 0 && origin.peer_id != local {
                r matches Ok(out) && shuffle_zero_rel(
                    pre,
                    post,
                    params.shuffle_sample_size as int,
                    origin,
                    peers,
                    out,
                )
            } else if ttl > 0 {
                r matches Ok(out) && shuffle_fwd_rel(pre, post, remote, addr, origin, peers, ttl, out)
            } else {
                r matches Ok(out) && post == pre && out.trans == Seq::<TransitionV>::empty()
                    && out.ticks == Seq::<TickV>::empty()
            }
        },
        MessageV::ShuffleReply { peers } => r matches Ok(out) && add_passive_many_rel(
            pre,
            post,
            peers,
            out.trans,
        ) && out.ticks == implied_ticks(out.trans),
    }
}

/// The model of an engine result.
pub open spec fn res_view(r: Result<TnT, Error>) -> Result<TnTV, Error> {
    match r {
        Ok(t) => Ok(t@),
        Err(e) => Err(e),
    }
}

/// Mathematical model of an engine.
pub struct HpvV {
    pub local_id: PeerId,
    pub params: Params,
    pub view: ViewState,
}

impl HpvV {
    /// The engine invariant: the view is well formed and agrees with the
    /// engine's identity and parameters.
    pub open spec fn inv(self) -> bool {
        &&& self.view.inv()
        &&& self.view.local_id == self.local_id
        &&& self.view.max_active == self.params.max_active as nat
        &&& self.view.max_passive == self.params.max_passive as nat
    }
}

/// The membership protocol state machine: the partial view, the local
/// identity and the protocol parameters.
pub struct HpvInner {
    local_id: PeerId,
    params: Params,
    view: PartialView,
}

impl View for HpvInner {
    type V = HpvV;

    closed spec fn view(&self) -> HpvV {
        HpvV { local_id: self.local_id, params: self.params, view: self.view@ }
    }
}

impl HpvInner {
    /// Builds an engine with an empty view, keeping the caller's parameters.
    pub fn new(local_id: PeerId, rng: rand::rngs::StdRng, params: Params) -> (r: Self)
        requires
            1 <= params.max_active,
            1 <= params.max_passive,
        ensures
            r@.inv(),
            r@.local_id == local_id,
            r@.params == params,
            r@.view.active == Seq::<PartialPeerInfoV>::empty(),
            r@.view.passive == Seq::<PeerInfoV>::empty(),
    {
        let view = PartialView::new(local_id, rng, params.max_active, params.max_passive);
        HpvInner { local_id, params, view }
    }

    /// The engine's parameters.
    pub fn params(&self) -> (r: Params)
        ensures
            r == self@.params,
    {
        self.params
    }

    /// The number of active peers.
    pub fn num_active(&self) -> (r: usize)
        ensures
            r == self@.view.active.len(),
    {
        self.view.num_active()
    }

    /// The number of passive peers.
    pub fn num_passive(&self) -> (r: usize)
        ensures
            r == self@.view.passive.len(),
    {
        self.view.num_passive()
    }

    /// The sizes of the two tiers.
    pub fn view_stats(&self) -> (r: (usize, usize))
        ensures
            r.0 == self@.view.active.len(),
            r.1 == self@.view.passive.len(),
    {
        (self.view.num_active(), self.view.num_passive())
    }

    /// Whether `peer` is active.
    pub fn is_active(&self, peer: &PeerId) -> (r: bool)
        ensures
            r == has_pid(self@.view.active, *peer),
    {
        self.view.is_active(peer)
    }

    /// All known peer identifiers: the active ones, then the passive ones.
    pub fn known(&self) -> (r: Vec<PeerId>)
        ensures
            r@.len() == self@.view.active.len() + self@.view.passive.len(),
            forall|i: int|
                0 <= i < self@.view.active.len() ==> r@[i] == self@.view.active[i].peer_id,
            forall|i: int|
                0 <= i < self@.view.passive.len() ==> r@[self@.view.active.len() + i]
                    == self@.view.passive[i].peer_id,
    {
        self.view.known()
    }

    /// The active peers a broadcast goes to, leaving out `exclude`.
    pub fn broadcast_recipients(&self, exclude: Option<PeerId>) -> (r: Vec<PeerId>)
        ensures
            r@ == bcast(self@.view.active, exclude),
    {
        let mut out: Vec<PeerId> = Vec::new();
        let mut i: usize = 0;
        proof {
            assert(self@.view.active.take(0) =~= Seq::<PartialPeerInfoV>::empty());
            assert(out@ =~= bcast(self@.view.active.take(0), exclude));
        }
        while i < self.view.num_active()
            invariant
                i <= self@.view.active.len(),
                out@ == bcast(self@.view.active.take(i as int), exclude),
            decreases self@.view.active.len() - i,
        {
            proof {
                assert(self@.view.active.take(i + 1).drop_last() =~= self@.view.active.take(
                    i as int,
                ));
                assert(self@.view.active.take(i + 1).last() == self@.view.active[i as int]);
            }
            let ids = self.view.active();
            let id = ids[i];
            let keep = match exclude {
                Some(ex) => id != ex,
                None => true,
            };
            if keep {
                out.push(id);
            }
            i = i + 1;
        }
        proof {
            assert(self@.view.active.take(self@.view.active.len() as int) =~= self@.view.active);
        }
        out
    }

    /// The initial outbound message for a fresh connection: `Join` into an
    /// empty view, else a `Neighbour` offer that solicits friends while no
    /// peer is active.
    pub fn hello(&self, local_info: PeerAdvertisement) -> (r: Message)
        ensures
            r@ == (if self@.view.active.len() == 0 && self@.view.passive.len() == 0 {
                MessageV::Join { info: local_info@ }
            } else {
                MessageV::Neighbour {
                    info: local_info@,
                    need_friends: self@.view.active.len() == 0,
                }
            }),
    {
        let (act, pas) = self.view_stats();
        if act == 0 && pas == 0 {
            Message::Join { info: local_info }
        } else {
            Message::Neighbour { info: local_info, need_friends: act == 0 }
        }
    }

    /// Picks one active peer uniformly.
    pub fn random_active(&mut self) -> (r: Option<PeerId>)
        ensures
            final(self)@ == old(self)@,
            match r {
                Some(id) => has_pid(old(self)@.view.active, id),
                None => old(self)@.view.active.len() == 0,
            },
    {
        let r = self.view.choose_active_excluding(None);
        proof {
            if r is None && self@.view.active.len() > 0 {
                assert(Some(self@.view.active[0].peer_id) == Option::<PeerId>::None);
            }
        }
        r
    }

    /// The passive peers chosen to repair the active tier, uniformly without
    /// replacement.
    pub fn choose_passive_to_promote(&mut self) -> (r: Vec<PeerInfo>)
        requires
            old(self)@.inv(),
        ensures
            final(self)@ == old(self)@,
            fviews(r@).len() == spec_min(
                old(self)@.params.max_active - old(self)@.view.active.len() as int,
                old(self)@.view.passive.len() as int,
            ),
            all_from(fviews(r@), old(self)@.view.passive),
            distinct_fids(fviews(r@)),
    {
        let n = self.params.max_active - self.view.num_active();
        self.view.sample_passive(n)
    }

    /// A sample of the view: completely described active peers first, topped
    /// up from the passive reserve while below the configured sample size.
    pub fn sample(&mut self, sz: usize) -> (r: Vec<PeerInfo>)
        requires
            old(self)@.inv(),
        ensures
            final(self)@ == old(self)@,
            sample_props(
                old(self)@.view,
                sz as int,
                old(self)@.params.shuffle_sample_size as int,
                fviews(r@),
            ),
    {
        let ghost st = self@.view;
        let mut first = self.view.sample_active_sequenced(sz);
        let ghost fv = fviews(first@);
        if first.len() < self.params.shuffle_sample_size {
            let k = sz - first.len();
            let mut rest = self.view.sample_passive(k);
            let ghost rv = fviews(rest@);
            first.append(&mut rest);
            proof {
                assert(fviews(first@) =~= fv + rv);
                lemma_sample_concat(st, fv, rv);
            }
        } else {
            proof {
                assert(fviews(first@) =~= fv + Seq::<PeerInfoV>::empty());
                lemma_sample_concat(st, fv, Seq::<PeerInfoV>::empty());
                assert(fv + Seq::<PeerInfoV>::empty() =~= fv);
            }
        }
        first
    }

    /// Promotes a peer whose connection was just established.
    pub fn connection_established(&mut self, info: PartialPeerInfo) -> (r: TnT)
        requires
            old(self)@.inv(),
        ensures
            final(self)@.inv(),
            final(self)@.local_id == old(self)@.local_id,
            final(self)@.params == old(self)@.params,
            connection_established_rel(old(self)@.view, final(self)@.view, info@, r@),
    {
        let ghost pre = self@.view;
        let ghost infov = info@;
        let t = self.view.add_active(info);
        proof {
            lemma_add_active_rel_props(pre, self@.view, infov, tviews(t@));
        }
        TnT::from_transitions(t)
    }

    /// Demotes a peer whose connection was lost, and picks passive peers to
    /// reconnect to in its stead.
    pub fn connection_lost(&mut self, remote_peer: PeerId) -> (r: TnT)
        requires
            old(self)@.inv(),
        ensures
            final(self)@.inv(),
            final(self)@.local_id == old(self)@.local_id,
            final(self)@.params == old(self)@.params,
            connection_lost_rel(
                old(self)@.view,
                final(self)@.view,
                remote_peer,
                old(self)@.params.max_active as int,
                r@,
            ),
    {
        let ghost pre = self@.view;
        let t = self.view.demote(&remote_peer);
        let ghost tv = tviews(t@);
        proof {
            lemma_demote_rel_props(pre, self@.view, remote_peer, tv);
        }
        let mut tnt = TnT::from_transitions(t);
        let cands = self.choose_passive_to_promote();
        let ghost cv = fviews(cands@);
        let ghost ticks0 = kviews(tnt.ticks@);
        let mut i: usize = 0;
        while i < cands.len()
            invariant
                i <= cands.len(),
                cv == fviews(cands@),
                cv.len() == cands@.len(),
                forall|j: int| 0 <= j < cv.len() ==> cv[j] == cands@[j]@,
                kviews(tnt.ticks@) == ticks0 + connect_ticks(cv.take(i as int)),
                tviews(tnt.trans@) == tv,
            decreases cands.len() - i,
        {
            let ghost kb = kviews(tnt.ticks@);
            tnt.ticks.push(Tick::Connect { to: cands[i].clone_full() });
            proof {
                assert(kviews(tnt.ticks@) =~= kb.push(TickV::Connect { to: cv[i as int] }));
                assert(connect_ticks(cv.take(i + 1)) =~= connect_ticks(cv.take(i as int)).push(
                    TickV::Connect { to: cv[i as int] },
                ));
                assert(kviews(tnt.ticks@) =~= ticks0 + connect_ticks(cv.take(i + 1)));
            }
            i = i + 1;
        }
        proof {
            assert(cv.take(cv.len() as int) =~= cv);
            assert(connection_lost_step(
                pre,
                self@.view,
                remote_peer,
                tv,
                cv,
                self@.params.max_active as int,
                tnt@,
            ));
        }
        tnt
    }

    /// Offers a shuffle: one random active peer receives a sample of our
    /// view that leaves itself out.
    pub fn shuffle(&mut self) -> (r: Option<Shuffle>)
        requires
            old(self)@.inv(),
        ensures
            final(self)@ == old(self)@,
            old(self)@.view.active.len() == 0 ==> r is None,
            // an offer is owed whenever no random outcome can come up empty:
            // a drawn sample of two or more distinct peers loses at most one
            // of them to the recipient filter
            r is None ==> old(self)@.view.active.len() == 0 || sample_len(
                old(self)@.view,
                old(self)@.params.shuffle_sample_size as int,
                old(self)@.params.shuffle_sample_size as int,
            ) <= 1,
            match r {
                Some(s) => {
                    &&& has_pid(old(self)@.view.active, s@.recipient)
                    &&& s@.ttl == old(self)@.params.active_random_walk_length
                    &&& s@.sample.len() > 0
                    &&& s@.sample.len() <= old(self)@.params.shuffle_sample_size
                    &&& distinct_fids(s@.sample)
                    &&& sample_from(old(self)@.view, s@.sample)
                    &&& forall|i: int|
                        0 <= i < s@.sample.len() ==> (#[trigger] s@.sample[i]).peer_id
                            != s@.recipient
                },
                None => true,
            },
    {
        let ghost st = self@.view;
        let recipient = match self.random_active() {
            None => {
                return None;
            },
            Some(id) => id,
        };
        let smp = self.sample(self.params.shuffle_sample_size);
        let ghost sv = fviews(smp@);
        let mut sample: Vec<PeerInfo> = Vec::new();
        let mut i: usize = 0;
        proof {
            assert(fviews(sample@) =~= Seq::<PeerInfoV>::empty());
        }
        while i < smp.len()
            invariant
                i <= smp.len(),
                sv == fviews(smp@),
                sv.len() == smp@.len(),
                forall|j: int| 0 <= j < sv.len() ==> sv[j] == smp@[j]@,
                distinct_fids(sv),
                sample_from(st, sv),
                distinct_fids(fviews(sample@)),
                fviews(sample@).len() <= i,
                fviews(sample@).len() == 0 ==> forall|j: int|
                    0 <= j < i ==> sv[j].peer_id == recipient,
                forall|j: int|
                    0 <= j < fviews(sample@).len() ==> (#[trigger] fviews(sample@)[j]).peer_id
                        != recipient,
                forall|j: int|
                    0 <= j < fviews(sample@).len() ==> sample_member(st, fviews(sample@)[j]),
                forall|j: int, k: int|
                    0 <= j < fviews(sample@).len() && 0 <= k < sv.len()
                        && (#[trigger] fviews(sample@)[j]).peer_id == (#[trigger] sv[k]).peer_id
                        ==> k < i,
            decreases smp.len() - i,
        {
            let keep = smp[i].peer_id != recipient;
            let ghost so = fviews(sample@);
            if keep {
                sample.push(smp[i].clone_full());
                proof {
                    assert(fviews(sample@) =~= so.push(sv[i as int]));
                    assert(sample_member(st, sv[i as int]));
                    assert forall|a: int, b: int|
                        0 <= a < b < fviews(sample@).len() implies fviews(
                        sample@,
                    )[a].peer_id != fviews(sample@)[b].peer_id by {
                        if b == fviews(sample@).len() - 1 {
                            assert(fviews(sample@)[b] == sv[i as int]);
                        }
                    }
                }
            }
            i = i + 1;
        }
        if sample.len() == 0 {
            proof {
                // everything drawn was the recipient itself; the drawn peers
                // are distinct, so at most one was drawn at all
                if sv.len() >= 2 {
                    assert(sv[0].peer_id == recipient);
                    assert(sv[1].peer_id == recipient);
                    assert(false);
                }
            }
            None
        } else {
            let r = Shuffle {
                recipient,
                sample,
                ttl: self.params.active_random_walk_length,
            };
            proof {
                assert(sv.len() <= self@.params.shuffle_sample_size);
            }
            proof {
                assert forall|j: int| 0 <= j < r@.sample.len() implies seqd(st.active).contains(
                    #[trigger] r@.sample[j],
                ) || st.passive.contains(r@.sample[j]) by {
                    assert(sample_member(st, r@.sample[j]));
                }
            }
            Some(r)
        }
    }
}

/// Membership of one sampled peer in the view.
pub open spec fn sample_member(st: ViewState, p: PeerInfoV) -> bool {
    seqd(st.active).contains(p) || st.passive.contains(p)
}

/// The promotion law: after any engine message, every `Promoted` transition
/// reported names a peer that is active in the view after the call.
pub proof fn lemma_apply_promoted_active(
    pre: ViewState,
    post: ViewState,
    params: Params,
    local: PeerId,
    remote: PeerId,
    addr: Addr,
    msg: MessageV,
    r: Result<TnTV, Error>,
)
    requires
        apply_rel(pre, post, params, local, remote, addr, msg, r),
        pre.inv(),
    ensures
        r matches Ok(out) ==> forall|i: int|
            0 <= i < out.trans.len() ==> ((#[trigger] out.trans[i]) matches TransitionV::Promoted(
                p,
            ) ==> has_pid(post.active, p.peer_id)),
{
    match msg {
        MessageV::Join { info } => {
            if !has_pid(pre.active, remote) {
                let out = r->Ok_0;
                let pinfo = peer_info_of(remote, info, addr);
                crate::partial_view::lemma_add_active_promoted(
                    pre,
                    post,
                    pinfo.as_partial(),
                    out.trans,
                );
            }
        },
        MessageV::ForwardJoin { joined, ttl } => {
            let out = r->Ok_0;
            if (ttl == 0 || pre.active.len() < pre.max_active) && !has_pid(
                pre.active,
                joined.peer_id,
            ) && joined.peer_id != local {
            } else {
                if ttl == 0 {
                    crate::partial_view::lemma_add_passive_no_promoted(
                        pre,
                        post,
                        joined,
                        out.trans,
                    );
                }
            }
        },
        MessageV::Neighbour { info, need_friends } => {
            if need_friends || pre.active.len() < pre.max_active {
                let out = r->Ok_0;
                let pinfo = peer_info_of(remote, info, addr);
                crate::partial_view::lemma_add_active_promoted(
                    pre,
                    post,
                    pinfo.as_partial(),
                    out.trans,
                );
            }
        },
        MessageV::Disconnect => {
            let out = r->Ok_0;
            crate::partial_view::lemma_demote_no_promoted(pre, post, remote, out.trans);
        },
        MessageV::Shuffle { origin, peers, ttl } => {
            if ttl == 0 && origin.peer_id != local {
                let out = r->Ok_0;
                let smp = choose|smp: Seq<PeerInfoV>|
                    #[trigger] shuffle_zero_step(
                        pre,
                        post,
                        params.shuffle_sample_size as int,
                        origin,
                        peers,
                        smp,
                        out,
                    );
                crate::partial_view::lemma_many_no_promoted(pre, post, peers, out.trans);
            }
        },
        MessageV::ShuffleReply { peers } => {
            let out = r->Ok_0;
            crate::partial_view::lemma_many_no_promoted(pre, post, peers, out.trans);
        },
    }
}

/// The eviction law for a remote disconnect: every `Evicted` transition the
/// call reports names a peer that is afterwards in neither tier.
pub proof fn lemma_apply_disconnect_evicted_gone(
    pre: ViewState,
    post: ViewState,
    params: Params,
    local: PeerId,
    remote: PeerId,
    addr: Addr,
    r: Result<TnTV, Error>,
)
    requires
        apply_rel(pre, post, params, local, remote, addr, MessageV::Disconnect, r),
        pre.inv(),
    ensures
        r matches Ok(out) ==> forall|i: int|
            0 <= i < out.trans.len() ==> ((#[trigger] out.trans[i]) matches TransitionV::Evicted(
                p,
            ) ==> !has_pid(post.active, p.peer_id) && !has_fid(post.passive, p.peer_id)),
{
    let out = r->Ok_0;
    crate::partial_view::lemma_demote_evicted_gone(pre, post, remote, out.trans);
}

/// The eviction law for a lost connection: every `Evicted` transition the
/// call reports names a peer that is afterwards in neither tier.
pub proof fn lemma_connection_lost_evicted_gone(
    pre: ViewState,
    post: ViewState,
    remote: PeerId,
    maxa: int,
    out: TnTV,
)
    requires
        connection_lost_rel(pre, post, remote, maxa, out),
        pre.inv(),
    ensures
        forall|i: int|
            0 <= i < out.trans.len() ==> ((#[trigger] out.trans[i]) matches TransitionV::Evicted(
                p,
            ) ==> !has_pid(post.active, p.peer_id) && !has_fid(post.passive, p.peer_id)),
{
    let (t, cands) = choose|t: Seq<TransitionV>, cands: Seq<PeerInfoV>|
        #[trigger] connection_lost_step(pre, post, remote, t, cands, maxa, out);
    crate::partial_view::lemma_demote_evicted_gone(pre, post, remote, t);
}

/// The promotion law for an established connection.
pub proof fn lemma_connection_established_promoted_active(
    pre: ViewState,
    post: ViewState,
    info: PartialPeerInfoV,
    out: TnTV,
)
    requires
        connection_established_rel(pre, post, info, out),
        pre.inv(),
    ensures
        forall|i: int|
            0 <= i < out.trans.len() ==> ((#[trigger] out.trans[i]) matches TransitionV::Promoted(
                p,
            ) ==> has_pid(post.active, p.peer_id)),
{
    crate::partial_view::lemma_add_active_promoted(pre, post, info, out.trans);
}

impl HpvInner {
    /// Applies one wire message from `remote_peer`, received over
    /// `remote_addr`, to the view. The engine never panics on remote input;
    /// a `Join` from an already active peer is the only surfaced error.
    pub fn apply(&mut self, remote_peer: PeerId, remote_addr: Addr, rpc: Message) -> (r: Result<
        TnT,
        Error,
    >)
        requires
            old(self)@.inv(),
        ensures
            final(self)@.inv(),
            final(self)@.local_id == old(self)@.local_id,
            final(self)@.params == old(self)@.params,
            apply_rel(
                old(self)@.view,
                final(self)@.view,
                old(self)@.params,
                old(self)@.local_id,
                remote_peer,
                remote_addr,
                rpc@,
                res_view(r),
            ),
    {
        let ghost pre = self@.view;
        match rpc {
            Message::Join { info } => {
                if self.view.is_active(&remote_peer) {
                    Err(Error::JoinWhileConnected)
                } else {
                    let pinfo = peer_info_from(remote_peer, info, remote_addr);
                    let ghost pinfov = pinfo@;
                    let partial = PartialPeerInfo::from_full(&pinfo);
                    let t = self.view.add_active(partial);
                    let ghost tv = tviews(t@);
                    proof {
                        lemma_add_active_rel_props(pre, self@.view, pinfov.as_partial(), tv);
                    }
                    let mut tnt = TnT::from_transitions(t);
                    let ghost ticks0 = kviews(tnt.ticks@);
                    let fwd = self.broadcast_recipients(Some(remote_peer));
                    let ghost fwdv = fwd@;
                    if fwd.len() > 0 {
                        tnt.ticks.push(
                            Tick::All {
                                recipients: fwd,
                                message: Message::ForwardJoin {
                                    joined: pinfo,
                                    ttl: self.params.active_random_walk_length,
                                },
                            },
                        );
                        proof {
                            assert(kviews(tnt.ticks@) =~= ticks0 + seq![
                                TickV::All {
                                    recipients: fwdv,
                                    message: MessageV::ForwardJoin {
                                        joined: pinfov,
                                        ttl: self@.params.active_random_walk_length,
                                    },
                                },
                            ]);
                        }
                    } else {
                        proof {
                            assert(fwdv.len() == 0);
                            assert(kviews(tnt.ticks@) =~= ticks0 + Seq::<TickV>::empty());
                        }
                    }
                    proof {
                        assert(join_rel(
                            pre,
                            self@.view,
                            self@.params.active_random_walk_length,
                            remote_peer,
                            remote_addr,
                            pinfov.advertised_info,
                            tnt@,
                        ));
                    }
                    Ok(tnt)
                }
            },
            Message::ForwardJoin { joined, ttl } => {
                let not_active = !self.view.is_active(&joined.peer_id);
                let full = self.view.is_active_full();
                if (ttl == 0 || !full) && not_active && joined.peer_id != self.local_id {
                    let ghost jv = joined@;
                    let mut tnt = TnT::empty();
                    tnt.ticks.push(Tick::Connect { to: joined });
                    proof {
                        assert(kviews(tnt.ticks@) =~= seq![TickV::Connect { to: jv }]);
                    }
                    Ok(tnt)
                } else {
                    let ghost jv = joined@;
                    let new_ttl = if ttl == 0 {
                        0
                    } else {
                        ttl - 1
                    };
                    let t: Vec<Transition> = if ttl == 0 {
                        self.view.add_passive(joined.clone_full())
                    } else {
                        let t0: Vec<Transition> = Vec::new();
                        assert(tviews(t0@) =~= Seq::<TransitionV>::empty());
                        t0
                    };
                    let ghost tv = tviews(t@);
                    proof {
                        if ttl == 0 {
                            lemma_add_passive_rel_props(pre, self@.view, jv, tv);
                            lemma_add_passive_inv(pre, self@.view, jv, tv);
                        }
                        assert(self@.view.active == pre.active);
                    }
                    let mut tnt = TnT::from_transitions(t);
                    let ghost ticks0 = kviews(tnt.ticks@);
                    let hop = self.view.choose_active_excluding(Some(remote_peer));
                    let ghost msgv = MessageV::ForwardJoin { joined: jv, ttl: sat_dec(ttl) };
                    match hop {
                        Some(next) => {
                            let mut recipients: Vec<PeerId> = Vec::new();
                            recipients.push(next);
                            tnt.ticks.push(
                                Tick::All {
                                    recipients,
                                    message: Message::ForwardJoin { joined, ttl: new_ttl },
                                },
                            );
                            proof {
                                assert(kviews(tnt.ticks@) =~= ticks0 + seq![
                                    TickV::All { recipients: seq![next], message: msgv },
                                ]);
                                assert(hop_step(
                                    pre.active,
                                    next,
                                    remote_peer,
                                    msgv,
                                    ticks0,
                                    kviews(tnt.ticks@),
                                ));
                            }
                        },
                        None => {
                            proof {
                                assert(kviews(tnt.ticks@) == ticks0);
                            }
                        },
                    }
                    proof {
                        assert(forward_join_rel(
                            pre,
                            self@.view,
                            self@.local_id,
                            remote_peer,
                            jv,
                            ttl,
                            tnt@,
                        ));
                    }
                    Ok(tnt)
                }
            },
            Message::Neighbour { info, need_friends } => {
                if need_friends || !self.view.is_active_full() {
                    let pinfo = peer_info_from(remote_peer, info, remote_addr);
                    let ghost pinfov = pinfo@;
                    let partial = PartialPeerInfo::from_full(&pinfo);
                    let t = self.view.add_active(partial);
                    proof {
                        lemma_add_active_rel_props(pre, self@.view, pinfov.as_partial(), tviews(t@));
                    }
                    Ok(TnT::from_transitions(t))
                } else {
                    let mut tnt = TnT::empty();
                    tnt.ticks.push(Tick::Reply { to: remote_peer, message: Message::Disconnect });
                    proof {
                        assert(kviews(tnt.ticks@) =~= seq![
                            TickV::Reply { to: remote_peer, message: MessageV::Disconnect },
                        ]);
                    }
                    Ok(tnt)
                }
            },
            Message::Disconnect => {
                let t = self.view.demote(&remote_peer);
                proof {
                    lemma_demote_rel_props(pre, self@.view, remote_peer, tviews(t@));
                }
                Ok(TnT::from_transitions(t))
            },
            Message::Shuffle { origin, peers, ttl } => {
                if ttl == 0 && origin.peer_id != self.local_id {
                    let ghost ov = origin@;
                    let ghost pv = fviews(peers@);
                    let sz = peers.len();
                    let smp = self.sample(sz);
                    let ghost sv = fviews(smp@);
                    let mut ticks: Vec<Tick> = Vec::new();
                    if smp.len() > 0 {
                        ticks.push(
                            Tick::Try {
                                recipient: origin,
                                message: Message::ShuffleReply { peers: smp },
                            },
                        );
                        proof {
                            assert(kviews(ticks@) =~= seq![
                                TickV::Try {
                                    recipient: ov,
                                    message: MessageV::ShuffleReply { peers: sv },
                                },
                            ]);
                        }
                    } else {
                        proof {
                            assert(sv.len() == 0);
                            assert(kviews(ticks@) =~= Seq::<TickV>::empty());
                        }
                    }
                    let ghost head = kviews(ticks@);
                    let t = self.view.add_passive_many(peers);
                    let ghost tv = tviews(t@);
                    proof {
                        lemma_many_props(pre, self@.view, pv, tv);
                    }
                    let mut tail = TnT::from_transitions(t);
                    ticks.append(&mut tail.ticks);
                    let tnt = TnT { trans: tail.trans, ticks };
                    proof {
                        assert(kviews(tnt.ticks@) =~= head + implied_ticks(tv));
                        assert(shuffle_zero_step(
                            pre,
                            self@.view,
                            self@.params.shuffle_sample_size as int,
                            ov,
                            pv,
                            sv,
                            tnt@,
                        ));
                    }
                    Ok(tnt)
                } else if ttl > 0 {
                    let ghost ov = origin@;
                    let ghost pv = fviews(peers@);
                    let mut origin = origin;
                    if origin.peer_id == remote_peer {
                        if !crate::peer::addrs_contain(&origin.seen_addrs, remote_addr) {
                            origin.seen_addrs.push(remote_addr);
                        }
                        proof {
                            let s1 = seq![remote_addr];
                            assert(s1.drop_first() =~= Seq::<Addr>::empty());
                            let stepv = if ov.seen_addrs.contains(remote_addr) {
                                ov.seen_addrs
                            } else {
                                ov.seen_addrs.push(remote_addr)
                            };
                            assert(addr_union(stepv, Seq::<Addr>::empty()) == stepv);
                            assert(addr_union(ov.seen_addrs, s1) == stepv);
                            assert(origin@.seen_addrs == stepv);
                        }
                    }
                    let ghost o2 = origin@;
                    let new_ttl = ttl - 1;
                    let hop = self.view.choose_active_excluding(Some(remote_peer));
                    let ghost msgv = MessageV::Shuffle { origin: o2, peers: pv, ttl: sat_dec(ttl) };
                    let mut tnt = TnT::empty();
                    match hop {
                        Some(next) => {
                            let mut recipients: Vec<PeerId> = Vec::new();
                            recipients.push(next);
                            tnt.ticks.push(
                                Tick::All {
                                    recipients,
                                    message: Message::Shuffle { origin, peers, ttl: new_ttl },
                                },
                            );
                            proof {
                                assert(kviews(tnt.ticks@) =~= Seq::<TickV>::empty() + seq![
                                    TickV::All { recipients: seq![next], message: msgv },
                                ]);
                                assert(hop_step(
                                    pre.active,
                                    next,
                                    remote_peer,
                                    msgv,
                                    Seq::<TickV>::empty(),
                                    kviews(tnt.ticks@),
                                ));
                            }
                        },
                        None => {},
                    }
                    proof {
                        assert(shuffle_fwd_rel(
                            pre,
                            self@.view,
                            remote_peer,
                            remote_addr,
                            ov,
                            pv,
                            ttl,
                            tnt@,
                        ));
                    }
                    Ok(tnt)
                } else {
                    Ok(TnT::empty())
                }
            },
            Message::ShuffleReply { peers } => {
                let ghost pv = fviews(peers@);
                let t = self.view.add_passive_many(peers);
                proof {
                    lemma_many_props(pre, self@.view, pv, tviews(t@));
                }
                Ok(TnT::from_transitions(t))
            },
        }
    }
}

} // verus!
