//! The two-tier partial view: a capped active set of live peers and a capped
//! passive reserve, with promotion, demotion and eviction primitives.

use vstd::prelude::*;

use crate::peer::{
    addrs_contain, Addr, PartialPeerInfo, PartialPeerInfoV, PeerId, PeerInfo, PeerInfoV,
};
use crate::rng::gen_index;

verus! {

/// A labelled change to the membership view.
#[derive(Debug)]
pub enum Transition {
    Promoted(PartialPeerInfo),
    Demoted(PeerInfo),
    Evicted(PartialPeerInfo),
}

/// Mathematical model of a [`Transition`].
pub enum TransitionV {
    Promoted(PartialPeerInfoV),
    Demoted(PeerInfoV),
    Evicted(PartialPeerInfoV),
}

impl View for Transition {
    type V = TransitionV;

    open spec fn view(&self) -> TransitionV {
        match self {
            Transition::Promoted(p) => TransitionV::Promoted(p@),
            Transition::Demoted(p) => TransitionV::Demoted(p@),
            Transition::Evicted(p) => TransitionV::Evicted(p@),
        }
    }
}

/// The models of a sequence of transitions.
pub open spec fn tviews(ts: Seq<Transition>) -> Seq<TransitionV> {
    ts.map_values(|t: Transition| t@)
}

/// The models of a sequence of partial peer descriptions.
pub open spec fn pviews(s: Seq<PartialPeerInfo>) -> Seq<PartialPeerInfoV> {
    s.map_values(|p: PartialPeerInfo| p@)
}

/// The models of a sequence of complete peer descriptions.
pub open spec fn fviews(s: Seq<PeerInfo>) -> Seq<PeerInfoV> {
    s.map_values(|p: PeerInfo| p@)
}

/// Whether some entry of `s` describes the peer `id`.
pub open spec fn has_pid(s: Seq<PartialPeerInfoV>, id: PeerId) -> bool {
    exists|i: int| 0 <= i < s.len() && s[i].peer_id == id
}

/// Whether some entry of `s` describes the peer `id`.
pub open spec fn has_fid(s: Seq<PeerInfoV>, id: PeerId) -> bool {
    exists|i: int| 0 <= i < s.len() && s[i].peer_id == id
}

/// The index of the entry of `s` describing `id`, when there is one.
pub open spec fn pidx(s: Seq<PartialPeerInfoV>, id: PeerId) -> int {
    choose|i: int| 0 <= i < s.len() && s[i].peer_id == id
}

/// The index of the entry of `s` describing `id`, when there is one.
pub open spec fn fidx(s: Seq<PeerInfoV>, id: PeerId) -> int {
    choose|i: int| 0 <= i < s.len() && s[i].peer_id == id
}

/// No two entries describe the same peer.
pub open spec fn distinct_pids(s: Seq<PartialPeerInfoV>) -> bool {
    forall|i: int, j: int| 0 <= i < j < s.len() ==> s[i].peer_id != s[j].peer_id
}

/// No two entries describe the same peer.
pub open spec fn distinct_fids(s: Seq<PeerInfoV>) -> bool {
    forall|i: int, j: int| 0 <= i < j < s.len() ==> s[i].peer_id != s[j].peer_id
}

/// No peer described in `a` is described in `p`.
pub open spec fn pf_disjoint(a: Seq<PartialPeerInfoV>, p: Seq<PeerInfoV>) -> bool {
    forall|i: int| 0 <= i < a.len() ==> !has_fid(p, #[trigger] a[i].peer_id)
}

/// Set-union of two address lists, keeping first-seen order.
pub open spec fn addr_union(a: Seq<Addr>, b: Seq<Addr>) -> Seq<Addr>
    decreases b.len(),
{
    if b.len() == 0 {
        a
    } else {
        addr_union(if a.contains(b[0]) { a } else { a.push(b[0]) }, b.drop_first())
    }
}

/// Mathematical model of a [`PartialView`]: everything but the random source.
#[verifier::ext_equal]
pub struct ViewState {
    pub local_id: PeerId,
    pub max_active: nat,
    pub max_passive: nat,
    pub active: Seq<PartialPeerInfoV>,
    pub passive: Seq<PeerInfoV>,
}

impl ViewState {
    /// The view invariant: the local peer is nowhere in the view, no peer is
    /// described twice or on both tiers, and both caps hold.
    pub open spec fn inv(self) -> bool {
        &&& 1 <= self.max_active
        &&& 1 <= self.max_passive
        &&& self.active.len() <= self.max_active
        &&& self.passive.len() <= self.max_passive
        &&& distinct_pids(self.active)
        &&& distinct_fids(self.passive)
        &&& !has_pid(self.active, self.local_id)
        &&& !has_fid(self.passive, self.local_id)
        &&& pf_disjoint(self.active, self.passive)
    }
}

/// Removal of one passive entry: the entry for `peer` leaves, with an
/// `Evicted` transition; nothing happens when `peer` is not passive.
pub open spec fn evict_rel(pre: ViewState, post: ViewState, peer: PeerId, trans: Seq<TransitionV>) -> bool {
    if !has_fid(pre.passive, peer) {
        post == pre && trans == Seq::<TransitionV>::empty()
    } else {
        let j = fidx(pre.passive, peer);
        post == (ViewState { passive: pre.passive.remove(j), ..pre }) && trans == seq![
            TransitionV::Evicted(pre.passive[j].as_partial()),
        ]
    }
}

/// Eviction of a random passive entry: any passive peer may be the one that
/// leaves; nothing happens on an empty passive set.
pub open spec fn evict_random_rel(pre: ViewState, post: ViewState, trans: Seq<TransitionV>) -> bool {
    if pre.passive.len() == 0 {
        post == pre && trans == Seq::<TransitionV>::empty()
    } else {
        exists|id: PeerId| has_fid(pre.passive, id) && evict_rel(pre, post, id, trans)
    }
}

/// One step of passive room-making: when the passive set is at its cap, one
/// entry leaves (any of them), else nothing changes.
pub open spec fn evict_step_rel(
    pre: ViewState,
    post: ViewState,
    trans: Seq<TransitionV>,
) -> bool {
    if pre.passive.len() >= pre.max_passive {
        evict_random_rel(pre, post, trans)
    } else {
        post == pre && trans == Seq::<TransitionV>::empty()
    }
}

/// Merge of a fresh description into a stored one: the advertised part is
/// overwritten, the seen addresses are united.
pub open spec fn merged(stored: PeerInfoV, fresh: PeerInfoV) -> PeerInfoV {
    PeerInfoV {
        peer_id: stored.peer_id,
        advertised_info: fresh.advertised_info,
        seen_addrs: addr_union(stored.seen_addrs, fresh.seen_addrs),
    }
}

/// Insertion into the passive tier: a new entry is appended, an existing one
/// for the same peer is merged in place.
pub open spec fn insert_or_merge(mid: Seq<PeerInfoV>, info: PeerInfoV) -> Seq<PeerInfoV> {
    if has_fid(mid, info.peer_id) {
        let k = fidx(mid, info.peer_id);
        mid.update(k, merged(mid[k], info))
    } else {
        mid.push(info)
    }
}

/// Addition to the passive tier: a no-op for the local peer or an active
/// peer; otherwise room is made when the cap is reached, then the entry is
/// inserted or merged. Only evictions are reported.
pub open spec fn add_passive_rel(
    pre: ViewState,
    post: ViewState,
    info: PeerInfoV,
    trans: Seq<TransitionV>,
) -> bool {
    if info.peer_id == pre.local_id || has_pid(pre.active, info.peer_id) {
        post == pre && trans == Seq::<TransitionV>::empty()
    } else {
        exists|mid: ViewState|
            {
                &&& #[trigger] evict_step_rel(pre, mid, trans)
                &&& post == (ViewState { passive: insert_or_merge(mid.passive, info), ..mid })
            }
    }
}

/// Demotion of `peer` out of the active tier. A complete entry is folded into
/// the passive tier after a `Demoted` transition; a partial one is evicted
/// outright.
pub open spec fn demote_rel(pre: ViewState, post: ViewState, peer: PeerId, trans: Seq<TransitionV>) -> bool {
    if !has_pid(pre.active, peer) {
        post == pre && trans == Seq::<TransitionV>::empty()
    } else {
        let j = pidx(pre.active, peer);
        let e = pre.active[j];
        let mid = ViewState { active: pre.active.remove(j), ..pre };
        match e.sequenced() {
            None => post == mid && trans == seq![TransitionV::Evicted(e)],
            Some(info) => exists|t2: Seq<TransitionV>|
                #[trigger] demote_fold_step(mid, post, info, t2, trans),
        }
    }
}

/// The second half of a demotion: the complete entry goes to the passive
/// tier, after its `Demoted` transition.
pub open spec fn demote_fold_step(
    mid: ViewState,
    post: ViewState,
    info: PeerInfoV,
    t2: Seq<TransitionV>,
    trans: Seq<TransitionV>,
) -> bool {
    &&& add_passive_rel(mid, post, info, t2)
    &&& trans == seq![TransitionV::Demoted(info)] + t2
}

/// Demotion of a random active peer; nothing happens on an empty active set.
pub open spec fn demote_random_rel(pre: ViewState, post: ViewState, trans: Seq<TransitionV>) -> bool {
    if pre.active.len() == 0 {
        post == pre && trans == Seq::<TransitionV>::empty()
    } else {
        exists|id: PeerId| has_pid(pre.active, id) && demote_rel(pre, post, id, trans)
    }
}

/// The passive tier without its entry for `id`, if any.
pub open spec fn strip_fid(s: Seq<PeerInfoV>, id: PeerId) -> Seq<PeerInfoV> {
    if has_fid(s, id) {
        s.remove(fidx(s, id))
    } else {
        s
    }
}

/// Addition to the active tier: a no-op for the local peer or an already
/// active one; otherwise a random active peer is demoted first when the cap
/// is reached, the new entry is inserted (leaving the passive tier if it was
/// there), and a `Promoted` transition closes the report.
pub open spec fn add_active_step(
    pre: ViewState,
    mid: ViewState,
    t1: Seq<TransitionV>,
    info: PartialPeerInfoV,
    post: ViewState,
    trans: Seq<TransitionV>,
) -> bool {
    &&& if pre.active.len() >= pre.max_active {
        demote_random_rel(pre, mid, t1)
    } else {
        mid == pre && t1 == Seq::<TransitionV>::empty()
    }
    &&& post == (ViewState {
        active: mid.active.push(info),
        passive: strip_fid(mid.passive, info.peer_id),
        ..mid
    })
    &&& trans == t1 + seq![TransitionV::Promoted(info)]
}

pub open spec fn add_active_rel(
    pre: ViewState,
    post: ViewState,
    info: PartialPeerInfoV,
    trans: Seq<TransitionV>,
) -> bool {
    if info.peer_id == pre.local_id || has_pid(pre.active, info.peer_id) {
        post == pre && trans == Seq::<TransitionV>::empty()
    } else {
        exists|mid: ViewState, t1: Seq<TransitionV>|
            #[trigger] add_active_step(pre, mid, t1, info, post, trans)
    }
}

proof fn lemma_pidx_unique(s: Seq<PartialPeerInfoV>, id: PeerId, j: int)
    requires
        distinct_pids(s),
        0 <= j < s.len(),
        s[j].peer_id == id,
    ensures
        has_pid(s, id),
        pidx(s, id) == j,
{
    assert(has_pid(s, id));
    let i = pidx(s, id);
    if i < j {
        assert(s[i].peer_id != s[j].peer_id);
    } else if i > j {
        assert(s[j].peer_id != s[i].peer_id);
    }
}

proof fn lemma_fidx_unique(s: Seq<PeerInfoV>, id: PeerId, j: int)
    requires
        distinct_fids(s),
        0 <= j < s.len(),
        s[j].peer_id == id,
    ensures
        has_fid(s, id),
        fidx(s, id) == j,
{
    assert(has_fid(s, id));
    let i = fidx(s, id);
    if i < j {
        assert(s[i].peer_id != s[j].peer_id);
    } else if i > j {
        assert(s[j].peer_id != s[i].peer_id);
    }
}

proof fn lemma_fviews_remove(s: Seq<PeerInfo>, j: int)
    requires
        0 <= j < s.len(),
    ensures
        fviews(s.remove(j)) =~= fviews(s).remove(j),
{
    s.remove_ensures(j);
    fviews(s).remove_ensures(j);
}

proof fn lemma_pviews_remove(s: Seq<PartialPeerInfo>, j: int)
    requires
        0 <= j < s.len(),
    ensures
        pviews(s.remove(j)) =~= pviews(s).remove(j),
{
    s.remove_ensures(j);
    pviews(s).remove_ensures(j);
}

proof fn lemma_remove_keeps_fids(s: Seq<PeerInfoV>, j: int)
    requires
        0 <= j < s.len(),
    ensures
        forall|id: PeerId| #[trigger] has_fid(s.remove(j), id) ==> has_fid(s, id),
        distinct_fids(s) ==> distinct_fids(s.remove(j)),
        distinct_fids(s) ==> !has_fid(s.remove(j), s[j].peer_id),
        forall|id: PeerId|
            distinct_fids(s) && #[trigger] has_fid(s, id) && id != s[j].peer_id ==> has_fid(
                s.remove(j),
                id,
            ),
{
    s.remove_ensures(j);
    let r = s.remove(j);
    assert forall|id: PeerId| #[trigger] has_fid(r, id) implies has_fid(s, id) by {
        let i = choose|i: int| 0 <= i < r.len() && r[i].peer_id == id;
        if i < j {
            assert(s[i].peer_id == id);
        } else {
            assert(s[i + 1].peer_id == id);
        }
    }
    if distinct_fids(s) {
        assert forall|a: int, b: int| 0 <= a < b < r.len() implies r[a].peer_id != r[b].peer_id by {
            let a2 = if a < j { a } else { a + 1 };
            let b2 = if b < j { b } else { b + 1 };
            assert(r[a] == s[a2]);
            assert(r[b] == s[b2]);
        }
        if has_fid(r, s[j].peer_id) {
            let i = choose|i: int| 0 <= i < r.len() && r[i].peer_id == s[j].peer_id;
            if i < j {
                assert(s[i].peer_id == s[j].peer_id);
                assert(false);
            } else {
                assert(s[i + 1].peer_id == s[j].peer_id);
                assert(false);
            }
        }
        assert forall|id: PeerId|
            distinct_fids(s) && #[trigger] has_fid(s, id) && id != s[j].peer_id implies has_fid(
            r,
            id,
        ) by {
            let i = choose|i: int| 0 <= i < s.len() && s[i].peer_id == id;
            if i < j {
                assert(r[i].peer_id == id);
            } else if i == j {
                assert(false);
            } else {
                assert(r[i - 1].peer_id == id);
            }
        }
    }
}

proof fn lemma_remove_keeps_pids(s: Seq<PartialPeerInfoV>, j: int)
    requires
        0 <= j < s.len(),
    ensures
        forall|id: PeerId| #[trigger] has_pid(s.remove(j), id) ==> has_pid(s, id),
        distinct_pids(s) ==> distinct_pids(s.remove(j)),
        distinct_pids(s) ==> !has_pid(s.remove(j), s[j].peer_id),
{
    s.remove_ensures(j);
    let r = s.remove(j);
    assert forall|id: PeerId| #[trigger] has_pid(r, id) implies has_pid(s, id) by {
        let i = choose|i: int| 0 <= i < r.len() && r[i].peer_id == id;
        if i < j {
            assert(s[i].peer_id == id);
        } else {
            assert(s[i + 1].peer_id == id);
        }
    }
    if distinct_pids(s) {
        assert forall|a: int, b: int| 0 <= a < b < r.len() implies r[a].peer_id != r[b].peer_id by {
            let a2 = if a < j { a } else { a + 1 };
            let b2 = if b < j { b } else { b + 1 };
            assert(r[a] == s[a2]);
            assert(r[b] == s[b2]);
        }
        if has_pid(r, s[j].peer_id) {
            let i = choose|i: int| 0 <= i < r.len() && r[i].peer_id == s[j].peer_id;
            if i < j {
                assert(s[i].peer_id == s[j].peer_id);
                assert(false);
            } else {
                assert(s[i + 1].peer_id == s[j].peer_id);
                assert(false);
            }
        }
    }
}

/// Every peer described after an addition to the passive tier was described
/// before, or is the added one; the active tier and the parameters are
/// untouched.
pub proof fn lemma_add_passive_rel_props(
    pre: ViewState,
    post: ViewState,
    info: PeerInfoV,
    trans: Seq<TransitionV>,
)
    requires
        add_passive_rel(pre, post, info, trans),
        distinct_fids(pre.passive),
    ensures
        post.active == pre.active,
        post.local_id == pre.local_id,
        post.max_active == pre.max_active,
        post.max_passive == pre.max_passive,
        forall|id: PeerId|
            #[trigger] has_fid(post.passive, id) ==> has_fid(pre.passive, id) || id
                == info.peer_id,
{
    if info.peer_id == pre.local_id || has_pid(pre.active, info.peer_id) {
    } else {
        let mid = choose|mid: ViewState|
            {
                &&& #[trigger] evict_step_rel(pre, mid, trans)
                &&& post == (ViewState { passive: insert_or_merge(mid.passive, info), ..mid })
            };
        if pre.passive.len() >= pre.max_passive && pre.passive.len() > 0 {
            let id0 = choose|id: PeerId| has_fid(pre.passive, id) && evict_rel(pre, mid, id, trans);
            let j = fidx(pre.passive, id0);
            lemma_remove_keeps_fids(pre.passive, j);
        }
        assert(forall|id: PeerId| #[trigger]
            has_fid(mid.passive, id) ==> has_fid(pre.passive, id));
        let fin = insert_or_merge(mid.passive, info);
        assert forall|id: PeerId| #[trigger] has_fid(fin, id) implies has_fid(pre.passive, id) || id
            == info.peer_id by {
            let i = choose|i: int| 0 <= i < fin.len() && fin[i].peer_id == id;
            if has_fid(mid.passive, info.peer_id) {
                let k = fidx(mid.passive, info.peer_id);
                if i == k {
                    assert(has_fid(mid.passive, id) || id == info.peer_id);
                } else {
                    assert(fin[i] == mid.passive[i]);
                    assert(has_fid(mid.passive, id));
                }
            } else {
                if i < mid.passive.len() {
                    assert(fin[i] == mid.passive[i]);
                    assert(has_fid(mid.passive, id));
                } else {
                    assert(fin[i] == info);
                }
            }
        }
    }
}

/// Demotion shrinks the active tier by at most one entry, drops no parameter,
/// and introduces no new active peer.
pub proof fn lemma_demote_rel_props(
    pre: ViewState,
    post: ViewState,
    peer: PeerId,
    trans: Seq<TransitionV>,
)
    requires
        demote_rel(pre, post, peer, trans),
        distinct_pids(pre.active),
        distinct_fids(pre.passive),
    ensures
        post.local_id == pre.local_id,
        post.max_active == pre.max_active,
        post.max_passive == pre.max_passive,
        has_pid(pre.active, peer) ==> post.active == pre.active.remove(pidx(pre.active, peer)),
        !has_pid(pre.active, peer) ==> post == pre,
        forall|id: PeerId| #[trigger] has_pid(post.active, id) ==> has_pid(pre.active, id),
{
    if has_pid(pre.active, peer) {
        let j = pidx(pre.active, peer);
        let e = pre.active[j];
        let mid = ViewState { active: pre.active.remove(j), ..pre };
        lemma_remove_keeps_pids(pre.active, j);
        match e.sequenced() {
            None => {},
            Some(info) => {
                let t2 = choose|t2: Seq<TransitionV>|
                    #[trigger] demote_fold_step(mid, post, info, t2, trans);
                lemma_add_passive_rel_props(mid, post, info, t2);
            },
        }
    }
}

/// Random demotion shrinks the active tier by exactly one entry when it is
/// not empty, and introduces no new active peer.
pub proof fn lemma_demote_random_rel_props(pre: ViewState, post: ViewState, trans: Seq<TransitionV>)
    requires
        demote_random_rel(pre, post, trans),
        distinct_pids(pre.active),
        distinct_fids(pre.passive),
    ensures
        post.local_id == pre.local_id,
        post.max_active == pre.max_active,
        post.max_passive == pre.max_passive,
        pre.active.len() == 0 ==> post == pre,
        pre.active.len() >= 1 ==> post.active.len() == pre.active.len() - 1,
        forall|id: PeerId| #[trigger] has_pid(post.active, id) ==> has_pid(pre.active, id),
{
    if pre.active.len() > 0 {
        let id = choose|id: PeerId| has_pid(pre.active, id) && demote_rel(pre, post, id, trans);
        lemma_demote_rel_props(pre, post, id, trans);
    }
}

proof fn lemma_strip_fid(s: Seq<PeerInfoV>, id: PeerId)
    requires
        distinct_fids(s),
    ensures
        distinct_fids(strip_fid(s, id)),
        !has_fid(strip_fid(s, id), id),
        strip_fid(s, id).len() <= s.len(),
        forall|x: PeerId| #[trigger] has_fid(strip_fid(s, id), x) ==> has_fid(s, x),
{
    if has_fid(s, id) {
        let j = fidx(s, id);
        lemma_remove_keeps_fids(s, j);
    }
}

/// In-memory active and passive tiers with their caps, the local identity and
/// the random source used for demotion, eviction and sampling.
pub struct PartialView {
    local_id: PeerId,
    rng: rand::rngs::StdRng,
    max_active: usize,
    max_passive: usize,
    active: Vec<PartialPeerInfo>,
    passive: Vec<PeerInfo>,
}

impl View for PartialView {
    type V = ViewState;

    closed spec fn view(&self) -> ViewState {
        ViewState {
            local_id: self.local_id,
            max_active: self.max_active as nat,
            max_passive: self.max_passive as nat,
            active: pviews(self.active@),
            passive: fviews(self.passive@),
        }
    }
}

impl PartialView {
    pub fn new(local_id: PeerId, rng: rand::rngs::StdRng, max_active: usize, max_passive: usize) -> (r:
        Self)
        requires
            1 <= max_active,
            1 <= max_passive,
        ensures
            r@ == (ViewState {
                local_id,
                max_active: max_active as nat,
                max_passive: max_passive as nat,
                active: Seq::<PartialPeerInfoV>::empty(),
                passive: Seq::<PeerInfoV>::empty(),
            }),
            r@.inv(),
    {
        let r = PartialView {
            local_id,
            rng,
            max_active,
            max_passive,
            active: Vec::new(),
            passive: Vec::new(),
        };
        assert(pviews(r.active@) =~= Seq::<PartialPeerInfoV>::empty());
        assert(fviews(r.passive@) =~= Seq::<PeerInfoV>::empty());
        r
    }

    /// The number of active peers.
    pub fn num_active(&self) -> (r: usize)
        ensures
            r == self@.active.len(),
    {
        self.active.len()
    }

    /// The number of passive peers.
    pub fn num_passive(&self) -> (r: usize)
        ensures
            r == self@.passive.len(),
    {
        self.passive.len()
    }

    /// Whether the active tier is at its cap.
    pub fn is_active_full(&self) -> (r: bool)
        ensures
            r == (self@.active.len() >= self@.max_active),
    {
        self.active.len() >= self.max_active
    }

    /// Whether `peer` is active.
    pub fn is_active(&self, peer: &PeerId) -> (r: bool)
        ensures
            r == has_pid(self@.active, *peer),
    {
        let mut i: usize = 0;
        while i < self.active.len()
            invariant
                i <= self.active.len(),
                forall|j: int| 0 <= j < i ==> self@.active[j].peer_id != *peer,
            decreases self.active.len() - i,
        {
            if self.active[i].peer_id == *peer {
                assert(self@.active[i as int].peer_id == *peer);
                return true;
            }
            i = i + 1;
        }
        false
    }

    /// The index of the active entry for `peer`, if any.
    fn find_active(&self, peer: &PeerId) -> (r: Option<usize>)
        ensures
            match r {
                Some(j) => j < self@.active.len() && self@.active[j as int].peer_id == *peer,
                None => !has_pid(self@.active, *peer),
            },
    {
        let mut i: usize = 0;
        while i < self.active.len()
            invariant
                i <= self.active.len(),
                forall|j: int| 0 <= j < i ==> self@.active[j].peer_id != *peer,
            decreases self.active.len() - i,
        {
            if self.active[i].peer_id == *peer {
                assert(self@.active[i as int].peer_id == *peer);
                return Some(i);
            }
            i = i + 1;
        }
        None
    }

    /// The index of the passive entry for `peer`, if any.
    fn find_passive(&self, peer: &PeerId) -> (r: Option<usize>)
        ensures
            match r {
                Some(j) => j < self@.passive.len() && self@.passive[j as int].peer_id == *peer,
                None => !has_fid(self@.passive, *peer),
            },
    {
        let mut i: usize = 0;
        while i < self.passive.len()
            invariant
                i <= self.passive.len(),
                forall|j: int| 0 <= j < i ==> self@.passive[j].peer_id != *peer,
            decreases self.passive.len() - i,
        {
            if self.passive[i].peer_id == *peer {
                assert(self@.passive[i as int].peer_id == *peer);
                return Some(i);
            }
            i = i + 1;
        }
        None
    }

    /// The identifiers of the active peers, in storage order.
    pub fn active(&self) -> (r: Vec<PeerId>)
        ensures
            r@.len() == self@.active.len(),
            forall|i: int| 0 <= i < r@.len() ==> r@[i] == self@.active[i].peer_id,
    {
        let mut out: Vec<PeerId> = Vec::new();
        let mut i: usize = 0;
        while i < self.active.len()
            invariant
                i <= self.active.len(),
                out@.len() == i,
                forall|j: int| 0 <= j < i ==> out@[j] == self@.active[j].peer_id,
            decreases self.active.len() - i,
        {
            out.push(self.active[i].peer_id);
            i = i + 1;
        }
        out
    }

    /// The identifiers of the passive peers, in storage order.
    pub fn passive(&self) -> (r: Vec<PeerId>)
        ensures
            r@.len() == self@.passive.len(),
            forall|i: int| 0 <= i < r@.len() ==> r@[i] == self@.passive[i].peer_id,
    {
        let mut out: Vec<PeerId> = Vec::new();
        let mut i: usize = 0;
        while i < self.passive.len()
            invariant
                i <= self.passive.len(),
                out@.len() == i,
                forall|j: int| 0 <= j < i ==> out@[j] == self@.passive[j].peer_id,
            decreases self.passive.len() - i,
        {
            out.push(self.passive[i].peer_id);
            i = i + 1;
        }
        out
    }

    /// All known peer identifiers: the active ones, then the passive ones.
    pub fn known(&self) -> (r: Vec<PeerId>)
        ensures
            r@.len() == self@.active.len() + self@.passive.len(),
            forall|i: int| 0 <= i < self@.active.len() ==> r@[i] == self@.active[i].peer_id,
            forall|i: int|
                0 <= i < self@.passive.len() ==> r@[self@.active.len() + i]
                    == self@.passive[i].peer_id,
    {
        let mut out = self.active();
        let mut rest = self.passive();
        out.append(&mut rest);
        out
    }

    /// The descriptions of the active peers, in storage order.
    pub fn active_info(&self) -> (r: Vec<PartialPeerInfo>)
        ensures
            pviews(r@) == self@.active,
    {
        let mut out: Vec<PartialPeerInfo> = Vec::new();
        let mut i: usize = 0;
        while i < self.active.len()
            invariant
                i <= self.active.len(),
                out@.len() == i,
                forall|j: int| 0 <= j < i ==> #[trigger] out@[j]@ == self@.active[j],
            decreases self.active.len() - i,
        {
            out.push(self.active[i].clone_partial());
            i = i + 1;
        }
        assert(pviews(out@) =~= self@.active);
        out
    }

    /// The descriptions of the passive peers, in storage order.
    pub fn passive_info(&self) -> (r: Vec<PeerInfo>)
        ensures
            fviews(r@) == self@.passive,
    {
        let mut out: Vec<PeerInfo> = Vec::new();
        let mut i: usize = 0;
        while i < self.passive.len()
            invariant
                i <= self.passive.len(),
                out@.len() == i,
                forall|j: int| 0 <= j < i ==> #[trigger] out@[j]@ == self@.passive[j],
            decreases self.passive.len() - i,
        {
            out.push(self.passive[i].clone_full());
            i = i + 1;
        }
        assert(fviews(out@) =~= self@.passive);
        out
    }
}

/// Set-union of the addresses of `b` into `a`, keeping first-seen order.
fn union_addrs(a: Vec<Addr>, b: &Vec<Addr>) -> (r: Vec<Addr>)
    ensures
        r@ == addr_union(a@, b@),
{
    let ghost orig = a@;
    let mut acc = a;
    let mut i: usize = 0;
    assert(b@.skip(0) =~= b@);
    while i < b.len()
        invariant
            i <= b.len(),
            addr_union(acc@, b@.skip(i as int)) == addr_union(orig, b@),
        decreases b.len() - i,
    {
        proof {
            assert(b@.skip(i as int).len() > 0);
            assert(b@.skip(i as int)[0] == b@[i as int]);
            assert(b@.skip(i as int).drop_first() =~= b@.skip(i as int + 1));
        }
        let ghost acc0 = acc@;
        if !addrs_contain(&acc, b[i]) {
            acc.push(b[i]);
        }
        proof {
            assert(addr_union(acc0, b@.skip(i as int)) == addr_union(acc@, b@.skip(i as int + 1)));
        }
        i = i + 1;
    }
    proof {
        assert(b@.skip(b@.len() as int) =~= Seq::<Addr>::empty());
        assert(addr_union(acc@, Seq::<Addr>::empty()) == acc@);
    }
    acc
}

/// Merge of a fresh description into a stored one for the same peer.
fn merge_infos(stored: PeerInfo, fresh: &PeerInfo) -> (r: PeerInfo)
    requires
        stored@.peer_id == fresh@.peer_id,
    ensures
        r@ == merged(stored@, fresh@),
{
    let peer_id = stored.peer_id;
    PeerInfo {
        peer_id,
        advertised_info: fresh.advertised_info.clone_adv(),
        seen_addrs: union_addrs(stored.seen_addrs, &fresh.seen_addrs),
    }
}

impl PartialView {
    /// Removes the passive entry for `peer`, reporting it as evicted.
    pub fn evict(&mut self, peer: &PeerId) -> (trans: Vec<Transition>)
        requires
            old(self)@.inv(),
        ensures
            final(self)@.inv(),
            evict_rel(old(self)@, final(self)@, *peer, tviews(trans@)),
    {
        let ghost pre = self@;
        match self.find_passive(peer) {
            None => {
                let trans: Vec<Transition> = Vec::new();
                assert(tviews(trans@) =~= Seq::<TransitionV>::empty());
                trans
            },
            Some(j) => {
                proof {
                    lemma_fidx_unique(pre.passive, *peer, j as int);
                }
                let removed = self.passive.remove(j);
                let mut trans: Vec<Transition> = Vec::new();
                trans.push(Transition::Evicted(PartialPeerInfo::from_full(&removed)));
                proof {
                    lemma_fviews_remove(old(self).passive@, j as int);
                    lemma_remove_keeps_fids(pre.passive, j as int);
                    assert(self@ =~= (ViewState {
                        passive: pre.passive.remove(j as int),
                        ..pre
                    }));
                    assert(tviews(trans@) =~= seq![
                        TransitionV::Evicted(pre.passive[j as int].as_partial()),
                    ]);
                }
                trans
            },
        }
    }

    /// Removes a uniformly chosen passive entry, reporting it as evicted.
    pub fn evict_random(&mut self) -> (trans: Vec<Transition>)
        requires
            old(self)@.inv(),
        ensures
            final(self)@.inv(),
            evict_random_rel(old(self)@, final(self)@, tviews(trans@)),
    {
        let ghost pre = self@;
        let n = self.passive.len();
        if n == 0 {
            let trans: Vec<Transition> = Vec::new();
            assert(tviews(trans@) =~= Seq::<TransitionV>::empty());
            trans
        } else {
            let j = gen_index(&mut self.rng, n);
            let id = self.passive[j].peer_id;
            assert(self@ == pre);
            assert(pre.passive[j as int].peer_id == id);
            let trans = self.evict(&id);
            proof {
                assert(has_fid(pre.passive, id));
            }
            trans
        }
    }

    /// Adds a peer to the passive reserve, making room when the cap is
    /// reached and merging into an existing entry for the same peer.
    pub fn add_passive(&mut self, info: PeerInfo) -> (trans: Vec<Transition>)
        requires
            old(self)@.inv(),
        ensures
            final(self)@.inv(),
            add_passive_rel(old(self)@, final(self)@, info@, tviews(trans@)),
    {
        let ghost pre = self@;
        if info.peer_id == self.local_id || self.is_active(&info.peer_id) {
            let trans: Vec<Transition> = Vec::new();
            assert(tviews(trans@) =~= Seq::<TransitionV>::empty());
            return trans;
        }
        let trans: Vec<Transition> = if self.passive.len() >= self.max_passive {
            self.evict_random()
        } else {
            let t: Vec<Transition> = Vec::new();
            assert(tviews(t@) =~= Seq::<TransitionV>::empty());
            t
        };
        let ghost midv = self@;
        proof {
            assert(evict_step_rel(pre, midv, tviews(trans@)));
        }
        match self.find_passive(&info.peer_id) {
            Some(k) => {
                proof {
                    lemma_fidx_unique(midv.passive, info@.peer_id, k as int);
                }
                let ghost pv0 = self.passive@;
                let stored = self.passive.remove(k);
                let m = merge_infos(stored, &info);
                self.passive.insert(k, m);
                proof {
                    pv0.remove_ensures(k as int);
                    pv0.remove(k as int).insert_ensures(k as int, m);
                    assert(self.passive@ == pv0.remove(k as int).insert(k as int, m));
                    assert(fviews(self.passive@) =~= midv.passive.update(
                        k as int,
                        merged(midv.passive[k as int], info@),
                    )) by {
                        assert(self.passive@.len() == pv0.len());
                        assert forall|i: int| 0 <= i < self.passive@.len() implies fviews(
                            self.passive@,
                        )[i] == midv.passive.update(
                            k as int,
                            merged(midv.passive[k as int], info@),
                        )[i] by {
                            if i < k as int {
                                assert(self.passive@[i] == pv0.remove(k as int)[i]);
                                assert(self.passive@[i] == pv0[i]);
                            } else if i == k as int {
                                assert(self.passive@[i] == m);
                            } else {
                                assert(self.passive@[i] == pv0.remove(k as int)[i - 1]);
                                assert(self.passive@[i] == pv0[i]);
                            }
                        }
                    }
                }
            },
            None => {
                self.passive.push(info);
                proof {
                    assert(fviews(self.passive@) =~= midv.passive.push(info@));
                }
            },
        }
        proof {
            assert(self@.passive =~= insert_or_merge(midv.passive, info@));
            assert(self@ =~= (ViewState { passive: insert_or_merge(midv.passive, info@), ..midv }));
            assert(add_passive_rel(pre, self@, info@, tviews(trans@)));
            // the invariant survives: the merged or appended entry keeps the
            // identifiers distinct and off both the local peer and the active tier
            let fin = self@.passive;
            assert(self@.active == midv.active);
            if has_fid(midv.passive, info@.peer_id) {
                let k = fidx(midv.passive, info@.peer_id);
                assert(fin == midv.passive.update(k, merged(midv.passive[k], info@)));
                assert(distinct_fids(fin)) by {
                    assert(forall|i: int|
                        0 <= i < fin.len() ==> fin[i].peer_id == midv.passive[i].peer_id);
                }
                assert(!has_fid(fin, midv.local_id)) by {
                    if has_fid(fin, midv.local_id) {
                        let i = choose|i: int|
                            0 <= i < fin.len() && fin[i].peer_id == midv.local_id;
                        assert(midv.passive[i].peer_id == midv.local_id);
                    }
                }
                assert(pf_disjoint(self@.active, fin)) by {
                    assert forall|i: int| 0 <= i < self@.active.len() implies !has_fid(
                        fin,
                        #[trigger] self@.active[i].peer_id,
                    ) by {
                        if has_fid(fin, self@.active[i].peer_id) {
                            let x = choose|x: int|
                                0 <= x < fin.len() && fin[x].peer_id == self@.active[i].peer_id;
                            assert(midv.passive[x].peer_id == self@.active[i].peer_id);
                            assert(has_fid(midv.passive, self@.active[i].peer_id));
                        }
                    }
                }
            } else {
                assert(fin == midv.passive.push(info@));
                assert(distinct_fids(fin)) by {
                    assert forall|a: int, b: int| 0 <= a < b < fin.len() implies fin[a].peer_id
                        != fin[b].peer_id by {
                        if b == fin.len() - 1 {
                            assert(fin[b] == info@);
                            if midv.passive[a].peer_id == info@.peer_id {
                                assert(has_fid(midv.passive, info@.peer_id));
                            }
                        }
                    }
                }
                assert(!has_fid(fin, midv.local_id)) by {
                    if has_fid(fin, midv.local_id) {
                        let i = choose|i: int|
                            0 <= i < fin.len() && fin[i].peer_id == midv.local_id;
                        if i < fin.len() - 1 {
                            assert(midv.passive[i].peer_id == midv.local_id);
                        }
                    }
                }
                assert(pf_disjoint(self@.active, fin)) by {
                    assert forall|i: int| 0 <= i < self@.active.len() implies !has_fid(
                        fin,
                        #[trigger] self@.active[i].peer_id,
                    ) by {
                        if has_fid(fin, self@.active[i].peer_id) {
                            let x = choose|x: int|
                                0 <= x < fin.len() && fin[x].peer_id == self@.active[i].peer_id;
                            if x < fin.len() - 1 {
                                assert(has_fid(midv.passive, self@.active[i].peer_id));
                            } else {
                                assert(has_pid(midv.active, info@.peer_id));
                            }
                        }
                    }
                }
                assert(fin.len() <= midv.max_passive) by {
                    if pre.passive.len() >= pre.max_passive {
                        lemma_add_passive_shrunk(pre, midv, tviews(trans@));
                    }
                }
            }
        }
        trans
    }
}

impl PartialView {
    /// Removes `peer` from the active tier. A complete entry is folded into
    /// the passive reserve after a `Demoted` transition; a partial one —
    /// never heard from directly — is evicted outright.
    pub fn demote(&mut self, peer: &PeerId) -> (trans: Vec<Transition>)
        requires
            old(self)@.inv(),
        ensures
            final(self)@.inv(),
            demote_rel(old(self)@, final(self)@, *peer, tviews(trans@)),
    {
        let ghost pre = self@;
        match self.find_active(peer) {
            None => {
                let trans: Vec<Transition> = Vec::new();
                assert(tviews(trans@) =~= Seq::<TransitionV>::empty());
                trans
            },
            Some(j) => {
                proof {
                    lemma_pidx_unique(pre.active, *peer, j as int);
                }
                let removed = self.active.remove(j);
                proof {
                    lemma_pviews_remove(old(self).active@, j as int);
                    lemma_remove_keeps_pids(pre.active, j as int);
                    assert(self@ =~= (ViewState { active: pre.active.remove(j as int), ..pre }));
                }
                let ghost midv = self@;
                let ghost e = pre.active[j as int];
                assert(removed@ == e);
                match removed.sequence() {
                    None => {
                        let mut trans: Vec<Transition> = Vec::new();
                        trans.push(Transition::Evicted(removed));
                        proof {
                            assert(tviews(trans@) =~= seq![TransitionV::Evicted(e)]);
                        }
                        trans
                    },
                    Some(info) => {
                        let mut trans: Vec<Transition> = Vec::new();
                        trans.push(Transition::Demoted(info.clone_full()));
                        let ghost infov = info@;
                        let mut t2 = self.add_passive(info);
                        let ghost t2v = tviews(t2@);
                        trans.append(&mut t2);
                        proof {
                            assert(e.sequenced() == Some(infov));
                            assert(tviews(trans@) =~= seq![TransitionV::Demoted(infov)] + t2v);
                            assert(add_passive_rel(midv, self@, infov, t2v));
                            let jj = pidx(pre.active, *peer);
                            let mid2 = ViewState { active: pre.active.remove(jj), ..pre };
                            assert(mid2 == midv);
                            let iv = pre.active[jj].sequenced()->Some_0;
                            assert(iv == infov);
                            assert(demote_fold_step(mid2, self@, iv, t2v, tviews(trans@)));
                            assert(demote_rel(pre, self@, *peer, tviews(trans@)));
                        }
                        trans
                    },
                }
            },
        }
    }

    /// Removes a uniformly chosen active peer, if any.
    pub fn demote_random(&mut self) -> (trans: Vec<Transition>)
        requires
            old(self)@.inv(),
        ensures
            final(self)@.inv(),
            demote_random_rel(old(self)@, final(self)@, tviews(trans@)),
    {
        let ghost pre = self@;
        let n = self.active.len();
        if n == 0 {
            let trans: Vec<Transition> = Vec::new();
            assert(tviews(trans@) =~= Seq::<TransitionV>::empty());
            trans
        } else {
            let j = gen_index(&mut self.rng, n);
            let id = self.active[j].peer_id;
            assert(self@ == pre);
            assert(pre.active[j as int].peer_id == id);
            let trans = self.demote(&id);
            proof {
                assert(has_pid(pre.active, id));
            }
            trans
        }
    }

    /// Adds a peer to the active tier, demoting a random active peer first
    /// when the cap is reached. The added peer leaves the passive reserve, so
    /// the two tiers stay disjoint.
    pub fn add_active(&mut self, info: PartialPeerInfo) -> (trans: Vec<Transition>)
        requires
            old(self)@.inv(),
        ensures
            final(self)@.inv(),
            add_active_rel(old(self)@, final(self)@, info@, tviews(trans@)),
    {
        let ghost pre = self@;
        if info.peer_id == self.local_id || self.is_active(&info.peer_id) {
            let trans: Vec<Transition> = Vec::new();
            assert(tviews(trans@) =~= Seq::<TransitionV>::empty());
            return trans;
        }
        let mut trans: Vec<Transition> = if self.active.len() >= self.max_active {
            self.demote_random()
        } else {
            let t: Vec<Transition> = Vec::new();
            assert(tviews(t@) =~= Seq::<TransitionV>::empty());
            t
        };
        let ghost midv = self@;
        let ghost t1 = tviews(trans@);
        proof {
            if pre.active.len() >= pre.max_active {
                lemma_demote_random_rel_props(pre, midv, t1);
            }
            assert(!has_pid(midv.active, info@.peer_id));
            assert(midv.inv());
        }
        match self.find_passive(&info.peer_id) {
            Some(k) => {
                proof {
                    lemma_fidx_unique(midv.passive, info@.peer_id, k as int);
                }
                let ghost pv1 = self.passive@;
                self.passive.remove(k);
                proof {
                    lemma_fviews_remove(pv1, k as int);
                    assert(fviews(self.passive@) =~= midv.passive.remove(k as int));
                }
            },
            None => {},
        }
        proof {
            assert(fviews(self.passive@) == strip_fid(midv.passive, info@.peer_id));
            lemma_strip_fid(midv.passive, info@.peer_id);
        }
        let ghost stripped = self@;
        trans.push(Transition::Promoted(info.clone_partial()));
        self.active.push(info);
        proof {
            assert(pviews(self.active@) =~= midv.active.push(info@));
            assert(self@ =~= (ViewState {
                active: midv.active.push(info@),
                passive: strip_fid(midv.passive, info@.peer_id),
                ..midv
            }));
            assert(tviews(trans@) =~= t1 + seq![TransitionV::Promoted(info@)]);
            assert(add_active_step(pre, midv, t1, info@, self@, tviews(trans@)));
            assert(add_active_rel(pre, self@, info@, tviews(trans@)));
            // invariant: the push keeps identifiers distinct and within the cap
            let fa = self@.active;
            assert(distinct_pids(fa)) by {
                assert forall|a: int, b: int| 0 <= a < b < fa.len() implies fa[a].peer_id
                    != fa[b].peer_id by {
                    if b == fa.len() - 1 {
                        if midv.active[a].peer_id == info@.peer_id {
                            assert(has_pid(midv.active, info@.peer_id));
                        }
                    }
                }
            }
            assert(!has_pid(fa, midv.local_id)) by {
                if has_pid(fa, midv.local_id) {
                    let i = choose|i: int| 0 <= i < fa.len() && fa[i].peer_id == midv.local_id;
                    if i < fa.len() - 1 {
                        assert(has_pid(midv.active, midv.local_id));
                    }
                }
            }
            assert(fa.len() <= midv.max_active) by {
                if pre.active.len() >= pre.max_active {
                    assert(midv.active.len() == pre.active.len() - 1);
                }
            }
            assert(pf_disjoint(fa, self@.passive)) by {
                assert forall|i: int| 0 <= i < fa.len() implies !has_fid(
                    self@.passive,
                    #[trigger] fa[i].peer_id,
                ) by {
                    if i < fa.len() - 1 {
                        assert(midv.active[i].peer_id == fa[i].peer_id);
                        if has_fid(self@.passive, fa[i].peer_id) {
                            assert(has_fid(midv.passive, fa[i].peer_id));
                        }
                    } else {
                        assert(fa[i].peer_id == info@.peer_id);
                    }
                }
            }
        }
        trans
    }
}

/// The complete descriptions among `s`, in order: the entries whose
/// advertised part is present.
pub open spec fn seqd(s: Seq<PartialPeerInfoV>) -> Seq<PeerInfoV>
    decreases s.len(),
{
    if s.len() == 0 {
        Seq::empty()
    } else {
        match s.last().sequenced() {
            Some(i) => seqd(s.drop_last()).push(i),
            None => seqd(s.drop_last()),
        }
    }
}

/// Every element of `s` occurs in `orig`.
pub open spec fn all_from(s: Seq<PeerInfoV>, orig: Seq<PeerInfoV>) -> bool {
    forall|i: int| 0 <= i < s.len() ==> orig.contains(#[trigger] s[i])
}

impl PartialView {
    /// Draws up to `k` entries from `pool`, uniformly without replacement.
    /// Only the random source of the view moves.
    fn sample_pool(&mut self, pool: Vec<PeerInfo>, k: usize) -> (r: Vec<PeerInfo>)
        requires
            distinct_fids(fviews(pool@)),
        ensures
            final(self)@ == old(self)@,
            fviews(r@).len() == if k <= fviews(pool@).len() {
                k as int
            } else {
                fviews(pool@).len() as int
            },
            all_from(fviews(r@), fviews(pool@)),
            distinct_fids(fviews(r@)),
    {
        let ghost orig = fviews(pool@);
        let mut p = pool;
        let mut out: Vec<PeerInfo> = Vec::new();
        proof {
            assert(fviews(out@) =~= Seq::<PeerInfoV>::empty());
        }
        while out.len() < k && p.len() > 0
            invariant
                self@ == old(self)@,
                out@.len() + p@.len() == orig.len(),
                out@.len() <= k,
                distinct_fids(fviews(p@)),
                distinct_fids(fviews(out@)),
                all_from(fviews(p@), orig),
                all_from(fviews(out@), orig),
                forall|i: int|
                    0 <= i < fviews(out@).len() ==> !has_fid(
                        fviews(p@),
                        #[trigger] fviews(out@)[i].peer_id,
                    ),
            decreases p.len(),
        {
            let j = gen_index(&mut self.rng, p.len());
            let ghost pvec = p@;
            let ghost pv = fviews(p@);
            let ghost ov = fviews(out@);
            let e = p.remove(j);
            out.push(e);
            proof {
                lemma_fviews_remove(pvec, j as int);
                lemma_remove_keeps_fids(pv, j as int);
                assert(fviews(p@) =~= pv.remove(j as int));
                assert(fviews(out@) =~= ov.push(pv[j as int]));
                assert(orig.contains(pv[j as int]));
                assert forall|i: int| 0 <= i < fviews(out@).len() implies !has_fid(
                    fviews(p@),
                    #[trigger] fviews(out@)[i].peer_id,
                ) by {
                    if i < fviews(out@).len() - 1 {
                        if has_fid(fviews(p@), fviews(out@)[i].peer_id) {
                            assert(has_fid(pv, fviews(out@)[i].peer_id));
                        }
                    }
                }
                assert(distinct_fids(fviews(out@))) by {
                    let fo = fviews(out@);
                    assert forall|a: int, b: int| 0 <= a < b < fo.len() implies fo[a].peer_id
                        != fo[b].peer_id by {
                        if b == fo.len() - 1 {
                            if fo[a].peer_id == pv[j as int].peer_id {
                                assert(has_fid(pv, fo[a].peer_id));
                            }
                        }
                    }
                }
            }
        }
        proof {
            if out@.len() < k {
                assert(p@.len() == 0);
                assert(fviews(out@).len() == orig.len());
            }
        }
        out
    }

    /// Draws up to `k` passive entries, uniformly without replacement.
    pub fn sample_passive(&mut self, k: usize) -> (r: Vec<PeerInfo>)
        requires
            old(self)@.inv(),
        ensures
            final(self)@ == old(self)@,
            fviews(r@).len() == if k <= old(self)@.passive.len() {
                k as int
            } else {
                old(self)@.passive.len() as int
            },
            all_from(fviews(r@), old(self)@.passive),
            distinct_fids(fviews(r@)),
    {
        let pool = self.passive_info();
        self.sample_pool(pool, k)
    }

    /// Draws up to `k` of the completely described active entries, uniformly
    /// without replacement.
    pub fn sample_active_sequenced(&mut self, k: usize) -> (r: Vec<PeerInfo>)
        requires
            old(self)@.inv(),
        ensures
            final(self)@ == old(self)@,
            fviews(r@).len() == if k <= seqd(old(self)@.active).len() {
                k as int
            } else {
                seqd(old(self)@.active).len() as int
            },
            all_from(fviews(r@), seqd(old(self)@.active)),
            distinct_fids(fviews(r@)),
    {
        let mut pool: Vec<PeerInfo> = Vec::new();
        let mut i: usize = 0;
        proof {
            assert(fviews(pool@) =~= seqd(self@.active.take(0)));
        }
        while i < self.active.len()
            invariant
                i <= self.active.len(),
                fviews(pool@) == seqd(self@.active.take(i as int)),
            decreases self.active.len() - i,
        {
            proof {
                assert(self@.active.take(i + 1).drop_last() =~= self@.active.take(i as int));
                assert(self@.active.take(i + 1).last() == self@.active[i as int]);
            }
            match self.active[i].sequence() {
                Some(info) => {
                    pool.push(info);
                    proof {
                        assert(fviews(pool@) =~= seqd(self@.active.take(i + 1)));
                    }
                },
                None => {
                    proof {
                        assert(fviews(pool@) =~= seqd(self@.active.take(i + 1)));
                    }
                },
            }
            i = i + 1;
        }
        proof {
            assert(self@.active.take(self@.active.len() as int) =~= self@.active);
            lemma_seqd_distinct(self@.active);
        }
        self.sample_pool(pool, k)
    }

    /// Picks one active peer uniformly, other than `exclude`; `None` when no
    /// active peer qualifies.
    pub fn choose_active_excluding(&mut self, exclude: Option<PeerId>) -> (r: Option<PeerId>)
        ensures
            final(self)@ == old(self)@,
            match r {
                Some(id) => has_pid(old(self)@.active, id) && Some(id) != exclude,
                None => all_excluded(old(self)@.active, exclude),
            },
    {
        let mut cands: Vec<PeerId> = Vec::new();
        let mut i: usize = 0;
        while i < self.active.len()
            invariant
                i <= self.active.len(),
                forall|j: int|
                    0 <= j < cands@.len() ==> has_pid(self@.active, #[trigger] cands@[j])
                        && Some(cands@[j]) != exclude,
                cands@.len() == 0 ==> all_excluded(self@.active.take(i as int), exclude),
            decreases self.active.len() - i,
        {
            let id = self.active[i].peer_id;
            assert(self@.active[i as int].peer_id == id);
            let keep = match exclude {
                Some(ex) => id != ex,
                None => true,
            };
            if keep {
                cands.push(id);
            }
            i = i + 1;
        }
        if cands.len() == 0 {
            proof {
                assert(self@.active.take(self@.active.len() as int) =~= self@.active);
            }
            None
        } else {
            let j = gen_index(&mut self.rng, cands.len());
            Some(cands[j])
        }
    }
}

/// Every entry of `s` describes the excluded peer.
pub open spec fn all_excluded(s: Seq<PartialPeerInfoV>, exclude: Option<PeerId>) -> bool {
    forall|i: int| 0 <= i < s.len() ==> Some(#[trigger] s[i].peer_id) == exclude
}

/// A witness chain for a sequence of passive additions: `states[i]` is the
/// view before the `i`-th addition, `tss[i]` the transitions it reported.
pub open spec fn add_passive_chain(
    states: Seq<ViewState>,
    tss: Seq<Seq<TransitionV>>,
    peers: Seq<PeerInfoV>,
) -> bool {
    &&& states.len() == peers.len() + 1
    &&& tss.len() == peers.len()
    &&& forall|i: int|
        0 <= i < peers.len() ==> #[trigger] add_passive_rel(states[i], states[i + 1], peers[i], tss[i])
}

/// The concatenation of a sequence of transition lists.
pub open spec fn concat_all(tss: Seq<Seq<TransitionV>>) -> Seq<TransitionV>
    decreases tss.len(),
{
    if tss.len() == 0 {
        Seq::empty()
    } else {
        concat_all(tss.drop_last()) + tss.last()
    }
}

/// Addition of each of `peers` to the passive tier in turn, with the
/// concatenation of the reported transitions.
pub open spec fn add_passive_many_rel(
    pre: ViewState,
    post: ViewState,
    peers: Seq<PeerInfoV>,
    trans: Seq<TransitionV>,
) -> bool {
    exists|states: Seq<ViewState>, tss: Seq<Seq<TransitionV>>|
        {
            &&& #[trigger] add_passive_chain(states, tss, peers)
            &&& states[0] == pre
            &&& states[peers.len() as int] == post
            &&& trans == concat_all(tss)
        }
}

/// The empty chain of passive additions changes nothing.
pub proof fn lemma_many_empty(pre: ViewState)
    ensures
        add_passive_many_rel(pre, pre, Seq::<PeerInfoV>::empty(), Seq::<TransitionV>::empty()),
{
    let states = seq![pre];
    let tss = Seq::<Seq<TransitionV>>::empty();
    assert(add_passive_chain(states, tss, Seq::<PeerInfoV>::empty()));
    assert(concat_all(tss) =~= Seq::<TransitionV>::empty());
}

/// A chain of passive additions extends by one at its end.
pub proof fn lemma_many_snoc(
    pre: ViewState,
    mid: ViewState,
    post: ViewState,
    peers: Seq<PeerInfoV>,
    t: Seq<TransitionV>,
    x: PeerInfoV,
    t2: Seq<TransitionV>,
)
    requires
        add_passive_many_rel(pre, mid, peers, t),
        add_passive_rel(mid, post, x, t2),
    ensures
        add_passive_many_rel(pre, post, peers.push(x), t + t2),
{
    let (states, tss) = choose|states: Seq<ViewState>, tss: Seq<Seq<TransitionV>>|
        {
            &&& #[trigger] add_passive_chain(states, tss, peers)
            &&& states[0] == pre
            &&& states[peers.len() as int] == mid
            &&& t == concat_all(tss)
        };
    let states2 = states.push(post);
    let tss2 = tss.push(t2);
    let all = peers.push(x);
    assert(add_passive_chain(states2, tss2, all)) by {
        assert forall|i: int| 0 <= i < all.len() implies #[trigger] add_passive_rel(
            states2[i],
            states2[i + 1],
            all[i],
            tss2[i],
        ) by {
            if i < peers.len() {
                assert(add_passive_rel(states[i], states[i + 1], peers[i], tss[i]));
            } else {
                assert(states2[i] == mid && states2[i + 1] == post);
            }
        }
    }
    assert(tss2.drop_last() =~= tss);
    assert(concat_all(tss2) == t + t2);
    assert(states2[0] == pre);
    assert(states2[all.len() as int] == post);
}

impl PartialView {
    /// Adds each of `peers` to the passive reserve in turn.
    pub fn add_passive_many(&mut self, peers: Vec<PeerInfo>) -> (trans: Vec<Transition>)
        requires
            old(self)@.inv(),
        ensures
            final(self)@.inv(),
            add_passive_many_rel(old(self)@, final(self)@, fviews(peers@), tviews(trans@)),
    {
        let ghost pre = self@;
        let ghost pv = fviews(peers@);
        let mut trans: Vec<Transition> = Vec::new();
        let mut i: usize = 0;
        proof {
            assert(tviews(trans@) =~= Seq::<TransitionV>::empty());
            assert(pv.take(0) =~= Seq::<PeerInfoV>::empty());
            lemma_many_empty(pre);
        }
        while i < peers.len()
            invariant
                i <= peers.len(),
                self@.inv(),
                pv == fviews(peers@),
                pv.len() == peers@.len(),
                forall|j: int| 0 <= j < pv.len() ==> pv[j] == peers@[j]@,
                add_passive_many_rel(pre, self@, pv.take(i as int), tviews(trans@)),
            decreases peers.len() - i,
        {
            let info = peers[i].clone_full();
            let ghost mid = self@;
            let ghost tcur = tviews(trans@);
            let mut t2 = self.add_passive(info);
            let ghost t2v = tviews(t2@);
            trans.append(&mut t2);
            proof {
                lemma_many_snoc(pre, mid, self@, pv.take(i as int), tcur, pv[i as int], t2v);
                assert(pv.take(i + 1) =~= pv.take(i as int).push(pv[i as int]));
                assert(tviews(trans@) =~= tcur + t2v);
            }
            i = i + 1;
        }
        proof {
            assert(pv.take(pv.len() as int) =~= pv);
        }
        trans
    }
}

/// Along a chain of passive additions every view keeps its identity, its
/// caps and its active tier, and stays well formed.
proof fn lemma_chain_props(
    states: Seq<ViewState>,
    tss: Seq<Seq<TransitionV>>,
    peers: Seq<PeerInfoV>,
    k: int,
)
    requires
        add_passive_chain(states, tss, peers),
        states[0].inv(),
        0 <= k < states.len(),
    ensures
        states[k].inv(),
        states[k].local_id == states[0].local_id,
        states[k].max_active == states[0].max_active,
        states[k].max_passive == states[0].max_passive,
        states[k].active == states[0].active,
    decreases k,
{
    if k > 0 {
        lemma_chain_props(states, tss, peers, k - 1);
        assert(add_passive_rel(states[k - 1], states[(k - 1) + 1], peers[k - 1], tss[k - 1]));
        assert(states[(k - 1) + 1] == states[k]);
        lemma_add_passive_rel_props(states[k - 1], states[k], peers[k - 1], tss[k - 1]);
        lemma_add_passive_inv(states[k - 1], states[k], peers[k - 1], tss[k - 1]);
    }
}

/// A chain of passive additions keeps the identity, the caps and the active
/// tier of the view.
pub proof fn lemma_many_props(
    pre: ViewState,
    post: ViewState,
    peers: Seq<PeerInfoV>,
    trans: Seq<TransitionV>,
)
    requires
        add_passive_many_rel(pre, post, peers, trans),
        pre.inv(),
    ensures
        post.local_id == pre.local_id,
        post.max_active == pre.max_active,
        post.max_passive == pre.max_passive,
        post.active == pre.active,
        post.inv(),
{
    let (states, tss) = choose|states: Seq<ViewState>, tss: Seq<Seq<TransitionV>>|
        {
            &&& #[trigger] add_passive_chain(states, tss, peers)
            &&& states[0] == pre
            &&& states[peers.len() as int] == post
            &&& trans == concat_all(tss)
        };
    lemma_chain_props(states, tss, peers, peers.len() as int);
}

/// Promotion keeps the identity and the caps of the view.
pub proof fn lemma_add_active_rel_props(
    pre: ViewState,
    post: ViewState,
    info: PartialPeerInfoV,
    trans: Seq<TransitionV>,
)
    requires
        add_active_rel(pre, post, info, trans),
        distinct_pids(pre.active),
        distinct_fids(pre.passive),
    ensures
        post.local_id == pre.local_id,
        post.max_active == pre.max_active,
        post.max_passive == pre.max_passive,
{
    if info.peer_id == pre.local_id || has_pid(pre.active, info.peer_id) {
    } else {
        let (mid, t1) = choose|mid: ViewState, t1: Seq<TransitionV>|
            #[trigger] add_active_step(pre, mid, t1, info, post, trans);
        if pre.active.len() >= pre.max_active {
            lemma_demote_random_rel_props(pre, mid, t1);
        }
    }
}

/// One passive addition preserves the view invariant.
pub proof fn lemma_add_passive_inv(
    pre: ViewState,
    post: ViewState,
    info: PeerInfoV,
    trans: Seq<TransitionV>,
)
    requires
        add_passive_rel(pre, post, info, trans),
        pre.inv(),
    ensures
        post.inv(),
{
    lemma_add_passive_rel_props(pre, post, info, trans);
    if info.peer_id == pre.local_id || has_pid(pre.active, info.peer_id) {
    } else {
        let mid = choose|mid: ViewState|
            {
                &&& #[trigger] evict_step_rel(pre, mid, trans)
                &&& post == (ViewState { passive: insert_or_merge(mid.passive, info), ..mid })
            };
        if pre.passive.len() >= pre.max_passive {
            let id0 = choose|id: PeerId| has_fid(pre.passive, id) && evict_rel(pre, mid, id, trans);
            let j = fidx(pre.passive, id0);
            lemma_remove_keeps_fids(pre.passive, j);
        }
        assert(mid.inv());
        assert(mid.passive.len() < pre.max_passive || has_fid(mid.passive, info.peer_id));
        let fin = insert_or_merge(mid.passive, info);
        if has_fid(mid.passive, info.peer_id) {
            let k = fidx(mid.passive, info.peer_id);
            assert(forall|i: int| 0 <= i < fin.len() ==> fin[i].peer_id == mid.passive[i].peer_id);
            assert(distinct_fids(fin));
            assert(!has_fid(fin, mid.local_id)) by {
                if has_fid(fin, mid.local_id) {
                    let i = choose|i: int| 0 <= i < fin.len() && fin[i].peer_id == mid.local_id;
                    assert(mid.passive[i].peer_id == mid.local_id);
                }
            }
            assert(pf_disjoint(mid.active, fin)) by {
                assert forall|i: int| 0 <= i < mid.active.len() implies !has_fid(
                    fin,
                    #[trigger] mid.active[i].peer_id,
                ) by {
                    if has_fid(fin, mid.active[i].peer_id) {
                        let x = choose|x: int|
                            0 <= x < fin.len() && fin[x].peer_id == mid.active[i].peer_id;
                        assert(has_fid(mid.passive, mid.active[i].peer_id));
                    }
                }
            }
        } else {
            assert(fin == mid.passive.push(info));
            assert(distinct_fids(fin)) by {
                assert forall|a: int, b: int| 0 <= a < b < fin.len() implies fin[a].peer_id
                    != fin[b].peer_id by {
                    if b == fin.len() - 1 {
                        if mid.passive[a].peer_id == info.peer_id {
                            assert(has_fid(mid.passive, info.peer_id));
                        }
                    }
                }
            }
            assert(!has_fid(fin, mid.local_id)) by {
                if has_fid(fin, mid.local_id) {
                    let i = choose|i: int| 0 <= i < fin.len() && fin[i].peer_id == mid.local_id;
                    if i < fin.len() - 1 {
                        assert(mid.passive[i].peer_id == mid.local_id);
                    }
                }
            }
            assert(pf_disjoint(mid.active, fin)) by {
                assert forall|i: int| 0 <= i < mid.active.len() implies !has_fid(
                    fin,
                    #[trigger] mid.active[i].peer_id,
                ) by {
                    if has_fid(fin, mid.active[i].peer_id) {
                        let x = choose|x: int|
                            0 <= x < fin.len() && fin[x].peer_id == mid.active[i].peer_id;
                        if x < fin.len() - 1 {
                            assert(has_fid(mid.passive, mid.active[i].peer_id));
                        } else {
                            assert(has_pid(mid.active, info.peer_id));
                        }
                    }
                }
            }
        }
    }
}

/// The sequenced entries of a duplicate-free active tier are duplicate-free.
proof fn lemma_seqd_distinct(s: Seq<PartialPeerInfoV>)
    requires
        distinct_pids(s),
    ensures
        distinct_fids(seqd(s)),
        all_from_partial(seqd(s), s),
    decreases s.len(),
{
    if s.len() > 0 {
        assert(distinct_pids(s.drop_last())) by {
            assert(forall|i: int| 0 <= i < s.drop_last().len() ==> s.drop_last()[i] == s[i]);
        }
        lemma_seqd_distinct(s.drop_last());
        match s.last().sequenced() {
            Some(info) => {
                let prev = seqd(s.drop_last());
                assert forall|a: int, b: int| 0 <= a < b < prev.push(info).len() implies prev.push(
                    info,
                )[a].peer_id != prev.push(info)[b].peer_id by {
                    if b == prev.len() {
                        let w = choose|w: int|
                            0 <= w < s.drop_last().len() && s.drop_last()[w].sequenced() == Some(
                                prev[a],
                            );
                        assert(s[w].peer_id == prev[a].peer_id);
                        assert(s[s.len() - 1].peer_id == info.peer_id);
                    }
                }
            },
            None => {},
        }
    }
}

/// A sample drawn from the completely described active peers and one drawn
/// from the passive reserve never overlap, and both come from the view.
pub proof fn lemma_sample_concat(st: ViewState, a: Seq<PeerInfoV>, b: Seq<PeerInfoV>)
    requires
        st.inv(),
        all_from(a, seqd(st.active)),
        all_from(b, st.passive),
        distinct_fids(a),
        distinct_fids(b),
    ensures
        distinct_fids(a + b),
        forall|i: int|
            0 <= i < (a + b).len() ==> seqd(st.active).contains(#[trigger] (a + b)[i])
                || st.passive.contains((a + b)[i]),
{
    lemma_seqd_distinct(st.active);
    let sq = seqd(st.active);
    assert forall|i: int, j: int| 0 <= i < a.len() && 0 <= j < b.len() implies a[i].peer_id
        != b[j].peer_id by {
        assert(sq.contains(a[i]));
        let ai = choose|x: int| 0 <= x < sq.len() && sq[x] == a[i];
        let w = choose|w: int|
            0 <= w < st.active.len() && st.active[w].sequenced() == Some(#[trigger] sq[ai]);
        assert(st.active[w].peer_id == a[i].peer_id);
        assert(st.passive.contains(b[j]));
        let bj = choose|x: int| 0 <= x < st.passive.len() && st.passive[x] == b[j];
        assert(has_fid(st.passive, b[j].peer_id));
        assert(!has_fid(st.passive, st.active[w].peer_id));
    }
    assert forall|i: int, j: int| 0 <= i < j < (a + b).len() implies (a + b)[i].peer_id != (a
        + b)[j].peer_id by {
        if j < a.len() {
        } else if i >= a.len() {
        } else {
            assert((a + b)[i] == a[i]);
            assert((a + b)[j] == b[j - a.len()]);
        }
    }
    assert forall|i: int| 0 <= i < (a + b).len() implies sq.contains(#[trigger] (a + b)[i])
        || st.passive.contains((a + b)[i]) by {
        if i < a.len() {
            assert((a + b)[i] == a[i]);
        } else {
            assert((a + b)[i] == b[i - a.len()]);
        }
    }
}

/// Every sequenced entry comes from an entry of the active tier.
pub open spec fn all_from_partial(s: Seq<PeerInfoV>, orig: Seq<PartialPeerInfoV>) -> bool {
    forall|i: int|
        0 <= i < s.len() ==> exists|w: int|
            0 <= w < orig.len() && orig[w].sequenced() == Some(#[trigger] s[i])
}

/// No transition of the list is a promotion.
pub open spec fn no_promoted(trans: Seq<TransitionV>) -> bool {
    forall|i: int| 0 <= i < trans.len() ==> !((#[trigger] trans[i]) is Promoted)
}

/// Additions to the passive tier promote nobody.
pub proof fn lemma_add_passive_no_promoted(
    pre: ViewState,
    post: ViewState,
    info: PeerInfoV,
    trans: Seq<TransitionV>,
)
    requires
        add_passive_rel(pre, post, info, trans),
    ensures
        no_promoted(trans),
{
    if info.peer_id == pre.local_id || has_pid(pre.active, info.peer_id) {
    } else {
        let mid = choose|mid: ViewState|
            {
                &&& #[trigger] evict_step_rel(pre, mid, trans)
                &&& post == (ViewState { passive: insert_or_merge(mid.passive, info), ..mid })
            };
        if pre.passive.len() >= pre.max_passive && pre.passive.len() > 0 {
            let id0 = choose|id: PeerId| has_fid(pre.passive, id) && evict_rel(pre, mid, id, trans);
        }
    }
}

/// Demoting promotes nobody.
pub proof fn lemma_demote_no_promoted(
    pre: ViewState,
    post: ViewState,
    peer: PeerId,
    trans: Seq<TransitionV>,
)
    requires
        demote_rel(pre, post, peer, trans),
    ensures
        no_promoted(trans),
{
    if has_pid(pre.active, peer) {
        let j = pidx(pre.active, peer);
        let e = pre.active[j];
        let mid = ViewState { active: pre.active.remove(j), ..pre };
        match e.sequenced() {
            None => {},
            Some(info) => {
                let t2 = choose|t2: Seq<TransitionV>|
                    #[trigger] demote_fold_step(mid, post, info, t2, trans);
                lemma_add_passive_no_promoted(mid, post, info, t2);
            },
        }
    }
}

/// Random demotion promotes nobody.
pub proof fn lemma_demote_random_no_promoted(pre: ViewState, post: ViewState, trans: Seq<TransitionV>)
    requires
        demote_random_rel(pre, post, trans),
    ensures
        no_promoted(trans),
{
    if pre.active.len() > 0 {
        let id = choose|id: PeerId| has_pid(pre.active, id) && demote_rel(pre, post, id, trans);
        lemma_demote_no_promoted(pre, post, id, trans);
    }
}

/// A chain of passive additions promotes nobody.
pub proof fn lemma_many_no_promoted(
    pre: ViewState,
    post: ViewState,
    peers: Seq<PeerInfoV>,
    trans: Seq<TransitionV>,
)
    requires
        add_passive_many_rel(pre, post, peers, trans),
    ensures
        no_promoted(trans),
{
    let (states, tss) = choose|states: Seq<ViewState>, tss: Seq<Seq<TransitionV>>|
        {
            &&& #[trigger] add_passive_chain(states, tss, peers)
            &&& states[0] == pre
            &&& states[peers.len() as int] == post
            &&& trans == concat_all(tss)
        };
    lemma_chain_no_promoted(states, tss, peers, tss.len() as int);
    assert(tss.take(tss.len() as int) =~= tss);
}

proof fn lemma_chain_no_promoted(
    states: Seq<ViewState>,
    tss: Seq<Seq<TransitionV>>,
    peers: Seq<PeerInfoV>,
    k: int,
)
    requires
        add_passive_chain(states, tss, peers),
        0 <= k <= tss.len(),
    ensures
        no_promoted(concat_all(tss.take(k))),
    decreases k,
{
    if k == 0 {
        assert(tss.take(0) =~= Seq::<Seq<TransitionV>>::empty());
    } else {
        lemma_chain_no_promoted(states, tss, peers, k - 1);
        assert(add_passive_rel(states[k - 1], states[(k - 1) + 1], peers[k - 1], tss[k - 1]));
        lemma_add_passive_no_promoted(states[k - 1], states[k - 1 + 1], peers[k - 1], tss[k - 1]);
        assert(tss.take(k).drop_last() =~= tss.take(k - 1));
        assert(tss.take(k).last() == tss[k - 1]);
        assert(concat_all(tss.take(k)) == concat_all(tss.take(k - 1)) + tss[k - 1]);
    }
}

/// The promotion law: every `Promoted` transition an addition to the active
/// tier reports names the added peer, and that peer is active afterwards.
pub proof fn lemma_add_active_promoted(
    pre: ViewState,
    post: ViewState,
    info: PartialPeerInfoV,
    trans: Seq<TransitionV>,
)
    requires
        add_active_rel(pre, post, info, trans),
        pre.inv(),
    ensures
        forall|i: int|
            0 <= i < trans.len() ==> ((#[trigger] trans[i]) matches TransitionV::Promoted(p)
                ==> p == info && has_pid(post.active, p.peer_id)),
{
    if info.peer_id == pre.local_id || has_pid(pre.active, info.peer_id) {
    } else {
        let (mid, t1) = choose|mid: ViewState, t1: Seq<TransitionV>|
            #[trigger] add_active_step(pre, mid, t1, info, post, trans);
        if pre.active.len() >= pre.max_active {
            lemma_demote_random_no_promoted(pre, mid, t1);
        }
        assert(post.active[post.active.len() - 1] == info);
        assert(has_pid(post.active, info.peer_id));
        assert forall|i: int|
            0 <= i < trans.len() implies ((#[trigger] trans[i]) matches TransitionV::Promoted(p)
            ==> p == info && has_pid(post.active, p.peer_id)) by {
            if i < t1.len() {
                assert(trans[i] == t1[i]);
            } else {
                assert(trans[i] == TransitionV::Promoted(info));
            }
        }
    }
}

/// The eviction law for demotions: a peer reported evicted by a demotion is
/// afterwards in neither tier.
pub proof fn lemma_demote_evicted_gone(
    pre: ViewState,
    post: ViewState,
    peer: PeerId,
    trans: Seq<TransitionV>,
)
    requires
        demote_rel(pre, post, peer, trans),
        pre.inv(),
    ensures
        forall|i: int|
            0 <= i < trans.len() ==> ((#[trigger] trans[i]) matches TransitionV::Evicted(p)
                ==> !has_pid(post.active, p.peer_id) && !has_fid(post.passive, p.peer_id)),
{
    if has_pid(pre.active, peer) {
        let j = pidx(pre.active, peer);
        let e = pre.active[j];
        let mid = ViewState { active: pre.active.remove(j), ..pre };
        lemma_remove_keeps_pids(pre.active, j);
        match e.sequenced() {
            None => {
                assert(!has_pid(post.active, e.peer_id));
                assert(!has_fid(post.passive, e.peer_id));
            },
            Some(info) => {
                let t2 = choose|t2: Seq<TransitionV>|
                    #[trigger] demote_fold_step(mid, post, info, t2, trans);
                lemma_add_passive_evicted_gone(mid, post, info, t2);
                lemma_add_passive_rel_props(mid, post, info, t2);
                assert forall|i: int|
                    0 <= i < trans.len() implies ((#[trigger] trans[i]) matches
                TransitionV::Evicted(p) ==> !has_pid(post.active, p.peer_id) && !has_fid(
                    post.passive,
                    p.peer_id,
                )) by {
                    if i >= 1 {
                        assert(trans[i] == t2[i - 1]);
                        match trans[i] {
                            TransitionV::Evicted(p) => {
                                assert(p.peer_id != info.peer_id) by {
                                    lemma_add_passive_evicted_was_passive(mid, post, info, t2);
                                }
                            },
                            _ => {},
                        }
                    }
                }
            },
        }
    }
}

/// The eviction law for passive additions: a peer reported evicted is
/// afterwards in neither tier, unless it is the peer being added back.
pub proof fn lemma_add_passive_evicted_gone(
    pre: ViewState,
    post: ViewState,
    info: PeerInfoV,
    trans: Seq<TransitionV>,
)
    requires
        add_passive_rel(pre, post, info, trans),
        pre.inv(),
    ensures
        forall|i: int|
            0 <= i < trans.len() ==> ((#[trigger] trans[i]) matches TransitionV::Evicted(p)
                ==> p.peer_id != info.peer_id ==> !has_pid(post.active, p.peer_id) && !has_fid(
                post.passive,
                p.peer_id,
            )),
{
    if info.peer_id == pre.local_id || has_pid(pre.active, info.peer_id) {
    } else {
        let mid = choose|mid: ViewState|
            {
                &&& #[trigger] evict_step_rel(pre, mid, trans)
                &&& post == (ViewState { passive: insert_or_merge(mid.passive, info), ..mid })
            };
        if pre.passive.len() >= pre.max_passive && pre.passive.len() > 0 {
            let id0 = choose|id: PeerId| has_fid(pre.passive, id) && evict_rel(pre, mid, id, trans);
            let j = fidx(pre.passive, id0);
            lemma_remove_keeps_fids(pre.passive, j);
            let q = pre.passive[j];
            assert(trans == seq![TransitionV::Evicted(q.as_partial())]);
            assert(!has_fid(mid.passive, q.peer_id));
            if q.peer_id != info.peer_id {
                assert(!has_fid(post.passive, q.peer_id)) by {
                    let fin = insert_or_merge(mid.passive, info);
                    if has_fid(fin, q.peer_id) {
                        let x = choose|x: int| 0 <= x < fin.len() && fin[x].peer_id == q.peer_id;
                        if has_fid(mid.passive, info.peer_id) {
                            assert(fin[x].peer_id == mid.passive[x].peer_id);
                            assert(has_fid(mid.passive, q.peer_id));
                        } else {
                            if x < fin.len() - 1 {
                                assert(has_fid(mid.passive, q.peer_id));
                            }
                        }
                    }
                }
                assert(!has_pid(post.active, q.peer_id)) by {
                    if has_pid(pre.active, q.peer_id) {
                        assert(has_fid(pre.passive, q.peer_id));
                    }
                }
            }
        }
    }
}

/// A peer a passive addition reports evicted was passive before the call.
proof fn lemma_add_passive_evicted_was_passive(
    pre: ViewState,
    post: ViewState,
    info: PeerInfoV,
    trans: Seq<TransitionV>,
)
    requires
        add_passive_rel(pre, post, info, trans),
        pre.inv(),
    ensures
        forall|i: int|
            0 <= i < trans.len() ==> ((#[trigger] trans[i]) matches TransitionV::Evicted(p)
                ==> has_fid(pre.passive, p.peer_id)),
{
    if info.peer_id == pre.local_id || has_pid(pre.active, info.peer_id) {
    } else {
        let mid = choose|mid: ViewState|
            {
                &&& #[trigger] evict_step_rel(pre, mid, trans)
                &&& post == (ViewState { passive: insert_or_merge(mid.passive, info), ..mid })
            };
        if pre.passive.len() >= pre.max_passive && pre.passive.len() > 0 {
            let id0 = choose|id: PeerId| has_fid(pre.passive, id) && evict_rel(pre, mid, id, trans);
            let j = fidx(pre.passive, id0);
            assert(trans[0] == TransitionV::Evicted(pre.passive[j].as_partial()));
        }
    }
}

/// The eviction law for direct evictions: the evicted peer is afterwards in
/// neither tier.
pub proof fn lemma_evict_evicted_gone(
    pre: ViewState,
    post: ViewState,
    peer: PeerId,
    trans: Seq<TransitionV>,
)
    requires
        evict_rel(pre, post, peer, trans),
        pre.inv(),
    ensures
        forall|i: int|
            0 <= i < trans.len() ==> ((#[trigger] trans[i]) matches TransitionV::Evicted(p)
                ==> !has_pid(post.active, p.peer_id) && !has_fid(post.passive, p.peer_id)),
{
    if has_fid(pre.passive, peer) {
        let j = fidx(pre.passive, peer);
        lemma_remove_keeps_fids(pre.passive, j);
        let q = pre.passive[j];
        assert(!has_pid(post.active, q.peer_id)) by {
            if has_pid(pre.active, q.peer_id) {
                assert(has_fid(pre.passive, q.peer_id));
            }
        }
    }
}

/// After room-making at a full cap, the passive tier is strictly below it.
proof fn lemma_add_passive_shrunk(pre: ViewState, mid: ViewState, trans: Seq<TransitionV>)
    requires
        pre.inv(),
        pre.passive.len() >= pre.max_passive,
        evict_step_rel(pre, mid, trans),
    ensures
        mid.passive.len() < pre.max_passive,
        mid.max_passive == pre.max_passive,
{
    let id = choose|id: PeerId| has_fid(pre.passive, id) && evict_rel(pre, mid, id, trans);
    assert(mid.passive.len() == pre.passive.len() - 1);
}

} // verus!
