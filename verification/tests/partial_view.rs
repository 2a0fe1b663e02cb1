use librad::partial_view::{PartialView, Transition};
use librad::peer::{Addr, PartialPeerInfo, PeerAdvertisement, PeerId, PeerInfo};
use rand::SeedableRng;

fn rng(seed: u64) -> rand::rngs::StdRng {
    rand::rngs::StdRng::seed_from_u64(seed)
}

fn full(id: u64, a: u64) -> PeerInfo {
    PeerInfo {
        peer_id: PeerId(id),
        advertised_info: PeerAdvertisement::new(vec![Addr(a)]),
        seen_addrs: vec![Addr(a)],
    }
}

#[test]
fn passive_merge_unions_seen_addresses() {
    let mut view = PartialView::new(PeerId(0), rng(1), 2, 4);
    let _ = view.add_passive(full(1, 11));
    let mut again = full(1, 21);
    again.seen_addrs = vec![Addr(21), Addr(11)];
    let trans = view.add_passive(again);
    // a merge is no transition
    assert!(trans.is_empty());
    let infos = view.passive_info();
    assert_eq!(infos.len(), 1);
    // the advertised part is overwritten, the seen addresses are united
    assert_eq!(infos[0].advertised_info.listen_addrs, vec![Addr(21)]);
    assert_eq!(infos[0].seen_addrs, vec![Addr(11), Addr(21)]);
}

#[test]
fn passive_eviction_at_the_cap() {
    let mut view = PartialView::new(PeerId(0), rng(2), 2, 1);
    let _ = view.add_passive(full(1, 11));
    let trans = view.add_passive(full(2, 12));
    // the reserve holds one peer: the old entry leaves, evicted
    assert_eq!(view.num_passive(), 1);
    assert_eq!(trans.len(), 1);
    match &trans[0] {
        Transition::Evicted(p) => {
            assert_eq!(p.peer_id, PeerId(1));
            // the evicted peer is gone from both tiers
            assert!(!view.passive().contains(&PeerId(1)));
            assert!(!view.active().contains(&PeerId(1)));
        },
        other => panic!("unexpected transition: {:?}", other),
    }
}

#[test]
fn demoting_a_partial_entry_evicts_it() {
    let mut view = PartialView::new(PeerId(0), rng(3), 2, 4);
    // never heard a hello from this peer: no advertised part
    let bare = PartialPeerInfo { peer_id: PeerId(1), advertised_info: None, seen_addrs: vec![] };
    let _ = view.add_active(bare);
    let trans = view.demote(&PeerId(1));
    assert_eq!(trans.len(), 1);
    assert!(matches!(&trans[0], Transition::Evicted(p) if p.peer_id == PeerId(1)));
    // it does not pollute the passive reserve
    assert_eq!(view.num_passive(), 0);
    assert_eq!(view.num_active(), 0);
}

#[test]
fn promotion_strips_the_passive_entry() {
    let mut view = PartialView::new(PeerId(0), rng(4), 2, 4);
    let _ = view.add_passive(full(1, 11));
    assert_eq!(view.num_passive(), 1);
    let trans = view.add_active(PartialPeerInfo::from_full(&full(1, 11)));
    // the promoted peer stands in exactly one tier
    assert!(view.is_active(&PeerId(1)));
    assert_eq!(view.num_passive(), 0);
    assert!(matches!(trans.last().unwrap(), Transition::Promoted(p) if p.peer_id == PeerId(1)));
}

#[test]
fn full_active_tier_folds_a_peer_into_passive() {
    let mut view = PartialView::new(PeerId(0), rng(5), 1, 4);
    let _ = view.add_active(PartialPeerInfo::from_full(&full(1, 11)));
    let trans = view.add_active(PartialPeerInfo::from_full(&full(2, 12)));
    // peer 1 is demoted to make room, then peer 2 is promoted
    assert_eq!(view.num_active(), 1);
    assert!(view.is_active(&PeerId(2)));
    assert_eq!(view.num_passive(), 1);
    assert!(view.passive().contains(&PeerId(1)));
    // demotions come before the promotion
    assert!(matches!(&trans[0], Transition::Demoted(p) if p.peer_id == PeerId(1)));
    assert!(matches!(trans.last().unwrap(), Transition::Promoted(p) if p.peer_id == PeerId(2)));
}

#[test]
fn known_lists_active_then_passive() {
    let mut view = PartialView::new(PeerId(0), rng(6), 2, 4);
    let _ = view.add_active(PartialPeerInfo::from_full(&full(1, 11)));
    let _ = view.add_passive(full(2, 12));
    assert_eq!(view.known(), vec![PeerId(1), PeerId(2)]);
    assert_eq!(view.active(), vec![PeerId(1)]);
    assert_eq!(view.passive(), vec![PeerId(2)]);
}
