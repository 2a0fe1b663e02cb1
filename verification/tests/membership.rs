use librad::hpv::{Error, HpvInner};
use librad::peer::{Addr, PartialPeerInfo, PeerAdvertisement, PeerId};
use librad::tick::{Message, Params, Tick};
use rand::SeedableRng;

fn rng(seed: u64) -> rand::rngs::StdRng {
    rand::rngs::StdRng::seed_from_u64(seed)
}

fn params(max_active: usize, max_passive: usize) -> Params {
    Params { max_active, max_passive, ..Params::default() }
}

fn adv(a: u64) -> PeerAdvertisement {
    PeerAdvertisement::new(vec![Addr(a)])
}

fn partial(id: u64, a: u64) -> PartialPeerInfo {
    PartialPeerInfo { peer_id: PeerId(id), advertised_info: Some(adv(a)), seen_addrs: vec![Addr(a)] }
}

#[test]
fn join_into_empty_view() {
    let mut engine = HpvInner::new(PeerId(0), rng(1), params(2, 30));
    let tnt = engine.apply(PeerId(1), Addr(11), Message::Join { info: adv(11) }).unwrap();
    assert_eq!(tnt.trans.len(), 1);
    assert!(matches!(&tnt.trans[0], librad::partial_view::Transition::Promoted(p) if p.peer_id == PeerId(1)));
    assert_eq!(tnt.ticks.len(), 0);
    assert!(engine.is_active(&PeerId(1)));
    assert_eq!(engine.view_stats(), (1, 0));
}

#[test]
fn join_while_connected_is_rejected() {
    let mut engine = HpvInner::new(PeerId(0), rng(1), params(2, 30));
    engine.apply(PeerId(1), Addr(11), Message::Join { info: adv(11) }).unwrap();
    let r = engine.apply(PeerId(1), Addr(11), Message::Join { info: adv(11) });
    assert!(matches!(r, Err(Error::JoinWhileConnected)));
    assert_eq!(engine.view_stats(), (1, 0));
}

#[test]
fn forward_join_propagation() {
    let mut engine = HpvInner::new(PeerId(0), rng(2), params(3, 30));
    let _ = engine.connection_established(partial(1, 11));
    let _ = engine.connection_established(partial(2, 12));
    assert_eq!(engine.view_stats(), (2, 0));
    let joined = partial(3, 13).sequence().unwrap();
    let tnt = engine
        .apply(PeerId(1), Addr(11), Message::ForwardJoin { joined, ttl: 2 })
        .unwrap();
    assert_eq!(tnt.trans.len(), 0);
    assert_eq!(tnt.ticks.len(), 1);
    assert!(matches!(&tnt.ticks[0], Tick::Connect { to } if to.peer_id == PeerId(3)));
    assert_eq!(engine.view_stats(), (2, 0));
}

#[test]
fn forward_join_ttl_exhausted_at_full_view() {
    // a new peer at the end of its walk earns a connection intent, full
    // view or not
    let mut engine = HpvInner::new(PeerId(0), rng(3), params(2, 30));
    let _ = engine.connection_established(partial(1, 11));
    let _ = engine.connection_established(partial(2, 12));
    assert_eq!(engine.view_stats(), (2, 0));
    let joined = partial(3, 13).sequence().unwrap();
    let tnt = engine
        .apply(PeerId(1), Addr(11), Message::ForwardJoin { joined, ttl: 0 })
        .unwrap();
    assert_eq!(engine.view_stats(), (2, 0));
    assert_eq!(tnt.ticks.len(), 1);
    assert!(matches!(&tnt.ticks[0], Tick::Connect { to } if to.peer_id == PeerId(3)));
}

#[test]
fn forward_join_for_an_active_peer_walks_on() {
    // a walk naming an already active peer is handed on instead, with the
    // time-to-live staying at zero
    let mut engine = HpvInner::new(PeerId(0), rng(3), params(2, 30));
    let _ = engine.connection_established(partial(1, 11));
    let _ = engine.connection_established(partial(2, 12));
    let joined = partial(2, 12).sequence().unwrap();
    let tnt = engine
        .apply(PeerId(1), Addr(11), Message::ForwardJoin { joined, ttl: 0 })
        .unwrap();
    // the peer is active already, so the passive reserve stays empty
    assert_eq!(engine.view_stats(), (2, 0));
    assert_eq!(tnt.ticks.len(), 1);
    match &tnt.ticks[0] {
        Tick::All { recipients, message } => {
            assert_eq!(recipients, &vec![PeerId(2)]);
            assert!(
                matches!(message, Message::ForwardJoin { joined, ttl: 0 } if joined.peer_id == PeerId(2))
            );
        },
        other => panic!("unexpected tick: {:?}", other),
    }
}

#[test]
fn neighbour_rejected_when_full_and_not_soliciting() {
    let mut engine = HpvInner::new(PeerId(0), rng(4), params(1, 30));
    let _ = engine.connection_established(partial(1, 11));
    assert_eq!(engine.view_stats(), (1, 0));
    let tnt = engine
        .apply(PeerId(2), Addr(12), Message::Neighbour { info: adv(12), need_friends: false })
        .unwrap();
    assert_eq!(tnt.trans.len(), 0);
    assert_eq!(tnt.ticks.len(), 1);
    assert!(matches!(&tnt.ticks[0],
        Tick::Reply { to, message: Message::Disconnect } if *to == PeerId(2)));
    assert_eq!(engine.view_stats(), (1, 0));
    assert!(!engine.is_active(&PeerId(2)));
}

#[test]
fn neighbour_accepted_when_soliciting() {
    let mut engine = HpvInner::new(PeerId(0), rng(5), params(1, 30));
    let _ = engine.connection_established(partial(1, 11));
    let tnt = engine
        .apply(PeerId(2), Addr(12), Message::Neighbour { info: adv(12), need_friends: true })
        .unwrap();
    // the full active tier demotes a random peer to make room
    assert!(engine.is_active(&PeerId(2)));
    assert_eq!(engine.view_stats().0, 1);
    assert!(tnt.trans.len() >= 1);
}

#[test]
fn disconnect_demotes_to_passive() {
    let mut engine = HpvInner::new(PeerId(0), rng(6), params(2, 30));
    let _ = engine.connection_established(partial(1, 11));
    let tnt = engine.apply(PeerId(1), Addr(11), Message::Disconnect).unwrap();
    assert!(!engine.is_active(&PeerId(1)));
    assert_eq!(engine.view_stats(), (0, 1));
    assert!(matches!(&tnt.trans[0],
        librad::partial_view::Transition::Demoted(p) if p.peer_id == PeerId(1)));
    // a demotion implies closing the connection
    assert!(matches!(&tnt.ticks[0], Tick::Disconnect { peer } if *peer == PeerId(1)));
}

#[test]
fn connection_lost_repairs_from_passive() {
    let mut engine = HpvInner::new(PeerId(0), rng(7), params(2, 30));
    let _ = engine.connection_established(partial(1, 11));
    let _ = engine.connection_established(partial(2, 12));
    // peer 1 drops to passive, then the engine wants a replacement connection
    let tnt = engine.connection_lost(PeerId(1));
    assert!(!engine.is_active(&PeerId(1)));
    assert_eq!(engine.view_stats(), (1, 1));
    let connects: Vec<_> = tnt
        .ticks
        .iter()
        .filter(|t| matches!(t, Tick::Connect { .. }))
        .collect();
    assert_eq!(connects.len(), 1);
}

#[test]
fn active_cap_is_kept_under_churn() {
    let mut engine = HpvInner::new(PeerId(0), rng(8), params(2, 4));
    for i in 1..10u64 {
        let _ = engine.connection_established(partial(i, 10 + i));
        let (act, pas) = engine.view_stats();
        assert!(act <= 2);
        assert!(pas <= 4);
    }
}

#[test]
fn local_peer_never_enters_the_view() {
    let mut engine = HpvInner::new(PeerId(0), rng(9), params(2, 4));
    let _ = engine.connection_established(partial(0, 10));
    assert_eq!(engine.view_stats(), (0, 0));
    let r = engine.apply(
        PeerId(1),
        Addr(11),
        Message::ShuffleReply { peers: vec![partial(0, 10).sequence().unwrap()] },
    );
    assert!(r.is_ok());
    assert_eq!(engine.view_stats(), (0, 0));
    assert!(engine.known().is_empty());
}

#[test]
fn shuffle_reply_fills_passive() {
    let mut engine = HpvInner::new(PeerId(0), rng(10), params(2, 30));
    let peers = vec![
        partial(5, 15).sequence().unwrap(),
        partial(6, 16).sequence().unwrap(),
    ];
    let tnt = engine.apply(PeerId(1), Addr(11), Message::ShuffleReply { peers }).unwrap();
    assert_eq!(engine.view_stats(), (0, 2));
    assert_eq!(tnt.trans.len(), 0);
}

#[test]
fn shuffle_at_ttl_zero_samples_back() {
    let mut engine = HpvInner::new(PeerId(0), rng(11), params(3, 30));
    let _ = engine.connection_established(partial(1, 11));
    let _ = engine.connection_established(partial(2, 12));
    let origin = partial(9, 19).sequence().unwrap();
    let peers = vec![partial(5, 15).sequence().unwrap()];
    let tnt = engine
        .apply(PeerId(2), Addr(12), Message::Shuffle { origin, peers, ttl: 0 })
        .unwrap();
    // a non-empty sample goes back to the origin
    let tries: Vec<_> = tnt.ticks.iter().filter(|t| matches!(t, Tick::Try { .. })).collect();
    assert_eq!(tries.len(), 1);
    match tries[0] {
        Tick::Try { recipient, message } => {
            assert_eq!(recipient.peer_id, PeerId(9));
            assert!(matches!(message, Message::ShuffleReply { .. }));
        },
        _ => unreachable!(),
    }
    // the advertised peer sinks into the passive reserve
    assert_eq!(engine.view_stats(), (2, 1));
}

#[test]
fn shuffle_forwarded_while_walking() {
    let mut engine = HpvInner::new(PeerId(0), rng(12), params(3, 30));
    let _ = engine.connection_established(partial(1, 11));
    let _ = engine.connection_established(partial(2, 12));
    let origin = partial(1, 11).sequence().unwrap();
    let peers = vec![partial(5, 15).sequence().unwrap()];
    let tnt = engine
        .apply(PeerId(1), Addr(21), Message::Shuffle { origin, peers, ttl: 2 })
        .unwrap();
    // view untouched, walk moves one hop on with the ttl decremented
    assert_eq!(engine.view_stats(), (2, 0));
    assert_eq!(tnt.ticks.len(), 1);
    match &tnt.ticks[0] {
        Tick::All { recipients, message } => {
            assert_eq!(recipients, &vec![PeerId(2)]);
            match message {
                Message::Shuffle { origin, ttl, .. } => {
                    assert_eq!(*ttl, 1);
                    // the sender is the origin: its seen addresses learn the new one
                    assert!(origin.seen_addrs.contains(&Addr(21)));
                },
                _ => panic!("expected a shuffle"),
            }
        },
        other => panic!("unexpected tick: {:?}", other),
    }
}

#[test]
fn hello_depends_on_the_view() {
    let mut engine = HpvInner::new(PeerId(0), rng(13), params(2, 30));
    assert!(matches!(engine.hello(adv(1)), Message::Join { .. }));
    let peers = vec![partial(5, 15).sequence().unwrap()];
    let _ = engine.apply(PeerId(1), Addr(11), Message::ShuffleReply { peers }).unwrap();
    // passive only: solicit friends
    assert!(matches!(engine.hello(adv(1)), Message::Neighbour { need_friends: true, .. }));
    let _ = engine.connection_established(partial(1, 11));
    assert!(matches!(engine.hello(adv(1)), Message::Neighbour { need_friends: false, .. }));
}

#[test]
fn broadcast_recipients_excludes() {
    let mut engine = HpvInner::new(PeerId(0), rng(14), params(3, 30));
    let _ = engine.connection_established(partial(1, 11));
    let _ = engine.connection_established(partial(2, 12));
    let all = engine.broadcast_recipients(None);
    assert_eq!(all, vec![PeerId(1), PeerId(2)]);
    let some = engine.broadcast_recipients(Some(PeerId(1)));
    assert_eq!(some, vec![PeerId(2)]);
}

#[test]
fn choose_passive_to_promote_draws_from_passive() {
    let mut engine = HpvInner::new(PeerId(0), rng(15), params(2, 30));
    let peers = vec![
        partial(5, 15).sequence().unwrap(),
        partial(6, 16).sequence().unwrap(),
        partial(7, 17).sequence().unwrap(),
    ];
    let _ = engine.apply(PeerId(1), Addr(11), Message::ShuffleReply { peers }).unwrap();
    let cands = engine.choose_passive_to_promote();
    // room for two: exactly two distinct passive peers come back
    assert_eq!(cands.len(), 2);
    assert_ne!(cands[0].peer_id, cands[1].peer_id);
    for c in &cands {
        assert!([PeerId(5), PeerId(6), PeerId(7)].contains(&c.peer_id));
    }
}

#[test]
fn shuffle_offer_names_an_active_recipient() {
    let mut engine = HpvInner::new(PeerId(0), rng(16), params(3, 30));
    assert!(engine.shuffle().is_none());
    let _ = engine.connection_established(partial(1, 11));
    let _ = engine.connection_established(partial(2, 12));
    let offer = engine.shuffle().expect("two active peers give a sample");
    assert!(offer.recipient == PeerId(1) || offer.recipient == PeerId(2));
    assert!(!offer.sample.is_empty());
    for p in &offer.sample {
        assert_ne!(p.peer_id, offer.recipient);
    }
    assert_eq!(offer.ttl, Params::default().active_random_walk_length);
}
