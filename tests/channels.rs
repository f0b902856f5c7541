use std::sync::Arc;

use dagrs::{
    broadcast_outcome, queue_outcome, race_outcome, typed_outcome, Content, InChannel, InChannels,
    NodeId, RecvErr, SharedInChannel, TypedInChannels,
};
use tokio::sync::{broadcast, mpsc, Mutex};

fn shared(channel: InChannel) -> SharedInChannel {
    Arc::new(Mutex::new(channel))
}

fn text(r: Result<Content, RecvErr>) -> String {
    match r {
        Ok(c) => c.into_inner::<String>().map(|s| (*s).clone()).unwrap_or_default(),
        Err(e) => panic!("receive failed: {:?}", e),
    }
}

fn two_ids() -> (NodeId, NodeId) {
    (NodeId::from_index(1), NodeId::from_index(2))
}

#[test]
fn queued_messages_arrive_in_send_order_then_closed() {
    let (a, _) = two_ids();
    let (tx, rx) = mpsc::channel::<Content>(8);
    let mut set = InChannels::new();
    set.insert(a, shared(InChannel::Mpsc(rx)));
    for word in ["one", "two", "three"] {
        tx.blocking_send(Content::new(word.to_string())).unwrap();
    }
    drop(tx);
    assert_eq!(text(set.blocking_recv_from(&a)), "one");
    assert_eq!(text(set.blocking_recv_from(&a)), "two");
    assert_eq!(text(set.blocking_recv_from(&a)), "three");
    assert_eq!(set.blocking_recv_from(&a).err(), Some(RecvErr::Closed));
    assert_eq!(set.blocking_recv_from(&a).err(), Some(RecvErr::Closed));
}

#[test]
fn lagging_broadcast_receiver_reports_missed_count() {
    let (a, _) = two_ids();
    let (tx, rx) = broadcast::channel::<Content>(2);
    let mut set = InChannels::new();
    set.insert(a, shared(InChannel::Bcst(rx)));
    for word in ["m1", "m2", "m3", "m4"] {
        tx.send(Content::new(word.to_string())).ok().unwrap();
    }
    assert_eq!(set.blocking_recv_from(&a).err(), Some(RecvErr::Lagged(2)));
    assert_eq!(text(set.blocking_recv_from(&a)), "m3");
    assert_eq!(text(set.blocking_recv_from(&a)), "m4");
    drop(tx);
    assert_eq!(set.blocking_recv_from(&a).err(), Some(RecvErr::Closed));
}

#[test]
fn race_over_no_channels_is_no_such_channel() {
    let r = race_outcome::<Content>(0, None);
    assert_eq!(r.err(), Some(RecvErr::NoSuchChannel));
}

#[test]
fn race_with_a_winner_returns_it() {
    let (a, _) = two_ids();
    let r = race_outcome(3, Some((a, 7u32)));
    assert_eq!(r.ok(), Some((a, 7u32)));
}

#[test]
fn race_where_every_receive_failed_is_closed() {
    let r = race_outcome::<u32>(2, None);
    assert_eq!(r.err(), Some(RecvErr::Closed));
}

#[test]
fn closed_channel_is_no_longer_found() {
    let (a, b) = two_ids();
    let (tx_a, rx_a) = mpsc::channel::<Content>(1);
    let (tx_b, rx_b) = mpsc::channel::<Content>(1);
    let mut set = InChannels::new();
    set.insert(a, shared(InChannel::Mpsc(rx_a)));
    set.insert(b, shared(InChannel::Mpsc(rx_b)));
    set.close(&a);
    assert_eq!(set.blocking_recv_from(&a).err(), Some(RecvErr::NoSuchChannel));
    set.close(&a);
    assert_eq!(set.keys(), vec![b]);
    assert!(tx_a.try_send(Content::new(1u32)).is_err());
    tx_b.try_send(Content::new("still open".to_string())).ok().unwrap();
    assert_eq!(text(set.blocking_recv_from(&b)), "still open");
}

#[test]
fn receive_from_unknown_peer_is_no_such_channel() {
    let (a, _) = two_ids();
    let mut set = InChannels::default();
    assert_eq!(set.blocking_recv_from(&a).err(), Some(RecvErr::NoSuchChannel));
    assert!(set.get(&a).is_none());
}

#[test]
fn bounded_queue_holds_second_send_until_first_receive() {
    let (a, b) = two_ids();
    let (tx, rx) = mpsc::channel::<Content>(1);
    let mut node_a = InChannels::new();
    node_a.insert(b, shared(InChannel::Mpsc(rx)));
    tx.try_send(Content::new("x".to_string())).ok().unwrap();
    assert!(tx.try_send(Content::new("y".to_string())).is_err());
    assert_eq!(text(node_a.blocking_recv_from(&b)), "x");
    tx.try_send(Content::new("y".to_string())).ok().unwrap();
    assert_eq!(text(node_a.blocking_recv_from(&b)), "y");
    assert_eq!(node_a.blocking_recv_from(&a).err(), Some(RecvErr::NoSuchChannel));
}

#[test]
fn typed_receive_of_other_type_is_absent_not_error() {
    let (a, _) = two_ids();
    let (tx, rx) = mpsc::channel::<Content>(2);
    let mut set = TypedInChannels::<u32>::new();
    set.insert(a, shared(InChannel::Mpsc(rx)));
    tx.try_send(Content::new("not a number".to_string())).ok().unwrap();
    tx.try_send(Content::new(42u32)).ok().unwrap();
    let first = set.blocking_recv_from(&a);
    assert!(matches!(first, Ok(None)));
    let second = set.blocking_recv_from(&a);
    assert_eq!(second.ok().flatten().map(|v| *v), Some(42));
}

#[test]
fn typed_receive_errors_pass_through() {
    let (a, b) = two_ids();
    let (tx, rx) = mpsc::channel::<Content>(1);
    let mut set = TypedInChannels::<u32>::default();
    set.insert(a, shared(InChannel::Mpsc(rx)));
    drop(tx);
    assert_eq!(set.blocking_recv_from(&a).err(), Some(RecvErr::Closed));
    assert_eq!(set.blocking_recv_from(&b).err(), Some(RecvErr::NoSuchChannel));
    set.close(&a);
    assert_eq!(set.blocking_recv_from(&a).err(), Some(RecvErr::NoSuchChannel));
    assert!(set.keys().is_empty());
}

#[test]
fn blocking_map_receives_once_from_each_peer_in_key_order() {
    let (a, b) = two_ids();
    let (tx_a, rx_a) = mpsc::channel::<Content>(1);
    let (tx_b, rx_b) = mpsc::channel::<Content>(1);
    let mut set = InChannels::new();
    set.insert(b, shared(InChannel::Mpsc(rx_b)));
    set.insert(a, shared(InChannel::Mpsc(rx_a)));
    tx_a.try_send(Content::new("from a".to_string())).ok().unwrap();
    tx_b.try_send(Content::new("from b".to_string())).ok().unwrap();
    assert_eq!(set.keys(), vec![b, a]);
    let got = set.blocking_map(text);
    assert_eq!(got, vec!["from b".to_string(), "from a".to_string()]);
}

#[test]
fn typed_blocking_map_takes_out_values() {
    let (a, b) = two_ids();
    let (tx_a, rx_a) = mpsc::channel::<Content>(1);
    let (tx_b, rx_b) = mpsc::channel::<Content>(1);
    let mut set = TypedInChannels::<u32>::new();
    set.insert(a, shared(InChannel::Mpsc(rx_a)));
    set.insert(b, shared(InChannel::Mpsc(rx_b)));
    tx_a.try_send(Content::new(3u32)).ok().unwrap();
    tx_b.try_send(Content::new(4u64)).ok().unwrap();
    let got = set.blocking_map(|r| r.ok().flatten().map(|v| *v));
    assert_eq!(got, vec![Some(3), None]);
}

#[test]
fn insert_replaces_endpoint_of_same_peer() {
    let (a, _) = two_ids();
    let (_tx_old, rx_old) = mpsc::channel::<Content>(1);
    let (tx_new, rx_new) = mpsc::channel::<Content>(1);
    let mut set = InChannels::new();
    set.insert(a, shared(InChannel::Mpsc(rx_old)));
    let replacement = shared(InChannel::Mpsc(rx_new));
    set.insert(a, replacement.clone());
    assert_eq!(set.keys(), vec![a]);
    assert!(Arc::ptr_eq(&set.get(&a).unwrap(), &replacement));
    tx_new.try_send(Content::new("new".to_string())).ok().unwrap();
    assert_eq!(text(set.blocking_recv_from(&a)), "new");
}

#[test]
fn close_all_keeps_queued_messages_receivable() {
    let (a, _) = two_ids();
    let (tx, rx) = mpsc::channel::<Content>(2);
    let mut set = InChannels::new();
    set.insert(a, shared(InChannel::Mpsc(rx)));
    tx.try_send(Content::new("last".to_string())).ok().unwrap();
    set.close_all();
    assert!(tx.try_send(Content::new("late".to_string())).is_err());
    assert_eq!(set.keys(), vec![a]);
    assert_eq!(text(set.blocking_recv_from(&a)), "last");
    assert_eq!(set.blocking_recv_from(&a).err(), Some(RecvErr::Closed));
}

#[test]
fn queue_outcome_maps_end_of_queue_to_closed() {
    assert_eq!(queue_outcome(None).err(), Some(RecvErr::Closed));
    assert_eq!(text(queue_outcome(Some(Content::new("m".to_string())))), "m");
}

#[test]
fn broadcast_outcome_keeps_lag_count() {
    let lagged = broadcast_outcome(Err(broadcast::error::RecvError::Lagged(5)));
    assert_eq!(lagged.err(), Some(RecvErr::Lagged(5)));
    let closed = broadcast_outcome(Err(broadcast::error::RecvError::Closed));
    assert_eq!(closed.err(), Some(RecvErr::Closed));
    assert_eq!(text(broadcast_outcome(Ok(Content::new("b".to_string())))), "b");
}

#[test]
fn content_takes_out_only_its_own_type() {
    let c = Content::new(9i64);
    assert!(c.clone().into_inner::<u32>().is_none());
    assert_eq!(c.into_inner::<i64>().map(|v| *v), Some(9));
}

#[test]
fn endpoints_pair_each_peer_with_its_channel() {
    let (a, b) = two_ids();
    let (_tx_a, rx_a) = mpsc::channel::<Content>(1);
    let (_tx_b, rx_b) = broadcast::channel::<Content>(1);
    let ca = shared(InChannel::Mpsc(rx_a));
    let cb = shared(InChannel::Bcst(rx_b));
    let mut set = InChannels::new();
    set.insert(a, ca.clone());
    set.insert(b, cb.clone());
    let got = set.endpoints();
    assert_eq!(got.len(), 2);
    assert_eq!(got[0].0, a);
    assert!(Arc::ptr_eq(&got[0].1, &ca));
    assert_eq!(got[1].0, b);
    assert!(Arc::ptr_eq(&got[1].1, &cb));
    let typed = TypedInChannels::<u8>::from_untyped(set);
    assert_eq!(typed.endpoints().len(), 2);
    assert_eq!(typed.keys(), vec![a, b]);
}

#[test]
fn typed_outcome_takes_out_value_or_passes_error() {
    let other: Result<Option<std::sync::Arc<u32>>, RecvErr> =
        typed_outcome(Ok(Content::new("s".to_string())));
    assert!(matches!(other, Ok(None)));
    let same = typed_outcome::<u32>(Ok(Content::new(5u32)));
    assert_eq!(same.ok().flatten().map(|v| *v), Some(5));
    let lagged = typed_outcome::<u32>(Err(RecvErr::Lagged(3)));
    assert_eq!(lagged.err(), Some(RecvErr::Lagged(3)));
}

#[test]
fn endpoint_lookup_reports_missing_peer() {
    let (a, b) = two_ids();
    let (_tx, rx) = mpsc::channel::<Content>(1);
    let c = shared(InChannel::Mpsc(rx));
    let mut set = InChannels::new();
    set.insert(a, c.clone());
    assert!(Arc::ptr_eq(&set.endpoint(&a).ok().unwrap(), &c));
    assert_eq!(set.endpoint(&b).err(), Some(RecvErr::NoSuchChannel));
}

#[test]
fn closing_broadcast_endpoint_keeps_it_receivable() {
    let (tx, rx) = broadcast::channel::<Content>(2);
    let mut channel = InChannel::Bcst(rx);
    tx.send(Content::new("kept".to_string())).ok().unwrap();
    channel.close();
    assert_eq!(text(channel.blocking_recv()), "kept");
}

#[test]
fn shadowed_id_still_reaches_its_channel() {
    let mut table = dagrs::NodeTable::new();
    let first = NodeId::from_index(21);
    let second = NodeId::from_index(22);
    table.alloc_id_for("src", first);
    let (tx, rx) = mpsc::channel::<Content>(1);
    let mut set = InChannels::new();
    set.insert(first, shared(InChannel::Mpsc(rx)));
    table.alloc_id_for("src", second);
    assert_eq!(table.get("src"), Some(&second));
    tx.try_send(Content::new("direct".to_string())).ok().unwrap();
    assert_eq!(text(set.blocking_recv_from(&first)), "direct");
    assert_eq!(set.blocking_recv_from(&second).err(), Some(RecvErr::NoSuchChannel));
}
