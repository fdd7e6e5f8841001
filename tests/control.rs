use graph_loader::control::{ChannelError, ControlChannel, ControlMessage, ControlPayload, CHANNEL_CAPACITY};
use graph_loader::description::ControlPoint;

fn seek(target: u64, anchor: u64) -> ControlMessage {
    ControlMessage { target, payload: ControlPayload::SeekWhenIdeal { anchor } }
}

#[test]
fn later_seek_replaces_a_waiting_one() {
    let mut ch = ControlChannel::new(ControlPoint { node_id: 4, deferred: true });
    assert!(ch.send(seek(4, 1)).is_ok());
    assert!(ch.send(seek(4, 2)).is_ok());
    ch.process();
    assert_eq!(ch.pending(), Some(2));
    assert!(ch.applied().is_empty());
    ch.reach_boundary();
    assert_eq!(ch.applied(), &vec![2u64]);
    assert_eq!(ch.pending(), None);
    ch.reach_boundary();
    assert_eq!(ch.applied(), &vec![2u64]);
}

#[test]
fn seek_without_boundaries_applies_at_once() {
    let mut ch = ControlChannel::new(ControlPoint { node_id: 4, deferred: false });
    assert!(ch.send(seek(4, 1)).is_ok());
    assert!(ch.send(seek(4, 3)).is_ok());
    assert_eq!(ch.queued(), 2);
    ch.process();
    assert_eq!(ch.queued(), 0);
    assert_eq!(ch.applied(), &vec![1u64, 3]);
}

#[test]
fn message_for_another_node_is_ignored() {
    let mut ch = ControlChannel::new(ControlPoint { node_id: 4, deferred: true });
    assert!(ch.send(seek(5, 1)).is_ok());
    ch.process();
    assert_eq!(ch.pending(), None);
    ch.reach_boundary();
    assert!(ch.applied().is_empty());
}

#[test]
fn full_channel_refuses_a_message() {
    let mut ch = ControlChannel::new(ControlPoint { node_id: 1, deferred: true });
    for i in 0..CHANNEL_CAPACITY {
        assert!(ch.send(seek(1, i as u64)).is_ok());
    }
    assert_eq!(ch.send(seek(1, 99)), Err(ChannelError::Full));
    assert_eq!(ch.queued(), CHANNEL_CAPACITY);
    ch.process();
    assert!(ch.send(seek(1, 99)).is_ok());
}

#[test]
fn closed_channel_refuses_a_message() {
    let mut ch = ControlChannel::new(ControlPoint { node_id: 1, deferred: true });
    ch.close();
    assert!(ch.is_closed());
    assert_eq!(ch.send(seek(1, 2)), Err(ChannelError::Closed));
    assert_eq!(ch.queued(), 0);
}
