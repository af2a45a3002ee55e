use cuscuta::client::recv_id;
use cuscuta::cuscuta_resources::{ClientId, PlayerCount};
use cuscuta::network::{DespawnAllPacket, Header, IdPacket, Sequence, Timestamp};
use cuscuta::server::assign_player_id;

#[test]
fn new_clock_is_zero() {
    let s = Sequence::new(2);
    assert_eq!(s.nums, vec![0, 0, 0]);
    assert_eq!(s.index(), 2);
    assert_eq!(s.get(), 0);
}

#[test]
fn counting_returns_the_new_value() {
    let mut s = Sequence::new(1);
    assert_eq!(s.geti(), 1);
    assert_eq!(s.geti(), 2);
    assert_eq!(s.get(), 2);
    assert_eq!(s.nums, vec![0, 2]);
}

#[test]
fn new_index_pads_with_zeros() {
    let mut s = Sequence::new(0);
    s.new_index(3);
    assert_eq!(s.nums, vec![0, 0, 0, 0]);
    assert_eq!(s.index(), 3);
    s.new_index(1);
    assert_eq!(s.nums, vec![0, 0, 0, 0]);
    assert_eq!(s.index(), 1);
}

#[test]
fn merge_takes_the_larger_counters() {
    let mut mine = Sequence::from_parts(vec![5, 1], 1);
    let other = Sequence::from_parts(vec![3, 4, 7], 0);
    mine.assign(&other);
    assert_eq!(mine.nums, vec![5, 4, 7, 0]);
    assert_eq!(mine.index(), 1);
    let before = mine.nums.clone();
    mine.assign(&other);
    assert_eq!(mine.nums, before);
    let short = Sequence::from_parts(vec![9], 0);
    mine.assign(&short);
    assert_eq!(mine.nums, vec![9, 4, 7, 0]);
}

#[test]
fn snapshot_copies_the_clock() {
    let s = Sequence::from_parts(vec![1, 2, 3], 2);
    let c = s.snapshot();
    assert_eq!(c.nums, s.nums);
    assert_eq!(c.index(), 2);
}

#[test]
fn packets() {
    assert_eq!(Timestamp::new(42).time, 42);
    assert!(DespawnAllPacket::new().kill);
    let h = Header::new(3, Sequence::new(1));
    assert_eq!(h.network_id, 3);
    assert_eq!(h.sequence.nums, vec![0, 0]);
}

#[test]
fn server_hands_out_ids_and_client_takes_them() {
    let mut count = PlayerCount { count: 0 };
    let mut server = Sequence::new(0);
    server.geti();
    let packet: IdPacket = assign_player_id(&mut count, &mut server);
    assert_eq!(count.count, 1);
    assert_eq!(packet.head.network_id, 1);
    assert_eq!(server.nums, vec![1, 0]);
    assert_eq!(packet.head.sequence.nums, vec![1, 0]);

    let mut client = Sequence::new(0);
    let mut id = ClientId::new();
    assert_eq!(id.id, 0);
    recv_id(&packet, &mut client, &mut id);
    assert_eq!(id.id, 1);
    assert_eq!(client.index(), 1);
    assert_eq!(client.nums, vec![1, 0]);
}

#[test]
fn receiving_then_counting_is_later_than_the_send() {
    let sender = Sequence::from_parts(vec![4, 9], 0);
    let mut receiver = Sequence::from_parts(vec![2, 3], 1);
    receiver.assign(&sender);
    let n = receiver.geti();
    assert_eq!(n, 10);
    assert!(receiver.nums.iter().zip(sender.nums.iter()).all(|(a, b)| a >= b));
    assert!(receiver.nums[1] > sender.nums[1]);
}
