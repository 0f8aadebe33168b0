use entangle::contracts::{ChannelState, PatternType};
use entangle::derive_check::{check_zero_copy_safe, has_valid_repr, is_fieldless_enum, DataKind, DeriveRejection};
use entangle::mock::{MockIndexAllocator, MockSharedMemory, MockSharedMemoryProvider, MockZeroCopyChannel};
use entangle::transport_mock::MockZeroCopyChannel as TransportMockChannel;
use entangle::segment_mgr::segment_name;
use entangle::{AtomicBitSet, MpmcContainer, PointerOffset, SpscQueue, UniqueIndexSet, ZeroCopyChannel};
use entangle::{ReceiveError, SendError};

#[test]
fn pointer_offset_packs_and_unpacks() {
    let p = PointerOffset::new(0xBEEF, 0x0000_1234_5678_9ABC);
    assert_eq!(p.segment_id(), 0xBEEF);
    assert_eq!(p.offset(), 0x0000_1234_5678_9ABC);
    assert_eq!(p.raw(), 0xBEEF_1234_5678_9ABC);
    assert_eq!(PointerOffset::from_raw(p.raw()), p);
    let q = PointerOffset::new(u16::MAX, (1usize << 48) - 1);
    assert_eq!(q.raw(), u64::MAX);
}

#[test]
fn bitset_counts_and_finds_lowest() {
    let mut bs = AtomicBitSet::new(130);
    assert_eq!(bs.capacity(), 130);
    assert_eq!(bs.count_set(), 0);
    for i in [129, 64, 3, 63] {
        assert!(bs.set(i));
    }
    assert_eq!(bs.count_set(), 4);
    assert_eq!(bs.find_and_clear_first_set(), Some(3));
    assert_eq!(bs.find_and_clear_first_set(), Some(63));
    assert_eq!(bs.find_and_clear_first_set(), Some(64));
    assert_eq!(bs.find_and_clear_first_set(), Some(129));
    assert_eq!(bs.count_set(), 0);
}

#[test]
fn bitset_clear_undoes_set() {
    let mut bs = AtomicBitSet::new(64);
    bs.set(1);
    assert!(bs.set(7));
    assert!(bs.clear(7));
    assert!(bs.is_set(1));
    assert!(!bs.is_set(7));
    assert_eq!(bs.count_set(), 1);
}

#[test]
fn index_set_hands_out_in_order_then_lifo() {
    let mut set = UniqueIndexSet::new(3);
    assert_eq!(set.capacity(), 3);
    assert_eq!(set.acquire(), Ok(0));
    assert_eq!(set.acquire(), Ok(1));
    set.release(0);
    set.release(1);
    assert_eq!(set.acquire(), Ok(1));
    assert_eq!(set.acquire(), Ok(0));
    assert_eq!(set.acquire(), Ok(2));
    assert_eq!(set.available(), 0);
    assert!(set.acquire().is_err());
}

#[test]
fn container_entries_and_reuse() {
    let mut c = MpmcContainer::new(3);
    assert!(c.is_empty());
    assert_eq!(c.capacity(), 3);
    assert_eq!(c.add(10), Some(0));
    assert_eq!(c.add(20), Some(1));
    assert_eq!(c.add(30), Some(2));
    assert_eq!(c.remove(1), Some(20));
    assert_eq!(c.remove(1), None);
    assert_eq!(c.entries(), vec![(0, 10), (2, 30)]);
    assert_eq!(c.add(40), Some(1));
    assert_eq!(c.get(1), Some(40));
    assert!(!c.is_empty());
}

#[test]
fn queue_capacity_rounds_up_to_power_of_two() {
    assert_eq!(SpscQueue::new(0).capacity(), 2);
    assert_eq!(SpscQueue::new(1).capacity(), 2);
    assert_eq!(SpscQueue::new(3).capacity(), 4);
    assert_eq!(SpscQueue::new(5).capacity(), 8);
    assert_eq!(SpscQueue::new(64).capacity(), 64);
}

#[test]
fn queue_keeps_fifo_across_many_wraps() {
    let mut q = SpscQueue::new(4);
    let mut next_in = 0u64;
    let mut next_out = 0u64;
    for _ in 0..1000 {
        while q.push(next_in) {
            next_in += 1;
        }
        assert!(q.is_full());
        assert_eq!(q.len(), 4);
        for _ in 0..3 {
            assert_eq!(q.pop(), Some(next_out));
            next_out += 1;
        }
    }
}

#[test]
fn channel_states_and_errors() {
    let mut ch = ZeroCopyChannel::new(2, 7, 9);
    assert_eq!(ch.state(), ChannelState::Creating);
    assert_eq!(ch.sender_id(), 7);
    assert_eq!(ch.receiver_id(), 9);
    ch.connect();
    assert_eq!(ch.state(), ChannelState::Connected);
    ch.send(PointerOffset::new(1, 8)).unwrap();
    assert_eq!(ch.pending_count(), 1);
    ch.disconnect();
    assert!(matches!(ch.send(PointerOffset::new(1, 16)), Err(SendError::ConnectionBroken)));
    assert_eq!(ch.receive().unwrap(), PointerOffset::new(1, 8));
    assert!(matches!(ch.receive(), Err(ReceiveError::ConnectionBroken)));
    assert_eq!(ch.return_count(), 0);
    assert!(ch.reclaim().is_none());
}

#[test]
fn state_and_pattern_codes() {
    for s in [ChannelState::Creating, ChannelState::Connected, ChannelState::Disconnected] {
        assert_eq!(ChannelState::from_code(s.code()), s);
    }
    assert_eq!(ChannelState::from_code(200), ChannelState::Disconnected);
    assert_eq!(PatternType::PubSub.code(), 1);
    assert_eq!(PatternType::Blackboard.code(), 4);
}

#[test]
fn segment_names() {
    assert_eq!(segment_name("pfx", 0), "pfx_seg_0");
    assert_eq!(segment_name("pfx", 12), "pfx_seg_12");
    assert_eq!(segment_name("a", u16::MAX), "a_seg_65535");
}

#[test]
fn derive_rules() {
    let reprs = |v: &[&str]| v.iter().map(|s| s.to_string()).collect::<Vec<_>>();
    assert!(has_valid_repr(&reprs(&["C"])));
    assert!(has_valid_repr(&reprs(&["transparent"])));
    assert!(has_valid_repr(&reprs(&["u8"])));
    assert!(!has_valid_repr(&reprs(&["Rust"])));
    assert!(!has_valid_repr(&reprs(&[])));
    assert!(is_fieldless_enum(&vec![0, 0]));
    assert!(!is_fieldless_enum(&vec![0, 1]));
    assert_eq!(check_zero_copy_safe(&reprs(&["C"]), DataKind::Struct), Ok(()));
    assert_eq!(check_zero_copy_safe(&reprs(&[]), DataKind::Struct), Err(DeriveRejection::MissingRepr));
    assert_eq!(
        check_zero_copy_safe(&reprs(&["u8"]), DataKind::Enum { fieldless: false }),
        Err(DeriveRejection::EnumWithData)
    );
    assert_eq!(check_zero_copy_safe(&reprs(&["C"]), DataKind::Union), Err(DeriveRejection::Union));
    assert_eq!(
        DeriveRejection::Union.message(),
        "ZeroCopySafe cannot be derived for unions"
    );
}

#[test]
fn mocks_behave_as_documented() {
    let m = MockSharedMemory::create("m", 16);
    assert_eq!(m.data, vec![0u8; 16]);
    assert_eq!(m.size, 16);
    let _p = MockSharedMemoryProvider::new();

    let mut a = MockIndexAllocator::new(3);
    assert_eq!(a.capacity(), 3);
    assert_eq!(a.acquire(), Some(0));
    assert_eq!(a.acquire(), Some(1));
    assert_eq!(a.borrowed_count(), 2);
    a.release(0);
    assert_eq!(a.acquire(), Some(0));
    assert_eq!(a.acquire(), Some(2));
    assert_eq!(a.acquire(), None);

    let mut ch = MockZeroCopyChannel::new(4);
    ch.send(1);
    ch.send(2);
    assert_eq!(ch.receive(), Some(1));
    ch.return_slot(1);
    assert_eq!(ch.reclaim(), Some(1));
    assert_eq!(ch.reclaim(), None);
    assert_eq!(ch.receive(), Some(2));
    assert_eq!(ch.receive(), None);
}

#[test]
fn transport_mock_channel_is_fifo() {
    let mut ch = TransportMockChannel::default();
    assert_eq!(ch.receive(), None);
    ch.send(5);
    ch.send(6);
    assert_eq!(ch.receive(), Some(5));
    ch.return_slot(5);
    assert_eq!(ch.reclaim(), Some(5));
    assert_eq!(ch.receive(), Some(6));
    let mut fresh = TransportMockChannel::new();
    assert_eq!(fresh.reclaim(), None);
}


#[test]
fn connect_after_disconnect_stays_disconnected() {
    let mut ch = ZeroCopyChannel::new(4, 1, 2);
    ch.connect();
    ch.connect();
    assert_eq!(ch.state(), ChannelState::Connected);
    ch.disconnect();
    ch.connect();
    assert_eq!(ch.state(), ChannelState::Disconnected);
    assert!(matches!(ch.send(PointerOffset::new(0, 0)), Err(SendError::ConnectionBroken)));
}

#[test]
fn mpmc_len_tracks_add_and_remove() {
    let mut c = MpmcContainer::new(3);
    assert_eq!(c.len(), 0);
    let a = c.add(10).unwrap();
    assert_eq!(c.len(), 1);
    let b = c.add(20).unwrap();
    let d = c.add(30).unwrap();
    assert_eq!(c.len(), c.capacity());
    assert_eq!(c.add(40), None);
    assert_eq!(c.len(), 3);
    assert_eq!(c.remove(b), Some(20));
    assert_eq!(c.len(), 2);
    assert_eq!(c.remove(b), None);
    assert_eq!(c.len(), 2);
    assert_eq!(c.add(50), Some(b));
    assert_eq!(c.get(a), Some(10));
    assert_eq!(c.get(d), Some(30));
    assert_eq!(c.get(b), Some(50));
}

#[test]
fn index_set_fails_exactly_when_all_borrowed() {
    let mut s = UniqueIndexSet::new(3);
    assert_eq!(s.acquire(), Ok(0));
    assert_eq!(s.acquire(), Ok(1));
    assert_eq!(s.acquire(), Ok(2));
    assert_eq!(s.borrowed_count(), s.capacity());
    assert_eq!(s.available(), 0);
    assert!(s.acquire().is_err());
    s.release(1);
    assert_eq!(s.borrowed_count(), 2);
    assert_eq!(s.acquire(), Ok(1));
    assert!(s.acquire().is_err());
}

#[test]
fn mock_allocator_borrowed_never_exceeds_capacity() {
    let mut a = MockIndexAllocator::new(2);
    assert!(a.acquire().is_some());
    assert!(a.acquire().is_some());
    assert!(a.acquire().is_none());
    assert_eq!(a.borrowed_count(), 2);
    assert!(a.borrowed_count() <= a.capacity());
}

#[test]
fn mock_allocator_count_over_a_sequence_of_calls() {
    let mut a = MockIndexAllocator::new(3);
    let mut acquired = 0u32;
    let mut released = 0u32;
    for _ in 0..2 {
        if a.acquire().is_some() {
            acquired += 1;
        }
    }
    a.release(1);
    released += 1;
    for _ in 0..3 {
        if a.acquire().is_some() {
            acquired += 1;
        }
    }
    assert_eq!(acquired, 4);
    assert_eq!(a.borrowed_count(), acquired - released);
    assert_eq!(a.borrowed_count(), a.capacity());
}
