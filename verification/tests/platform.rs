use std::time::SystemTime;
use entangle::event::try_wait_result;
use entangle::node_names::{dead_nodes, node_file_name, node_ids_from_names, parse_node_file_name};
use entangle::signal::signal_flags;
use entangle::{NodeId, PlatformError, SharedMemory};
use nix::fcntl::OFlag;
use nix::sys::mman::{shm_open, shm_unlink};
use nix::sys::stat::Mode;

fn unique_name(test: &str) -> String {
    let ts = SystemTime::now()
        .duration_since(SystemTime::UNIX_EPOCH)
        .unwrap()
        .as_nanos();
    format!("/entangle_test_{test}_{ts}")
}

#[test]
fn double_create_fails() {
    let name = SharedMemory::normalize_name(&unique_name("double_create"));
    let flags = OFlag::O_CREAT | OFlag::O_EXCL | OFlag::O_RDWR;
    let mode = Mode::S_IRUSR | Mode::S_IWUSR;
    let _first = shm_open(name.as_str(), flags, mode).unwrap();
    assert_eq!(SharedMemory::mapping_len(4096), Ok(4096));
    assert!(shm_open(name.as_str(), flags, mode).is_err());
    shm_unlink(name.as_str()).unwrap();
}

#[test]
fn normalize_adds_leading_slash_once() {
    assert_eq!(SharedMemory::normalize_name("seg"), "/seg");
    assert_eq!(SharedMemory::normalize_name("/seg"), "/seg");
    assert_eq!(SharedMemory::normalize_name(""), "/");
    let once = SharedMemory::normalize_name("a/b");
    assert_eq!(SharedMemory::normalize_name(&once), once);
}

#[test]
fn zero_sized_mapping_is_refused() {
    match SharedMemory::mapping_len(0) {
        Err(PlatformError::Mmap { reason }) => assert_eq!(reason, "size must be non-zero"),
        other => panic!("unexpected {other:?}"),
    }
}

#[test]
fn shared_memory_record() {
    let shm = SharedMemory::from_mapping("/x".to_string(), 4096, true);
    assert_eq!(shm.size(), 4096);
    assert_eq!(shm.name(), "/x");
    assert!(shm.is_owner());
}

#[test]
fn node_file_name_is_32_hex_digits() {
    assert_eq!(node_file_name(NodeId(42)), "0000000000000000000000000000002a");
    assert_eq!(node_file_name(NodeId(u128::MAX)), "ffffffffffffffffffffffffffffffff");
    assert_eq!(node_file_name(NodeId(0)), format!("{:032x}", 0u128));
    let id = 0x0123_4567_89ab_cdef_fedc_ba98_7654_3210u128;
    assert_eq!(node_file_name(NodeId(id)), format!("{:032x}", id));
}

#[test]
fn node_file_name_roundtrip() {
    for id in [0u128, 1, 42, 99, u64::MAX as u128, u128::MAX] {
        assert_eq!(parse_node_file_name(&node_file_name(NodeId(id))), Some(NodeId(id)));
    }
}

#[test]
fn parse_node_file_name_follows_radix_rules() {
    assert_eq!(parse_node_file_name("2A"), Some(NodeId(42)));
    assert_eq!(parse_node_file_name("+2a"), Some(NodeId(42)));
    assert_eq!(parse_node_file_name(""), None);
    assert_eq!(parse_node_file_name("+"), None);
    assert_eq!(parse_node_file_name("-2a"), None);
    assert_eq!(parse_node_file_name("2g"), None);
    assert_eq!(parse_node_file_name("lock.tmp"), None);
    assert_eq!(parse_node_file_name("100000000000000000000000000000000"), None);
    assert_eq!(
        parse_node_file_name("0ffffffffffffffffffffffffffffffff"),
        Some(NodeId(u128::MAX))
    );
    for s in ["2a", "+2A", "", "+", "zz", "ffffffffffffffffffffffffffffffff", "1ffffffffffffffffffffffffffffffff"] {
        assert_eq!(parse_node_file_name(s).map(|n| n.0), u128::from_str_radix(s, 16).ok());
    }
}

#[test]
fn node_ids_skip_other_names() {
    let names = vec![
        "0000000000000000000000000000002a".to_string(),
        "notes.txt".to_string(),
        "63".to_string(),
    ];
    assert_eq!(node_ids_from_names(&names), vec![NodeId(42), NodeId(99)]);
}

#[test]
fn try_wait_outcomes() {
    assert_eq!(try_wait_result(Ok(()), false, String::new()), Ok(true));
    let ev = || PlatformError::Event { reason: "read failed".to_string() };
    assert_eq!(try_wait_result(Err(ev()), true, "x".to_string()), Ok(false));
    assert_eq!(
        try_wait_result(Err(ev()), false, "try_wait failed: bad fd".to_string()),
        Err(PlatformError::Event { reason: "try_wait failed: bad fd".to_string() })
    );
    let other = PlatformError::Mmap { reason: "m".to_string() };
    assert_eq!(try_wait_result(Err(other.clone()), true, String::new()), Err(other));
}

#[test]
fn cleanup_reports_dead_nodes_whose_file_was_removed() {
    let nodes = vec![NodeId(1), NodeId(2), NodeId(3), NodeId(4)];
    let alive = vec![true, false, false, false];
    let removed = vec![false, true, false, true];
    assert_eq!(dead_nodes(&nodes, &alive, &removed), vec![NodeId(2), NodeId(4)]);
    assert!(dead_nodes(&Vec::new(), &Vec::new(), &Vec::new()).is_empty());
}

#[test]
fn signal_sets_shutdown_and_its_own_flag() {
    assert_eq!(signal_flags(15, 15, 2), (true, true, false));
    assert_eq!(signal_flags(2, 15, 2), (true, false, true));
    assert_eq!(signal_flags(1, 15, 2), (true, false, false));
}
