use std::time::SystemTime;
use entangle::data_segment::{segment_layout, HEADER_SIZE};
use entangle::segment_mgr::NewSegment;
use entangle::{
    DataSegment, LoanError, PointerOffset, PoolAllocator, ReceiveError, SegmentManager, SendError,
    SharedMemory, ZeroCopyChannel,
};

/// A data segment as a process would see it: the segment and its bytes.
struct Segment {
    ds: DataSegment,
    bytes: Vec<u8>,
}

fn unique_name(test: &str) -> String {
    let ts = SystemTime::now()
        .duration_since(SystemTime::UNIX_EPOCH)
        .unwrap()
        .as_nanos();
    format!("entangle_ds_{test}_{ts}")
}

fn make_segment(name: &str, chunk_size: usize, chunk_count: u32, segment_id: u16) -> Segment {
    let (aligned, total) = segment_layout(chunk_size, chunk_count);
    let shm = SharedMemory::from_mapping(SharedMemory::normalize_name(name), total, true);
    Segment {
        ds: DataSegment::new(shm, aligned, chunk_count, segment_id),
        bytes: vec![0u8; total],
    }
}

fn write_u64(bytes: &mut [u8], at: usize, v: u64) {
    bytes[at..at + 8].copy_from_slice(&v.to_ne_bytes());
}

fn read_u64(bytes: &[u8], at: usize) -> u64 {
    let mut b = [0u8; 8];
    b.copy_from_slice(&bytes[at..at + 8]);
    u64::from_ne_bytes(b)
}

#[test]
fn send_receive_cycle() {
    let mut ch = ZeroCopyChannel::new(4, 1, 2);
    ch.connect();

    let offset = PointerOffset::new(0, 1024);
    ch.send(offset).unwrap();

    let received = ch.receive().unwrap();
    assert_eq!(received, offset);

    ch.return_offset(received);
    let reclaimed = ch.reclaim().unwrap();
    assert_eq!(reclaimed, offset);
}

#[test]
fn disconnected_send_fails() {
    let mut ch = ZeroCopyChannel::new(4, 1, 2);
    ch.connect();
    ch.disconnect();

    let offset = PointerOffset::new(0, 0);
    assert!(matches!(ch.send(offset), Err(SendError::ConnectionBroken)));
}

#[test]
fn empty_receive() {
    let mut ch = ZeroCopyChannel::new(4, 1, 2);
    ch.connect();
    assert!(matches!(ch.receive(), Err(ReceiveError::Empty)));
}

#[test]
fn queue_full() {
    let mut ch = ZeroCopyChannel::new(2, 1, 2);
    ch.connect();
    ch.send(PointerOffset::new(0, 0)).unwrap();
    ch.send(PointerOffset::new(0, 1)).unwrap();
    assert!(matches!(
        ch.send(PointerOffset::new(0, 2)),
        Err(SendError::QueueFull)
    ));
}

#[test]
fn create_allocate_write_read() {
    let name = unique_name("basic");
    let mut seg = make_segment(&name, 64, 4, 0);

    let offset = seg.ds.allocate().unwrap();

    write_u64(&mut seg.bytes, offset.offset(), 0xCAFE_BABE);
    assert_eq!(read_u64(&seg.bytes, offset.offset()), 0xCAFE_BABE);

    seg.ds.deallocate(offset);
    assert_eq!(seg.ds.available(), 4);
}

#[test]
fn data_segment_exhaust_and_recover() {
    let name = unique_name("exhaust");
    let mut seg = make_segment(&name, 32, 2, 0);
    let ds = &mut seg.ds;

    let o1 = ds.allocate().unwrap();
    let o2 = ds.allocate().unwrap();
    assert!(ds.allocate().is_err());

    ds.deallocate(o1);
    let o3 = ds.allocate().unwrap();
    assert!(ds.allocate().is_err());

    ds.deallocate(o2);
    ds.deallocate(o3);
}

#[test]
fn allocate_and_deallocate() {
    let mut alloc = PoolAllocator::new(4, 256, 0, 0);
    assert_eq!(alloc.available(), 4);

    let o1 = alloc.allocate().unwrap();
    let o2 = alloc.allocate().unwrap();
    assert_ne!(o1, o2);
    assert_eq!(alloc.allocated_count(), 2);

    alloc.deallocate(o1);
    assert_eq!(alloc.allocated_count(), 1);
    assert_eq!(alloc.available(), 3);
}

#[test]
fn exhaust() {
    let mut alloc = PoolAllocator::new(2, 64, 0, 0);
    alloc.allocate().unwrap();
    alloc.allocate().unwrap();
    assert!(alloc.allocate().is_err());
}

#[test]
fn offset_encoding() {
    let mut alloc = PoolAllocator::new(4, 1024, 3, 4096);
    let o = alloc.allocate().unwrap();
    assert_eq!(o.segment_id(), 3);
    assert_eq!(o.offset(), 4096); // first chunk at base_offset
}

/// A segment manager with the bytes of each of its segments, growing as the
/// application layer grows it: by adding the segment that `try_allocate` names.
struct Manager {
    mgr: SegmentManager,
    bytes: Vec<Vec<u8>>,
    chunk_size: usize,
    chunks: u32,
}

impl Manager {
    fn create(prefix: &str, chunk_size: usize, chunks: u32) -> Manager {
        let first = entangle::segment_mgr::segment_name(prefix, 0);
        let seg = make_segment(&first, chunk_size, chunks, 0);
        Manager {
            mgr: SegmentManager::create(prefix, chunk_size, chunks, seg.ds),
            bytes: vec![seg.bytes],
            chunk_size,
            chunks,
        }
    }

    fn allocate(&mut self) -> Result<PointerOffset, LoanError> {
        match self.mgr.try_allocate() {
            Ok(o) => Ok(o),
            Err(NewSegment { segment_id, name }) => {
                let seg = make_segment(&name, self.chunk_size, self.chunks, segment_id);
                let o = self.mgr.add_segment(seg.ds)?;
                self.bytes.push(seg.bytes);
                Ok(o)
            }
        }
    }
}

fn unique_prefix(test: &str) -> String {
    let ts = SystemTime::now()
        .duration_since(SystemTime::UNIX_EPOCH)
        .unwrap()
        .as_nanos();
    format!("entangle_sm_{test}_{ts}")
}

#[test]
fn single_segment() {
    let prefix = unique_prefix("single");
    let mut m = Manager::create(&prefix, 64, 4);

    let o = m.allocate().unwrap();
    assert_eq!(o.segment_id(), 0);

    let seg = o.segment_id() as usize;
    write_u64(&mut m.bytes[seg], o.offset(), 42);
    assert_eq!(read_u64(&m.bytes[seg], o.offset()), 42);

    m.mgr.deallocate(o);
}

#[test]
fn auto_expand() {
    let prefix = unique_prefix("expand");
    let mut m = Manager::create(&prefix, 32, 2);

    let o1 = m.allocate().unwrap();
    let o2 = m.allocate().unwrap();
    assert_eq!(m.mgr.segment_count(), 1);

    // This should trigger segment expansion
    let o3 = m.allocate().unwrap();
    assert_eq!(m.mgr.segment_count(), 2);
    assert_eq!(o3.segment_id(), 1);

    m.mgr.deallocate(o1);
    m.mgr.deallocate(o2);
    m.mgr.deallocate(o3);
}

#[test]
fn segment_header_and_chunk_layout() {
    let (aligned, total) = segment_layout(61, 3);
    assert_eq!(aligned, 64);
    assert_eq!(total, HEADER_SIZE + 64 * 3);
    let mut seg = make_segment("layout", 61, 3, 7);
    let o = seg.ds.allocate().unwrap();
    assert_eq!(o.segment_id(), 7);
    assert_eq!(o.offset(), HEADER_SIZE);
    let o2 = seg.ds.allocate().unwrap();
    assert_eq!(o2.offset(), HEADER_SIZE + 64);
    assert_eq!(seg.ds.chunk_size(), 64);
    assert_eq!(seg.ds.chunk_count(), 3);
    assert_eq!(seg.ds.shm_name(), "/layout");
}

#[test]
fn every_chunk_offset_fits_check() {
    let alloc = PoolAllocator::new(4, 1024, 3, 4096);
    assert!(alloc.can_encode_all());
    assert!(alloc.can_encode_next());
    let wide = PoolAllocator::new(2, 1usize << 48, 0, HEADER_SIZE);
    assert!(!wide.can_encode_all());
    assert!(wide.can_encode_next());
    let seg = make_segment("fits", 64, 3, 0);
    assert!(seg.ds.can_encode_all());
}
