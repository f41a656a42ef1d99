use rls_vfs_ipc::stream::{pump_through, ByteQueue};

/// A large write through a pipe whose buffer holds far less completes via
/// the accumulating loop with no byte lost or duplicated.
#[test]
fn million_bytes_through_a_small_pipe() {
    let src: Vec<u8> = (0..1_000_000u32).map(|i| (i % 251) as u8).collect();
    let mut pipe = ByteQueue::new();
    let mut sink: Vec<u8> = Vec::new();
    pump_through(&mut pipe, &src, &mut sink, 4096);
    assert_eq!(sink.len(), src.len());
    assert!(sink == src);
    assert_eq!(pipe.len(), 0);
}

/// The same, with a pathologically small pipe.
#[test]
fn one_byte_pipe_still_loses_nothing() {
    let src: Vec<u8> = (0..1000u32).map(|i| (i % 7) as u8).collect();
    let mut pipe = ByteQueue::new();
    let mut sink: Vec<u8> = Vec::new();
    pump_through(&mut pipe, &src, &mut sink, 1);
    assert!(sink == src);
}

/// Round-trip identity of the byte channel: writing in one chunking and
/// reading in another yields exactly the bytes written.
#[test]
fn chunked_write_read_round_trip() {
    let data: Vec<u8> = (0..10_000u32).map(|i| (i % 201) as u8).collect();
    let mut pipe = ByteQueue::new();
    for chunk in data.chunks(37) {
        pipe.write_all(chunk);
    }
    let mut got: Vec<u8> = Vec::new();
    loop {
        let piece = pipe.read_upto(53);
        if piece.is_empty() {
            break;
        }
        got.extend_from_slice(&piece);
    }
    assert!(got == data);
    assert!(pipe.is_empty());
}

/// Partial writes append exactly the accepted prefix.
#[test]
fn partial_write_appends_prefix() {
    let mut pipe = ByteQueue::new();
    let n = pipe.write_some(b"abcdef", 4);
    assert_eq!(n, 4);
    let n = pipe.write_some(b"xy", 10);
    assert_eq!(n, 2);
    assert_eq!(pipe.read_upto(100), b"abcdxy".to_vec());
}
