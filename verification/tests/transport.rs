use rls_vfs_ipc::channel::{ClientEndPoint, DuplexChannel, ServerEndPoint};
use rls_vfs_ipc::client::{build_reply_frame, build_request_frame, take_reply};
use rls_vfs_ipc::error::{LibcError, SyscallId, EBADF};
use rls_vfs_ipc::frame::{encode_frame, FrameBuffer};
use rls_vfs_ipc::handle::{Fd, Pipe};
use rls_vfs_ipc::msg::{
    decode_reply, decode_request, encode_reply, encode_request, VfsReplyMsg, VfsRequestMsg,
};
use rls_vfs_ipc::region::generate_shm_name;
use rls_vfs_ipc::wire::{bytes_eq, decode_le32, encode_le32, push_dec_digits};

#[test]
fn le32_round_trip() {
    let b = encode_le32(0x0403_0201);
    assert_eq!(b, vec![1, 2, 3, 4]);
    assert_eq!(decode_le32(b[0], b[1], b[2], b[3]), 0x0403_0201);
    let b = encode_le32(0xffff_ffff);
    assert_eq!(b, vec![255, 255, 255, 255]);
    assert_eq!(decode_le32(255, 255, 255, 255), 0xffff_ffff);
}

#[test]
fn decimal_digits() {
    let mut v: Vec<u8> = Vec::new();
    push_dec_digits(0, &mut v);
    assert_eq!(v, b"0".to_vec());
    let mut v: Vec<u8> = Vec::new();
    push_dec_digits(90210, &mut v);
    assert_eq!(v, b"90210".to_vec());
}

#[test]
fn byte_equality() {
    assert!(bytes_eq(b"abc", b"abc"));
    assert!(!bytes_eq(b"abc", b"abd"));
    assert!(!bytes_eq(b"abc", b"ab"));
}

#[test]
fn request_codec_round_trip() {
    let open = VfsRequestMsg::OpenFile(b"/a/b.rs".to_vec());
    let bytes = encode_request(&open);
    match decode_request(&bytes).unwrap() {
        VfsRequestMsg::OpenFile(p) => assert_eq!(p, b"/a/b.rs".to_vec()),
        _ => panic!("wrong variant"),
    }
    let close = VfsRequestMsg::CloseFile(b"/a/b.rs".to_vec());
    let bytes = encode_request(&close);
    match decode_request(&bytes).unwrap() {
        VfsRequestMsg::CloseFile(p) => assert_eq!(p, b"/a/b.rs".to_vec()),
        _ => panic!("wrong variant"),
    }
    // An unknown tag decodes to nothing.
    assert!(decode_request(&[9, 1, 2]).is_none());
    assert!(decode_request(&[]).is_none());
}

#[test]
fn reply_codec_round_trip() {
    let reply = VfsReplyMsg {
        path: b"/rls-1-/a-0\0".to_vec(),
        length: 42,
        user_data: b"v1".to_vec(),
    };
    let bytes = encode_reply(&reply);
    let back = decode_reply(&bytes).unwrap();
    assert_eq!(back.path, b"/rls-1-/a-0\0".to_vec());
    assert_eq!(back.length, 42);
    assert_eq!(back.user_data, b"v1".to_vec());
    // A reply with no terminator does not decode.
    assert!(decode_reply(b"no-nul-here").is_none());
}

#[test]
fn frames_survive_partial_reads() {
    let payload = b"hello frame".to_vec();
    let frame = encode_frame(&payload);
    let mut buf = FrameBuffer::new();
    for chunk in frame.chunks(3) {
        buf.feed(chunk);
    }
    assert_eq!(buf.try_take_frame().unwrap(), payload);
    assert!(buf.is_empty());
}

#[test]
fn frames_come_out_in_order_with_residue_kept() {
    let first = encode_frame(b"first");
    let second = encode_frame(b"second");
    let mut buf = FrameBuffer::new();
    buf.feed(&first);
    buf.feed(&second[..4]);
    assert_eq!(buf.try_take_frame().unwrap(), b"first".to_vec());
    assert!(buf.try_take_frame().is_none());
    buf.feed(&second[4..]);
    assert_eq!(buf.try_take_frame().unwrap(), b"second".to_vec());
    assert!(buf.is_empty());
}

#[test]
fn framed_reply_round_trip_with_surplus() {
    let reply = VfsReplyMsg {
        path: b"/rls-7-/x-3\0".to_vec(),
        length: 9,
        user_data: b"ud".to_vec(),
    };
    let frame = build_reply_frame(&reply);
    let mut buf = FrameBuffer::new();
    buf.feed(&frame[..1]);
    assert!(take_reply(&mut buf).unwrap().is_none());
    buf.feed(&frame[1..]);
    buf.feed(b"surplus");
    let got = take_reply(&mut buf).unwrap().unwrap();
    assert_eq!(got.path, reply.path);
    assert_eq!(got.length, 9);
    assert_eq!(got.user_data, b"ud".to_vec());
    assert_eq!(buf.len(), b"surplus".len());
}

#[test]
fn region_names_embed_pid_path_generation() {
    assert_eq!(generate_shm_name(5, b"/x", 7), b"/rls-5-/x-7\0".to_vec());
    assert_eq!(
        generate_shm_name(123, b"/a/b.rs", 0),
        b"/rls-123-/a/b.rs-0\0".to_vec()
    );
    // Different generations never collide, same path or not.
    assert_ne!(generate_shm_name(5, b"/x", 1), generate_shm_name(5, b"/x", 2));
    assert_ne!(generate_shm_name(5, b"/x-1", 2), generate_shm_name(5, b"/x", 12));
}

#[test]
fn double_close_error() {
    let mut fd1 = Fd::from_raw(40);
    let mut fd2 = Fd::from_raw(41);
    assert_eq!(fd1.close().unwrap(), 40);
    assert_eq!(fd2.close().unwrap(), 41);
    assert_eq!(
        fd1.close().unwrap_err(),
        LibcError { call: SyscallId::Close, errno: EBADF }
    );
    assert!(fd2.close().is_err());
}

#[test]
fn try_close_is_idempotent() {
    let mut fd = Fd::from_raw(7);
    assert_eq!(fd.try_close(), Some(7));
    assert_eq!(fd.try_close(), None);
}

#[test]
fn take_raw_transfers_responsibility() {
    let mut fd = Fd::from_raw(8);
    assert_eq!(fd.take_raw().unwrap(), 8);
    assert!(fd.take_raw().is_err());
    assert!(!fd.is_open());
}

#[test]
fn duplicated_closed_stays_closed() {
    let fd = Fd::from_raw(9);
    assert_eq!(fd.duplicated(12), Fd::Open(12));
    let closed = Fd::Closed;
    assert_eq!(closed.duplicated(13), Fd::Closed);
    let mut fd = fd;
    fd.close().unwrap();
}

#[test]
fn pipe_close_gives_write_then_read() {
    let mut pipe = Pipe::from_raw(3, 4);
    assert_eq!(pipe.close().unwrap(), (4, 3));
    assert!(pipe.close().is_err());
}

#[test]
fn channel_split_keeps_the_right_halves() {
    // Server side: reads client-to-server, writes server-to-client.
    let channel = DuplexChannel::new_prefork(Pipe::from_raw(3, 4), Pipe::from_raw(5, 6));
    let (mut ep, to_close, to_unblock) = channel.into_server_end_point_postfork().unwrap();
    assert_eq!(to_close, (3, 6));
    assert_eq!(to_unblock, (5, 4));
    assert_eq!(ep.read_raw().unwrap(), 5);
    assert_eq!(ep.write_raw().unwrap(), 4);
    assert_eq!(ep.close().unwrap(), (4, 5));

    // Client side: reads server-to-client, writes client-to-server.
    let channel = DuplexChannel::new_prefork(Pipe::from_raw(3, 4), Pipe::from_raw(5, 6));
    let (mut ep, to_close) = channel.into_client_end_point_postfork().unwrap();
    assert_eq!(to_close, (4, 5));
    assert_eq!(ep.read_raw().unwrap(), 3);
    assert_eq!(ep.write_raw().unwrap(), 6);
    assert_eq!(ep.close().unwrap(), (6, 3));
}

#[test]
fn endpoint_new_rejects_closed_halves() {
    let r = ServerEndPoint::new(Fd::Closed, Fd::from_raw(4));
    assert!(r.is_err());
    let ep = ClientEndPoint::new(Fd::Closed, Fd::Closed);
    assert!(ep.read_raw().is_err());
}

#[test]
fn request_frame_is_length_prefixed() {
    let req = VfsRequestMsg::OpenFile(b"/p".to_vec());
    let frame = build_request_frame(&req);
    // Payload: one tag byte plus the path.
    assert_eq!(frame[..4], [3, 0, 0, 0]);
    assert_eq!(frame[4..], [0, b'/', b'p']);
}

#[test]
fn empty_payload_frames_work() {
    let frame = encode_frame(b"");
    assert_eq!(frame, vec![0, 0, 0, 0]);
    let mut buf = FrameBuffer::new();
    buf.feed(&frame);
    assert_eq!(buf.try_take_frame().unwrap(), Vec::<u8>::new());
}
