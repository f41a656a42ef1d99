use rls_vfs_ipc::channel::ServerEndPoint;
use rls_vfs_ipc::client::{build_request_frame, take_reply, VfsIpcFileHandle};
use rls_vfs_ipc::error::VfsIpcError;
use rls_vfs_ipc::frame::FrameBuffer;
use rls_vfs_ipc::handle::Fd;
use rls_vfs_ipc::msg::VfsRequestMsg;
use rls_vfs_ipc::server::VfsIpcServer;

fn endpoint(read_raw: i32, write_raw: i32) -> ServerEndPoint {
    let (ep, _) = ServerEndPoint::new(Fd::from_raw(read_raw), Fd::from_raw(write_raw)).unwrap();
    ep
}

/// A client opens a file; the server mints a region named from its pid,
/// the canonical path and generation zero, replies with the region name,
/// length and user data; the client decodes exactly that reply.
#[test]
fn open_reply_scenario() {
    let mut server = VfsIpcServer::new(123);
    let tok = server.add_connection(endpoint(10, 11));

    // The request arrives split across partial reads.
    let req = VfsRequestMsg::OpenFile(b"/a/b.rs".to_vec());
    let frame = build_request_frame(&req);
    server.feed_connection(tok, &frame[..3]).unwrap();
    assert!(server.take_request(tok).unwrap().is_none());
    server.feed_connection(tok, &frame[3..]).unwrap();
    match server.take_request(tok).unwrap().unwrap() {
        VfsRequestMsg::OpenFile(p) => assert_eq!(p, b"/a/b.rs".to_vec()),
        _ => panic!("expected an open request"),
    }

    let act = server
        .handle_open_request(tok, b"/a/b.rs", 42, b"v1".to_vec())
        .unwrap();
    assert_eq!(act.publish.unwrap(), b"/rls-123-/a/b.rs-0\0".to_vec());
    assert!(act.attempt_write);

    // Drain the queued reply and decode it on the client side.
    let out = server.peek_output(tok, 1 << 20).unwrap();
    assert!(server.advance_output(tok, out.len()).unwrap());
    let mut buf = FrameBuffer::new();
    buf.feed(&out[..5]);
    assert!(take_reply(&mut buf).unwrap().is_none());
    buf.feed(&out[5..]);
    let reply = take_reply(&mut buf).unwrap().unwrap();
    assert_eq!(reply.path, b"/rls-123-/a/b.rs-0\0".to_vec());
    assert_eq!(reply.length, 42);
    assert_eq!(reply.user_data, b"v1".to_vec());

    let (mut handle, user_data) = VfsIpcFileHandle::from_reply(reply);
    assert_eq!(user_data, b"v1".to_vec());
    assert_eq!(handle.mapped_len().unwrap(), 42);
    assert_eq!(handle.close().unwrap(), 42);
    assert!(handle.close().is_err());
}

/// Two sibling connections open the same path: one region serves both.
/// The first close keeps the region alive; the second retires it.
#[test]
fn shared_region_retires_with_last_reference() {
    let mut server = VfsIpcServer::new(9);
    let a = server.add_connection(endpoint(20, 21));
    let b = server.add_connection(endpoint(22, 23));

    let act_a = server
        .handle_open_request(a, b"/shared.rs", 7, b"m".to_vec())
        .unwrap();
    let name = act_a.publish.clone().unwrap();
    let act_b = server
        .handle_open_request(b, b"/shared.rs", 7, b"m".to_vec())
        .unwrap();
    // No second segment is created for the same canonical path.
    assert!(act_b.publish.is_none());
    assert_eq!(server.regions.len(), 1);
    assert_eq!(server.regions[0].refs, 2);

    // First close: still referenced, nothing to unpublish.
    assert_eq!(server.handle_close_request(a, b"/shared.rs").unwrap(), None);
    assert_eq!(server.regions.len(), 1);
    assert_eq!(server.regions[0].refs, 1);

    // Second close: the last reference retires the region by name.
    let retired = server.handle_close_request(b, b"/shared.rs").unwrap().unwrap();
    assert_eq!(retired, name);
    assert_eq!(server.regions.len(), 0);

    // Reopening mints a fresh region under a new generation and name.
    let act_again = server
        .handle_open_request(a, b"/shared.rs", 7, b"m".to_vec())
        .unwrap();
    let fresh = act_again.publish.unwrap();
    assert_ne!(fresh, name);
    assert_eq!(fresh, b"/rls-9-/shared.rs-1\0".to_vec());
}

/// Closing a path that was never opened on this connection is signaled and
/// leaves the connection, its other open files, and the registry untouched.
#[test]
fn close_non_opened_file_is_recoverable() {
    let mut server = VfsIpcServer::new(4);
    let tok = server.add_connection(endpoint(30, 31));
    server
        .handle_open_request(tok, b"/kept.rs", 3, Vec::new())
        .unwrap();

    let err = server.handle_close_request(tok, b"/never.rs").unwrap_err();
    assert_eq!(err, VfsIpcError::CloseNonOpenedFile);
    assert_eq!(server.regions.len(), 1);
    assert_eq!(server.regions[0].refs, 1);

    // The kept file still closes normally afterwards.
    assert!(server.handle_close_request(tok, b"/kept.rs").unwrap().is_some());
    assert_eq!(server.regions.len(), 0);
}

/// Interleaved opens and closes across connections leave the registry
/// holding exactly the still-referenced regions, and tearing every
/// connection down leaves no region name behind.
#[test]
fn registry_tracks_references_exactly() {
    let mut server = VfsIpcServer::new(77);
    let c1 = server.add_connection(endpoint(40, 41));
    let c2 = server.add_connection(endpoint(42, 43));
    let c3 = server.add_connection(endpoint(44, 45));

    server.handle_open_request(c1, b"/a", 1, Vec::new()).unwrap();
    server.handle_open_request(c2, b"/a", 1, Vec::new()).unwrap();
    server.handle_open_request(c2, b"/b", 2, Vec::new()).unwrap();
    server.handle_open_request(c3, b"/c", 3, Vec::new()).unwrap();
    server.handle_close_request(c2, b"/a").unwrap();
    server.handle_open_request(c3, b"/b", 2, Vec::new()).unwrap();

    // Live regions: /a (c1), /b (c2, c3), /c (c3).
    assert_eq!(server.regions.len(), 3);
    for entry in server.regions.iter() {
        assert!(entry.refs >= 1);
    }

    let removed1 = server.remove_connection(c1).unwrap();
    assert_eq!(removed1.retired.len(), 1); // /a lost its only holder
    let removed2 = server.remove_connection(c2).unwrap();
    assert_eq!(removed2.retired.len(), 0); // /b still held by c3
    let removed3 = server.remove_connection(c3).unwrap();
    assert_eq!(removed3.retired.len(), 2); // /b and /c go

    assert_eq!(server.regions.len(), 0);
    assert_eq!(
        server.remove_connection(c1).unwrap_err(),
        VfsIpcError::RemoveUnknownClient
    );
}

/// A stream that ends cleanly finishes the read side; one that ends in the
/// middle of a frame is a protocol violation.
#[test]
fn eof_handling() {
    let mut server = VfsIpcServer::new(5);
    let tok = server.add_connection(endpoint(50, 51));
    server.feed_connection(tok, &[3, 0]).unwrap();
    assert_eq!(
        server.note_read_eof(tok).unwrap_err(),
        VfsIpcError::PipeCloseMiddle
    );

    let clean = server.add_connection(endpoint(52, 53));
    assert!(server.note_read_eof(clean).is_ok());
}

/// A frame whose payload is no request is fatal to decoding.
#[test]
fn malformed_request_is_a_protocol_error() {
    let mut server = VfsIpcServer::new(5);
    let tok = server.add_connection(endpoint(60, 61));
    // A complete frame whose payload starts with an unknown tag.
    server.feed_connection(tok, &[2, 0, 0, 0, 9, 9]).unwrap();
    assert_eq!(
        server.take_request(tok).unwrap_err(),
        VfsIpcError::DeserializeError
    );
}

/// Unknown tokens are reported, and the state is left unchanged.
#[test]
fn unknown_tokens_are_rejected() {
    let mut server = VfsIpcServer::new(5);
    assert_eq!(
        server.feed_connection(3, b"x").unwrap_err(),
        VfsIpcError::TokenNotFound
    );
    assert_eq!(server.take_request(3).unwrap_err(), VfsIpcError::TokenNotFound);
    assert_eq!(
        server.handle_open_request(3, b"/a", 0, Vec::new()).unwrap_err(),
        VfsIpcError::TokenNotFound
    );
    assert_eq!(
        server.remove_connection(3).unwrap_err(),
        VfsIpcError::RemoveUnknownClient
    );
}

/// Removing a connection reports whether a write registration was pending
/// and hands the endpoint back for closing.
#[test]
fn removal_returns_endpoint_and_pending_flag() {
    let mut server = VfsIpcServer::new(6);
    let tok = server.add_connection(endpoint(70, 71));
    server.handle_open_request(tok, b"/f", 1, Vec::new()).unwrap();
    // Nothing was written out yet, so output is pending.
    let removed = server.remove_connection(tok).unwrap();
    assert!(removed.had_pending_output);
    let mut ep = removed.end_point;
    assert_eq!(ep.close().unwrap(), (71, 70));
}

/// A closed handle refuses to hand out the mapped bytes.
#[test]
fn closed_handle_reports_its_state() {
    let reply = rls_vfs_ipc::msg::VfsReplyMsg {
        path: b"/rls-1-/f-0\0".to_vec(),
        length: 0,
        user_data: Vec::new(),
    };
    let (mut handle, _) = VfsIpcFileHandle::from_reply(reply);
    assert_eq!(handle.mapped_len().unwrap(), 0);
    handle.close().unwrap();
    assert_eq!(
        handle.mapped_len().unwrap_err(),
        VfsIpcError::GetFileFromClosedHandle
    );
}

/// An empty file still gets a region, of length zero.
#[test]
fn empty_file_opens_with_zero_length() {
    let mut server = VfsIpcServer::new(2);
    let tok = server.add_connection(endpoint(80, 81));
    let act = server.handle_open_request(tok, b"/empty", 0, Vec::new()).unwrap();
    assert_eq!(act.publish.unwrap(), b"/rls-2-/empty-0\0".to_vec());
    assert_eq!(server.regions[0].length, 0);
}
