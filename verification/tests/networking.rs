use client::networking::{check_packet_size, frame, frame_length, outgoing_bytes, PacketAction, PacketRouter, SendMode, ServerMessageKind};

#[test]
fn a_frame_starts_with_the_little_endian_length() {
    let f = frame(&[1, 2, 3]);
    assert_eq!(f, vec![3, 0, 0, 0, 1, 2, 3]);
    assert_eq!(frame_length(&[3, 0, 0, 0]), 3);
    assert_eq!(frame_length(&[0x78, 0x56, 0x34, 0x12]), 0x12345678);
}

#[test]
fn a_frame_length_reads_back() {
    let data = vec![9u8; 300];
    let f = frame(&data);
    let header = [f[0], f[1], f[2], f[3]];
    assert_eq!(frame_length(&header), 300);
    assert_eq!(&f[4..], data.as_slice());
}

#[test]
fn packets_over_the_limit_are_refused() {
    assert_eq!(check_packet_size(vec![1, 2], 2), Ok(vec![1, 2]));
    assert_eq!(check_packet_size(vec![1, 2, 3], 2), Err("Packet is too large: 3 > 2".to_string()));
}

#[test]
fn an_awaited_reply_goes_to_its_handler_once() {
    let mut r = PacketRouter::new();
    r.await_reply(7);
    assert_eq!(r.route(7, ServerMessageKind::Ping), PacketAction::AnswerAwaited);
    assert_eq!(r.route(7, ServerMessageKind::Ping), PacketAction::Pong);
    assert_eq!(r.route(8, ServerMessageKind::Unregister), PacketAction::Exit);
    assert_eq!(r.route(8, ServerMessageKind::Other), PacketAction::Ignore);
}

#[test]
fn handles_of_registered_kinds_start_and_receive() {
    let mut r = PacketRouter::new();
    let add = ServerMessageKind::AddClientHandle { entity: 1, handle: 50 };
    assert_eq!(r.route(0, add), PacketAction::Ignore);
    r.register_handle(50);
    assert_eq!(r.route(0, add), PacketAction::StartHandle { entity: 1, handle: 50 });
    assert!(r.register_receiver(1, 9));
    assert!(!r.register_receiver(2, 9));
    let msg = ServerMessageKind::ModMessage { entity: 1, receiver: 9 };
    assert_eq!(r.route(0, msg), PacketAction::Deliver { entity: 1, receiver: 9 });
    r.unregister_receiver(1, 9);
    assert_eq!(r.route(0, msg), PacketAction::Ignore);
    assert!(r.register_receiver(1, 9));
    assert_eq!(r.route(0, ServerMessageKind::RemoveClientHandle { entity: 1 }), PacketAction::RemoveHandle { entity: 1 });
    assert_eq!(r.route(0, msg), PacketAction::Ignore);
    assert_eq!(r.route(0, ServerMessageKind::RemoveClientHandle { entity: 1 }), PacketAction::Ignore);
}

#[test]
fn outgoing_bytes_by_mode() {
    assert_eq!(outgoing_bytes(vec![7, 8], 4, SendMode::Quick), Ok(vec![7, 8]));
    assert_eq!(outgoing_bytes(vec![7, 8], 4, SendMode::Safe), Ok(vec![2, 0, 0, 0, 7, 8]));
    assert_eq!(outgoing_bytes(vec![0; 5], 4, SendMode::Safe), Err("Packet is too large: 5 > 4".to_string()));
}
