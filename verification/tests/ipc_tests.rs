use pangea_kernel::sip::ipc::{RecvPoll, SendPoll, Shared};

#[test]
fn messages_arrive_in_order() {
    let mut ch: Shared<String, u32> = Shared::new(4);
    for m in ["one", "two", "three"] {
        let mut slot = Some(m.to_string());
        assert!(matches!(ch.poll_send(&mut slot, 1), SendPoll::Ready(None)));
        assert!(slot.is_none());
    }
    for m in ["one", "two", "three"] {
        match ch.poll_recv(9) {
            RecvPoll::Ready(data, woken) => {
                assert_eq!(data, m);
                assert!(woken.is_empty());
            }
            RecvPoll::Pending => panic!("message missing"),
        }
    }
}

#[test]
fn empty_channel_parks_the_receiver_and_a_send_wakes_it() {
    let mut ch: Shared<u64, u32> = Shared::new(1);
    assert!(matches!(ch.poll_recv(42), RecvPoll::Pending));
    let mut slot = Some(5);
    assert!(matches!(ch.poll_send(&mut slot, 1), SendPoll::Ready(Some(42))));
    // the receiver was woken once; a second send finds the queue full
    let mut slot2 = Some(6);
    assert!(matches!(ch.poll_send(&mut slot2, 2), SendPoll::Pending));
    assert_eq!(slot2, Some(6));
}

#[test]
fn full_channel_applies_backpressure() {
    let mut ch: Shared<u64, u32> = Shared::new(1);
    let mut a = Some(1);
    assert!(matches!(ch.poll_send(&mut a, 10), SendPoll::Ready(None)));
    let mut b = Some(2);
    assert!(matches!(ch.poll_send(&mut b, 11), SendPoll::Pending));
    let mut c = Some(3);
    assert!(matches!(ch.poll_send(&mut c, 12), SendPoll::Pending));
    match ch.poll_recv(0) {
        RecvPoll::Ready(data, woken) => {
            assert_eq!(data, 1);
            assert_eq!(woken, vec![11, 12]);
        }
        RecvPoll::Pending => panic!("message missing"),
    }
    assert!(matches!(ch.poll_send(&mut b, 11), SendPoll::Ready(None)));
    assert!(b.is_none());
}

#[test]
fn zero_capacity_channel_never_accepts() {
    let mut ch: Shared<u64, u32> = Shared::new(0);
    let mut a = Some(1);
    assert!(matches!(ch.poll_send(&mut a, 10), SendPoll::Pending));
    assert!(matches!(ch.poll_recv(0), RecvPoll::Pending));
}

#[test]
fn interleaved_sends_and_receives_deliver_in_order() {
    let mut ch: Shared<u32, u8> = Shared::new(3);
    let mut delivered = Vec::new();
    for round in 0..4u32 {
        for k in 0..3u32 {
            let mut slot = Some(round * 10 + k);
            assert!(matches!(ch.poll_send(&mut slot, 0), SendPoll::Ready(_)));
        }
        for _ in 0..2 {
            if let RecvPoll::Ready(v, _) = ch.poll_recv(1) {
                delivered.push(v);
            }
        }
        if let RecvPoll::Ready(v, _) = ch.poll_recv(1) {
            delivered.push(v);
        }
    }
    assert!(matches!(ch.poll_recv(1), RecvPoll::Pending));
    let expected: Vec<u32> = (0..4u32).flat_map(|r| (0..3u32).map(move |k| r * 10 + k)).collect();
    assert_eq!(delivered, expected);
}
