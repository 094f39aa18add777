use zcore::channel::Channel;
use zcore::channel::MessagePacket;
use zcore::error::ZxError;
use zcore::object::Kernel;
use zcore::object::DummyObject;
use zcore::object::Handle;
use zcore::rights::Rights;

#[test]
fn channel_test_basics() {
    let mut k = Kernel::new();
    let (end0, end1) = Channel::create(&mut k);
    assert_eq!(end0.peer(&k).unwrap().id(), end1.id());
    assert_eq!(end0.related_koid(&k), end1.id());

    end1.close(&mut k);
    assert_eq!(end0.peer(&k).unwrap_err(), ZxError::PEER_CLOSED);
    assert_eq!(end0.related_koid(&k), 0);
}

#[test]
fn channel_read_write() {
    let mut k = Kernel::new();
    let (channel0, channel1) = Channel::create(&mut k);
    channel0
        .write(&mut k, MessagePacket { data: Vec::from("hello 1"), handles: Vec::new() })
        .unwrap();
    channel1
        .write(&mut k, MessagePacket { data: Vec::from("hello 0"), handles: Vec::new() })
        .unwrap();

    let recv_msg = channel1.read(&mut k).unwrap();
    assert_eq!(recv_msg.data.as_slice(), b"hello 1");
    assert!(recv_msg.handles.is_empty());

    let recv_msg = channel0.read(&mut k).unwrap();
    assert_eq!(recv_msg.data.as_slice(), b"hello 0");
    assert!(recv_msg.handles.is_empty());

    assert_eq!(channel0.read(&mut k).err(), Some(ZxError::SHOULD_WAIT));
    assert_eq!(channel1.read(&mut k).err(), Some(ZxError::SHOULD_WAIT));
}

#[test]
fn channel_peer_closed() {
    let mut k = Kernel::new();
    let (channel0, channel1) = Channel::create(&mut k);
    channel1.write(&mut k, MessagePacket::empty()).unwrap();
    channel1.close(&mut k);
    channel0.read(&mut k).unwrap();
    assert_eq!(channel0.read(&mut k).err(), Some(ZxError::PEER_CLOSED));
    assert_eq!(channel0.write(&mut k, MessagePacket::empty()), Err(ZxError::PEER_CLOSED));
}

#[test]
fn channel_fifo_order() {
    let mut k = Kernel::new();
    let (a, b) = Channel::create(&mut k);
    for i in 0..5u8 {
        b.write(
            &mut k,
            MessagePacket { data: vec![i, i + 10], handles: Vec::new() },
        )
        .unwrap();
    }
    for i in 0..5u8 {
        let msg = a.read(&mut k).unwrap();
        assert_eq!(msg.data, vec![i, i + 10]);
        assert!(msg.handles.is_empty());
    }
    assert_eq!(a.read(&mut k).err(), Some(ZxError::SHOULD_WAIT));
}

#[test]
fn channel_handle_transfer() {
    let mut k = Kernel::new();
    let (a, b) = Channel::create(&mut k);
    let obj = DummyObject::new(&mut k);
    let handle = Handle::new(obj.id(), Rights::basic());
    b.write(&mut k, MessagePacket { data: vec![1, 2, 3], handles: vec![handle] })
        .unwrap();
    let msg = a.read(&mut k).unwrap();
    assert_eq!(msg.data, vec![1, 2, 3]);
    assert_eq!(msg.handles.len(), 1);
    assert_eq!(msg.handles[0].object, obj.id());
    assert_eq!(msg.handles[0].rights, Rights::basic());
}

#[test]
fn txid() {
    let mut msg = MessagePacket { data: vec![0, 0, 0, 0, 9], handles: Vec::new() };
    msg.set_txid(0x8000_0001);
    assert_eq!(msg.get_txid(), 0x8000_0001);
    assert_eq!(msg.data[4], 9);

    let short = MessagePacket { data: vec![1, 2], handles: Vec::new() };
    assert_eq!(short.get_txid(), 0);
}
