use quic_recovery::{PacketNumberRange, PacketNumberSpace, SentPacketInfo, SentPackets, Timestamp};

#[test]
fn insert_get_range() {
    let mut sent_packets = SentPackets::default();

    let packet_number_1 = PacketNumberSpace::Initial.new_packet_number(1);
    let sent_packet_1 = SentPacketInfo::new(false, 1, Timestamp::new(1));

    let packet_number_2 = PacketNumberSpace::Initial.new_packet_number(2);
    let sent_packet_2 = SentPacketInfo::new(false, 2, Timestamp::new(2));

    let packet_number_3 = PacketNumberSpace::Initial.new_packet_number(3);
    let sent_packet_3 = SentPacketInfo::new(false, 3, Timestamp::new(3));

    sent_packets.insert(packet_number_1, sent_packet_1);
    sent_packets.insert(packet_number_2, sent_packet_2);

    assert!(sent_packets.get(packet_number_1).is_some());
    assert!(sent_packets.get(packet_number_2).is_some());
    assert!(sent_packets.get(packet_number_3).is_none());

    assert_eq!(sent_packets.get(packet_number_1).unwrap(), &sent_packet_1);
    assert_eq!(sent_packets.get(packet_number_2).unwrap(), &sent_packet_2);

    sent_packets.insert(packet_number_3, sent_packet_3);

    assert!(sent_packets.get(packet_number_3).is_some());
    assert_eq!(sent_packets.get(packet_number_3).unwrap(), &sent_packet_3);

    for &(packet_number, sent_packet_info) in sent_packets
        .range(PacketNumberRange::new(packet_number_1, packet_number_3))
        .iter()
    {
        assert_eq!(sent_packets.get(packet_number).unwrap(), &sent_packet_info);
    }

    for &(packet_number, sent_packet_info) in sent_packets.iter().iter() {
        assert_eq!(sent_packets.get(packet_number).unwrap(), &sent_packet_info);
    }
}

#[test]
fn remove() {
    let mut sent_packets = SentPackets::default();
    let packet_number = PacketNumberSpace::Initial.new_packet_number(1);
    let sent_packet = SentPacketInfo::new(false, 0, Timestamp::new(0));
    sent_packets.insert(packet_number, sent_packet);

    assert!(sent_packets.get(packet_number).is_some());
    assert_eq!(sent_packets.get(packet_number).unwrap(), &sent_packet);

    assert_eq!(Some(sent_packet), sent_packets.remove(packet_number));

    assert!(sent_packets.get(packet_number).is_none());

    // Removing a packet that was already removed doesn't panic
    assert_eq!(None, sent_packets.remove(packet_number));
}

#[test]
fn range_and_iter_ascending() {
    let mut sent_packets = SentPackets::default();
    let space = PacketNumberSpace::ApplicationData;

    // inserted out of order on purpose
    for &v in [9u64, 2, 7, 4, 11, 1].iter() {
        sent_packets.insert(
            space.new_packet_number(v),
            SentPacketInfo::new(true, v * 10, Timestamp::new(v)),
        );
    }

    let all = sent_packets.iter();
    let keys: Vec<u64> = all.iter().map(|e| e.0.value).collect();
    assert_eq!(keys, vec![1, 2, 4, 7, 9, 11]);

    let window = sent_packets.range(PacketNumberRange::new(
        space.new_packet_number(2),
        space.new_packet_number(9),
    ));
    let window_keys: Vec<u64> = window.iter().map(|e| e.0.value).collect();
    assert_eq!(window_keys, vec![2, 4, 7, 9]);
    for e in window.iter() {
        assert_eq!(e.1.sent_bytes, e.0.value * 10);
    }

    // restartable: a second scan over the same range sees the same entries
    let again = sent_packets.range(PacketNumberRange::new(
        space.new_packet_number(2),
        space.new_packet_number(9),
    ));
    assert_eq!(window, again);
}

#[test]
fn insert_overwrites() {
    let mut sent_packets = SentPackets::default();
    let packet_number = PacketNumberSpace::Handshake.new_packet_number(5);
    let first = SentPacketInfo::new(true, 100, Timestamp::new(1));
    let second = SentPacketInfo::new(false, 250, Timestamp::new(2));

    sent_packets.insert(packet_number, first);
    sent_packets.insert(packet_number, second);

    assert_eq!(sent_packets.iter().len(), 1);
    assert_eq!(sent_packets.get(packet_number).unwrap(), &second);
}

#[test]
fn ledger_round_trip() {
    let mut sent_packets = SentPackets::default();
    let space = PacketNumberSpace::Initial;
    let count: u64 = 32;

    for v in 0..count {
        sent_packets.insert(
            space.new_packet_number(v),
            SentPacketInfo::new(v % 2 == 0, v + 1000, Timestamp::new(v)),
        );
    }

    for v in 0..count {
        let info = sent_packets.get(space.new_packet_number(v)).unwrap();
        assert_eq!(info.in_flight, v % 2 == 0);
        assert_eq!(info.sent_bytes, v + 1000);
        assert_eq!(info.time_sent, Timestamp::new(v));
    }

    for v in 0..count {
        let removed = sent_packets.remove(space.new_packet_number(v)).unwrap();
        assert_eq!(removed.sent_bytes, v + 1000);
    }

    assert!(sent_packets.iter().is_empty());
}
