use tiny_adnl::rldp_node::encoder::{EncoderError, RaptorQEncoder, MAX_TRANSMISSION_UNIT};

fn payload(len: usize) -> Vec<u8> {
    (0..len).map(|i| (i * 31 + 7) as u8).collect()
}

#[test]
fn params_of_fifty_thousand_bytes() {
    let data = payload(50_000);
    let encoder = RaptorQEncoder::with_data(&data);
    let params = encoder.params();
    assert_eq!(params.data_size, 50_000);
    assert_eq!(params.symbol_size, 768);
    assert_eq!(params.symbols_count, 66);
    assert_eq!(MAX_TRANSMISSION_UNIT, 768);
}

#[test]
fn source_packets_come_first_in_ascending_order() {
    let data = payload(2000);
    let mut encoder = RaptorQEncoder::with_data(&data);
    assert_eq!(encoder.params().symbols_count, 3);
    let mut seqno = 1000;
    let first = encoder.encode(&mut seqno).unwrap();
    assert_eq!(seqno, 0);
    assert_eq!(first.len(), 768);
    assert_eq!(&first[..], &data[..768]);
    let second = encoder.encode(&mut seqno).unwrap();
    assert_eq!(seqno, 1);
    assert_eq!(&second[..], &data[768..1536]);
    let third = encoder.encode(&mut seqno).unwrap();
    assert_eq!(seqno, 2);
    assert_eq!(&third[..464], &data[1536..]);
    assert!(third[464..].iter().all(|byte| *byte == 0));
}

#[test]
fn repair_packets_follow_the_extended_block() {
    let data = payload(2000);
    let mut encoder = RaptorQEncoder::with_data(&data);
    let mut seqno = 0;
    for _ in 0..3 {
        encoder.encode(&mut seqno).unwrap();
    }
    let extended = raptorq::extended_source_block_symbols(3);
    assert_eq!(extended, 10);
    seqno = 5;
    let repair = encoder.encode(&mut seqno).unwrap();
    assert_eq!(seqno, 5);
    assert_eq!(repair.len(), 768);
    let expected = raptorq::Encoder::with_defaults(&data, 768).get_block_encoders()[0]
        .repair_packets(5, 1)
        .pop()
        .unwrap();
    assert_eq!(repair, expected.data());
}

#[test]
fn repair_id_beyond_24_bits_is_refused() {
    let data = payload(100);
    let mut encoder = RaptorQEncoder::with_data(&data);
    let mut seqno = 0;
    encoder.encode(&mut seqno).unwrap();
    seqno = 0xff_ffff;
    assert_eq!(encoder.encode(&mut seqno), Err(EncoderError::FailedToEncode));
    assert_eq!(seqno, 0xff_ffff);
    let extended = raptorq::extended_source_block_symbols(1);
    seqno = 0xff_ffff - extended + 1;
    assert_eq!(encoder.encode(&mut seqno), Err(EncoderError::FailedToEncode));
    seqno = 0xff_ffff - extended;
    let last = encoder.encode(&mut seqno).unwrap();
    assert_eq!(seqno, 0xff_ffff - extended);
    let expected = raptorq::Encoder::with_defaults(&data, 768).get_block_encoders()[0]
        .repair_packets(0xff_ffff - extended, 1)
        .pop()
        .unwrap();
    assert_eq!(expected.payload_id().encoding_symbol_id(), 0xff_ffff);
    assert_eq!(last, expected.data());
}

#[test]
fn two_symbol_ids_cannot_be_used() {
    let check = tiny_adnl::rldp_node::encoder::check_symbol_id;
    assert!(!check(989, 3_158_229));
    assert!(check(989, 3_158_228));
    assert!(check(989, 3_158_230));
    assert!(check(990, 3_158_229));
    assert!(!check(2195, 8_192_877));
    assert!(check(2195, 8_192_876));
    assert!(check(989, 8_192_877));
    assert!(check(10, 0));
    assert!(check(10, 0xff_ffff));
    assert!(!check(10, 0x100_0000));
    assert!(!check(56403, u32::MAX));
}

#[test]
fn numbers_stand_for_symbol_ids() {
    let symbol_id = tiny_adnl::rldp_node::decoder::symbol_id;
    assert_eq!(raptorq::extended_source_block_symbols(66), 69);
    assert_eq!(symbol_id(0, 66), Some(0));
    assert_eq!(symbol_id(65, 66), Some(65));
    assert_eq!(symbol_id(66, 66), Some(66 + 69));
    assert_eq!(symbol_id(1000, 66), Some(1069));
    assert_eq!(symbol_id(0xff_ffff - 69, 66), Some(0xff_ffff));
    assert_eq!(symbol_id(0xff_ffff - 68, 66), None);
    assert_eq!(symbol_id(u32::MAX, 66), None);
    assert_eq!(symbol_id(3_158_229 - 989, 989), None);
    assert_eq!(symbol_id(3_158_229 - 990, 989), Some(3_158_228));
    assert_eq!(symbol_id(8_192_877 - 2195, 2195), None);
    assert_eq!(symbol_id(988, 989), Some(988));
}

#[test]
fn repair_packets_take_the_blocks_in_turn() {
    let data = payload(3000);
    let mut encoder = RaptorQEncoder::with_data(&data);
    let mut seqno = 0;
    for _ in 0..4 {
        encoder.encode(&mut seqno).unwrap();
    }
    let engine = raptorq::Encoder::with_defaults(&data, 768);
    assert_eq!(engine.get_block_encoders().len(), 1);
    for id in [4u32, 4, 9, 0] {
        seqno = id;
        let packet = encoder.encode(&mut seqno).unwrap();
        assert_eq!(seqno, id);
        let expected = engine.get_block_encoders()[0].repair_packets(id, 1).pop().unwrap();
        assert_eq!(packet, expected.data());
    }
}

#[test]
fn any_sixty_six_symbols_rebuild_the_payload() {
    let data = payload(50_000);
    let mut encoder = RaptorQEncoder::with_data(&data);
    let params = *encoder.params();
    let mut packets = Vec::new();
    let mut seqno = 0;
    for _ in 0..params.symbols_count {
        let bytes = encoder.encode(&mut seqno).unwrap();
        packets.push((seqno, bytes));
    }
    let config = raptorq::ObjectTransmissionInformation::with_defaults(
        params.data_size as u64,
        params.symbol_size as u16,
    );

    let mut decoder = raptorq::Decoder::new(config);
    let mut result = None;
    for (id, bytes) in packets.iter().take(65) {
        let packet = raptorq::EncodingPacket::new(raptorq::PayloadId::new(0, *id), bytes.clone());
        result = decoder.decode(packet);
    }
    assert_eq!(result, None);
    let (id, bytes) = &packets[65];
    let packet = raptorq::EncodingPacket::new(raptorq::PayloadId::new(0, *id), bytes.clone());
    assert_eq!(decoder.decode(packet), Some(data.clone()));

    // one source symbol lost, one repair symbol in its place
    let mut decoder = raptorq::Decoder::new(config);
    let mut result = None;
    seqno = 0;
    let repair = encoder.encode(&mut seqno).unwrap();
    for (id, bytes) in packets.iter().skip(1) {
        let packet = raptorq::EncodingPacket::new(raptorq::PayloadId::new(0, *id), bytes.clone());
        result = decoder.decode(packet);
    }
    assert_eq!(result, None);
    assert_eq!(seqno, 0);
    let id = seqno + raptorq::extended_source_block_symbols(66);
    let packet = raptorq::EncodingPacket::new(raptorq::PayloadId::new(0, id), repair);
    assert_eq!(decoder.decode(packet), Some(data));
}
