use uptime_api::engine::handler::dns::{
    build_query_packet_with_id, encode_domain_name, parse_dns_response, read_u16, read_u32, skip_name, DnsError,
    DnsRecordType,
};

fn header(id: u16, flags: u16, qdcount: u16, ancount: u16) -> Vec<u8> {
    let mut h = Vec::new();
    h.extend_from_slice(&id.to_be_bytes());
    h.extend_from_slice(&flags.to_be_bytes());
    h.extend_from_slice(&qdcount.to_be_bytes());
    h.extend_from_slice(&ancount.to_be_bytes());
    h.extend_from_slice(&[0, 0, 0, 0]);
    h
}

fn question(domain: &str) -> Vec<u8> {
    let mut q = encode_domain_name(domain).unwrap();
    q.extend_from_slice(&[0, 1, 0, 1]);
    q
}

fn answer(record_type: u16, rdata: &[u8]) -> Vec<u8> {
    let mut a = vec![0xC0, 0x0C];
    a.extend_from_slice(&record_type.to_be_bytes());
    a.extend_from_slice(&[0, 1, 0, 0, 1, 44]);
    a.extend_from_slice(&(rdata.len() as u16).to_be_bytes());
    a.extend_from_slice(rdata);
    a
}

fn response(id: u16, flags: u16, answers: &[Vec<u8>]) -> Vec<u8> {
    let mut p = header(id, flags, 1, answers.len() as u16);
    p.extend_from_slice(&question("example.com"));
    for a in answers {
        p.extend_from_slice(a);
    }
    p
}

#[test]
fn read_u16_reads_big_endian_and_advances() {
    let data = [0x12, 0x34, 0x56];
    let mut cursor = 0;
    assert_eq!(read_u16(&data, &mut cursor), Ok(0x1234));
    assert_eq!(cursor, 2);
    assert_eq!(read_u16(&data, &mut cursor), Err(DnsError::OutOfBounds));
    assert_eq!(cursor, 2);
}

#[test]
fn read_u32_reads_big_endian_and_advances() {
    let data = [0xDE, 0xAD, 0xBE, 0xEF, 0x01];
    let mut cursor = 0;
    assert_eq!(read_u32(&data, &mut cursor), Ok(0xDEADBEEF));
    assert_eq!(cursor, 4);
    let mut late = 2;
    assert_eq!(read_u32(&data, &mut late), Err(DnsError::OutOfBounds));
    assert_eq!(late, 2);
}

#[test]
fn skip_name_follows_labels_and_pointers() {
    let name = encode_domain_name("api.example.com").unwrap();
    let mut data = vec![0xAA];
    data.extend_from_slice(&name);
    data.push(0xBB);
    let mut cursor = 1;
    assert_eq!(skip_name(&data, &mut cursor), Ok(()));
    assert_eq!(cursor, 1 + name.len());

    let pointer = [0xC0, 0x0C, 0xFF];
    let mut cursor = 0;
    assert_eq!(skip_name(&pointer, &mut cursor), Ok(()));
    assert_eq!(cursor, 2);
}

#[test]
fn skip_name_stops_where_the_name_breaks_off() {
    // A label that announces 5 bytes but only 2 follow.
    let data = [3, b'a', b'b', b'c', 5, b'x', b'y'];
    let mut cursor = 0;
    assert_eq!(skip_name(&data, &mut cursor), Err(DnsError::OutOfBounds));
    assert_eq!(cursor, 4);
    // A pointer cut in half.
    let mut cursor = 0;
    assert_eq!(skip_name(&[0xC0], &mut cursor), Err(DnsError::OutOfBounds));
    assert_eq!(cursor, 0);
}

#[test]
fn record_types_have_their_wire_numbers() {
    for t in [DnsRecordType::A, DnsRecordType::AAAA, DnsRecordType::NS, DnsRecordType::CNAME, DnsRecordType::TXT] {
        assert_eq!(DnsRecordType::from_u16(t.code()), Some(t));
    }
    assert_eq!(DnsRecordType::A.code(), 1);
    assert_eq!(DnsRecordType::AAAA.code(), 28);
    assert_eq!(DnsRecordType::TXT.code(), 16);
    assert_eq!(DnsRecordType::from_u16(6), None);
}

#[test]
fn query_packet_for_a_given_id_is_exact() {
    let encoded = encode_domain_name("a.io").unwrap();
    let packet = build_query_packet_with_id(&encoded, DnsRecordType::AAAA, 0xBEEF);
    assert_eq!(
        packet,
        vec![0xBE, 0xEF, 0x01, 0x00, 0x00, 0x01, 0, 0, 0, 0, 0, 0, 1, b'a', 2, b'i', b'o', 0, 0x00, 28, 0x00, 0x01]
    );
}

#[test]
fn encoding_keeps_empty_labels_of_a_trailing_dot() {
    assert_eq!(encode_domain_name("com.").unwrap(), vec![3, b'c', b'o', b'm', 0, 0]);
}

#[test]
fn encoding_refuses_names_over_255_bytes() {
    let long = "a".repeat(256);
    assert_eq!(encode_domain_name(&long), Err(DnsError::DomainTooLong { len: 256 }));
    let just_fits = format!("{}.{}.{}.{}", "a".repeat(63), "b".repeat(63), "c".repeat(63), "d".repeat(63));
    assert_eq!(just_fits.len(), 255);
    assert_eq!(encode_domain_name(&just_fits).unwrap().len(), 257);
}

#[test]
fn encoded_name_reads_back_as_one_name() {
    for domain in ["example.com", "a.b.c.d", "x"] {
        let encoded = encode_domain_name(domain).unwrap();
        let packet = build_query_packet_with_id(&encoded, DnsRecordType::A, 7);
        let mut cursor = 12;
        assert_eq!(skip_name(&packet, &mut cursor), Ok(()));
        assert_eq!(cursor, 12 + encoded.len());
        assert_eq!(packet.len(), cursor + 4);
    }
}

#[test]
fn each_reading_error_has_its_input() {
    let ok = answer(1, &[1, 2, 3, 4]);
    assert_eq!(parse_dns_response(response(9, 0x8180, &[ok.clone()]), 9), Ok([1, 2, 3, 4]));
    assert_eq!(
        parse_dns_response(response(9, 0x8180, &[ok.clone()]), 10),
        Err(DnsError::IdMismatch { got: 9, expected: 10 })
    );
    assert_eq!(parse_dns_response(response(9, 0x0180, &[ok.clone()]), 9), Err(DnsError::NotAResponse));
    assert_eq!(parse_dns_response(response(9, 0x8183, &[ok.clone()]), 9), Err(DnsError::ServerFailure { rcode: 3 }));
    assert_eq!(parse_dns_response(response(9, 0x8180, &[]), 9), Err(DnsError::NoAnswers));
    assert_eq!(parse_dns_response(vec![0], 9), Err(DnsError::OutOfBounds));
    let mut past_end = response(9, 0x8180, &[answer(1, &[1, 2, 3, 4])]);
    past_end.pop();
    assert_eq!(parse_dns_response(past_end, 9), Err(DnsError::RdataPastEnd));
    assert_eq!(
        parse_dns_response(response(9, 0x8180, &[answer(1, &[1, 2, 3])]), 9),
        Err(DnsError::BadARecordLength { len: 3 })
    );
    assert_eq!(parse_dns_response(response(9, 0x8180, &[answer(28, &[0; 16])]), 9), Err(DnsError::NoARecord));
}

#[test]
fn the_first_a_record_wins() {
    let packet = response(5, 0x8180, &[answer(5, b"\x01x\x00"), answer(1, &[9, 9, 9, 9]), answer(1, &[1, 1, 1, 1])]);
    assert_eq!(parse_dns_response(packet, 5), Ok([9, 9, 9, 9]));
}

#[test]
fn a_truncated_question_is_out_of_bounds() {
    let mut packet = header(3, 0x8180, 1, 1);
    packet.extend_from_slice(&[7, b'e', b'x']);
    assert_eq!(parse_dns_response(packet, 3), Err(DnsError::OutOfBounds));
}
