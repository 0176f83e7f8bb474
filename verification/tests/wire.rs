use iterative_resolver::classify::{classify, Verdict};
use iterative_resolver::engine::{resolve, Action, Outcome};
use iterative_resolver::message::{Header, IpAddr, Question, Resource, TYPE_A, TYPE_AAAA, TYPE_NS};
use iterative_resolver::roots::{root_server, ROOT_COUNT};
use iterative_resolver::text::{format_ipv4, format_ipv6};
use iterative_resolver::wire::{
    decode_header, decode_name, decode_question, decode_questions, decode_resource,
    decode_resources, decode_response, encode_name, encode_query, HEADER_LEN, MAX_NAME_LEN,
};

fn be16(value: u16) -> [u8; 2] {
    [(value >> 8) as u8, (value & 0xff) as u8]
}

fn header_bytes(id: u16, flags: u16, qd: u16, an: u16, ns: u16, ar: u16) -> Vec<u8> {
    let mut out = Vec::new();
    for value in [id, flags, qd, an, ns, ar] {
        out.extend_from_slice(&be16(value));
    }
    out
}

fn plain_name(name: &str) -> Vec<u8> {
    let mut out = Vec::new();
    for label in name.split('.').filter(|label| !label.is_empty()) {
        out.push(label.len() as u8);
        out.extend_from_slice(label.as_bytes());
    }
    out.push(0);
    out
}

fn pointer(to: usize) -> Vec<u8> {
    vec![0xc0 | (to >> 8) as u8, (to & 0xff) as u8]
}

fn record(name: &[u8], rr_type: u16, ttl: u32, data: &[u8]) -> Vec<u8> {
    let mut out = name.to_vec();
    out.extend_from_slice(&be16(rr_type));
    out.extend_from_slice(&be16(1));
    out.extend_from_slice(&be16((ttl >> 16) as u16));
    out.extend_from_slice(&be16((ttl & 0xffff) as u16));
    out.extend_from_slice(&be16(data.len() as u16));
    out.extend_from_slice(data);
    out
}

fn question(name: &str, qtype: u16) -> Vec<u8> {
    let mut out = plain_name(name);
    out.extend_from_slice(&be16(qtype));
    out.extend_from_slice(&be16(1));
    out
}

/// A referral: one question, one delegation of `zone` to `nameserver`, and
/// the nameserver's address where one is given.
fn referral(asked: &str, zone: &str, nameserver: &str, address: Option<[u8; 4]>) -> Vec<u8> {
    let ar = if address.is_some() { 1 } else { 0 };
    let mut out = header_bytes(9, 0x8000, 1, 0, 1, ar);
    out.extend_from_slice(&question(asked, TYPE_A));
    let ns_name_at = out.len() + plain_name(zone).len() + 10;
    out.extend_from_slice(&record(&plain_name(zone), TYPE_NS, 172800, &plain_name(nameserver)));
    if let Some(octets) = address {
        out.extend_from_slice(&record(&pointer(ns_name_at), TYPE_A, 172800, &octets));
    }
    out
}

fn answer(asked: &str, octets: [u8; 4]) -> Vec<u8> {
    let mut out = header_bytes(9, 0x8400, 1, 1, 0, 0);
    out.extend_from_slice(&question(asked, TYPE_A));
    out.extend_from_slice(&record(&pointer(HEADER_LEN), TYPE_A, 300, &octets));
    out
}

#[test]
fn query_for_example_com_has_the_expected_bytes() {
    let expected: Vec<u8> = vec![
        0x12, 0x34, 0x00, 0x00, 0x00, 0x01, 0x00, 0x00, 0x00, 0x00, 0x00, 0x00, 7, b'e', b'x',
        b'a', b'm', b'p', b'l', b'e', 3, b'c', b'o', b'm', 0, 0x00, 0x01, 0x00, 0x01,
    ];
    assert_eq!(encode_query(0x1234, "example.com", 1, 1), Some(expected.clone()));
    assert_eq!(encode_query(0x1234, "example.com.", 1, 1), Some(expected));
}

#[test]
fn query_does_not_ask_for_recursion_and_has_one_question() {
    let bytes = encode_query(0xbeef, "a.iana-servers.net", TYPE_AAAA, 1).expect("a valid name");
    let header = decode_header(&bytes).expect("twelve bytes at least");
    assert_eq!(
        header,
        Header { id: 0xbeef, flags: 0, qd_count: 1, an_count: 0, ns_count: 0, ar_count: 0 }
    );
    assert_eq!(header.rcode(), 0);
    assert_eq!(bytes.len(), HEADER_LEN + "a.iana-servers.net".len() + 2 + 4);
}

#[test]
fn query_can_be_read_back_as_its_question() {
    let bytes = encode_query(7, "www.example.com", TYPE_NS, 1).expect("a valid name");
    let (questions, consumed) = decode_questions(&bytes, HEADER_LEN, 1).expect("one question");
    assert_eq!(
        questions,
        vec![Question { name: "www.example.com".to_string(), qtype: TYPE_NS, qclass: 1 }]
    );
    assert_eq!(consumed, bytes.len() - HEADER_LEN);
    let reply = decode_response(&bytes).expect("a message without records");
    assert_eq!(reply.resources().len(), 0);
}

#[test]
fn root_name_is_a_single_zero_byte() {
    assert_eq!(encode_name(""), Some(vec![0]));
    assert_eq!(encode_name("."), Some(vec![0]));
    assert_eq!(encode_name("com"), Some(vec![3, b'c', b'o', b'm', 0]));
    assert_eq!(encode_name("com."), Some(vec![3, b'c', b'o', b'm', 0]));
}

#[test]
fn names_without_wire_form_are_refused() {
    assert_eq!(encode_name("a..b"), None);
    assert_eq!(encode_name(".com"), None);
    assert_eq!(encode_name("com.."), None);
    assert_eq!(encode_name(".."), None);
    assert_eq!(encode_name("b\u{fc}cher.example"), None);
    assert_eq!(encode_query(1, "a..b", 1, 1), None);
    let longest_label = "a".repeat(63);
    let too_long_label = "a".repeat(64);
    assert!(encode_name(&longest_label).is_some());
    assert_eq!(encode_name(&too_long_label), None);
}

#[test]
fn name_may_take_up_255_bytes_and_no_more() {
    let label = "a".repeat(63);
    let fits = format!("{}.{}.{}.{}", label, label, label, "a".repeat(61));
    let encoded = encode_name(&fits).expect("255 bytes fit");
    assert_eq!(encoded.len(), MAX_NAME_LEN);
    let too_long = format!("{}.{}.{}.{}", label, label, label, "a".repeat(62));
    assert_eq!(encode_name(&too_long), None);
}

#[test]
fn header_is_six_big_endian_numbers() {
    let bytes = header_bytes(0xabcd, 0x8183, 1, 2, 3, 4);
    assert_eq!(
        decode_header(&bytes),
        Some(Header {
            id: 0xabcd,
            flags: 0x8183,
            qd_count: 1,
            an_count: 2,
            ns_count: 3,
            ar_count: 4,
        })
    );
    assert_eq!(decode_header(&bytes).map(|h| h.rcode()), Some(3));
    assert_eq!(decode_header(&bytes[..11]), None);
    assert_eq!(decode_header(&[]), None);
}

#[test]
fn name_follows_a_pointer_to_an_earlier_name() {
    let mut bytes = plain_name("example.com");
    let www_at = bytes.len();
    bytes.push(3);
    bytes.extend_from_slice(b"www");
    bytes.extend_from_slice(&pointer(0));
    assert_eq!(decode_name(&bytes, 0), Some(("example.com".to_string(), 13)));
    assert_eq!(decode_name(&bytes, 8), Some(("com".to_string(), 13)));
    assert_eq!(decode_name(&bytes, 12), Some((String::new(), 13)));
    assert_eq!(decode_name(&bytes, www_at), Some(("www.example.com".to_string(), www_at + 6)));
}

#[test]
fn name_with_a_pointer_that_does_not_point_backwards_is_refused() {
    let own_position = pointer(0);
    assert_eq!(decode_name(&own_position, 0), None);
    let mut forward = pointer(2);
    forward.extend_from_slice(&plain_name("com"));
    assert_eq!(decode_name(&forward, 0), None);
    let mut circle = vec![1, b'a'];
    circle.extend_from_slice(&pointer(0));
    assert_eq!(decode_name(&circle, 0), None);
    assert_eq!(decode_name(&circle, 2), None);
}

#[test]
fn name_that_runs_past_the_end_is_refused() {
    assert_eq!(decode_name(&[3, b'c', b'o'], 0), None);
    assert_eq!(decode_name(&[3, b'c', b'o', b'm'], 0), None);
    assert_eq!(decode_name(&[0xc0], 0), None);
    assert_eq!(decode_name(&[0x40, 0], 0), None);
    assert_eq!(decode_name(&[0], 1), None);
    assert_eq!(decode_name(&[], 0), None);
}

#[test]
fn question_is_name_type_and_class() {
    let bytes = question("example.com", TYPE_AAAA);
    assert_eq!(
        decode_question(&bytes, 0),
        Some((Question { name: "example.com".to_string(), qtype: TYPE_AAAA, qclass: 1 }, 17))
    );
    assert_eq!(decode_question(&bytes[..16], 0), None);
    assert_eq!(decode_questions(&bytes, 0, 0), Some((vec![], 0)));
    assert_eq!(decode_questions(&bytes, 0, 2), None);
}

#[test]
fn address_records_carry_their_address_as_text() {
    let a = record(&plain_name("example.com"), TYPE_A, 300, &[93, 184, 216, 34]);
    assert_eq!(
        decode_resource(&a, 0),
        Some((
            Resource {
                name: "example.com".to_string(),
                rr_type: TYPE_A,
                class: 1,
                ttl: 300,
                nsdname: String::new(),
                address: Some(IpAddr::V4("93.184.216.34".to_string())),
            },
            a.len()
        ))
    );
    let data = [0x20, 0x01, 0x0d, 0xb8, 0, 0, 0, 0, 0, 0, 0, 0, 0, 0, 0, 1];
    let aaaa = record(&plain_name("example.com"), TYPE_AAAA, 0x0001_0002, &data);
    let (decoded, end) = decode_resource(&aaaa, 0).expect("a whole record");
    assert_eq!(decoded.address, Some(IpAddr::V6("2001:db8:0:0:0:0:0:1".to_string())));
    assert_eq!(decoded.ttl, 65538);
    assert_eq!(end, aaaa.len());
}

#[test]
fn record_with_data_of_another_length_carries_no_address() {
    let short = record(&plain_name("example.com"), TYPE_A, 300, &[93, 184, 216]);
    assert_eq!(decode_resource(&short, 0).map(|(r, _)| r.address), Some(None));
    let text = record(&plain_name("example.com"), 16, 300, &[1, 2, 3, 4]);
    assert_eq!(decode_resource(&text, 0).map(|(r, _)| r.address), Some(None));
    assert_eq!(decode_resource(&text, 0).map(|(r, _)| r.nsdname), Some(String::new()));
}

#[test]
fn delegation_carries_the_nameserver_name() {
    let mut bytes = plain_name("net");
    let ns_at = bytes.len();
    let mut data = vec![1, b'a', 12];
    data.extend_from_slice(b"gtld-servers");
    data.extend_from_slice(&pointer(0));
    bytes.extend_from_slice(&record(&plain_name("com"), TYPE_NS, 172800, &data));
    let (decoded, end) = decode_resource(&bytes, ns_at).expect("a whole record");
    assert_eq!(decoded.name, "com");
    assert_eq!(decoded.rr_type, TYPE_NS);
    assert_eq!(decoded.ttl, 172800);
    assert_eq!(decoded.nsdname, "a.gtld-servers.net");
    assert_eq!(decoded.address, None);
    assert_eq!(end, bytes.len());
}

#[test]
fn delegation_whose_data_is_not_exactly_a_name_is_refused() {
    let mut data = plain_name("ns.example.net");
    data.push(0);
    let long = record(&plain_name("com"), TYPE_NS, 1, &data);
    assert_eq!(decode_resource(&long, 0), None);
    let cut = record(&plain_name("com"), TYPE_NS, 1, &[2, b'n', b's']);
    assert_eq!(decode_resource(&cut, 0), None);
}

#[test]
fn record_cut_short_is_refused() {
    let whole = record(&plain_name("example.com"), TYPE_A, 300, &[93, 184, 216, 34]);
    for len in 0..whole.len() {
        assert_eq!(decode_resource(&whole[..len], 0), None);
    }
    assert!(decode_resource(&whole, 0).is_some());
}

#[test]
fn as_many_records_are_decoded_as_asked_for() {
    let mut bytes = Vec::new();
    for last in 1..=3u8 {
        let data = [192, 0, 2, last];
        bytes.extend_from_slice(&record(&plain_name("example.com"), TYPE_A, 60, &data));
    }
    for count in 0..=3usize {
        let records = decode_resources(&bytes, 0, count).expect("enough records");
        assert_eq!(records.len(), count);
        for (i, r) in records.iter().enumerate() {
            assert_eq!(r.address, Some(IpAddr::V4(format!("192.0.2.{}", i + 1))));
        }
    }
    assert_eq!(decode_resources(&bytes, 0, 4), None);
}

#[test]
fn reply_holds_as_many_records_as_its_header_counts() {
    let bytes = referral("example.com", "com", "a.gtld-servers.net", Some([192, 5, 6, 30]));
    let reply = decode_response(&bytes).expect("a whole reply");
    let header = reply.header();
    assert_eq!((header.an_count, header.ns_count, header.ar_count), (0, 1, 1));
    assert_eq!(reply.resources().len(), 2);
    assert_eq!(reply.answers().len(), 0);
    assert_eq!(reply.authority().len(), 1);
    assert_eq!(reply.additional().len(), 1);
    assert_eq!(reply.authority()[0].nsdname, "a.gtld-servers.net");
    assert_eq!(reply.additional()[0].name, "a.gtld-servers.net");
    assert_eq!(reply.additional()[0].address, Some(IpAddr::V4("192.5.6.30".to_string())));
    assert_eq!(classify(&reply), Verdict::Referral("192.5.6.30".to_string()));
}

#[test]
fn reply_with_fewer_records_than_counted_is_refused() {
    let mut bytes = referral("example.com", "com", "a.gtld-servers.net", Some([192, 5, 6, 30]));
    bytes[11] = 2;
    assert!(decode_response(&bytes).is_none());
    bytes[11] = 1;
    assert!(decode_response(&bytes).is_some());
    bytes[5] = 2;
    assert!(decode_response(&bytes).is_none());
}

#[test]
fn bytes_after_the_last_record_are_ignored() {
    let mut bytes = answer("example.com", [93, 184, 216, 34]);
    bytes.resize(512, 0);
    let reply = decode_response(&bytes).expect("a whole reply");
    assert_eq!(reply.resources().len(), 1);
    assert_eq!(classify(&reply), Verdict::Answer("93.184.216.34".to_string()));
}

#[test]
fn addresses_are_written_without_leading_zeros() {
    assert_eq!(format_ipv4([93, 184, 216, 34]), "93.184.216.34");
    assert_eq!(format_ipv4([0, 0, 0, 0]), "0.0.0.0");
    assert_eq!(format_ipv4([255, 255, 255, 255]), "255.255.255.255");
    assert_eq!(format_ipv4([10, 9, 100, 101]), "10.9.100.101");
    assert_eq!(format_ipv6([0x2001, 0x0db8, 0, 0, 0, 0, 0, 1]), "2001:db8:0:0:0:0:0:1");
    assert_eq!(format_ipv6([0; 8]), "0:0:0:0:0:0:0:0");
    assert_eq!(
        format_ipv6([0xffff, 0xabcd, 0x0f00, 0x00f0, 0x000f, 0x10, 0x100, 0x1000]),
        "ffff:abcd:f00:f0:f:10:100:1000"
    );
}

#[test]
fn resolution_over_the_wire_takes_three_round_trips() {
    let net = |nameserver: &str, query: &[u8]| -> Vec<u8> {
        let (questions, _) = decode_questions(query, HEADER_LEN, 1).expect("one question");
        let asked = questions[0].name.clone();
        if (0..ROOT_COUNT).any(|i| root_server(i) == nameserver) {
            referral(&asked, "com", "a.gtld-servers.net", Some([192, 5, 6, 30]))
        } else if nameserver == "192.5.6.30" {
            referral(&asked, "example.com", "a.iana-servers.net", Some([199, 43, 135, 53]))
        } else {
            answer(&asked, [93, 184, 216, 34])
        }
    };
    let mut resolution = resolve("example.com", TYPE_A);
    let mut round_trips = 0;
    let outcome = loop {
        match resolution.action() {
            Action::Finish(outcome) => break outcome,
            Action::Send(query) => {
                round_trips += 1;
                assert!(round_trips <= 3);
                let bytes = encode_query(query.id, &query.name, query.qtype, query.qclass)
                    .expect("a valid name");
                let reply =
                    decode_response(&net(&query.nameserver, &bytes)).expect("a whole reply");
                resolution = resolution.receive(&reply);
            },
        }
    };
    assert_eq!(outcome, Outcome::Resolved("93.184.216.34".to_string()));
    assert_eq!(round_trips, 3);
}
