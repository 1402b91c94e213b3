use dns_codec::parse::{parse_domain, parse_header, parse_message, parse_question, parse_record};
use dns_codec::types::{ClassType, DNSHeader, DNSQuestion, DecodeError, Opcode, RecordType,
    ResourceRecord, QR, RCODE};

#[test]
fn test_parse_header() {
    println!("Running test \"{}\"", "basic test");
    let data: [u8; 12] = [
        0b0000_0100, 0b1101_0010, // ID: 1234
        0b1010_1010, // QR: 1, Opcode: 5, AA: 0, TC: 1, RD: 0,
        0b1101_0011, // RA: 1, Z: 5, RCODE: 3
        0b0000_0000, 0b0100_0101, // QDCOUNT: 69
        0b0000_0000, 0b0100_0110, // ANCOUNT: 70
        0b0000_0000, 0b0100_0111, // NSCOUNT: 71
        0b0000_0000, 0b0100_1000, // ARCOUNT: 72
    ];
    let want = DNSHeader {
        id: 1234,
        qr: QR::Response,
        opcode: Opcode::Reserved,
        aa: false,
        tc: true,
        rd: false,
        ra: true,
        z: 5,
        rcode: RCODE::NameError,
        qdcount: 69,
        ancount: 70,
        nscount: 71,
        arcount: 72,
    };
    let got = parse_header(&data);
    assert_eq!(want, got);
}

#[test]
fn test_parse_question() {
    println!("Running test \"{}\"", "basic test");
    let data: Vec<u8> = vec![
        0x07, b'e', b'x', b'a', b'm', b'p', b'l', b'e', 0x03, b'c', b'o', b'm', 0x00, 0x00, 0x01,
        0x00, 0x03,
    ];
    let want_questions = vec![DNSQuestion {
        qname: vec![0x07, b'e', b'x', b'a', b'm', b'p', b'l', b'e', 0x03, b'c', b'o', b'm', 0x00],
        qtype: RecordType::A,
        qclass: ClassType::Other,
    }];
    let (got_questions, got_idx) = parse_question(&data, 1).unwrap();
    assert_eq!(got_questions, want_questions);
    assert_eq!(got_idx, 17);

    println!("Running test \"{}\"", "pointer test");
    let data: Vec<u8> = vec![
        0x07, b'e', b'x', b'a', b'm', b'p', b'l', b'e', 0x03, b'c', b'o', b'm', 0x00, 0x00, 0x00,
        0x00, 0x00, 0x04, b't', b'e', b's', b't',
        0b1100_0000, 0b0000_1100, // offset relative to the start of the message
        0x00, 0x00, 0x00, 0x00, 0x00, 0x02, b'i', b'o', 0x02, b'i', b'o', 0x00, 0x00, 0x01, 0x00,
        0x01,
    ];
    // After the two pointer bytes the cursor resumes immediately, so the
    // stray zero byte after the pointer becomes the third question's (root)
    // name and the remaining bytes shift accordingly.
    let want_questions = vec![
        DNSQuestion {
            qname: vec![
                0x07, b'e', b'x', b'a', b'm', b'p', b'l', b'e', 0x03, b'c', b'o', b'm', 0x00,
            ],
            qtype: RecordType::Other,
            qclass: ClassType::Other,
        },
        DNSQuestion {
            qname: vec![
                0x04, b't', b'e', b's', b't', 0x07, b'e', b'x', b'a', b'm', b'p', b'l', b'e',
                0x03, b'c', b'o', b'm', 0x00,
            ],
            qtype: RecordType::Other,
            qclass: ClassType::Other,
        },
        DNSQuestion { qname: vec![0x00], qtype: RecordType::Other, qclass: ClassType::Other },
    ];
    let (got_questions, got_idx) = parse_question(&data, 3).unwrap();
    assert_eq!(got_questions, want_questions);
    assert_eq!(got_idx, 33);

    println!("Running test \"{}\"", "more pointer tests");
    let data: Vec<u8> = vec![
        0b00000011, // abc
        0b01100001, 0b01100010, 0b01100011,
        0b00010001, // longassdomainname
        0b01101100, 0b01101111, 0b01101110, 0b01100111, 0b01100001, 0b01110011, 0b01110011,
        0b01100100, 0b01101111, 0b01101101, 0b01100001, 0b01101001, 0b01101110, 0b01101110,
        0b01100001, 0b01101101, 0b01100101,
        0b00000011, // com
        0b01100011, 0b01101111, 0b01101101,
        0b00000000, // null termination
        0b00000000, 0b00000001,
        0b00000000, 0b00000001,
        0b00000011, // def
        0b01100100, 0b01100101, 0b01100110,
        0b11000000, 0b00010000, // pointer
        0x00, // stray byte after the pointer
        0b00000000, 0b00000001,
        0b00000000, 0b00000001,
    ];
    let long_name: Vec<u8> = vec![
        0b00010001, // longassdomainname
        0b01101100, 0b01101111, 0b01101110, 0b01100111, 0b01100001, 0b01110011, 0b01110011,
        0b01100100, 0b01101111, 0b01101101, 0b01100001, 0b01101001, 0b01101110, 0b01101110,
        0b01100001, 0b01101101, 0b01100101,
        0b00000011, // com
        0b01100011, 0b01101111, 0b01101101,
        0b00000000, // null termination
    ];
    let mut first_name: Vec<u8> = vec![0b00000011, 0b01100001, 0b01100010, 0b01100011];
    first_name.extend_from_slice(&long_name);
    let mut second_name: Vec<u8> = vec![0b00000011, 0b01100100, 0b01100101, 0b01100110];
    second_name.extend_from_slice(&long_name);
    // The second question's name ends in a pointer; the cursor resumes two
    // bytes after it, on the stray zero byte, so the type and class codes
    // read from there do not line up with the trailing 0,1 pairs.
    let want_questions = vec![
        DNSQuestion { qname: first_name, qtype: RecordType::A, qclass: ClassType::IN },
        DNSQuestion { qname: second_name, qtype: RecordType::Other, qclass: ClassType::Other },
    ];
    let (got_questions, got_idx) = parse_question(&data, 2).unwrap();
    assert_eq!(got_questions, want_questions);
    assert_eq!(got_idx, 41);
}

#[test]
fn test_parse_record() {
    println!("Running test \"{}\"", "basic test");
    let data: Vec<u8> = vec![
        // QUESTION
        0x07, b'e', b'x', b'a', b'm', b'p', b'l', b'e', 0x03, b'c', b'o', b'm', 0x00, 0x00, 0x00,
        0x00, 0x00,
        // ANSWER: name
        0x07, b'e', b'x', b'a', b'm', b'p', b'l', b'e', 0x03, b'c', b'o', b'm', 0x00,
        // type
        0b0000_0000, 0b0000_0001,
        // class
        0b0000_0000, 0b0000_0001,
        // TTL
        0b0000_0000, 0b0000_0000, 0b0000_0000, 0b0000_0000,
        // RDLENGTH
        0b0000_0000, 0b0000_1101,
        // RDATA
        b'h', b'e', b'l', b'l', b'o', b',', b' ', b'w', b'o', b'r', b'l', b'd', b'!',
    ];
    let want_answers = vec![ResourceRecord {
        name: vec![0x07, b'e', b'x', b'a', b'm', b'p', b'l', b'e', 0x03, b'c', b'o', b'm', 0x00],
        record_type: RecordType::A,
        class: ClassType::IN,
        ttl: 0,
        rdlength: 13,
        rdata: "hello, world!".to_string().into_bytes(),
    }];
    let (got_records, got_idx) = parse_record(&data, 1, 17).unwrap();
    assert_eq!(got_records, want_answers);
    assert_eq!(got_idx, 53);

    println!("Running test \"{}\"", "pointer test");
    let data: Vec<u8> = vec![
        // QUESTION
        0x07, b'e', b'x', b'a', b'm', b'p', b'l', b'e', 0x03, b'c', b'o', b'm', 0x00, 0x00, 0x00,
        0x00, 0x00,
        // ANSWER: name is a pointer, offset relative to the start of the message
        0b1100_0000, 0b0000_1100,
        // type
        0b0000_0000, 0b0000_0001,
        // class
        0b0000_0000, 0b0000_0001,
        // TTL
        0b0000_0000, 0b0000_0000, 0b0000_0000, 0b0000_0000,
        // RDLENGTH
        0b0000_0000, 0b0000_1101,
        // RDATA
        b'h', b'e', b'l', b'l', b'o', b',', b' ', b'w', b'o', b'r', b'l', b'd', b'!',
    ];
    let want_answers = vec![ResourceRecord {
        name: vec![0x07, b'e', b'x', b'a', b'm', b'p', b'l', b'e', 0x03, b'c', b'o', b'm', 0x00],
        record_type: RecordType::A,
        class: ClassType::IN,
        ttl: 0,
        rdlength: 13,
        rdata: "hello, world!".to_string().into_bytes(),
    }];
    let (got_records, got_idx) = parse_record(&data, 1, 17).unwrap();
    assert_eq!(got_records, want_answers);
    assert_eq!(got_idx, 42);
}

#[test]
fn test_question_after_label_sequence() {
    // The label sequence for "example.com" followed by qtype 1 and qclass 1
    // decodes to an A/IN question.
    let data: Vec<u8> = vec![
        0x07, b'e', b'x', b'a', b'm', b'p', b'l', b'e', 0x03, b'c', b'o', b'm', 0x00, 0x00, 0x01,
        0x00, 0x01,
    ];
    let (questions, idx) = parse_question(&data, 1).unwrap();
    assert_eq!(questions.len(), 1);
    assert_eq!(questions[0].qtype, RecordType::A);
    assert_eq!(questions[0].qclass, ClassType::IN);
    assert_eq!(
        questions[0].qname,
        vec![0x07, b'e', b'x', b'a', b'm', b'p', b'l', b'e', 0x03, b'c', b'o', b'm', 0x00]
    );
    assert_eq!(idx, 17);
}

#[test]
fn test_pointer_expands_like_direct_decode() {
    // A name that is a pointer to an earlier "example.com" expands to the
    // identical 13-byte label sequence, and the question cursor advances by
    // the bytes consumed before the pointer plus the pointer's own two bytes.
    let data: Vec<u8> = vec![
        // first question: example.com, type 0, class 0
        0x07, b'e', b'x', b'a', b'm', b'p', b'l', b'e', 0x03, b'c', b'o', b'm', 0x00, 0x00, 0x00,
        0x00, 0x00,
        // second question: a bare pointer to offset 12 (the body's start), type 1, class 1
        0b1100_0000, 0b0000_1100, 0x00, 0x01, 0x00, 0x01,
    ];
    let (direct, direct_end, direct_ptr) = parse_domain(&data, 0).unwrap();
    assert_eq!(direct.len(), 13);
    assert_eq!(direct_end, 12);
    assert!(!direct_ptr);

    let (via_pointer, end, is_pointer) = parse_domain(&data, 17).unwrap();
    assert_eq!(via_pointer, direct);
    assert_eq!(end, 17);
    assert!(is_pointer);

    let (questions, idx) = parse_question(&data, 2).unwrap();
    assert_eq!(questions[1].qname, direct);
    assert_eq!(questions[1].qtype, RecordType::A);
    assert_eq!(questions[1].qclass, ClassType::IN);
    // 17 bytes before the second name, 0 consumed before its pointer, plus 2
    // pointer bytes and 4 code bytes
    assert_eq!(idx, 23);
}

#[test]
fn test_truncated_inputs_are_malformed() {
    // shorter than the fixed header
    let data: Vec<u8> = vec![0u8; 11];
    assert!(matches!(parse_message(&data), Err(DecodeError::MalformedMessage)));

    // one question declared, empty body
    let mut data: Vec<u8> = vec![0u8; 12];
    data[5] = 1; // qdcount
    assert!(matches!(parse_message(&data), Err(DecodeError::MalformedMessage)));

    // a label declares five content bytes but only two follow
    let mut data: Vec<u8> = vec![0u8; 12];
    data[5] = 1;
    data.extend_from_slice(&[0x05, b'a', b'b']);
    assert!(matches!(parse_message(&data), Err(DecodeError::MalformedMessage)));

    // the name never terminates before the buffer ends
    let mut data: Vec<u8> = vec![0u8; 12];
    data[5] = 1;
    data.extend_from_slice(&[0x02, b'a', b'b']);
    assert!(matches!(parse_message(&data), Err(DecodeError::MalformedMessage)));

    // the question's type and class are cut off
    let mut data: Vec<u8> = vec![0u8; 12];
    data[5] = 1;
    data.extend_from_slice(&[0x02, b'a', b'b', 0x00, 0x00]);
    assert!(matches!(parse_message(&data), Err(DecodeError::MalformedMessage)));

    // a record declares thirteen rdata bytes but carries five
    let mut data: Vec<u8> = vec![0u8; 12];
    data[7] = 1; // ancount
    data.extend_from_slice(&[
        0x02, b'a', b'b', 0x00, 0x00, 0x01, 0x00, 0x01, 0, 0, 0, 0, 0x00, 0x0D, 1, 2, 3, 4, 5,
    ]);
    assert!(matches!(parse_message(&data), Err(DecodeError::MalformedMessage)));

    // a record's fixed fields are cut off after the name
    let mut data: Vec<u8> = vec![0u8; 12];
    data[7] = 1;
    data.extend_from_slice(&[0x02, b'a', b'b', 0x00, 0x00, 0x01]);
    assert!(matches!(parse_message(&data), Err(DecodeError::MalformedMessage)));
}

#[test]
fn test_bad_pointers_are_malformed() {
    // a pointer whose stored offset lies inside the header
    let mut data: Vec<u8> = vec![0u8; 12];
    data[5] = 1;
    data.extend_from_slice(&[0xC0, 0x00, 0x00, 0x01, 0x00, 0x01]);
    assert!(matches!(parse_message(&data), Err(DecodeError::MalformedMessage)));

    // a pointer past the end of the buffer
    let mut data: Vec<u8> = vec![0u8; 12];
    data[5] = 1;
    data.extend_from_slice(&[0xC0, 0xFF, 0x00, 0x01, 0x00, 0x01]);
    assert!(matches!(parse_message(&data), Err(DecodeError::MalformedMessage)));

    // a pointer that refers to itself can never finish expanding
    let mut data: Vec<u8> = vec![0u8; 12];
    data[5] = 1;
    data.extend_from_slice(&[0xC0, 0x0C, 0x00, 0x01, 0x00, 0x01]);
    assert!(matches!(parse_message(&data), Err(DecodeError::MalformedMessage)));

    // a truncated pointer: the second byte is missing
    let mut data: Vec<u8> = vec![0u8; 12];
    data[5] = 1;
    data.extend_from_slice(&[0xC0]);
    assert!(matches!(parse_message(&data), Err(DecodeError::MalformedMessage)));
}

#[test]
fn test_header_scenario_bits() {
    // id 1234, QR=1, Opcode=5 (collapses to Reserved), TC=1, RA=1, Z=5,
    // RCODE=3 (NameError)
    let data: [u8; 12] = [0x04, 0xD2, 0xAA, 0xD3, 0, 0, 0, 0, 0, 0, 0, 0];
    let h = parse_header(&data);
    assert_eq!(h.id, 1234);
    assert_eq!(h.qr, QR::Response);
    assert_eq!(h.opcode, Opcode::Reserved);
    assert!(!h.aa);
    assert!(h.tc);
    assert!(!h.rd);
    assert!(h.ra);
    assert_eq!(h.z, 5);
    assert_eq!(h.rcode, RCODE::NameError);

    // Re-encoding collapses the reserved opcode to its canonical code 3, so
    // the third byte comes back as 0x9A; every other byte is reproduced.
    let bytes = dns_codec::encode::build_header(h);
    assert_eq!(bytes, vec![0x04, 0xD2, 0x9A, 0xD3, 0, 0, 0, 0, 0, 0, 0, 0]);

    // With opcode bits in the exactly-kept range the header round-trips
    // byte for byte.
    let data: [u8; 12] = [0x04, 0xD2, 0x9A, 0xD3, 0, 0, 0, 0, 0, 0, 0, 0];
    let h = parse_header(&data);
    let bytes = dns_codec::encode::build_header(h);
    assert_eq!(bytes, data.to_vec());
}

#[test]
fn test_opcode_override_sets_not_implemented() {
    // A non-query opcode forces the decoded RCODE to NotImplemented at the
    // message level.
    let mut data: Vec<u8> = vec![0u8; 12];
    data[2] = 0b0000_1000; // opcode 1 (inverse query)
    let msg = parse_message(&data).unwrap();
    assert_eq!(msg.header.opcode, Opcode::IQUERY);
    assert_eq!(msg.header.rcode, RCODE::NotImplemented);

    // A standard query keeps its RCODE.
    let data: Vec<u8> = vec![0u8; 12];
    let msg = parse_message(&data).unwrap();
    assert_eq!(msg.header.opcode, Opcode::QUERY);
    assert_eq!(msg.header.rcode, RCODE::NoError);
}
