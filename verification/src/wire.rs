//! The mathematical model of the wire format: numeric code maps, big-endian
//! byte assembly, and the spec-level decoders and encoders that the
//! executable codec is proved against.

use vstd::prelude::*;

use crate::types::{
    ClassType, DNSHeader, MessageView, Opcode, QuestionView, RecordType, RecordView, QR, RCODE,
};

verus! {

/// Numeric wire code of the QR bit.
pub open spec fn qr_code(qr: QR) -> u8 {
    match qr {
        QR::Query => 0,
        QR::Response => 1,
    }
}

/// Numeric wire code an opcode is written as; `Reserved` collapses to 3.
pub open spec fn opcode_code(op: Opcode) -> u8 {
    match op {
        Opcode::QUERY => 0,
        Opcode::IQUERY => 1,
        Opcode::STATUS => 2,
        Opcode::Reserved => 3,
    }
}

/// The opcode a numeric wire code decodes to; every code from 3 up is `Reserved`.
pub open spec fn opcode_of(v: u8) -> Opcode {
    if v == 0 {
        Opcode::QUERY
    } else if v == 1 {
        Opcode::IQUERY
    } else if v == 2 {
        Opcode::STATUS
    } else {
        Opcode::Reserved
    }
}

/// Numeric wire code an RCODE is written as; `Reserved` collapses to 6.
pub open spec fn rcode_code(rc: RCODE) -> u8 {
    match rc {
        RCODE::NoError => 0,
        RCODE::FormatError => 1,
        RCODE::ServerFailure => 2,
        RCODE::NameError => 3,
        RCODE::NotImplemented => 4,
        RCODE::Refused => 5,
        RCODE::Reserved => 6,
    }
}

/// The RCODE a numeric wire code decodes to; every code from 6 up is `Reserved`.
pub open spec fn rcode_of(v: u8) -> RCODE {
    if v == 0 {
        RCODE::NoError
    } else if v == 1 {
        RCODE::FormatError
    } else if v == 2 {
        RCODE::ServerFailure
    } else if v == 3 {
        RCODE::NameError
    } else if v == 4 {
        RCODE::NotImplemented
    } else if v == 5 {
        RCODE::Refused
    } else {
        RCODE::Reserved
    }
}

/// Numeric wire code a record type is written as; `Other` is lossy and
/// collapses to 0.
pub open spec fn rtype_code(t: RecordType) -> u16 {
    match t {
        RecordType::A => 1,
        RecordType::Other => 0,
    }
}

/// The record type a numeric wire code decodes to.
pub open spec fn rtype_of(v: u16) -> RecordType {
    if v == 1 {
        RecordType::A
    } else {
        RecordType::Other
    }
}

/// Numeric wire code a class is written as; `Other` is lossy and collapses to 0.
pub open spec fn class_code(c: ClassType) -> u16 {
    match c {
        ClassType::IN => 1,
        ClassType::Other => 0,
    }
}

/// The class a numeric wire code decodes to.
pub open spec fn class_of(v: u16) -> ClassType {
    if v == 1 {
        ClassType::IN
    } else {
        ClassType::Other
    }
}

/// A flag bit as a number.
pub open spec fn flag_bit(b: bool) -> u8 {
    if b {
        1
    } else {
        0
    }
}

/// A 16-bit value read big-endian from two bytes.
pub open spec fn be16(hi: u8, lo: u8) -> u16 {
    (hi * 256 + lo) as u16
}

/// The two big-endian bytes of a 16-bit value.
pub open spec fn be16_bytes(x: u16) -> Seq<u8> {
    seq![(x / 256) as u8, (x % 256) as u8]
}

/// A 32-bit value read big-endian from four bytes.
pub open spec fn be32(b0: u8, b1: u8, b2: u8, b3: u8) -> u32 {
    (b0 * 0x1000000 + b1 * 0x10000 + b2 * 256 + b3) as u32
}

/// The four big-endian bytes of a 32-bit value.
pub open spec fn be32_bytes(x: u32) -> Seq<u8> {
    seq![
        (x / 0x1000000) as u8,
        ((x / 0x10000) % 256) as u8,
        ((x / 256) % 256) as u8,
        (x % 256) as u8,
    ]
}

/// The third header byte: QR bit, opcode, AA, TC, RD packed together.
pub open spec fn flags_upper_byte(h: DNSHeader) -> u8 {
    (qr_code(h.qr) * 128 + opcode_code(h.opcode) * 8 + flag_bit(h.aa) * 4 + flag_bit(h.tc) * 2
        + flag_bit(h.rd)) as u8
}

/// The fourth header byte: RA bit, Z field, RCODE packed together.
/// Meaningful only for a header whose Z field fits its 3 bits.
pub open spec fn flags_lower_byte(h: DNSHeader) -> u8 {
    (flag_bit(h.ra) * 128 + h.z * 16 + rcode_code(h.rcode)) as u8
}

/// The 12 header bytes a header is written as.
pub open spec fn spec_header_bytes(h: DNSHeader) -> Seq<u8> {
    be16_bytes(h.id) + seq![flags_upper_byte(h), flags_lower_byte(h)] + be16_bytes(h.qdcount)
        + be16_bytes(h.ancount) + be16_bytes(h.nscount) + be16_bytes(h.arcount)
}

/// The header decoded from the first 12 bytes of a buffer.
/// Meaningful only when the buffer holds at least 12 bytes.
pub open spec fn spec_parse_header(s: Seq<u8>) -> DNSHeader {
    DNSHeader {
        id: be16(s[0], s[1]),
        qr: if s[2] / 128 == 0 {
            QR::Query
        } else {
            QR::Response
        },
        opcode: opcode_of((s[2] / 8) % 16),
        aa: (s[2] / 4) % 2 == 1,
        tc: (s[2] / 2) % 2 == 1,
        rd: s[2] % 2 == 1,
        ra: s[3] / 128 == 1,
        z: (s[3] / 16) % 8,
        rcode: rcode_of(s[3] % 16),
        qdcount: be16(s[4], s[5]),
        ancount: be16(s[6], s[7]),
        nscount: be16(s[8], s[9]),
        arcount: be16(s[10], s[11]),
    }
}

/// Decodes the domain name that starts at offset `i` of the section bytes
/// (the buffer with the 12 header bytes split off). Yields the expanded
/// label bytes, the offset of the last wire byte the name occupies at `i`
/// itself (the terminator, or the first pointer byte), and whether the name
/// ended in a compression pointer.
///
/// A compression pointer stores an offset relative to the whole message, so
/// the 14-bit value is adjusted by the 12 header bytes before the recursive
/// lookup. `fuel` bounds the pointer chases: a chain that is still running
/// after `fuel` hops — in particular any self-referential chain — fails
/// closed as malformed rather than looping.
pub open spec fn spec_parse_name(s: Seq<u8>, i: int, fuel: nat) -> Option<(Seq<u8>, int, bool)>
    decreases fuel, s.len() - i,
{
    if i < 0 || i >= s.len() {
        None
    } else {
        let b = s[i];
        if b >= 192 {
            // the top two bits are set: a 2-byte compression pointer ends the name
            if i + 1 >= s.len() {
                None
            } else {
                let target = (b - 192) * 256 + s[i + 1] - 12;
                if fuel == 0 || target < 0 || target >= s.len() {
                    None
                } else {
                    match spec_parse_name(s, target, (fuel - 1) as nat) {
                        Some((labels, _, _)) => Some((labels, i, true)),
                        None => None,
                    }
                }
            }
        } else if b == 0 {
            Some((seq![0u8], i, false))
        } else {
            // an ordinary label: the length byte and its content, verbatim
            if i + 1 + b > s.len() {
                None
            } else {
                match spec_parse_name(s, i + 1 + b, fuel) {
                    Some((rest, end, p)) => Some((s.subrange(i, i + 1 + b) + rest, end, p)),
                    None => None,
                }
            }
        }
    }
}

/// A decoded name never runs past the buffer: its expanded labels are
/// non-empty and the offset of its last wire byte lies inside the buffer,
/// at or after where the name started.
pub proof fn lemma_parse_name_bounds(s: Seq<u8>, i: int, fuel: nat)
    ensures
        spec_parse_name(s, i, fuel) matches Some((labels, end, p)) ==> 0 <= i <= end < s.len()
            && labels.len() > 0,
    decreases fuel, s.len() - i,
{
    if i < 0 || i >= s.len() {
    } else {
        let b = s[i];
        if b >= 192 {
            if i + 1 < s.len() {
                let target = (b - 192) * 256 + s[i + 1] - 12;
                if fuel > 0 && 0 <= target < s.len() {
                    lemma_parse_name_bounds(s, target, (fuel - 1) as nat);
                }
            }
        } else if b == 0 {
        } else {
            if i + 1 + b <= s.len() {
                lemma_parse_name_bounds(s, i + 1 + b, fuel);
            }
        }
    }
}

/// The offset at which the fields after a name resume: two bytes past a
/// terminating pointer, one byte past an ordinary zero terminator.
pub open spec fn name_after(end: int, pointer_terminated: bool) -> int {
    if pointer_terminated {
        end + 2
    } else {
        end + 1
    }
}

/// Decodes one question at offset `i` of the section bytes: a name, then the
/// 2-byte type and class codes. Yields the question and the offset after it.
pub open spec fn spec_parse_question(s: Seq<u8>, i: int) -> Option<(QuestionView, int)> {
    match spec_parse_name(s, i, s.len()) {
        Some((labels, end, p)) => {
            let cur = name_after(end, p);
            if cur + 4 > s.len() {
                None
            } else {
                Some(
                    (
                        QuestionView {
                            qname: labels,
                            qtype: rtype_of(be16(s[cur], s[cur + 1])),
                            qclass: class_of(be16(s[cur + 2], s[cur + 3])),
                        },
                        cur + 4,
                    ),
                )
            }
        },
        None => None,
    }
}

/// Decodes `n` questions in sequence starting at offset `i`.
pub open spec fn spec_parse_questions(s: Seq<u8>, n: nat, i: int) -> Option<
    (Seq<QuestionView>, int),
>
    decreases n,
{
    if n == 0 {
        Some((Seq::empty(), i))
    } else {
        match spec_parse_question(s, i) {
            Some((q, after)) => match spec_parse_questions(s, (n - 1) as nat, after) {
                Some((rest, end)) => Some((seq![q] + rest, end)),
                None => None,
            },
            None => None,
        }
    }
}

/// Decodes one resource record at offset `i` of the section bytes: a name,
/// then type, class, TTL, the declared rdata length, and exactly that many
/// raw rdata bytes. Yields the record and the offset after it.
pub open spec fn spec_parse_record(s: Seq<u8>, i: int) -> Option<(RecordView, int)> {
    match spec_parse_name(s, i, s.len()) {
        Some((labels, end, p)) => {
            let cur = name_after(end, p);
            if cur + 10 > s.len() {
                None
            } else {
                let rdlength = be16(s[cur + 8], s[cur + 9]);
                if cur + 10 + rdlength > s.len() {
                    None
                } else {
                    Some(
                        (
                            RecordView {
                                name: labels,
                                record_type: rtype_of(be16(s[cur], s[cur + 1])),
                                class: class_of(be16(s[cur + 2], s[cur + 3])),
                                ttl: be32(s[cur + 4], s[cur + 5], s[cur + 6], s[cur + 7]),
                                rdlength,
                                rdata: s.subrange(cur + 10, cur + 10 + rdlength),
                            },
                            cur + 10 + rdlength,
                        ),
                    )
                }
            }
        },
        None => None,
    }
}

/// Decodes `n` resource records in sequence starting at offset `i`.
pub open spec fn spec_parse_records(s: Seq<u8>, n: nat, i: int) -> Option<(Seq<RecordView>, int)>
    decreases n,
{
    if n == 0 {
        Some((Seq::empty(), i))
    } else {
        match spec_parse_record(s, i) {
            Some((r, after)) => match spec_parse_records(s, (n - 1) as nat, after) {
                Some((rest, end)) => Some((seq![r] + rest, end)),
                None => None,
            },
            None => None,
        }
    }
}

/// Decodes a whole datagram: the first 12 bytes feed the header codec, then
/// `qdcount` questions and `ancount` answers are read from the remainder with
/// one running cursor. If the opcode is not a standard query the RCODE is
/// overwritten with NotImplemented. Authority and additional sections are
/// never read: bytes past the answer section are ignored.
pub open spec fn spec_parse_message(s: Seq<u8>) -> Option<MessageView> {
    if s.len() < 12 {
        None
    } else {
        let h = spec_parse_header(s);
        let body = s.subrange(12, s.len() as int);
        match spec_parse_questions(body, h.qdcount as nat, 0) {
            Some((questions, cursor)) => match spec_parse_records(body, h.ancount as nat, cursor) {
                Some((answers, _)) => Some(
                    MessageView {
                        header: if h.opcode == Opcode::QUERY {
                            h
                        } else {
                            DNSHeader { rcode: RCODE::NotImplemented, ..h }
                        },
                        questions,
                        answers,
                    },
                ),
                None => None,
            },
            None => None,
        }
    }
}

/// The bytes a question is written as: the stored name verbatim, then the
/// 2-byte type and class codes. The numeric code an `Other` came from is lost.
pub open spec fn spec_question_bytes(q: QuestionView) -> Seq<u8> {
    q.qname + be16_bytes(rtype_code(q.qtype)) + be16_bytes(class_code(q.qclass))
}

/// The bytes a question section is written as, in order.
pub open spec fn spec_questions_bytes(qs: Seq<QuestionView>) -> Seq<u8>
    decreases qs.len(),
{
    if qs.len() == 0 {
        Seq::empty()
    } else {
        spec_question_bytes(qs[0]) + spec_questions_bytes(qs.drop_first())
    }
}

/// The bytes a resource record is written as: name, type, class, TTL,
/// declared rdata length, then the stored rdata verbatim.
pub open spec fn spec_record_bytes(r: RecordView) -> Seq<u8> {
    r.name + be16_bytes(rtype_code(r.record_type)) + be16_bytes(class_code(r.class))
        + be32_bytes(r.ttl) + be16_bytes(r.rdlength) + r.rdata
}

/// The bytes an answer section is written as, in order.
pub open spec fn spec_records_bytes(rs: Seq<RecordView>) -> Seq<u8>
    decreases rs.len(),
{
    if rs.len() == 0 {
        Seq::empty()
    } else {
        spec_record_bytes(rs[0]) + spec_records_bytes(rs.drop_first())
    }
}

/// The bytes a whole message is written as: header, questions, answers.
/// No authority or additional section is ever produced.
pub open spec fn spec_message_bytes(m: MessageView) -> Seq<u8> {
    spec_header_bytes(m.header) + spec_questions_bytes(m.questions) + spec_records_bytes(m.answers)
}

} // verus!
