//! The decoder: header unpacking, recursive name decompression, question,
//! record and whole-message parsing, each proved equal to its spec-level
//! counterpart in `wire`.

use vstd::prelude::*;

use crate::types::{ClassType, DNSHeader, DNSMessage, DNSQuestion, DecodeError, Opcode,
    QuestionView, RecordType, RecordView, ResourceRecord, QR, RCODE};
use crate::wire::{be16, lemma_parse_name_bounds, opcode_of, rcode_of, spec_parse_header,
    spec_parse_message, spec_parse_name, spec_parse_question, spec_parse_questions,
    spec_parse_record, spec_parse_records};

verus! {

/// Unpacks the fixed 12-byte header. Total: every byte pattern decodes.
pub fn parse_header(data: &[u8; 12]) -> (h: DNSHeader)
    ensures
        h == spec_parse_header(data@),
{
    let id: u16 = (data[0] as u16) * 256 + (data[1] as u16);

    let byte_two = data[2];

    let qr = if byte_two / 128 == 0 {
        QR::Query
    } else {
        QR::Response
    };

    let opcode = match (byte_two / 8) % 16 {
        0 => Opcode::QUERY,
        1 => Opcode::IQUERY,
        2 => Opcode::STATUS,
        _ => Opcode::Reserved,
    };

    let aa = (byte_two / 4) % 2 == 1;
    let tc = (byte_two / 2) % 2 == 1;
    let rd = byte_two % 2 == 1;

    let byte_three = data[3];

    let ra = byte_three / 128 == 1;
    let z = (byte_three / 16) % 8;

    let rcode = match byte_three % 16 {
        0 => RCODE::NoError,
        1 => RCODE::FormatError,
        2 => RCODE::ServerFailure,
        3 => RCODE::NameError,
        4 => RCODE::NotImplemented,
        5 => RCODE::Refused,
        _ => RCODE::Reserved,
    };

    let qdcount: u16 = (data[4] as u16) * 256 + (data[5] as u16);
    let ancount: u16 = (data[6] as u16) * 256 + (data[7] as u16);
    let nscount: u16 = (data[8] as u16) * 256 + (data[9] as u16);
    let arcount: u16 = (data[10] as u16) * 256 + (data[11] as u16);

    proof {
        assert(opcode == opcode_of((data@[2] / 8) % 16));
        assert(rcode == rcode_of(data@[3] % 16));
        assert(id == be16(data@[0], data@[1]));
    }

    DNSHeader { id, qr, opcode, aa, tc, rd, ra, z, rcode, qdcount, ancount, nscount, arcount }
}

/// Decodes the domain name at `start_idx` of the section bytes, resolving
/// compression pointers recursively. Yields the expanded label bytes, the
/// offset of the name's last wire byte (terminator or first pointer byte),
/// and whether it ended in a pointer. Every way the name can overrun the
/// buffer — a truncated label, a truncated or out-of-range pointer, or a
/// pointer chain that never terminates — is reported as malformed.
pub fn parse_domain(data: &Vec<u8>, start_idx: usize) -> (r: Result<
    (Vec<u8>, usize, bool),
    DecodeError,
>)
    ensures
        (match r {
            Ok((name, end, p)) => spec_parse_name(data@, start_idx as int, data@.len())
                == Some((name@, end as int, p)),
            Err(_) => spec_parse_name(data@, start_idx as int, data@.len()) is None,
        }),
{
    parse_domain_rec(data, start_idx, data.len())
}

/// The worker behind `parse_domain`: `fuel` bounds how many compression
/// pointers may be chased before the decode fails closed.
fn parse_domain_rec(data: &Vec<u8>, start_idx: usize, fuel: usize) -> (r: Result<
    (Vec<u8>, usize, bool),
    DecodeError,
>)
    ensures
        (match r {
            Ok((name, end, p)) => spec_parse_name(data@, start_idx as int, fuel as nat)
                == Some((name@, end as int, p)),
            Err(_) => spec_parse_name(data@, start_idx as int, fuel as nat) is None,
        }),
    decreases fuel, data@.len() - start_idx,
{
    if start_idx >= data.len() {
        return Err(DecodeError::MalformedMessage);
    }
    let b = data[start_idx];
    if b >= 192 {
        // a 2-byte compression pointer ends the name
        if start_idx + 1 >= data.len() {
            return Err(DecodeError::MalformedMessage);
        }
        let raw: usize = ((b - 192) as usize) * 256 + (data[start_idx + 1] as usize);
        if raw < 12 {
            return Err(DecodeError::MalformedMessage);
        }
        // the wire offset counts from the start of the message; the section
        // bytes start after the 12 header bytes
        let target: usize = raw - 12;
        if target >= data.len() || fuel == 0 {
            return Err(DecodeError::MalformedMessage);
        }
        match parse_domain_rec(data, target, fuel - 1) {
            Ok((labels, _, _)) => Ok((labels, start_idx, true)),
            Err(e) => Err(e),
        }
    } else if b == 0 {
        let mut name: Vec<u8> = Vec::new();
        name.push(0);
        Ok((name, start_idx, false))
    } else {
        // an ordinary label: length byte and content, copied verbatim
        if (b as usize) > data.len() - start_idx - 1 {
            return Err(DecodeError::MalformedMessage);
        }
        let content_end: usize = start_idx + 1 + (b as usize);
        let mut name: Vec<u8> = Vec::new();
        let mut j: usize = start_idx;
        while j < content_end
            invariant
                start_idx <= j <= content_end <= data@.len(),
                name@ == data@.subrange(start_idx as int, j as int),
            decreases content_end - j,
        {
            name.push(data[j]);
            j = j + 1;
            assert(name@ == data@.subrange(start_idx as int, j as int));
        }
        match parse_domain_rec(data, content_end, fuel) {
            Ok((mut rest, end, p)) => {
                name.append(&mut rest);
                Ok((name, end, p))
            },
            Err(e) => Err(e),
        }
    }
}

/// Relation the question loop maintains: decoding the whole section equals
/// the questions already decoded followed by whatever remains at the cursor.
spec fn questions_unroll(
    s: Seq<u8>,
    total: nat,
    done: Seq<QuestionView>,
    remaining: nat,
    cur: int,
) -> bool {
    spec_parse_questions(s, total, 0) == (match spec_parse_questions(s, remaining, cur) {
        Some((rest, end)) => Some((done + rest, end)),
        None => None::<(Seq<QuestionView>, int)>,
    })
}

/// Decodes `num_questions` questions from the start of the section bytes:
/// for each, a name, then the 2-byte type code (1 is A) and the 2-byte class
/// code (1 is IN). Yields the questions and the offset after the section.
pub fn parse_question(data: &Vec<u8>, num_questions: u16) -> (r: Result<
    (Vec<DNSQuestion>, usize),
    DecodeError,
>)
    ensures
        (match r {
            Ok((questions, end)) => spec_parse_questions(data@, num_questions as nat, 0)
                == Some((questions.deep_view(), end as int)),
            Err(_) => spec_parse_questions(data@, num_questions as nat, 0) is None,
        }),
{
    let mut questions: Vec<DNSQuestion> = Vec::new();
    let mut current: usize = 0;
    let mut k: u16 = 0;

    proof {
        match spec_parse_questions(data@, num_questions as nat, 0) {
            Some((rest, end)) => {
                assert(Seq::<QuestionView>::empty() + rest =~= rest);
            },
            None => {},
        }
    }

    while k < num_questions
        invariant
            k <= num_questions,
            questions_unroll(
                data@,
                num_questions as nat,
                questions.deep_view(),
                (num_questions - k) as nat,
                current as int,
            ),
        decreases num_questions - k,
    {
        let ghost s = data@;
        let ghost rem_old = (num_questions - k) as nat;
        let ghost old_done = questions.deep_view();
        let ghost old_cur = current as int;

        let (qname, end, is_pointer) = match parse_domain(data, current) {
            Ok(t) => t,
            Err(e) => {
                proof {
                    assert(spec_parse_question(s, old_cur) is None);
                    assert(spec_parse_questions(s, rem_old, old_cur) is None);
                }
                return Err(e);
            },
        };
        proof {
            lemma_parse_name_bounds(s, old_cur, s.len());
        }

        let need: usize = if is_pointer { 6 } else { 5 };
        if data.len() - end < need {
            proof {
                assert(spec_parse_question(s, old_cur) is None);
                assert(spec_parse_questions(s, rem_old, old_cur) is None);
            }
            return Err(DecodeError::MalformedMessage);
        }
        let cur2: usize = if is_pointer { end + 2 } else { end + 1 };

        let qtype_code: u16 = (data[cur2] as u16) * 256 + (data[cur2 + 1] as u16);
        let qtype = if qtype_code == 1 {
            RecordType::A
        } else {
            RecordType::Other
        };

        let qclass_code: u16 = (data[cur2 + 2] as u16) * 256 + (data[cur2 + 3] as u16);
        let qclass = if qclass_code == 1 {
            ClassType::IN
        } else {
            ClassType::Other
        };

        let q = DNSQuestion { qname, qtype, qclass };
        let ghost qv = q@;
        let ghost old_qseq = questions@;
        questions.push(q);
        current = cur2 + 4;
        k = k + 1;

        proof {
            let rem_new = (num_questions - k) as nat;
            assert(spec_parse_question(s, old_cur) == Some((qv, current as int)));
            assert(questions@ == old_qseq.push(q));
            assert(questions.deep_view() =~= old_done + seq![qv]);
            match spec_parse_questions(s, rem_new, current as int) {
                Some((rest, end2)) => {
                    assert((old_done + seq![qv]) + rest =~= old_done + (seq![qv] + rest));
                },
                None => {},
            }
        }
    }

    proof {
        match spec_parse_questions(data@, num_questions as nat, 0) {
            Some((rest, end)) => {
                assert(questions.deep_view() + Seq::<QuestionView>::empty()
                    =~= questions.deep_view());
            },
            None => {},
        }
    }
    Ok((questions, current))
}

/// Relation the record loop maintains: decoding the remaining records at the
/// cursor, appended to those already decoded, equals decoding the section
/// from its starting cursor.
spec fn records_unroll(
    s: Seq<u8>,
    total: nat,
    start: int,
    done: Seq<RecordView>,
    remaining: nat,
    cur: int,
) -> bool {
    spec_parse_records(s, total, start) == (match spec_parse_records(s, remaining, cur) {
        Some((rest, end)) => Some((done + rest, end)),
        None => None::<(Seq<RecordView>, int)>,
    })
}

/// Decodes `num_answers` resource records from the section bytes, starting
/// at `current_byte`: for each, a name, then type, class, TTL, the declared
/// rdata length, and exactly that many raw rdata bytes, copied verbatim.
/// Yields the records and the offset after the last one.
pub fn parse_record(data: &Vec<u8>, num_answers: u16, current_byte: usize) -> (r: Result<
    (Vec<ResourceRecord>, usize),
    DecodeError,
>)
    ensures
        (match r {
            Ok((records, end)) => spec_parse_records(
                data@,
                num_answers as nat,
                current_byte as int,
            ) == Some((records.deep_view(), end as int)),
            Err(_) => spec_parse_records(data@, num_answers as nat, current_byte as int) is None,
        }),
{
    let ghost start = current_byte as int;
    let mut records: Vec<ResourceRecord> = Vec::new();
    let mut current: usize = current_byte;
    let mut k: u16 = 0;

    proof {
        match spec_parse_records(data@, num_answers as nat, start) {
            Some((rest, end)) => {
                assert(Seq::<RecordView>::empty() + rest =~= rest);
            },
            None => {},
        }
    }

    while k < num_answers
        invariant
            start == current_byte as int,
            k <= num_answers,
            records_unroll(
                data@,
                num_answers as nat,
                start,
                records.deep_view(),
                (num_answers - k) as nat,
                current as int,
            ),
        decreases num_answers - k,
    {
        let ghost s = data@;
        let ghost rem_old = (num_answers - k) as nat;
        let ghost old_done = records.deep_view();
        let ghost old_cur = current as int;

        let (name, end, is_pointer) = match parse_domain(data, current) {
            Ok(t) => t,
            Err(e) => {
                proof {
                    assert(spec_parse_record(s, old_cur) is None);
                    assert(spec_parse_records(s, rem_old, old_cur) is None);
                }
                return Err(e);
            },
        };
        proof {
            lemma_parse_name_bounds(s, old_cur, s.len());
        }

        let need: usize = if is_pointer { 12 } else { 11 };
        if data.len() - end < need {
            proof {
                assert(spec_parse_record(s, old_cur) is None);
                assert(spec_parse_records(s, rem_old, old_cur) is None);
            }
            return Err(DecodeError::MalformedMessage);
        }
        let cur2: usize = if is_pointer { end + 2 } else { end + 1 };

        let type_code: u16 = (data[cur2] as u16) * 256 + (data[cur2 + 1] as u16);
        let record_type = if type_code == 1 {
            RecordType::A
        } else {
            RecordType::Other
        };

        let class_code: u16 = (data[cur2 + 2] as u16) * 256 + (data[cur2 + 3] as u16);
        let class = if class_code == 1 {
            ClassType::IN
        } else {
            ClassType::Other
        };

        let ttl: u32 = (data[cur2 + 4] as u32) * 0x1000000 + (data[cur2 + 5] as u32) * 0x10000 + (
        data[cur2 + 6] as u32) * 256 + (data[cur2 + 7] as u32);

        let rdlength: u16 = (data[cur2 + 8] as u16) * 256 + (data[cur2 + 9] as u16);

        if data.len() - (cur2 + 10) < rdlength as usize {
            proof {
                assert(spec_parse_record(s, old_cur) is None);
                assert(spec_parse_records(s, rem_old, old_cur) is None);
            }
            return Err(DecodeError::MalformedMessage);
        }
        let rd_end: usize = cur2 + 10 + rdlength as usize;

        let mut rdata: Vec<u8> = Vec::new();
        let mut j: usize = cur2 + 10;
        while j < rd_end
            invariant
                cur2 + 10 <= j <= rd_end <= data@.len(),
                rdata@ == data@.subrange(cur2 + 10, j as int),
            decreases rd_end - j,
        {
            rdata.push(data[j]);
            j = j + 1;
            assert(rdata@ == data@.subrange(cur2 + 10, j as int));
        }

        let record = ResourceRecord { name, record_type, class, ttl, rdlength, rdata };
        let ghost rv = record@;
        let ghost old_rseq = records@;
        records.push(record);
        current = rd_end;
        k = k + 1;

        proof {
            let rem_new = (num_answers - k) as nat;
            assert(spec_parse_record(s, old_cur) == Some((rv, current as int)));
            assert(records@ == old_rseq.push(record));
            assert(records.deep_view() =~= old_done + seq![rv]);
            match spec_parse_records(s, rem_new, current as int) {
                Some((rest, end2)) => {
                    assert((old_done + seq![rv]) + rest =~= old_done + (seq![rv] + rest));
                },
                None => {},
            }
        }
    }

    proof {
        assert(records.deep_view() + Seq::<RecordView>::empty() =~= records.deep_view());
    }
    Ok((records, current))
}

/// Copies the bytes of a buffer from `start` to its end into a fresh vector.
pub(crate) fn copy_tail(data: &Vec<u8>, start: usize) -> (out: Vec<u8>)
    requires
        start <= data@.len(),
    ensures
        out@ == data@.subrange(start as int, data@.len() as int),
{
    let mut out: Vec<u8> = Vec::new();
    let n = data.len();
    let mut j: usize = start;
    while j < n
        invariant
            start <= j <= n,
            n == data@.len(),
            out@ == data@.subrange(start as int, j as int),
        decreases n - j,
    {
        out.push(data[j]);
        j = j + 1;
        assert(out@ == data@.subrange(start as int, j as int));
    }
    out
}

/// Decodes one whole datagram. The first 12 bytes feed the header codec;
/// the remainder carries `qdcount` questions and then `ancount` answers,
/// threaded by one cursor. If the opcode is anything but a standard query
/// the RCODE is overwritten with NotImplemented. Any buffer too short for a
/// declared field, and any malformed compression pointer, is reported as
/// `MalformedMessage`; no input can make the decoder read out of bounds.
pub fn parse_message(data: &Vec<u8>) -> (r: Result<DNSMessage, DecodeError>)
    ensures
        (match r {
            Ok(message) => spec_parse_message(data@) == Some(message@),
            Err(_) => spec_parse_message(data@) is None,
        }),
{
    if data.len() < 12 {
        return Err(DecodeError::MalformedMessage);
    }
    let header_bytes: [u8; 12] = [
        data[0],
        data[1],
        data[2],
        data[3],
        data[4],
        data[5],
        data[6],
        data[7],
        data[8],
        data[9],
        data[10],
        data[11],
    ];
    let mut header = parse_header(&header_bytes);
    proof {
        assert(header == spec_parse_header(data@));
    }

    let non_header_data = copy_tail(data, 12);
    let ghost body = data@.subrange(12, data@.len() as int);

    let (questions, answer_idx) = match parse_question(&non_header_data, header.qdcount) {
        Ok(t) => t,
        Err(e) => {
            return Err(e);
        },
    };

    let (answers, _current_byte) = match parse_record(&non_header_data, header.ancount, answer_idx) {
        Ok(t) => t,
        Err(e) => {
            return Err(e);
        },
    };

    if !matches!(header.opcode, Opcode::QUERY) {
        header.rcode = RCODE::NotImplemented;
    }

    Ok(DNSMessage { header, questions, answers })
}

} // verus!
