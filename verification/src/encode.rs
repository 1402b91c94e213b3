//! The encoder: header bit-packing, question, record and whole-message
//! serialization, each proved to emit exactly the bytes the spec-level
//! encoders in `wire` describe.

use vstd::prelude::*;

use crate::types::{ClassType, DNSHeader, DNSMessage, DNSQuestion, Opcode, QuestionView,
    RecordType, RecordView, ResourceRecord, QR, RCODE};
use crate::wire::{be16_bytes, be32_bytes, class_code, flags_lower_byte, flags_upper_byte,
    rtype_code, spec_header_bytes, spec_message_bytes, spec_question_bytes,
    spec_questions_bytes, spec_record_bytes, spec_records_bytes};

verus! {

/// Appends the two big-endian bytes of a 16-bit value.
fn push_be16(out: &mut Vec<u8>, x: u16)
    ensures
        final(out)@ == old(out)@ + be16_bytes(x),
{
    out.push((x / 256) as u8);
    out.push((x % 256) as u8);
    assert(final(out)@ == old(out)@ + be16_bytes(x));
}

/// Appends the four big-endian bytes of a 32-bit value.
fn push_be32(out: &mut Vec<u8>, x: u32)
    ensures
        final(out)@ == old(out)@ + be32_bytes(x),
{
    out.push((x / 0x1000000) as u8);
    out.push(((x / 0x10000) % 256) as u8);
    out.push(((x / 256) % 256) as u8);
    out.push((x % 256) as u8);
    assert(final(out)@ == old(out)@ + be32_bytes(x));
}

/// Appends a copy of the given bytes.
fn push_bytes(out: &mut Vec<u8>, bytes: &Vec<u8>)
    ensures
        final(out)@ == old(out)@ + bytes@,
{
    let n = bytes.len();
    let mut j: usize = 0;
    while j < n
        invariant
            n == bytes@.len(),
            j <= n,
            out@ == old(out)@ + bytes@.subrange(0, j as int),
        decreases n - j,
    {
        out.push(bytes[j]);
        j = j + 1;
        assert(out@ == old(out)@ + bytes@.subrange(0, j as int));
    }
    assert(bytes@.subrange(0, n as int) == bytes@);
}

/// Packs a header into its 12 wire bytes, each field at its bit position.
/// Total over well-formed headers: the Z field must fit its 3 bits.
pub fn build_header(h: DNSHeader) -> (r: Vec<u8>)
    requires
        h.z < 8,
    ensures
        r@ == spec_header_bytes(h),
        r@.len() == 12,
{
    let mut result: Vec<u8> = Vec::new();

    push_be16(&mut result, h.id);

    let qr_bit: u8 = match h.qr {
        QR::Query => 0,
        QR::Response => 1,
    };

    let opcode: u8 = match h.opcode {
        Opcode::QUERY => 0,
        Opcode::IQUERY => 1,
        Opcode::STATUS => 2,
        Opcode::Reserved => 3,
    };

    let aa_bit: u8 = if h.aa { 1 } else { 0 };
    let tc_bit: u8 = if h.tc { 1 } else { 0 };
    let rd_bit: u8 = if h.rd { 1 } else { 0 };

    let byte_three: u8 = qr_bit * 128 + opcode * 8 + aa_bit * 4 + tc_bit * 2 + rd_bit;
    result.push(byte_three);

    let ra_bit: u8 = if h.ra { 1 } else { 0 };

    let rcode: u8 = match h.rcode {
        RCODE::NoError => 0,
        RCODE::FormatError => 1,
        RCODE::ServerFailure => 2,
        RCODE::NameError => 3,
        RCODE::NotImplemented => 4,
        RCODE::Refused => 5,
        RCODE::Reserved => 6,
    };

    let byte_four: u8 = ra_bit * 128 + h.z * 16 + rcode;
    result.push(byte_four);

    assert(byte_three == flags_upper_byte(h));
    assert(byte_four == flags_lower_byte(h));

    push_be16(&mut result, h.qdcount);
    push_be16(&mut result, h.ancount);
    push_be16(&mut result, h.nscount);
    push_be16(&mut result, h.arcount);

    assert(result@ == spec_header_bytes(h));
    result
}

/// Appends one question: the stored name verbatim, then type and class codes.
fn push_question(out: &mut Vec<u8>, q: &DNSQuestion)
    ensures
        final(out)@ == old(out)@ + spec_question_bytes(q@),
{
    push_bytes(out, &q.qname);

    let qtype: u16 = match q.qtype {
        RecordType::A => 1,
        RecordType::Other => 0,
    };
    push_be16(out, qtype);

    let qclass: u16 = match q.qclass {
        ClassType::IN => 1,
        ClassType::Other => 0,
    };
    push_be16(out, qclass);

    assert(qtype == rtype_code(q.qtype));
    assert(qclass == class_code(q.qclass));
    assert(final(out)@ == old(out)@ + spec_question_bytes(q@));
}

/// Serializes a question section, question by question, in order.
pub fn build_questions(questions: Vec<DNSQuestion>) -> (r: Vec<u8>)
    ensures
        r@ == spec_questions_bytes(questions.deep_view()),
{
    let mut result: Vec<u8> = Vec::new();
    let n = questions.len();
    let mut i: usize = 0;
    while i < n
        invariant
            n == questions@.len(),
            i <= n,
            result@ == spec_questions_bytes(questions.deep_view().take(i as int)),
        decreases n - i,
    {
        push_question(&mut result, &questions[i]);
        i = i + 1;
        proof {
            let qs = questions.deep_view();
            assert(qs.take(i as int).drop_last() =~= qs.take(i - 1));
            lemma_questions_bytes_snoc(qs.take(i as int));
            assert(qs.take(i as int).last() == qs[i - 1]);
        }
    }
    proof {
        assert(questions.deep_view().take(n as int) =~= questions.deep_view());
    }
    result
}

/// Splitting the last question off a non-empty section splits its bytes.
proof fn lemma_questions_bytes_snoc(qs: Seq<QuestionView>)
    requires
        qs.len() > 0,
    ensures
        spec_questions_bytes(qs) == spec_questions_bytes(qs.drop_last()) + spec_question_bytes(
            qs.last(),
        ),
    decreases qs.len(),
{
    if qs.len() == 1 {
        assert(spec_questions_bytes(Seq::<QuestionView>::empty()) == Seq::<u8>::empty());
        assert(qs.drop_first() =~= Seq::<QuestionView>::empty());
        assert(qs.drop_last() =~= Seq::<QuestionView>::empty());
        assert(spec_questions_bytes(qs) == spec_question_bytes(qs[0]) + Seq::<u8>::empty());
        assert(spec_question_bytes(qs[0]) + Seq::<u8>::empty() =~= spec_question_bytes(qs[0]));
        assert(Seq::<u8>::empty() + spec_question_bytes(qs[0]) =~= spec_question_bytes(qs[0]));
    } else {
        lemma_questions_bytes_snoc(qs.drop_first());
        assert(qs.drop_first().drop_last() =~= qs.drop_last().drop_first());
        assert(qs.drop_first().last() == qs.last());
        assert(qs.drop_last()[0] == qs[0]);
        assert(spec_questions_bytes(qs.drop_last()) == spec_question_bytes(qs[0])
            + spec_questions_bytes(qs.drop_last().drop_first()));
        assert((spec_question_bytes(qs[0]) + spec_questions_bytes(qs.drop_first().drop_last()))
            + spec_question_bytes(qs.last()) =~= spec_question_bytes(qs[0]) + (
        spec_questions_bytes(qs.drop_first().drop_last()) + spec_question_bytes(qs.last())));
    }
}

/// Appends one record: name, type, class, TTL, declared length, raw rdata.
fn push_record(out: &mut Vec<u8>, r: &ResourceRecord)
    ensures
        final(out)@ == old(out)@ + spec_record_bytes(r@),
{
    push_bytes(out, &r.name);

    let record_type: u16 = match r.record_type {
        RecordType::A => 1,
        RecordType::Other => 0,
    };
    push_be16(out, record_type);

    let class: u16 = match r.class {
        ClassType::IN => 1,
        ClassType::Other => 0,
    };
    push_be16(out, class);

    push_be32(out, r.ttl);
    push_be16(out, r.rdlength);
    push_bytes(out, &r.rdata);

    assert(record_type == rtype_code(r.record_type));
    assert(class == class_code(r.class));
    assert(final(out)@ == old(out)@ + spec_record_bytes(r@));
}

/// Serializes an answer section, record by record, in order; the rdata of
/// each record is written exactly as stored.
pub fn build_records(records: Vec<ResourceRecord>) -> (r: Vec<u8>)
    ensures
        r@ == spec_records_bytes(records.deep_view()),
{
    let mut result: Vec<u8> = Vec::new();
    let n = records.len();
    let mut i: usize = 0;
    while i < n
        invariant
            n == records@.len(),
            i <= n,
            result@ == spec_records_bytes(records.deep_view().take(i as int)),
        decreases n - i,
    {
        push_record(&mut result, &records[i]);
        i = i + 1;
        proof {
            let rs = records.deep_view();
            assert(rs.take(i as int).drop_last() =~= rs.take(i - 1));
            lemma_records_bytes_snoc(rs.take(i as int));
            assert(rs.take(i as int).last() == rs[i - 1]);
        }
    }
    proof {
        assert(records.deep_view().take(n as int) =~= records.deep_view());
    }
    result
}

/// Splitting the last record off a non-empty section splits its bytes.
proof fn lemma_records_bytes_snoc(rs: Seq<RecordView>)
    requires
        rs.len() > 0,
    ensures
        spec_records_bytes(rs) == spec_records_bytes(rs.drop_last()) + spec_record_bytes(
            rs.last(),
        ),
    decreases rs.len(),
{
    if rs.len() == 1 {
        assert(spec_records_bytes(Seq::<RecordView>::empty()) == Seq::<u8>::empty());
        assert(rs.drop_first() =~= Seq::<RecordView>::empty());
        assert(rs.drop_last() =~= Seq::<RecordView>::empty());
        assert(spec_records_bytes(rs) == spec_record_bytes(rs[0]) + Seq::<u8>::empty());
        assert(spec_record_bytes(rs[0]) + Seq::<u8>::empty() =~= spec_record_bytes(rs[0]));
        assert(Seq::<u8>::empty() + spec_record_bytes(rs[0]) =~= spec_record_bytes(rs[0]));
    } else {
        lemma_records_bytes_snoc(rs.drop_first());
        assert(rs.drop_first().drop_last() =~= rs.drop_last().drop_first());
        assert(rs.drop_first().last() == rs.last());
        assert(rs.drop_last()[0] == rs[0]);
        assert(spec_records_bytes(rs.drop_last()) == spec_record_bytes(rs[0])
            + spec_records_bytes(rs.drop_last().drop_first()));
        assert((spec_record_bytes(rs[0]) + spec_records_bytes(rs.drop_first().drop_last()))
            + spec_record_bytes(rs.last()) =~= spec_record_bytes(rs[0]) + (spec_records_bytes(
            rs.drop_first().drop_last(),
        ) + spec_record_bytes(rs.last())));
    }
}

/// Serializes a whole message: header bytes, then every question's bytes in
/// order, then every answer's bytes in order. The caller is responsible for
/// count fields that match the stored sections.
pub fn build_message(message: DNSMessage) -> (r: Vec<u8>)
    requires
        message.header.z < 8,
    ensures
        r@ == spec_message_bytes(message@),
{
    let mut result = build_header(message.header);
    let mut question_bytes = build_questions(message.questions);
    let mut record_bytes = build_records(message.answers);
    result.append(&mut question_bytes);
    result.append(&mut record_bytes);
    result
}

} // verus!
