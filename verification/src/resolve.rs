//! Answer synthesis: the local stub resolver that answers every question
//! with a fixed IPv4 address, and the assembly steps a forwarding loop
//! needs around its per-question upstream round trips.

use vstd::prelude::*;

use crate::encode::build_message;
use crate::parse::{copy_tail, parse_message};
use crate::types::{ClassType, DNSHeader, DNSMessage, DNSQuestion, DecodeError, MessageView,
    QuestionView, RecordType, RecordView, ResourceRecord, QR};
use crate::wire::{spec_message_bytes, spec_parse_message};

verus! {

/// The questions of a locally resolved response: each name kept, each type
/// and class rewritten to A/IN.
pub open spec fn resolved_questions(qs: Seq<QuestionView>) -> Seq<QuestionView> {
    Seq::new(
        qs.len(),
        |i: int|
            QuestionView {
                qname: qs[i].qname,
                qtype: RecordType::A,
                qclass: ClassType::IN,
            },
    )
}

/// The rdata of every locally fabricated answer: one fixed IPv4 address.
pub open spec fn fixed_address_rdata() -> Seq<u8> {
    seq![192u8, 168u8, 0u8, 6u8]
}

/// The answers a local resolution fabricates: one A/IN record per question,
/// carrying the question's name and the fixed address.
pub open spec fn synthesized_answers(qs: Seq<QuestionView>) -> Seq<RecordView> {
    Seq::new(
        qs.len(),
        |i: int|
            RecordView {
                name: qs[i].qname,
                record_type: RecordType::A,
                class: ClassType::IN,
                ttl: 0,
                rdlength: 4,
                rdata: fixed_address_rdata(),
            },
    )
}

/// What local resolution does to a decoded message: mark it a response,
/// clear AA, TC, RA and Z, rewrite the questions to A/IN, append one
/// fabricated answer per question, and set the answer count to the new
/// answer total (truncated to its 16 bits).
pub open spec fn spec_resolve(m: MessageView) -> MessageView {
    let answers = m.answers + synthesized_answers(m.questions);
    MessageView {
        header: DNSHeader {
            qr: QR::Response,
            aa: false,
            tc: false,
            ra: false,
            z: 0,
            ancount: (answers.len() % 0x10000) as u16,
            ..m.header
        },
        questions: resolved_questions(m.questions),
        answers,
    }
}

/// Copies a byte vector.
fn clone_bytes(v: &Vec<u8>) -> (out: Vec<u8>)
    ensures
        out@ == v@,
{
    let out = copy_tail(v, 0);
    proof {
        assert(v@.subrange(0, v@.len() as int) =~= v@);
    }
    out
}

/// Decodes one datagram and produces the locally resolved response bytes:
/// every question is answered with a fixed IPv4 address. A datagram that
/// does not decode is reported as malformed.
pub fn resolve_request(data: Vec<u8>) -> (r: Result<Vec<u8>, DecodeError>)
    ensures
        (match r {
            Ok(out) => spec_parse_message(data@) matches Some(m) && out@ == spec_message_bytes(
                spec_resolve(m),
            ),
            Err(_) => spec_parse_message(data@) is None,
        }),
{
    let msg = match parse_message(&data) {
        Ok(m) => m,
        Err(e) => {
            return Err(e);
        },
    };
    let ghost m = msg@;
    let DNSMessage { header, questions, answers } = msg;
    let ghost qsv = questions.deep_view();
    let ghost ansv = answers.deep_view();

    let mut new_questions: Vec<DNSQuestion> = Vec::new();
    let mut answers = answers;

    let n = questions.len();
    let mut i: usize = 0;
    proof {
        assert(new_questions.deep_view() =~= resolved_questions(qsv).take(0));
        assert(answers.deep_view() =~= ansv + synthesized_answers(qsv).take(0));
    }
    while i < n
        invariant
            i <= n,
            n == questions@.len(),
            qsv == questions.deep_view(),
            new_questions.deep_view() == resolved_questions(qsv).take(i as int),
            answers.deep_view() == ansv + synthesized_answers(qsv).take(i as int),
        decreases n - i,
    {
        let ghost old_q = new_questions.deep_view();
        let ghost old_a = answers.deep_view();

        let qname = clone_bytes(&questions[i].qname);
        let q = DNSQuestion { qname, qtype: RecordType::A, qclass: ClassType::IN };
        let ghost qv = q@;
        let ghost old_qseq = new_questions@;
        new_questions.push(q);

        let name = clone_bytes(&questions[i].qname);
        let mut rdata: Vec<u8> = Vec::new();
        rdata.push(192);
        rdata.push(168);
        rdata.push(0);
        rdata.push(6);
        proof {
            assert(rdata@ =~= fixed_address_rdata());
        }
        let answer = ResourceRecord {
            name,
            record_type: RecordType::A,
            class: ClassType::IN,
            ttl: 0,
            rdlength: 4,
            rdata,
        };
        let ghost av = answer@;
        let ghost old_aseq = answers@;
        answers.push(answer);

        i = i + 1;

        proof {
            let ii = i as int;
            assert(new_questions@ == old_qseq.push(q));
            assert(answers@ == old_aseq.push(answer));
            assert(qsv[ii - 1] == questions@[ii - 1].deep_view());
            assert(qv == resolved_questions(qsv)[ii - 1]);
            assert(av == synthesized_answers(qsv)[ii - 1]);
            assert(new_questions.deep_view() =~= old_q.push(qv));
            assert(old_q.push(qv) =~= resolved_questions(qsv).take(ii));
            assert(answers.deep_view() =~= old_a.push(av));
            assert(old_a.push(av) =~= ansv + synthesized_answers(qsv).take(ii));
        }
    }

    proof {
        assert(resolved_questions(qsv).take(n as int) =~= resolved_questions(qsv));
        assert(synthesized_answers(qsv).take(n as int) =~= synthesized_answers(qsv));
        assert(answers.deep_view() == ansv + synthesized_answers(qsv));
    }

    let ancount: u16 = (answers.len() % 0x10000) as u16;
    let new_header = DNSHeader {
        qr: QR::Response,
        aa: false,
        tc: false,
        ra: false,
        z: 0,
        ancount,
        ..header
    };

    let response = DNSMessage { header: new_header, questions: new_questions, answers };
    proof {
        assert(response@ == spec_resolve(m));
    }
    Ok(build_message(response))
}

/// The header a per-question upstream query carries: the original header
/// with its question count set to the one question being forwarded.
pub open spec fn spec_forward_query(h: DNSHeader, q: QuestionView) -> MessageView {
    MessageView {
        header: DNSHeader { qdcount: 1, ..h },
        questions: seq![q],
        answers: Seq::empty(),
    }
}

/// Builds the bytes of the one-question query a forwarding loop sends
/// upstream for a single question of the original message.
pub fn build_query_for_question(header: DNSHeader, question: &DNSQuestion) -> (r: Vec<u8>)
    requires
        header.z < 8,
    ensures
        r@ == spec_message_bytes(spec_forward_query(header, question@)),
{
    let h = DNSHeader { qdcount: 1, ..header };
    let qname = clone_bytes(&question.qname);
    let mut questions: Vec<DNSQuestion> = Vec::new();
    questions.push(DNSQuestion { qname, qtype: question.qtype, qclass: question.qclass });
    let answers: Vec<ResourceRecord> = Vec::new();
    proof {
        assert(questions.deep_view() =~= seq![question@]);
        assert(answers.deep_view() =~= Seq::<RecordView>::empty());
    }
    build_message(DNSMessage { header: h, questions, answers })
}

/// What the end of a forwarding round does to the original message: mark it
/// a response, replace the answers with everything collected upstream, and
/// set the answer count to the collected total (truncated to its 16 bits).
pub open spec fn spec_forward_response(m: MessageView, answers: Seq<RecordView>) -> MessageView {
    MessageView {
        header: DNSHeader {
            qr: QR::Response,
            ancount: (answers.len() % 0x10000) as u16,
            ..m.header
        },
        questions: m.questions,
        answers,
    }
}

/// Builds the final response bytes of a forwarding round: the original
/// message, marked as a response and carrying the collected answers.
pub fn finalize_forward_response(message: DNSMessage, answers: Vec<ResourceRecord>) -> (r: Vec<
    u8,
>)
    requires
        message.header.z < 8,
    ensures
        r@ == spec_message_bytes(spec_forward_response(message@, answers.deep_view())),
{
    let ghost m = message@;
    let DNSMessage { header, questions, answers: _discarded } = message;
    let ancount: u16 = (answers.len() % 0x10000) as u16;
    let new_header = DNSHeader { qr: QR::Response, ancount, ..header };
    let response = DNSMessage { header: new_header, questions, answers };
    proof {
        assert(response@ == spec_forward_response(m, response@.answers));
    }
    build_message(response)
}

} // verus!
