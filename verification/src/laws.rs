//! The codec's global guarantees, proved over the spec-level model: the
//! header bit layout is a bijection, a compression pointer expands to the
//! bytes of the name written in full at its target, a record consumes and
//! reproduces exactly its declared rdata, and a well-formed query datagram
//! survives a decode/encode round trip byte for byte.

use vstd::prelude::*;

use crate::types::{ClassType, DNSHeader, MessageView, Opcode, QuestionView, RecordType,
    RecordView, RCODE};
use crate::wire::{be16, be16_bytes, be32, be32_bytes, flag_bit, flags_lower_byte,
    flags_upper_byte, opcode_code, qr_code, rcode_code, spec_header_bytes, spec_message_bytes,
    spec_parse_header, spec_parse_message, spec_parse_name, spec_parse_question,
    spec_parse_questions, spec_parse_record, spec_parse_records, spec_question_bytes,
    spec_questions_bytes, spec_record_bytes, spec_records_bytes};

verus! {

/// Splitting a 16-bit value into its two big-endian bytes and reassembling
/// them is the identity, in both directions.
proof fn lemma_be16_split(hi: u8, lo: u8)
    ensures
        be16(hi, lo) / 256 == hi,
        be16(hi, lo) % 256 == lo,
{
    assert(((hi as u16) * 256 + (lo as u16)) / 256 == hi as u16) by (bit_vector);
    assert(((hi as u16) * 256 + (lo as u16)) % 256 == lo as u16) by (bit_vector);
}

/// Splitting a 32-bit value read from four bytes yields those bytes again.
proof fn lemma_be32_split(b0: u8, b1: u8, b2: u8, b3: u8)
    ensures
        be32(b0, b1, b2, b3) / 0x1000000 == b0,
        (be32(b0, b1, b2, b3) / 0x10000) % 256 == b1,
        (be32(b0, b1, b2, b3) / 256) % 256 == b2,
        be32(b0, b1, b2, b3) % 256 == b3,
{
    assert(((b0 as u32) * 0x1000000 + (b1 as u32) * 0x10000 + (b2 as u32) * 256 + (b3 as u32))
        / 0x1000000 == b0 as u32) by (bit_vector);
    assert((((b0 as u32) * 0x1000000 + (b1 as u32) * 0x10000 + (b2 as u32) * 256 + (b3 as u32))
        / 0x10000) % 256 == b1 as u32) by (bit_vector);
    assert((((b0 as u32) * 0x1000000 + (b1 as u32) * 0x10000 + (b2 as u32) * 256 + (b3 as u32))
        / 256) % 256 == b2 as u32) by (bit_vector);
    assert(((b0 as u32) * 0x1000000 + (b1 as u32) * 0x10000 + (b2 as u32) * 256 + (b3 as u32))
        % 256 == b3 as u32) by (bit_vector);
}

/// The two big-endian bytes of a 16-bit value reassemble to that value.
proof fn lemma_be16_join(x: u16)
    ensures
        be16((x / 256) as u8, (x % 256) as u8) == x,
{
    assert(((x / 256) as u8 as u16) * 256 + ((x % 256) as u8 as u16) == x) by (bit_vector);
}

/// The four big-endian bytes of a 32-bit value reassemble to that value.
proof fn lemma_be32_join(x: u32)
    ensures
        be32((x / 0x1000000) as u8, ((x / 0x10000) % 256) as u8, ((x / 256) % 256) as u8, (x
            % 256) as u8) == x,
{
    assert(((x / 0x1000000) as u8 as u32) * 0x1000000 + (((x / 0x10000) % 256) as u8 as u32)
        * 0x10000 + (((x / 256) % 256) as u8 as u32) * 256 + ((x % 256) as u8 as u32) == x)
        by (bit_vector);
}

/// Every byte is the sum of the bit fields the third header byte is read as.
proof fn lemma_upper_byte_digits(b: u8)
    ensures
        b / 128 <= 1,
        (b / 128) * 128 + ((b / 8) % 16) * 8 + ((b / 4) % 2) * 4 + ((b / 2) % 2) * 2 + b % 2 == b,
{
    assert(b / 128 <= 1) by (bit_vector);
    assert((b / 128) * 128 + ((b / 8) % 16) * 8 + ((b / 4) % 2) * 4 + ((b / 2) % 2) * 2 + b % 2
        == b) by (bit_vector);
}

/// Every byte is the sum of the bit fields the fourth header byte is read as.
proof fn lemma_lower_byte_digits(b: u8)
    ensures
        b / 128 <= 1,
        (b / 128) * 128 + ((b / 16) % 8) * 16 + b % 16 == b,
{
    assert(b / 128 <= 1) by (bit_vector);
    assert((b / 128) * 128 + ((b / 16) % 8) * 16 + b % 16 == b) by (bit_vector);
}

/// Packing the five upper flag fields and reading each back is the identity.
proof fn lemma_upper_byte_fields(q: u8, o: u8, a: u8, t: u8, r: u8)
    requires
        q <= 1,
        o <= 15,
        a <= 1,
        t <= 1,
        r <= 1,
    ensures
        (q * 128 + o * 8 + a * 4 + t * 2 + r) / 128 == q,
        ((q * 128 + o * 8 + a * 4 + t * 2 + r) / 8) % 16 == o,
        ((q * 128 + o * 8 + a * 4 + t * 2 + r) / 4) % 2 == a,
        ((q * 128 + o * 8 + a * 4 + t * 2 + r) / 2) % 2 == t,
        (q * 128 + o * 8 + a * 4 + t * 2 + r) % 2 == r,
{
    assert((q * 128 + o * 8 + a * 4 + t * 2 + r) / 128 == q && ((q * 128 + o * 8 + a * 4 + t * 2
        + r) / 8) % 16 == o && ((q * 128 + o * 8 + a * 4 + t * 2 + r) / 4) % 2 == a && ((q * 128
        + o * 8 + a * 4 + t * 2 + r) / 2) % 2 == t && (q * 128 + o * 8 + a * 4 + t * 2 + r) % 2
        == r) by (bit_vector)
        requires
            q <= 1 && o <= 15 && a <= 1 && t <= 1 && r <= 1,
    ;
}

/// Packing the three lower flag fields and reading each back is the identity.
proof fn lemma_lower_byte_fields(ra: u8, z: u8, rc: u8)
    requires
        ra <= 1,
        z <= 7,
        rc <= 15,
    ensures
        (ra * 128 + z * 16 + rc) / 128 == ra,
        ((ra * 128 + z * 16 + rc) / 16) % 8 == z,
        (ra * 128 + z * 16 + rc) % 16 == rc,
{
    assert((ra * 128 + z * 16 + rc) / 128 == ra && ((ra * 128 + z * 16 + rc) / 16) % 8 == z && (
    ra * 128 + z * 16 + rc) % 16 == rc) by (bit_vector)
        requires
            ra <= 1 && z <= 7 && rc <= 15,
    ;
}

/// Packing a header into its 12 bytes and unpacking them restores every
/// field: one direction of the header bijection, over every header whose
/// Z field fits its 3 bits.
pub proof fn lemma_header_pack_unpack(h: DNSHeader)
    requires
        h.z < 8,
    ensures
        spec_parse_header(spec_header_bytes(h)) == h,
{
    let s = spec_header_bytes(h);
    assert(s.len() == 12);
    assert(s[0] == (h.id / 256) as u8 && s[1] == (h.id % 256) as u8 && s[2] == flags_upper_byte(h)
        && s[3] == flags_lower_byte(h) && s[4] == (h.qdcount / 256) as u8 && s[5] == (h.qdcount
        % 256) as u8 && s[6] == (h.ancount / 256) as u8 && s[7] == (h.ancount % 256) as u8 && s[8]
        == (h.nscount / 256) as u8 && s[9] == (h.nscount % 256) as u8 && s[10] == (h.arcount
        / 256) as u8 && s[11] == (h.arcount % 256) as u8);

    lemma_be16_join(h.id);
    lemma_be16_join(h.qdcount);
    lemma_be16_join(h.ancount);
    lemma_be16_join(h.nscount);
    lemma_be16_join(h.arcount);

    lemma_upper_byte_fields(
        qr_code(h.qr),
        opcode_code(h.opcode),
        flag_bit(h.aa),
        flag_bit(h.tc),
        flag_bit(h.rd),
    );
    lemma_lower_byte_fields(flag_bit(h.ra), h.z, rcode_code(h.rcode));
}

/// Unpacking 12 header bytes and packing the fields again reproduces the
/// bytes: the other direction of the header bijection. It asks only that
/// the opcode and RCODE bits lie in the ranges the closed variants keep
/// exactly; outside them those fields collapse lossily into a reserved
/// variant. The buffer may extend past the header; only the first 12 bytes
/// are spoken of.
pub proof fn lemma_header_unpack_pack(s: Seq<u8>)
    requires
        s.len() >= 12,
        (s[2] / 8) % 16 <= 3,
        s[3] % 16 <= 6,
    ensures
        spec_header_bytes(spec_parse_header(s)) == s.subrange(0, 12),
{
    let h = spec_parse_header(s);

    lemma_be16_split(s[0], s[1]);
    lemma_be16_split(s[4], s[5]);
    lemma_be16_split(s[6], s[7]);
    lemma_be16_split(s[8], s[9]);
    lemma_be16_split(s[10], s[11]);

    lemma_upper_byte_digits(s[2]);
    assert(qr_code(h.qr) == s[2] / 128);
    assert(opcode_code(h.opcode) == (s[2] / 8) % 16);
    assert(flag_bit(h.aa) == (s[2] / 4) % 2);
    assert(flag_bit(h.tc) == (s[2] / 2) % 2);
    assert(flag_bit(h.rd) == s[2] % 2);
    assert(flags_upper_byte(h) == s[2]);

    lemma_lower_byte_digits(s[3]);
    assert(flag_bit(h.ra) == s[3] / 128);
    assert(h.z == (s[3] / 16) % 8);
    assert(rcode_code(h.rcode) == s[3] % 16);
    assert(flags_lower_byte(h) == s[3]);

    assert(spec_header_bytes(h) =~= s.subrange(0, 12));
}

/// A name written out in full starts at `i`: a run of labels, each a length
/// byte between 1 and 63 followed by that many content bytes, ending with a
/// zero length byte, all inside the buffer and free of pointers.
pub open spec fn wf_plain_name(s: Seq<u8>, i: int) -> bool
    decreases s.len() - i,
{
    0 <= i < s.len() && (s[i] == 0 || (0 < s[i] < 64 && i + 1 + s[i] <= s.len() && wf_plain_name(
        s,
        i + 1 + s[i],
    )))
}

/// One past the zero terminator of the name written in full at `i`.
/// Meaningful only where `wf_plain_name` holds.
pub open spec fn plain_name_end(s: Seq<u8>, i: int) -> int
    decreases s.len() - i,
{
    if 0 <= i < s.len() {
        if s[i] == 0 {
            i + 1
        } else if 0 < s[i] < 64 && i + 1 + s[i] <= s.len() {
            plain_name_end(s, i + 1 + s[i])
        } else {
            i
        }
    } else {
        i
    }
}

/// A name written out in full decodes, with any fuel, to exactly its own
/// bytes: the labels come back verbatim, the cursor stops on the zero
/// terminator, and no pointer is involved.
pub proof fn lemma_plain_name_parses(s: Seq<u8>, i: int, fuel: nat)
    requires
        wf_plain_name(s, i),
    ensures
        i < plain_name_end(s, i) <= s.len(),
        spec_parse_name(s, i, fuel) == Some(
            (s.subrange(i, plain_name_end(s, i)), plain_name_end(s, i) - 1, false),
        ),
    decreases s.len() - i,
{
    let e = plain_name_end(s, i);
    if s[i] == 0 {
        assert(s.subrange(i, i + 1) =~= seq![0u8]);
    } else {
        let next = i + 1 + s[i];
        lemma_plain_name_parses(s, next, fuel);
        let rest = s.subrange(next, e);
        assert(spec_parse_name(s, i, fuel) == Some((s.subrange(i, next) + rest, e - 1, false)));
        assert(s.subrange(i, next) + rest =~= s.subrange(i, e));
    }
}

/// Decoding a name that is a compression pointer yields label bytes
/// identical to decoding the name written out in full at the pointer's
/// target, and leaves the cursor on the pointer itself.
pub proof fn lemma_pointer_expands_target(s: Seq<u8>, i: int, fuel: nat)
    requires
        0 <= i,
        i + 1 < s.len(),
        s[i] >= 192,
        (s[i] - 192) * 256 + s[i + 1] >= 12,
        (s[i] - 192) * 256 + s[i + 1] - 12 < s.len(),
        wf_plain_name(s, (s[i] - 192) * 256 + s[i + 1] - 12),
        fuel >= 1,
    ensures
        ({
            let target = (s[i] - 192) * 256 + s[i + 1] - 12;
            spec_parse_name(s, i, fuel) == Some(
                (s.subrange(target, plain_name_end(s, target)), i, true),
            )
        }),
{
    let target = (s[i] - 192) * 256 + s[i + 1] - 12;
    lemma_plain_name_parses(s, target, (fuel - 1) as nat);
}

/// A record consumes exactly the rdata bytes its declared length announces
/// — the cursor after it sits `rdlength` bytes past the fixed fields — and
/// re-encoding the record reproduces those bytes unchanged as its suffix.
pub proof fn lemma_record_rdata_exact(s: Seq<u8>, i: int)
    ensures
        spec_parse_record(s, i) matches Some((r, end)) ==> {
            &&& r.rdata.len() == r.rdlength
            &&& i < end - 10 - r.rdlength
            &&& r.rdata == s.subrange(end - r.rdlength, end)
            &&& spec_record_bytes(r).len() > r.rdlength
            &&& spec_record_bytes(r).subrange(
                spec_record_bytes(r).len() - r.rdlength,
                spec_record_bytes(r).len() as int,
            ) == r.rdata
        },
{
    match spec_parse_record(s, i) {
        Some((r, end)) => {
            crate::wire::lemma_parse_name_bounds(s, i, s.len());
            let b = spec_record_bytes(r);
            assert(b.len() == r.name.len() + 10 + r.rdata.len());
            assert(b.subrange(b.len() - r.rdlength, b.len() as int) =~= r.rdata);
        },
        None => {},
    }
}

/// A question section written out in full starts at `i`: `n` questions,
/// each a plain (pointerless) name followed by the A type code and the IN
/// class code, laid end to end inside the buffer.
pub open spec fn wf_questions(s: Seq<u8>, n: nat, i: int) -> bool
    decreases n,
{
    if n == 0 {
        0 <= i <= s.len()
    } else {
        wf_plain_name(s, i) && {
            let e = plain_name_end(s, i);
            e + 4 <= s.len() && s[e] == 0 && s[e + 1] == 1 && s[e + 2] == 0 && s[e + 3] == 1
                && wf_questions(s, (n - 1) as nat, e + 4)
        }
    }
}

/// One past the last byte of the well-formed question section at `i`.
pub open spec fn questions_end(s: Seq<u8>, n: nat, i: int) -> int
    decreases n,
{
    if n == 0 {
        i
    } else if wf_plain_name(s, i) {
        questions_end(s, (n - 1) as nat, plain_name_end(s, i) + 4)
    } else {
        i
    }
}

/// A well-formed question section decodes in full, and re-encoding the
/// decoded questions reproduces its bytes exactly.
pub proof fn lemma_questions_parse(s: Seq<u8>, n: nat, i: int)
    requires
        wf_questions(s, n, i),
    ensures
        spec_parse_questions(s, n, i) is Some,
        spec_parse_questions(s, n, i) matches Some((qs, end)) ==> {
            &&& end == questions_end(s, n, i)
            &&& i <= end <= s.len()
            &&& spec_questions_bytes(qs) == s.subrange(i, end)
        },
    decreases n,
{
    if n == 0 {
        assert(s.subrange(i, i) =~= Seq::<u8>::empty());
    } else {
        let e = plain_name_end(s, i);
        lemma_plain_name_parses(s, i, s.len());
        let q = QuestionView {
            qname: s.subrange(i, e),
            qtype: RecordType::A,
            qclass: ClassType::IN,
        };
        assert(be16(s[e], s[e + 1]) == 1);
        assert(be16(s[e + 2], s[e + 3]) == 1);
        assert(spec_parse_question(s, i) == Some((q, e + 4)));
        lemma_questions_parse(s, (n - 1) as nat, e + 4);
        match spec_parse_questions(s, (n - 1) as nat, e + 4) {
            Some((rest, end)) => {
                assert(spec_parse_questions(s, n, i) == Some((seq![q] + rest, end)));
                assert(be16_bytes(1) =~= seq![0u8, 1u8]);
                assert(spec_question_bytes(q) =~= s.subrange(i, e + 4));
                let all = seq![q] + rest;
                assert(all[0] == q);
                assert(all.drop_first() =~= rest);
                assert(spec_questions_bytes(all) == spec_question_bytes(q)
                    + spec_questions_bytes(rest));
                assert(s.subrange(i, e + 4) + s.subrange(e + 4, end) =~= s.subrange(i, end));
            },
            None => {
                assert(false);
            },
        }
    }
}

/// An answer section written out in full starts at `i`: `n` records, each a
/// plain name, the A type code, the IN class code, a TTL, a declared rdata
/// length, and exactly that many rdata bytes, laid end to end in the buffer.
pub open spec fn wf_records(s: Seq<u8>, n: nat, i: int) -> bool
    decreases n,
{
    if n == 0 {
        0 <= i <= s.len()
    } else {
        wf_plain_name(s, i) && {
            let e = plain_name_end(s, i);
            e + 10 <= s.len() && s[e] == 0 && s[e + 1] == 1 && s[e + 2] == 0 && s[e + 3] == 1 && {
                let rdlen = be16(s[e + 8], s[e + 9]);
                e + 10 + rdlen <= s.len() && wf_records(s, (n - 1) as nat, e + 10 + rdlen)
            }
        }
    }
}

/// One past the last byte of the well-formed answer section at `i`.
pub open spec fn records_end(s: Seq<u8>, n: nat, i: int) -> int
    decreases n,
{
    if n == 0 {
        i
    } else if wf_plain_name(s, i) {
        let e = plain_name_end(s, i);
        if e + 10 <= s.len() {
            records_end(s, (n - 1) as nat, e + 10 + be16(s[e + 8], s[e + 9]))
        } else {
            i
        }
    } else {
        i
    }
}

/// A well-formed answer section decodes in full, and re-encoding the
/// decoded records reproduces its bytes exactly.
pub proof fn lemma_records_parse(s: Seq<u8>, n: nat, i: int)
    requires
        wf_records(s, n, i),
    ensures
        spec_parse_records(s, n, i) is Some,
        spec_parse_records(s, n, i) matches Some((rs, end)) ==> {
            &&& end == records_end(s, n, i)
            &&& i <= end <= s.len()
            &&& spec_records_bytes(rs) == s.subrange(i, end)
        },
    decreases n,
{
    if n == 0 {
        assert(s.subrange(i, i) =~= Seq::<u8>::empty());
    } else {
        let e = plain_name_end(s, i);
        lemma_plain_name_parses(s, i, s.len());
        let rdlen = be16(s[e + 8], s[e + 9]);
        let r = RecordView {
            name: s.subrange(i, e),
            record_type: RecordType::A,
            class: ClassType::IN,
            ttl: be32(s[e + 4], s[e + 5], s[e + 6], s[e + 7]),
            rdlength: rdlen,
            rdata: s.subrange(e + 10, e + 10 + rdlen),
        };
        assert(be16(s[e], s[e + 1]) == 1);
        assert(be16(s[e + 2], s[e + 3]) == 1);
        assert(spec_parse_record(s, i) == Some((r, e + 10 + rdlen)));
        lemma_records_parse(s, (n - 1) as nat, e + 10 + rdlen);
        match spec_parse_records(s, (n - 1) as nat, e + 10 + rdlen) {
            Some((rest, end)) => {
                assert(spec_parse_records(s, n, i) == Some((seq![r] + rest, end)));
                assert(be16_bytes(1) =~= seq![0u8, 1u8]);
                lemma_be32_split(s[e + 4], s[e + 5], s[e + 6], s[e + 7]);
                assert(be32_bytes(r.ttl) =~= seq![s[e + 4], s[e + 5], s[e + 6], s[e + 7]]);
                lemma_be16_split(s[e + 8], s[e + 9]);
                assert(be16_bytes(rdlen) =~= seq![s[e + 8], s[e + 9]]);
                assert(spec_record_bytes(r) =~= s.subrange(i, e + 10 + rdlen));
                let all = seq![r] + rest;
                assert(all[0] == r);
                assert(all.drop_first() =~= rest);
                assert(spec_records_bytes(all) == spec_record_bytes(r) + spec_records_bytes(rest));
                assert(s.subrange(i, e + 10 + rdlen) + s.subrange(e + 10 + rdlen, end)
                    =~= s.subrange(i, end));
            },
            None => {
                assert(false);
            },
        }
    }
}

/// A whole datagram written out in full: at least the fixed header, the
/// opcode bits a standard query, the RCODE bits in the exactly-kept range,
/// then the declared number of questions and answer records — all with
/// plain names and A/IN codes — filling the buffer to its very end.
pub open spec fn wf_query_message(s: Seq<u8>) -> bool {
    &&& s.len() >= 12
    &&& (s[2] / 8) % 16 == 0
    &&& s[3] % 16 <= 6
    &&& ({
        let body = s.subrange(12, s.len() as int);
        let qd = be16(s[4], s[5]) as nat;
        let an = be16(s[6], s[7]) as nat;
        &&& wf_questions(body, qd, 0)
        &&& wf_records(body, an, questions_end(body, qd, 0))
        &&& records_end(body, an, questions_end(body, qd, 0)) == body.len()
    })
}

/// The round trip: a well-formed query datagram — standard query opcode,
/// names written out in full, A/IN codes everywhere — decodes successfully,
/// and encoding the decoded message reproduces the input byte for byte.
pub proof fn lemma_query_round_trip(s: Seq<u8>)
    requires
        wf_query_message(s),
    ensures
        spec_parse_message(s) is Some,
        spec_parse_message(s) matches Some(m) ==> spec_message_bytes(m) == s,
{
    let h = spec_parse_header(s);
    let body = s.subrange(12, s.len() as int);
    assert(h.qdcount == be16(s[4], s[5]));
    assert(h.ancount == be16(s[6], s[7]));
    assert(h.opcode == Opcode::QUERY);

    lemma_questions_parse(body, h.qdcount as nat, 0);
    match spec_parse_questions(body, h.qdcount as nat, 0) {
        Some((qs, qend)) => {
            lemma_records_parse(body, h.ancount as nat, qend);
            match spec_parse_records(body, h.ancount as nat, qend) {
                Some((rs, rend)) => {
                    let m = MessageView { header: h, questions: qs, answers: rs };
                    assert(spec_parse_message(s) == Some(m));
                    lemma_header_unpack_pack(s);
                    assert(rend == body.len());
                    assert(spec_message_bytes(m) =~= s);
                },
                None => {
                    assert(false);
                },
            }
        },
        None => {
            assert(false);
        },
    }
}

} // verus!
