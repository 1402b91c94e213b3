//! The data model: header, question, resource record and message, with the
//! closed sets of wire codes, and the spec-level views of each owning type.

use vstd::prelude::*;

verus! {

/// Query/response discriminator, the top bit of the third header byte.
#[derive(PartialEq, Eq, Structural, Debug, Clone, Copy)]
pub enum QR {
    Query,
    Response,
}

/// Operation code. `Reserved` collapses every numeric code from 3 upward.
#[derive(PartialEq, Eq, Structural, Debug, Clone, Copy)]
pub enum Opcode {
    QUERY,
    IQUERY,
    STATUS,
    Reserved,
}

/// Response code. `Reserved` collapses every numeric code from 6 upward.
#[derive(PartialEq, Eq, Structural, Debug, Clone, Copy)]
pub enum RCODE {
    NoError,
    FormatError,
    ServerFailure,
    NameError,
    NotImplemented,
    Refused,
    Reserved,
}

/// Record type: only A is interpreted; every other code is the lossy `Other`.
#[derive(PartialEq, Eq, Structural, Debug, Clone, Copy)]
pub enum RecordType {
    A,
    Other,
}

/// Record class: only IN is interpreted; every other code is the lossy `Other`.
#[derive(PartialEq, Eq, Structural, Debug, Clone, Copy)]
pub enum ClassType {
    IN,
    Other,
}

/// The error a decode call surfaces: the buffer is too short for a declared
/// field, or a compression pointer is out of range or never terminates.
#[derive(PartialEq, Eq, Structural, Debug, Clone, Copy)]
pub enum DecodeError {
    MalformedMessage,
}

/// The fixed-layout 12-byte header.
#[derive(PartialEq, Eq, Structural, Debug, Clone, Copy)]
pub struct DNSHeader {
    pub id: u16,
    /// 1 bit.
    pub qr: QR,
    /// 4 bits.
    pub opcode: Opcode,
    /// 1 bit.
    pub aa: bool,
    /// 1 bit.
    pub tc: bool,
    /// 1 bit.
    pub rd: bool,
    /// 1 bit.
    pub ra: bool,
    /// 3 bits.
    pub z: u8,
    /// 4 bits.
    pub rcode: RCODE,
    pub qdcount: u16,
    pub ancount: u16,
    pub nscount: u16,
    pub arcount: u16,
}

/// One question: a fully expanded label sequence plus type and class codes.
#[derive(PartialEq, Eq, Debug, Clone)]
pub struct DNSQuestion {
    /// Wire-encoded label sequence, compression pointers already resolved.
    pub qname: Vec<u8>,
    pub qtype: RecordType,
    pub qclass: ClassType,
}

/// One answer record; rdata is opaque bytes, never interpreted.
#[derive(PartialEq, Eq, Debug, Clone)]
pub struct ResourceRecord {
    /// Wire-encoded label sequence, compression pointers already resolved.
    pub name: Vec<u8>,
    pub record_type: RecordType,
    pub class: ClassType,
    pub ttl: u32,
    pub rdlength: u16,
    pub rdata: Vec<u8>,
}

/// A whole message: header, questions in order, answer records in order.
#[derive(Clone)]
pub struct DNSMessage {
    pub header: DNSHeader,
    pub questions: Vec<DNSQuestion>,
    pub answers: Vec<ResourceRecord>,
}

/// Mathematical image of a question: the name as a byte sequence.
pub struct QuestionView {
    pub qname: Seq<u8>,
    pub qtype: RecordType,
    pub qclass: ClassType,
}

/// Mathematical image of a resource record.
pub struct RecordView {
    pub name: Seq<u8>,
    pub record_type: RecordType,
    pub class: ClassType,
    pub ttl: u32,
    pub rdlength: u16,
    pub rdata: Seq<u8>,
}

/// Mathematical image of a whole message.
pub struct MessageView {
    pub header: DNSHeader,
    pub questions: Seq<QuestionView>,
    pub answers: Seq<RecordView>,
}

impl View for DNSQuestion {
    type V = QuestionView;

    open spec fn view(&self) -> QuestionView {
        QuestionView { qname: self.qname@, qtype: self.qtype, qclass: self.qclass }
    }
}

impl DeepView for DNSQuestion {
    type V = QuestionView;

    open spec fn deep_view(&self) -> QuestionView {
        self@
    }
}

impl View for ResourceRecord {
    type V = RecordView;

    open spec fn view(&self) -> RecordView {
        RecordView {
            name: self.name@,
            record_type: self.record_type,
            class: self.class,
            ttl: self.ttl,
            rdlength: self.rdlength,
            rdata: self.rdata@,
        }
    }
}

impl DeepView for ResourceRecord {
    type V = RecordView;

    open spec fn deep_view(&self) -> RecordView {
        self@
    }
}

impl View for DNSMessage {
    type V = MessageView;

    open spec fn view(&self) -> MessageView {
        MessageView {
            header: self.header,
            questions: self.questions.deep_view(),
            answers: self.answers.deep_view(),
        }
    }
}

impl DeepView for DNSMessage {
    type V = MessageView;

    open spec fn deep_view(&self) -> MessageView {
        self@
    }
}

} // verus!
