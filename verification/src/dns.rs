//! The DNS message model: record-type / class enumerations with their
//! 16-bit wire values, domain names as label sequences, questions,
//! resource records, the four message sections, and the message header.

use vstd::prelude::*;

verus! {

/// DnsRecordType indicates the type of record being requested,
/// or the type of record being returned in a response.
///
/// Each variant maps to a fixed 16-bit wire value; an integer that
/// matches no known type decodes to `Unknown` carrying the raw value,
/// so unrecognised records still round-trip.
#[derive(Clone, Copy, Debug, PartialEq, Eq, Structural)]
pub enum DnsRecordType {
    A,
    NS,
    CNAME,
    SOA,
    PTR,
    MX,
    TXT,
    AAAA,
    SRV,
    NAPTR,
    OPT,
    IXFR,
    AXFR,
    ANY,
    Unknown(u16),
}

impl DnsRecordType {
    /// The 16-bit value this type is written as on the wire.
    pub open spec fn spec_wire(self) -> u16 {
        match self {
            DnsRecordType::A => 1,
            DnsRecordType::NS => 2,
            DnsRecordType::CNAME => 5,
            DnsRecordType::SOA => 6,
            DnsRecordType::PTR => 12,
            DnsRecordType::MX => 15,
            DnsRecordType::TXT => 16,
            DnsRecordType::AAAA => 28,
            DnsRecordType::SRV => 33,
            DnsRecordType::NAPTR => 35,
            DnsRecordType::OPT => 41,
            DnsRecordType::IXFR => 251,
            DnsRecordType::AXFR => 252,
            DnsRecordType::ANY => 255,
            DnsRecordType::Unknown(v) => v,
        }
    }

    /// The canonical type for a 16-bit wire value: the named variant
    /// where one exists, `Unknown` otherwise.
    pub open spec fn spec_from_wire(v: u16) -> DnsRecordType {
        if v == 1 {
            DnsRecordType::A
        } else if v == 2 {
            DnsRecordType::NS
        } else if v == 5 {
            DnsRecordType::CNAME
        } else if v == 6 {
            DnsRecordType::SOA
        } else if v == 12 {
            DnsRecordType::PTR
        } else if v == 15 {
            DnsRecordType::MX
        } else if v == 16 {
            DnsRecordType::TXT
        } else if v == 28 {
            DnsRecordType::AAAA
        } else if v == 33 {
            DnsRecordType::SRV
        } else if v == 35 {
            DnsRecordType::NAPTR
        } else if v == 41 {
            DnsRecordType::OPT
        } else if v == 251 {
            DnsRecordType::IXFR
        } else if v == 252 {
            DnsRecordType::AXFR
        } else if v == 255 {
            DnsRecordType::ANY
        } else {
            DnsRecordType::Unknown(v)
        }
    }

    /// A type is well formed when it is the canonical variant for its
    /// wire value: `Unknown` never shadows a named variant.
    pub open spec fn wf(self) -> bool {
        self == Self::spec_from_wire(self.spec_wire())
    }

    /// The wire value as a single byte. All named types fit in a byte;
    /// an `Unknown` type qualifies only when its raw value does.
    pub fn value(&self) -> (r: u8)
        requires
            self.spec_wire() <= 0xff,
        ensures
            r as u16 == self.spec_wire(),
    {
        match self {
            DnsRecordType::Unknown(v) => *v as u8,
            _ => self.wire_value() as u8,
        }
    }

    /// The full 16-bit wire value.
    pub fn wire_value(&self) -> (r: u16)
        ensures
            r == self.spec_wire(),
    {
        match self {
            DnsRecordType::A => 1,
            DnsRecordType::NS => 2,
            DnsRecordType::CNAME => 5,
            DnsRecordType::SOA => 6,
            DnsRecordType::PTR => 12,
            DnsRecordType::MX => 15,
            DnsRecordType::TXT => 16,
            DnsRecordType::AAAA => 28,
            DnsRecordType::SRV => 33,
            DnsRecordType::NAPTR => 35,
            DnsRecordType::OPT => 41,
            DnsRecordType::IXFR => 251,
            DnsRecordType::AXFR => 252,
            DnsRecordType::ANY => 255,
            DnsRecordType::Unknown(v) => *v,
        }
    }

    /// Decode a 16-bit wire value into the canonical record type.
    pub fn from_wire(v: u16) -> (r: Self)
        ensures
            r == Self::spec_from_wire(v),
            r.spec_wire() == v,
            r.wf(),
    {
        if v == 1 {
            DnsRecordType::A
        } else if v == 2 {
            DnsRecordType::NS
        } else if v == 5 {
            DnsRecordType::CNAME
        } else if v == 6 {
            DnsRecordType::SOA
        } else if v == 12 {
            DnsRecordType::PTR
        } else if v == 15 {
            DnsRecordType::MX
        } else if v == 16 {
            DnsRecordType::TXT
        } else if v == 28 {
            DnsRecordType::AAAA
        } else if v == 33 {
            DnsRecordType::SRV
        } else if v == 35 {
            DnsRecordType::NAPTR
        } else if v == 41 {
            DnsRecordType::OPT
        } else if v == 251 {
            DnsRecordType::IXFR
        } else if v == 252 {
            DnsRecordType::AXFR
        } else if v == 255 {
            DnsRecordType::ANY
        } else {
            DnsRecordType::Unknown(v)
        }
    }
}

/// Decoding the wire value of a well-formed record type gives the type
/// back: the enumeration's two conversion directions invert each other.
pub proof fn lemma_record_type_roundtrip(t: DnsRecordType)
    requires
        t.wf(),
    ensures
        DnsRecordType::spec_from_wire(t.spec_wire()) == t,
{
}

/// Decoding the wire value of a well-formed query class gives the
/// class back: the enumeration's two conversion directions invert
/// each other.
pub proof fn lemma_query_class_roundtrip(c: DnsQueryClass)
    requires
        c.wf(),
    ensures
        DnsQueryClass::spec_from_wire(c.spec_wire()) == c,
{
}

/// DnsQueryType indicates how the server should resolve the question.
#[derive(Clone, Copy, Debug, PartialEq, Eq, Structural)]
pub enum DnsQueryType {
    /// In an Iterative query the client is responsible for doing
    /// additional requests if the first nameserver lacks the data.
    Iterative,
    /// In a Recursive query the server is responsible for doing
    /// additional requests if it does not have the data.
    Recursive,
}

impl DnsQueryType {
    /// The value of the RD (recursion desired) header bit this query
    /// type asks for.
    pub open spec fn spec_value(self) -> u16 {
        match self {
            DnsQueryType::Iterative => 0,
            DnsQueryType::Recursive => 1,
        }
    }

    /// The RD bit value: 1 for recursive, 0 for iterative queries.
    pub fn value(&self) -> (r: u16)
        ensures
            r == self.spec_value(),
    {
        match self {
            DnsQueryType::Iterative => 0,
            DnsQueryType::Recursive => 1,
        }
    }
}

/// DnsQueryClass indicates the class of the query. For the OPT
/// pseudo-record the class field instead carries the advertised
/// EDNS0 UDP payload size.
#[derive(Clone, Copy, Debug, PartialEq, Eq, Structural)]
pub enum DnsQueryClass {
    InternetClass,
    NoClass,
    AllClass,
    Unknown(u16),
}

impl DnsQueryClass {
    /// The 16-bit value this class is written as on the wire.
    pub open spec fn spec_wire(self) -> u16 {
        match self {
            DnsQueryClass::InternetClass => 1,
            DnsQueryClass::NoClass => 254,
            DnsQueryClass::AllClass => 255,
            DnsQueryClass::Unknown(v) => v,
        }
    }

    /// The canonical class for a 16-bit wire value.
    pub open spec fn spec_from_wire(v: u16) -> DnsQueryClass {
        if v == 1 {
            DnsQueryClass::InternetClass
        } else if v == 254 {
            DnsQueryClass::NoClass
        } else if v == 255 {
            DnsQueryClass::AllClass
        } else {
            DnsQueryClass::Unknown(v)
        }
    }

    /// A class is well formed when it is the canonical variant for its
    /// wire value.
    pub open spec fn wf(self) -> bool {
        self == Self::spec_from_wire(self.spec_wire())
    }

    /// The full 16-bit wire value.
    pub fn wire_value(&self) -> (r: u16)
        ensures
            r == self.spec_wire(),
    {
        match self {
            DnsQueryClass::InternetClass => 1,
            DnsQueryClass::NoClass => 254,
            DnsQueryClass::AllClass => 255,
            DnsQueryClass::Unknown(v) => *v,
        }
    }

    /// Decode a 16-bit wire value into the canonical class.
    pub fn from_wire(v: u16) -> (r: Self)
        ensures
            r == Self::spec_from_wire(v),
            r.spec_wire() == v,
            r.wf(),
    {
        if v == 1 {
            DnsQueryClass::InternetClass
        } else if v == 254 {
            DnsQueryClass::NoClass
        } else if v == 255 {
            DnsQueryClass::AllClass
        } else {
            DnsQueryClass::Unknown(v)
        }
    }
}

/// A domain name as an ordered sequence of labels, each a byte string.
/// The wire form writes each label as a length byte followed by the
/// label bytes and terminates the name with a zero byte.
#[derive(Debug, Clone)]
pub struct DomainName {
    pub labels: Vec<Vec<u8>>,
}

/// The views of a sequence of label vectors.
pub open spec fn labels_view(s: Seq<Vec<u8>>) -> Seq<Seq<u8>> {
    s.map_values(|l: Vec<u8>| l@)
}

impl View for DomainName {
    type V = Seq<Seq<u8>>;

    open spec fn view(&self) -> Seq<Seq<u8>> {
        labels_view(self.labels@)
    }
}

impl DomainName {
    /// The empty (root) domain name.
    pub fn root() -> (r: Self)
        ensures
            r@ =~= Seq::<Seq<u8>>::empty(),
    {
        DomainName { labels: Vec::new() }
    }

    /// Split a dotted hostname, given as its bytes, into labels: the
    /// labels are exactly the (possibly empty) runs between `.` bytes.
    /// Validity of the labels is the encoder's concern, not this one's.
    pub fn from_hostname(host: &[u8]) -> (r: Self)
        ensures
            r@ =~= spec_split_labels(host@),
    {
        let ghost whole = host@;
        let mut labels: Vec<Vec<u8>> = Vec::new();
        let mut cur: Vec<u8> = Vec::new();
        let mut i: usize = 0;
        while i < host.len()
            invariant
                i <= host@.len(),
                whole == host@,
                labels@.map_values(|l: Vec<u8>| l@).push(cur@) =~~= spec_split_labels(
                    whole.subrange(0, i as int),
                ),
            decreases host@.len() - i,
        {
            let b = host[i];
            proof {
                assert(whole.subrange(0, i + 1) =~= whole.subrange(0, i as int).push(whole[i as int]));
                lemma_split_labels_push(whole.subrange(0, i as int), whole[i as int]);
            }
            if b == 46u8 {
                labels.push(cur);
                cur = Vec::new();
            } else {
                cur.push(b);
            }
            proof {
                assert(labels@.map_values(|l: Vec<u8>| l@).push(cur@) =~~= spec_split_labels(
                    whole.subrange(0, i + 1),
                ));
            }
            i = i + 1;
        }
        proof {
            assert(whole.subrange(0, whole.len() as int) =~= whole);
        }
        labels.push(cur);
        DomainName { labels }
    }
}

/// The labels a dotted byte string splits into: the runs between `.`
/// (byte 46) separators, in order, empty runs included. A name always
/// has one label more than it has dots.
pub open spec fn spec_split_labels(s: Seq<u8>) -> Seq<Seq<u8>>
    decreases s.len(),
{
    if s.len() == 0 {
        seq![Seq::<u8>::empty()]
    } else {
        let init = spec_split_labels(s.drop_last());
        if s.last() == 46u8 {
            init.push(Seq::<u8>::empty())
        } else {
            init.update(init.len() - 1, init.last().push(s.last()))
        }
    }
}

/// QueryZone contains data for the Query/Zone section: one question.
#[derive(Debug, Clone)]
pub struct QueryZone {
    pub qz_name: DomainName,
    pub qz_type: DnsRecordType,
    pub qz_class: DnsQueryClass,
}

/// The mathematical view of a question.
#[verifier::ext_equal]
pub struct SpecQuestion {
    pub name: Seq<Seq<u8>>,
    pub qtype: DnsRecordType,
    pub qclass: DnsQueryClass,
}

impl View for QueryZone {
    type V = SpecQuestion;

    open spec fn view(&self) -> SpecQuestion {
        SpecQuestion { name: self.qz_name@, qtype: self.qz_type, qclass: self.qz_class }
    }
}

impl QueryZone {
    /// Build a question from its three parts.
    pub fn new(name: DomainName, qtype: DnsRecordType, qclass: DnsQueryClass) -> (r: Self)
        ensures
            r@ == (SpecQuestion { name: name@, qtype, qclass }),
    {
        QueryZone { qz_name: name, qz_type: qtype, qz_class: qclass }
    }
}

/// The type-tagged payload of a resource record. Which variant a
/// decoded record carries is determined by the record type: `A`
/// records of length four are addresses, `AAAA` records of length
/// sixteen likewise, `NS`/`CNAME`/`PTR` records carry a domain name,
/// and every other record keeps its raw bytes.
#[derive(Debug, Clone)]
pub enum RData {
    Ipv4(u8, u8, u8, u8),
    Ipv6(Vec<u8>),
    Name(DomainName),
    Opaque(Vec<u8>),
}

/// The mathematical view of a record payload.
#[verifier::ext_equal]
pub enum SpecRData {
    Ipv4(u8, u8, u8, u8),
    Ipv6(Seq<u8>),
    Name(Seq<Seq<u8>>),
    Opaque(Seq<u8>),
}

impl View for RData {
    type V = SpecRData;

    open spec fn view(&self) -> SpecRData {
        match self {
            RData::Ipv4(a, b, c, d) => SpecRData::Ipv4(*a, *b, *c, *d),
            RData::Ipv6(v) => SpecRData::Ipv6(v@),
            RData::Name(n) => SpecRData::Name(n@),
            RData::Opaque(v) => SpecRData::Opaque(v@),
        }
    }
}

/// ResourceRecord contains data for the answer, authority, and
/// additional information sections. The rdata length field of the wire
/// format is derived from the payload when encoding, never stored.
#[derive(Debug, Clone)]
pub struct ResourceRecord {
    pub rr_name: DomainName,
    pub rr_type: DnsRecordType,
    pub rr_class: DnsQueryClass,
    pub rr_ttl: u32,
    pub rr_data: RData,
}

/// The mathematical view of a resource record.
#[verifier::ext_equal]
pub struct SpecRecord {
    pub name: Seq<Seq<u8>>,
    pub rtype: DnsRecordType,
    pub rclass: DnsQueryClass,
    pub ttl: u32,
    pub rdata: SpecRData,
}

impl View for ResourceRecord {
    type V = SpecRecord;

    open spec fn view(&self) -> SpecRecord {
        SpecRecord {
            name: self.rr_name@,
            rtype: self.rr_type,
            rclass: self.rr_class,
            ttl: self.rr_ttl,
            rdata: self.rr_data@,
        }
    }
}

/// DnsMessageSection contains the data for both requests and responses:
/// the four ordered record sequences of a message.
#[derive(Debug, Clone)]
pub struct DnsMessageSection {
    /// Queries and zone sections have their own format.
    pub queries: Vec<QueryZone>,
    /// Answers, authority, and additional information sections share
    /// a common format.
    pub answers: Vec<ResourceRecord>,
    pub authority: Vec<ResourceRecord>,
    pub additional: Vec<ResourceRecord>,
}

impl DnsMessageSection {
    /// All four sections start out empty.
    pub fn new() -> (r: Self)
        ensures
            r.queries@ =~= Seq::<QueryZone>::empty(),
            r.answers@ =~= Seq::<ResourceRecord>::empty(),
            r.authority@ =~= Seq::<ResourceRecord>::empty(),
            r.additional@ =~= Seq::<ResourceRecord>::empty(),
    {
        let queries: Vec<QueryZone> = Vec::with_capacity(1);
        let answers: Vec<ResourceRecord> = Vec::new();
        let authority: Vec<ResourceRecord> = Vec::new();
        let additional: Vec<ResourceRecord> = Vec::new();
        DnsMessageSection { queries, answers, authority, additional }
    }
}

/// The mathematical view of a whole message.
#[verifier::ext_equal]
pub struct SpecMessage {
    pub transaction_id: u16,
    pub flags: u16,
    pub query_count: u16,
    pub answer_count: u16,
    pub authority_count: u16,
    pub additional_count: u16,
    pub queries: Seq<SpecQuestion>,
    pub answers: Seq<SpecRecord>,
    pub authority: Seq<SpecRecord>,
    pub additional: Seq<SpecRecord>,
}

/// The QR header bit: set on responses, clear on queries.
pub const FLAG_QR: u16 = 0x8000;

/// The TC header bit: the response was truncated to fit UDP.
pub const FLAG_TC: u16 = 0x0200;

/// The RD header bit: the client asks for recursive resolution.
pub const FLAG_RD: u16 = 0x0100;

/// The mask of the 4-bit RCODE field in the flags word.
pub const RCODE_MASK: u16 = 0x000f;

impl SpecMessage {
    /// Whether the QR bit marks this message as a response.
    pub open spec fn is_response(self) -> bool {
        self.flags & FLAG_QR != 0
    }

    /// Whether the TC bit marks this response as truncated.
    pub open spec fn is_truncated(self) -> bool {
        self.flags & FLAG_TC != 0
    }

    /// The 4-bit response code carried in the flags word.
    pub open spec fn rcode(self) -> u16 {
        self.flags & RCODE_MASK
    }
}

/// DnsMessage is the DNS message format for both requests and
/// responses. See RFC-1035 for the layout of the fields.
#[derive(Debug, Clone)]
pub struct DnsMessage {
    /// Transaction ID is used by the client to match requests to
    /// responses.
    pub transaction_id: u16,
    /// Flags are split into ten fields: QR, opcode, AA, TC, RD, RA,
    /// the reserved bits, and RCODE.
    pub flags: u16,
    /// The number of queries, generally 1 for a DNS request.
    pub query_count: u16,
    /// The number of answers, generally 0 for a request.
    pub answer_count: u16,
    /// The number of authority records.
    pub authority_count: u16,
    /// The number of additional records, used to reduce the number of
    /// queries.
    pub additional_count: u16,
    /// The data.
    pub records: DnsMessageSection,
}

/// The views of a sequence of questions.
pub open spec fn quests_view(s: Seq<QueryZone>) -> Seq<SpecQuestion> {
    s.map_values(|q: QueryZone| q@)
}

/// The views of a sequence of resource records.
pub open spec fn recs_view(s: Seq<ResourceRecord>) -> Seq<SpecRecord> {
    s.map_values(|r: ResourceRecord| r@)
}

impl View for DnsMessage {
    type V = SpecMessage;

    open spec fn view(&self) -> SpecMessage {
        SpecMessage {
            transaction_id: self.transaction_id,
            flags: self.flags,
            query_count: self.query_count,
            answer_count: self.answer_count,
            authority_count: self.authority_count,
            additional_count: self.additional_count,
            queries: quests_view(self.records.queries@),
            answers: recs_view(self.records.answers@),
            authority: recs_view(self.records.authority@),
            additional: recs_view(self.records.additional@),
        }
    }
}

impl DnsMessage {
    /// A fresh message with the given transaction ID, zero flags and
    /// counts, and empty sections.
    pub fn new(trans_id: u16) -> (r: Self)
        ensures
            r@ =~~= (SpecMessage {
                transaction_id: trans_id,
                flags: 0,
                query_count: 0,
                answer_count: 0,
                authority_count: 0,
                additional_count: 0,
                queries: Seq::empty(),
                answers: Seq::empty(),
                authority: Seq::empty(),
                additional: Seq::empty(),
            }),
    {
        DnsMessage {
            transaction_id: trans_id,
            flags: 0,
            query_count: 0,
            answer_count: 0,
            authority_count: 0,
            additional_count: 0,
            records: DnsMessageSection::new(),
        }
    }

    /// Turn this message into a query for the given hostname: set the
    /// RD flag according to the query type and install the single
    /// question, for the Internet class, with the hostname split into
    /// labels at the dots.
    pub fn set_query(&mut self, hostname: String, query: DnsQueryType, record: DnsRecordType)
        ensures
            final(self).transaction_id == old(self).transaction_id,
            final(self).flags == old(self).flags | ((FLAG_RD * query.spec_value()) as u16),
            final(self).query_count == 1,
            final(self).answer_count == old(self).answer_count,
            final(self).authority_count == old(self).authority_count,
            final(self).additional_count == old(self).additional_count,
            final(self)@.queries =~~= seq![
                SpecQuestion {
                    name: spec_split_labels(vstd::utf8::encode_utf8(hostname@)),
                    qtype: record,
                    qclass: DnsQueryClass::InternetClass,
                },
            ],
            final(self)@.answers == old(self)@.answers,
            final(self)@.authority == old(self)@.authority,
            final(self)@.additional == old(self)@.additional,
    {
        // Set RD (recursion desired), bit 8 of the flags, per the
        // requested query type; a query leaves QR clear.
        self.flags = self.flags | FLAG_RD * query.value();
        self.query_count = 1;
        let name = DomainName::from_hostname(hostname.as_str().as_bytes());
        let question = QueryZone::new(name, record, DnsQueryClass::InternetClass);
        self.records.queries = Vec::new();
        self.records.queries.push(question);
    }

    /// Whether the QR bit marks this message as a response.
    pub fn is_response(&self) -> (r: bool)
        ensures
            r == self@.is_response(),
    {
        self.flags & FLAG_QR != 0
    }

    /// Whether the TC bit marks this response as truncated.
    pub fn is_truncated(&self) -> (r: bool)
        ensures
            r == self@.is_truncated(),
    {
        self.flags & FLAG_TC != 0
    }

    /// The 4-bit response code carried in the flags word.
    pub fn rcode(&self) -> (r: u16)
        ensures
            r == self@.rcode(),
    {
        self.flags & RCODE_MASK
    }
}

/// Splitting never yields an empty sequence of labels.
pub proof fn lemma_split_labels_nonempty(s: Seq<u8>)
    ensures
        spec_split_labels(s).len() >= 1,
    decreases s.len(),
{
    if s.len() > 0 {
        lemma_split_labels_nonempty(s.drop_last());
    }
}

/// Appending one byte extends the split: a dot opens a fresh empty
/// label, any other byte lands on the last label.
pub proof fn lemma_split_labels_push(s: Seq<u8>, b: u8)
    ensures
        b == 46u8 ==> spec_split_labels(s.push(b)) == spec_split_labels(s).push(
            Seq::<u8>::empty(),
        ),
        b != 46u8 ==> spec_split_labels(s.push(b)) == spec_split_labels(s).update(
            spec_split_labels(s).len() - 1,
            spec_split_labels(s).last().push(b),
        ),
{
    lemma_split_labels_nonempty(s);
    assert(s.push(b).drop_last() =~= s);
    assert(s.push(b).last() == b);
}

} // verus!
