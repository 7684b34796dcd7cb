//! The wire codec: RFC-1035 binary encoding and decoding of DNS
//! messages. Encoding serialises the 12-byte header, the questions,
//! and the resource records, deriving the four counts and each rdata
//! length from the data. Decoding parses attacker-controlled bytes:
//! every read is bounds-checked, compressed names are resolved with a
//! bounded indirection budget, and every malformed input yields a
//! typed error rather than a panic.
//!
//! The spec functions `spec_encode` and `parse_message` are the
//! mathematical statement of the wire format; the executable `encode`
//! and `decode` are proved to compute exactly those functions, and
//! `lemma_parse_of_encoded_message` proves that decoding an encoded
//! well-formed message gives the message back.

use crate::dns::DnsQueryClass;
use crate::dns::DnsRecordType;
use crate::dns::DnsMessage;
use crate::dns::DnsMessageSection;
use crate::dns::DomainName;
use crate::dns::QueryZone;
use crate::dns::RData;
use crate::dns::ResourceRecord;
use crate::dns::SpecMessage;
use crate::dns::SpecQuestion;
use crate::dns::SpecRData;
use crate::dns::SpecRecord;
use vstd::prelude::*;

verus! {

/// Classic maximum size of a DNS message over UDP, used unless an OPT
/// pseudo-record advertises a larger payload size.
pub const CLASSIC_MAX_SIZE: u16 = 512;

/// Cap on compression-pointer indirections followed while decoding a
/// single domain name; a pointer chain longer than this is rejected as
/// a loop.
pub const MAX_NAME_INDIRECTION: u8 = 20;

/// Why a message could not be encoded: a caller-input problem, never
/// retried.
#[derive(Clone, Copy, Debug, PartialEq, Eq, Structural)]
pub enum EncodeError {
    /// A label is empty or longer than 63 bytes, or a full name is
    /// longer than 255 bytes in wire form.
    NameTooLong,
    /// The encoded message would exceed the negotiated maximum size,
    /// or a section or rdata length cannot be represented on the wire.
    SectionTooLarge,
}

/// Why a byte buffer could not be decoded: always from untrusted
/// network input, never fatal.
#[derive(Clone, Copy, Debug, PartialEq, Eq, Structural)]
pub enum DecodeError {
    /// A read would pass the end of the buffer.
    Truncated,
    /// A compression-pointer chain exceeded the indirection budget.
    CompressionLoop,
    /// Declared lengths disagree with the data actually present.
    CountMismatch,
    /// A label length byte uses the reserved tag bits.
    BadLabel,
}

// ---------------------------------------------------------------------
// The wire format, stated: spec-level encoding.
// ---------------------------------------------------------------------

/// The two big-endian bytes of a 16-bit value.
pub open spec fn spec_encode_u16(x: u16) -> Seq<u8> {
    seq![(x >> 8) as u8, (x & 0xff) as u8]
}

/// The four big-endian bytes of a 32-bit value.
pub open spec fn spec_encode_u32(x: u32) -> Seq<u8> {
    seq![
        (x >> 24) as u8,
        ((x >> 16) & 0xff) as u8,
        ((x >> 8) & 0xff) as u8,
        (x & 0xff) as u8,
    ]
}

/// A label fits on the wire: one to 63 bytes, so its length byte never
/// collides with the terminator or the pointer tags.
pub open spec fn label_ok(l: Seq<u8>) -> bool {
    1 <= l.len() <= 63
}

/// The wire length of an uncompressed name: a length byte per label,
/// the label bytes, and the terminating zero byte.
pub open spec fn name_wire_len(name: Seq<Seq<u8>>) -> int
    decreases name.len(),
{
    if name.len() == 0 {
        1
    } else {
        1 + name.first().len() + name_wire_len(name.drop_first())
    }
}

/// A name fits on the wire: every label is valid and the whole wire
/// form is at most 255 bytes.
pub open spec fn name_ok(name: Seq<Seq<u8>>) -> bool {
    (forall|i: int| 0 <= i < name.len() ==> label_ok(#[trigger] name[i])) && name_wire_len(name)
        <= 255
}

/// The uncompressed wire form of a name: each label prefixed by its
/// length, then a zero byte.
pub open spec fn spec_encode_name(name: Seq<Seq<u8>>) -> Seq<u8>
    decreases name.len(),
{
    if name.len() == 0 {
        seq![0u8]
    } else {
        seq![name.first().len() as u8] + name.first() + spec_encode_name(name.drop_first())
    }
}

/// The wire form of one question: name, then type and class, each a
/// big-endian 16-bit value.
pub open spec fn spec_encode_question(q: SpecQuestion) -> Seq<u8> {
    spec_encode_name(q.name) + spec_encode_u16(q.qtype.spec_wire()) + spec_encode_u16(
        q.qclass.spec_wire(),
    )
}

/// The wire form of a record payload.
pub open spec fn spec_encode_rdata(d: SpecRData) -> Seq<u8> {
    match d {
        SpecRData::Ipv4(a, b, c, e) => seq![a, b, c, e],
        SpecRData::Ipv6(s) => s,
        SpecRData::Name(n) => spec_encode_name(n),
        SpecRData::Opaque(s) => s,
    }
}

/// The wire form of one resource record: name, type, class, TTL, the
/// derived rdata length, then the rdata itself.
pub open spec fn spec_encode_record(r: SpecRecord) -> Seq<u8> {
    spec_encode_name(r.name) + spec_encode_u16(r.rtype.spec_wire()) + spec_encode_u16(
        r.rclass.spec_wire(),
    ) + spec_encode_u32(r.ttl) + spec_encode_u16(spec_encode_rdata(r.rdata).len() as u16)
        + spec_encode_rdata(r.rdata)
}

/// The concatenated wire form of a question section.
pub open spec fn spec_encode_questions(qs: Seq<SpecQuestion>) -> Seq<u8>
    decreases qs.len(),
{
    if qs.len() == 0 {
        Seq::empty()
    } else {
        spec_encode_question(qs.first()) + spec_encode_questions(qs.drop_first())
    }
}

/// The concatenated wire form of a record section.
pub open spec fn spec_encode_records(rs: Seq<SpecRecord>) -> Seq<u8>
    decreases rs.len(),
{
    if rs.len() == 0 {
        Seq::empty()
    } else {
        spec_encode_record(rs.first()) + spec_encode_records(rs.drop_first())
    }
}

/// The 12-byte header: transaction ID, flags, and the four counts,
/// each count derived from its section's length.
pub open spec fn spec_encode_header(m: SpecMessage) -> Seq<u8> {
    spec_encode_u16(m.transaction_id) + spec_encode_u16(m.flags) + spec_encode_u16(
        m.queries.len() as u16,
    ) + spec_encode_u16(m.answers.len() as u16) + spec_encode_u16(m.authority.len() as u16)
        + spec_encode_u16(m.additional.len() as u16)
}

/// The full wire form of a message: header, questions, then the three
/// record sections in order.
pub open spec fn spec_encode(m: SpecMessage) -> Seq<u8> {
    spec_encode_header(m) + spec_encode_questions(m.queries) + spec_encode_records(m.answers)
        + spec_encode_records(m.authority) + spec_encode_records(m.additional)
}

// ---------------------------------------------------------------------
// Well-formedness of model values.
// ---------------------------------------------------------------------

/// Whether a payload's embedded name, if any, fits on the wire.
pub open spec fn rdata_names_ok(d: SpecRData) -> bool {
    match d {
        SpecRData::Name(n) => name_ok(n),
        _ => true,
    }
}

/// Whether every name of every record in a section fits on the wire:
/// owner names and name-typed payloads.
pub open spec fn records_names_ok(rs: Seq<SpecRecord>) -> bool {
    forall|i: int|
        #![trigger rs[i]]
        0 <= i < rs.len() ==> name_ok(rs[i].name) && rdata_names_ok(rs[i].rdata)
}

/// Whether every name a message holds fits on the wire: question
/// names, record owner names, and name-typed payloads.
pub open spec fn msg_names_ok(m: SpecMessage) -> bool {
    &&& forall|i: int| #![trigger m.queries[i]] 0 <= i < m.queries.len() ==> name_ok(
        m.queries[i].name,
    )
    &&& records_names_ok(m.answers)
    &&& records_names_ok(m.authority)
    &&& records_names_ok(m.additional)
}

/// The UDP payload size advertised by the first OPT pseudo-record of a
/// section, carried in its class field.
pub open spec fn spec_find_edns_size(rs: Seq<SpecRecord>) -> Option<u16>
    decreases rs.len(),
{
    if rs.len() == 0 {
        None
    } else if rs.first().rtype == DnsRecordType::OPT {
        Some(rs.first().rclass.spec_wire())
    } else {
        spec_find_edns_size(rs.drop_first())
    }
}

/// The negotiated maximum encoded size of a message: the advertised
/// EDNS0 payload size when an OPT record is present, the classic UDP
/// limit otherwise.
pub open spec fn max_size(m: SpecMessage) -> int {
    match spec_find_edns_size(m.additional) {
        Some(s) => s as int,
        None => CLASSIC_MAX_SIZE as int,
    }
}

/// Whether a record's payload fits its 16-bit wire length field.
pub open spec fn rdata_len_ok(r: SpecRecord) -> bool {
    spec_encode_rdata(r.rdata).len() <= 0xffff
}

/// Whether the message's sections fit the wire: each count fits its
/// 16-bit field, every rdata length fits its field, and the encoded
/// whole stays within the negotiated maximum size.
pub open spec fn sections_fit(m: SpecMessage) -> bool {
    &&& m.queries.len() <= 0xffff
    &&& m.answers.len() <= 0xffff
    &&& m.authority.len() <= 0xffff
    &&& m.additional.len() <= 0xffff
    &&& forall|i: int| 0 <= i < m.answers.len() ==> rdata_len_ok(#[trigger] m.answers[i])
    &&& forall|i: int| 0 <= i < m.authority.len() ==> rdata_len_ok(#[trigger] m.authority[i])
    &&& forall|i: int| 0 <= i < m.additional.len() ==> rdata_len_ok(#[trigger] m.additional[i])
    &&& spec_encode(m).len() <= max_size(m)
}

/// Whether a payload is the canonical variant for its record type:
/// the variant the decoder reconstructs from the type and the wire
/// bytes. Four-byte `A` payloads are addresses, sixteen-byte `AAAA`
/// payloads likewise, `NS`/`CNAME`/`PTR` payloads are names, and every
/// other payload is opaque bytes.
pub open spec fn rdata_wf(t: DnsRecordType, d: SpecRData) -> bool {
    match t {
        DnsRecordType::A => d matches SpecRData::Ipv4(_, _, _, _) || (d matches SpecRData::Opaque(
            s,
        ) && s.len() != 4),
        DnsRecordType::AAAA => (d matches SpecRData::Ipv6(s) && s.len() == 16) || (
        d matches SpecRData::Opaque(s) && s.len() != 16),
        DnsRecordType::NS => d matches SpecRData::Name(n) && name_ok(n),
        DnsRecordType::CNAME => d matches SpecRData::Name(n) && name_ok(n),
        DnsRecordType::PTR => d matches SpecRData::Name(n) && name_ok(n),
        _ => d matches SpecRData::Opaque(_),
    }
}

/// A question constructible under the model: a wire-fitting name and
/// canonical type and class variants.
pub open spec fn question_wf(q: SpecQuestion) -> bool {
    name_ok(q.name) && q.qtype.wf() && q.qclass.wf()
}

/// A record constructible under the model: a wire-fitting owner name,
/// canonical type and class variants, and the canonical payload
/// variant for the type.
pub open spec fn record_wf(r: SpecRecord) -> bool {
    name_ok(r.name) && r.rtype.wf() && r.rclass.wf() && rdata_wf(r.rtype, r.rdata)
}

/// A message constructible under the model: counts equal to section
/// lengths, and every question and record well formed.
pub open spec fn message_wf(m: SpecMessage) -> bool {
    &&& m.query_count == m.queries.len()
    &&& m.answer_count == m.answers.len()
    &&& m.authority_count == m.authority.len()
    &&& m.additional_count == m.additional.len()
    &&& forall|i: int| 0 <= i < m.queries.len() ==> question_wf(#[trigger] m.queries[i])
    &&& forall|i: int| 0 <= i < m.answers.len() ==> record_wf(#[trigger] m.answers[i])
    &&& forall|i: int| 0 <= i < m.authority.len() ==> record_wf(#[trigger] m.authority[i])
    &&& forall|i: int| 0 <= i < m.additional.len() ==> record_wf(#[trigger] m.additional[i])
}

// ---------------------------------------------------------------------
// The wire format, read back: spec-level parsing.
// ---------------------------------------------------------------------

/// The bytes left in a buffer from a position, clamped for use as a
/// termination measure.
pub open spec fn len_from(total: int, pos: int) -> int {
    if 0 <= pos && pos <= total {
        total - pos
    } else {
        0
    }
}

/// The big-endian 16-bit value at a position.
pub open spec fn parse_u16(b: Seq<u8>, pos: int) -> u16
    recommends
        0 <= pos,
        pos + 2 <= b.len(),
{
    ((b[pos] as u16) << 8) | (b[pos + 1] as u16)
}

/// The big-endian 32-bit value at a position.
pub open spec fn parse_u32(b: Seq<u8>, pos: int) -> u32
    recommends
        0 <= pos,
        pos + 4 <= b.len(),
{
    ((b[pos] as u32) << 24) | ((b[pos + 1] as u32) << 16) | ((b[pos + 2] as u32) << 8) | (b[pos
        + 3] as u32)
}

/// Read a domain name at `pos`: a label is a length byte 1 to 63
/// followed by that many bytes, a zero byte ends the name, and a byte
/// with both top bits set starts a two-byte pointer to an offset from
/// the start of the message where reading resumes. Following a pointer
/// spends one unit of `depth`; a chain longer than the budget is a
/// loop. Returns the labels and the position after the name's bytes at
/// the original level.
pub open spec fn parse_name(b: Seq<u8>, pos: int, depth: int) -> Result<
    (Seq<Seq<u8>>, int),
    DecodeError,
>
    decreases depth, len_from(b.len() as int, pos),
{
    if depth <= 0 {
        Err(DecodeError::CompressionLoop)
    } else if !(0 <= pos && pos < b.len()) {
        Err(DecodeError::Truncated)
    } else {
        let c = b[pos];
        if c == 0 {
            Ok((Seq::empty(), pos + 1))
        } else if c < 64 {
            if pos + 1 + c > b.len() {
                Err(DecodeError::Truncated)
            } else {
                match parse_name(b, pos + 1 + c, depth) {
                    Ok((rest, end)) => Ok(
                        (seq![b.subrange(pos + 1, pos + 1 + c)] + rest, end),
                    ),
                    Err(e) => Err(e),
                }
            }
        } else if c >= 192 {
            if pos + 2 > b.len() {
                Err(DecodeError::Truncated)
            } else {
                let off = (c - 192) * 256 + b[pos + 1];
                match parse_name(b, off as int, depth - 1) {
                    Ok((labels, _)) => Ok((labels, pos + 2)),
                    Err(e) => Err(e),
                }
            }
        } else {
            Err(DecodeError::BadLabel)
        }
    }
}

/// Read one question at `pos`: a name, then type and class.
pub open spec fn parse_question(b: Seq<u8>, pos: int) -> Result<(SpecQuestion, int), DecodeError> {
    match parse_name(b, pos, MAX_NAME_INDIRECTION as int) {
        Err(e) => Err(e),
        Ok((name, p)) => if p + 4 <= b.len() {
            Ok(
                (
                    SpecQuestion {
                        name,
                        qtype: DnsRecordType::spec_from_wire(parse_u16(b, p)),
                        qclass: DnsQueryClass::spec_from_wire(parse_u16(b, p + 2)),
                    },
                    p + 4,
                ),
            )
        } else {
            Err(DecodeError::Truncated)
        },
    }
}

/// Interpret `rdlen` payload bytes at `start` according to the record
/// type: an address for `A`/`AAAA` of the right length, a possibly
/// compressed name for `NS`/`CNAME`/`PTR` (which must consume exactly
/// the declared length), raw bytes for everything else.
pub open spec fn parse_rdata(b: Seq<u8>, rtype: DnsRecordType, start: int, rdlen: int) -> Result<
    SpecRData,
    DecodeError,
>
    recommends
        0 <= start,
        start + rdlen <= b.len(),
{
    if rtype == DnsRecordType::A && rdlen == 4 {
        Ok(SpecRData::Ipv4(b[start], b[start + 1], b[start + 2], b[start + 3]))
    } else if rtype == DnsRecordType::AAAA && rdlen == 16 {
        Ok(SpecRData::Ipv6(b.subrange(start, start + 16)))
    } else if rtype == DnsRecordType::NS || rtype == DnsRecordType::CNAME || rtype
        == DnsRecordType::PTR {
        match parse_name(b, start, MAX_NAME_INDIRECTION as int) {
            Err(e) => Err(e),
            Ok((n, end)) => if end == start + rdlen {
                Ok(SpecRData::Name(n))
            } else {
                Err(DecodeError::CountMismatch)
            },
        }
    } else {
        Ok(SpecRData::Opaque(b.subrange(start, start + rdlen)))
    }
}

/// Read one resource record at `pos`: a name, the ten fixed bytes
/// (type, class, TTL, rdata length), then the declared payload.
pub open spec fn parse_record(b: Seq<u8>, pos: int) -> Result<(SpecRecord, int), DecodeError> {
    match parse_name(b, pos, MAX_NAME_INDIRECTION as int) {
        Err(e) => Err(e),
        Ok((name, p)) => if p + 10 <= b.len() {
            let rtype = DnsRecordType::spec_from_wire(parse_u16(b, p));
            let rclass = DnsQueryClass::spec_from_wire(parse_u16(b, p + 2));
            let ttl = parse_u32(b, p + 4);
            let rdlen = parse_u16(b, p + 8) as int;
            if p + 10 + rdlen > b.len() {
                Err(DecodeError::Truncated)
            } else {
                match parse_rdata(b, rtype, p + 10, rdlen) {
                    Err(e) => Err(e),
                    Ok(d) => Ok((SpecRecord { name, rtype, rclass, ttl, rdata: d }, p + 10 + rdlen)),
                }
            }
        } else {
            Err(DecodeError::Truncated)
        },
    }
}

/// Read `count` questions in sequence starting at `pos`.
pub open spec fn parse_questions(b: Seq<u8>, pos: int, count: int) -> Result<
    (Seq<SpecQuestion>, int),
    DecodeError,
>
    decreases count,
{
    if count <= 0 {
        Ok((Seq::empty(), pos))
    } else {
        match parse_question(b, pos) {
            Err(e) => Err(e),
            Ok((q, p)) => match parse_questions(b, p, count - 1) {
                Err(e) => Err(e),
                Ok((qs, end)) => Ok((seq![q] + qs, end)),
            },
        }
    }
}

/// Read `count` resource records in sequence starting at `pos`.
pub open spec fn parse_records(b: Seq<u8>, pos: int, count: int) -> Result<
    (Seq<SpecRecord>, int),
    DecodeError,
>
    decreases count,
{
    if count <= 0 {
        Ok((Seq::empty(), pos))
    } else {
        match parse_record(b, pos) {
            Err(e) => Err(e),
            Ok((r, p)) => match parse_records(b, p, count - 1) {
                Err(e) => Err(e),
                Ok((rs, end)) => Ok((seq![r] + rs, end)),
            },
        }
    }
}

/// Read a whole message: the 12-byte header, then each section per the
/// header's declared counts, which must account for the entire buffer.
/// A buffer shorter than the header is truncated.
pub open spec fn parse_message(b: Seq<u8>) -> Result<SpecMessage, DecodeError> {
    if b.len() < 12 {
        Err(DecodeError::Truncated)
    } else {
        let qc = parse_u16(b, 4);
        let anc = parse_u16(b, 6);
        let auc = parse_u16(b, 8);
        let adc = parse_u16(b, 10);
        match parse_questions(b, 12, qc as int) {
            Err(e) => Err(e),
            Ok((qs, p1)) => match parse_records(b, p1, anc as int) {
                Err(e) => Err(e),
                Ok((ans, p2)) => match parse_records(b, p2, auc as int) {
                    Err(e) => Err(e),
                    Ok((aus, p3)) => match parse_records(b, p3, adc as int) {
                        Err(e) => Err(e),
                        Ok((ads, p4)) => if p4 == b.len() {
                            Ok(
                                SpecMessage {
                                    transaction_id: parse_u16(b, 0),
                                    flags: parse_u16(b, 2),
                                    query_count: qc,
                                    answer_count: anc,
                                    authority_count: auc,
                                    additional_count: adc,
                                    queries: qs,
                                    answers: ans,
                                    authority: aus,
                                    additional: ads,
                                },
                            )
                        } else {
                            Err(DecodeError::CountMismatch)
                        },
                    },
                },
            },
        }
    }
}

// ---------------------------------------------------------------------
// Facts about the spec encoding.
// ---------------------------------------------------------------------

/// A name's wire form is never empty: the terminator is always there.
pub proof fn lemma_name_wire_len_ge_one(name: Seq<Seq<u8>>)
    ensures
        name_wire_len(name) >= 1,
    decreases name.len(),
{
    if name.len() > 0 {
        lemma_name_wire_len_ge_one(name.drop_first());
    }
}

/// The encoded form of a name has exactly its wire length.
pub proof fn lemma_encoded_name_len(name: Seq<Seq<u8>>)
    ensures
        spec_encode_name(name).len() == name_wire_len(name),
    decreases name.len(),
{
    if name.len() > 0 {
        lemma_encoded_name_len(name.drop_first());
    }
}

// ---------------------------------------------------------------------
// Executable encoding, proved against the spec encoding.
// ---------------------------------------------------------------------

/// Append the bytes of `s` to `out`.
fn push_bytes(out: &mut Vec<u8>, s: &Vec<u8>)
    ensures
        final(out)@ == old(out)@ + s@,
{
    let ghost orig = out@;
    let mut i: usize = 0;
    while i < s.len()
        invariant
            i <= s@.len(),
            out@ =~= orig + s@.subrange(0, i as int),
        decreases s@.len() - i,
    {
        out.push(s[i]);
        proof {
            assert(s@.subrange(0, i + 1) =~= s@.subrange(0, i as int).push(s@[i as int]));
        }
        i = i + 1;
    }
    proof {
        assert(s@.subrange(0, s@.len() as int) =~= s@);
        assert(out@ =~= orig + s@);
    }
}

/// Append a big-endian 16-bit value to `out`.
fn push_u16(out: &mut Vec<u8>, x: u16)
    ensures
        final(out)@ == old(out)@ + spec_encode_u16(x),
{
    let ghost orig = out@;
    out.push((x >> 8) as u8);
    out.push((x & 0xff) as u8);
    proof {
        assert(out@ =~= orig + spec_encode_u16(x));
    }
}

/// Append a big-endian 32-bit value to `out`.
fn push_u32(out: &mut Vec<u8>, x: u32)
    ensures
        final(out)@ == old(out)@ + spec_encode_u32(x),
{
    let ghost orig = out@;
    out.push((x >> 24) as u8);
    out.push(((x >> 16) & 0xff) as u8);
    out.push(((x >> 8) & 0xff) as u8);
    out.push((x & 0xff) as u8);
    proof {
        assert(out@ =~= orig + spec_encode_u32(x));
    }
}

/// Measure a name's wire length, validating it on the way: `Some`
/// exactly when the name fits the wire.
pub fn name_len_checked(n: &DomainName) -> (r: Option<u16>)
    ensures
        match r {
            Some(l) => name_ok(n@) && l as int == name_wire_len(n@) && 1 <= l <= 255,
            None => !name_ok(n@),
        },
{
    let mut total: u16 = 1;
    proof {
        assert(n@.skip(0) =~= n@);
    }
    let mut i: usize = 0;
    while i < n.labels.len()
        invariant
            i <= n.labels@.len(),
            1 <= total <= 255,
            forall|j: int| 0 <= j < i ==> label_ok(#[trigger] n@[j]),
            name_wire_len(n@) == total - 1 + name_wire_len(n@.skip(i as int)),
        decreases n.labels@.len() - i,
    {
        let ll = n.labels[i].len();
        proof {
            assert(n@[i as int] == n.labels@[i as int]@);
        }
        if ll == 0 || ll > 63 {
            proof {
                assert(!label_ok(n@[i as int]));
            }
            return None;
        }
        proof {
            assert(n@.skip(i as int).first() == n@[i as int]);
            assert(n@.skip(i as int).drop_first() =~= n@.skip(i as int + 1));
        }
        let newtotal = total + (ll as u16) + 1;
        if newtotal > 255 {
            proof {
                lemma_name_wire_len_ge_one(n@.skip(i as int + 1));
            }
            return None;
        }
        total = newtotal;
        i = i + 1;
    }
    proof {
        assert(n@.skip(n@.len() as int) =~= Seq::<Seq<u8>>::empty());
    }
    Some(total)
}

/// Whether a name fits the wire.
pub fn check_name(n: &DomainName) -> (r: bool)
    ensures
        r == name_ok(n@),
{
    name_len_checked(n).is_some()
}

/// Whether a payload's embedded name, if any, fits the wire.
fn check_rdata_names(d: &RData) -> (r: bool)
    ensures
        r == rdata_names_ok(d@),
{
    match d {
        RData::Name(n) => check_name(n),
        _ => true,
    }
}

/// Whether every name of every record in `rs` fits the wire.
fn check_records_names(rs: &Vec<ResourceRecord>) -> (r: bool)
    ensures
        r == records_names_ok(crate::dns::recs_view(rs@)),
{
    let mut i: usize = 0;
    while i < rs.len()
        invariant
            i <= rs@.len(),
            forall|j: int|
                #![trigger crate::dns::recs_view(rs@)[j]]
                0 <= j < i ==> name_ok(crate::dns::recs_view(rs@)[j].name) && rdata_names_ok(
                    crate::dns::recs_view(rs@)[j].rdata,
                ),
        decreases rs@.len() - i,
    {
        proof {
            assert(crate::dns::recs_view(rs@)[i as int] == rs@[i as int]@);
        }
        if !check_name(&rs[i].rr_name) {
            return false;
        }
        if !check_rdata_names(&rs[i].rr_data) {
            return false;
        }
        i = i + 1;
    }
    true
}

/// Whether every name the message holds fits the wire.
pub fn check_message_names(m: &DnsMessage) -> (r: bool)
    ensures
        r == msg_names_ok(m@),
{
    let mut i: usize = 0;
    while i < m.records.queries.len()
        invariant
            i <= m.records.queries@.len(),
            forall|j: int| #![trigger m@.queries[j]] 0 <= j < i ==> name_ok(m@.queries[j].name),
        decreases m.records.queries@.len() - i,
    {
        proof {
            assert(m@.queries[i as int] == m.records.queries@[i as int]@);
        }
        if !check_name(&m.records.queries[i].qz_name) {
            return false;
        }
        i = i + 1;
    }
    let ans = check_records_names(&m.records.answers);
    let aut = check_records_names(&m.records.authority);
    let add = check_records_names(&m.records.additional);
    ans && aut && add
}

/// Append the wire form of a name to `out`.
fn push_name(out: &mut Vec<u8>, n: &DomainName)
    requires
        name_ok(n@),
    ensures
        final(out)@ == old(out)@ + spec_encode_name(n@),
{
    let ghost orig = out@;
    proof {
        assert(n@.skip(0) =~= n@);
    }
    let mut i: usize = 0;
    while i < n.labels.len()
        invariant
            i <= n.labels@.len(),
            name_ok(n@),
            out@ + spec_encode_name(n@.skip(i as int)) =~= orig + spec_encode_name(n@),
        decreases n.labels@.len() - i,
    {
        proof {
            assert(n@[i as int] == n.labels@[i as int]@);
            assert(label_ok(n@[i as int]));
            assert(n@.skip(i as int).first() == n@[i as int]);
            assert(n@.skip(i as int).drop_first() =~= n@.skip(i as int + 1));
        }
        let label = &n.labels[i];
        out.push(label.len() as u8);
        push_bytes(out, label);
        proof {
            assert(out@ + spec_encode_name(n@.skip(i as int + 1)) =~= orig + spec_encode_name(
                n@,
            ));
        }
        i = i + 1;
    }
    proof {
        assert(n@.skip(n@.len() as int) =~= Seq::<Seq<u8>>::empty());
    }
    out.push(0);
    proof {
        assert(out@ =~= orig + spec_encode_name(n@));
    }
}

/// Append the wire form of a question to `out`.
fn push_question(out: &mut Vec<u8>, q: &QueryZone)
    requires
        name_ok(q@.name),
    ensures
        final(out)@ == old(out)@ + spec_encode_question(q@),
{
    let ghost orig = out@;
    push_name(out, &q.qz_name);
    push_u16(out, q.qz_type.wire_value());
    push_u16(out, q.qz_class.wire_value());
    proof {
        assert(out@ =~= orig + spec_encode_question(q@));
    }
}

/// Measure a payload's wire length: `Some` exactly when it fits the
/// record's 16-bit length field.
fn rdata_wire_len(d: &RData) -> (r: Option<u16>)
    requires
        rdata_names_ok(d@),
    ensures
        match r {
            Some(l) => l as int == spec_encode_rdata(d@).len(),
            None => spec_encode_rdata(d@).len() > 0xffff,
        },
{
    match d {
        RData::Ipv4(_, _, _, _) => Some(4),
        RData::Ipv6(v) => if v.len() <= 0xffff {
            Some(v.len() as u16)
        } else {
            None
        },
        RData::Name(n) => {
            proof {
                lemma_encoded_name_len(n@);
            }
            match name_len_checked(n) {
                Some(l) => Some(l),
                None => {
                    proof {
                        assert(false);
                    }
                    None
                },
            }
        },
        RData::Opaque(v) => if v.len() <= 0xffff {
            Some(v.len() as u16)
        } else {
            None
        },
    }
}

/// Append the wire form of a payload to `out`.
fn push_rdata(out: &mut Vec<u8>, d: &RData)
    requires
        rdata_names_ok(d@),
    ensures
        final(out)@ == old(out)@ + spec_encode_rdata(d@),
{
    let ghost orig = out@;
    match d {
        RData::Ipv4(a, b, c, e) => {
            out.push(*a);
            out.push(*b);
            out.push(*c);
            out.push(*e);
            proof {
                assert(out@ =~= orig + spec_encode_rdata(d@));
            }
        },
        RData::Ipv6(v) => push_bytes(out, v),
        RData::Name(n) => push_name(out, n),
        RData::Opaque(v) => push_bytes(out, v),
    }
}

/// Append the wire form of one record to `out`; `false`, leaving `out`
/// unchanged, when the payload cannot fit its length field.
fn push_record(out: &mut Vec<u8>, r: &ResourceRecord) -> (ok: bool)
    requires
        name_ok(r@.name),
        rdata_names_ok(r@.rdata),
    ensures
        ok ==> final(out)@ == old(out)@ + spec_encode_record(r@) && rdata_len_ok(r@),
        !ok ==> !rdata_len_ok(r@) && final(out)@ == old(out)@,
{
    let ghost orig = out@;
    let rdlen = match rdata_wire_len(&r.rr_data) {
        Some(l) => l,
        None => {
            return false;
        },
    };
    push_name(out, &r.rr_name);
    push_u16(out, r.rr_type.wire_value());
    push_u16(out, r.rr_class.wire_value());
    push_u32(out, r.rr_ttl);
    push_u16(out, rdlen);
    push_rdata(out, &r.rr_data);
    proof {
        assert(out@ =~= orig + spec_encode_record(r@));
    }
    true
}

/// Append the wire forms of all records in `rs` to `out`; `false` when
/// some payload cannot fit its length field.
fn push_records(out: &mut Vec<u8>, rs: &Vec<ResourceRecord>) -> (ok: bool)
    requires
        records_names_ok(crate::dns::recs_view(rs@)),
    ensures
        ok ==> final(out)@ == old(out)@ + spec_encode_records(crate::dns::recs_view(rs@)) && (
        forall|i: int|
            #![trigger crate::dns::recs_view(rs@)[i]]
            0 <= i < rs@.len() ==> rdata_len_ok(crate::dns::recs_view(rs@)[i])),
        !ok ==> exists|i: int|
            0 <= i < rs@.len() && !rdata_len_ok(#[trigger] crate::dns::recs_view(rs@)[i]),
{
    let ghost orig = out@;
    let ghost rv = crate::dns::recs_view(rs@);
    proof {
        assert(rv.skip(0) =~= rv);
    }
    let mut i: usize = 0;
    while i < rs.len()
        invariant
            i <= rs@.len(),
            rv == crate::dns::recs_view(rs@),
            records_names_ok(rv),
            forall|k: int| #![trigger rv[k]] 0 <= k < i ==> rdata_len_ok(rv[k]),
            out@ + spec_encode_records(rv.skip(i as int)) =~= orig + spec_encode_records(rv),
        decreases rs@.len() - i,
    {
        proof {
            assert(rv[i as int] == rs@[i as int]@);
            assert(rv.skip(i as int).first() == rv[i as int]);
            assert(rv.skip(i as int).drop_first() =~= rv.skip(i as int + 1));
        }
        if !push_record(out, &rs[i]) {
            return false;
        }
        proof {
            assert(out@ + spec_encode_records(rv.skip(i as int + 1)) =~= orig
                + spec_encode_records(rv));
        }
        i = i + 1;
    }
    proof {
        assert(rv.skip(rv.len() as int) =~= Seq::<SpecRecord>::empty());
        assert(out@ =~= orig + spec_encode_records(rv));
    }
    true
}

/// The advertised EDNS0 payload size, read from the first OPT record
/// of a section.
fn find_edns_size(rs: &Vec<ResourceRecord>) -> (r: Option<u16>)
    ensures
        r == spec_find_edns_size(crate::dns::recs_view(rs@)),
{
    let ghost rv = crate::dns::recs_view(rs@);
    proof {
        assert(rv.skip(0) =~= rv);
    }
    let mut i: usize = 0;
    while i < rs.len()
        invariant
            i <= rs@.len(),
            rv == crate::dns::recs_view(rs@),
            spec_find_edns_size(rv) == spec_find_edns_size(rv.skip(i as int)),
        decreases rs@.len() - i,
    {
        proof {
            assert(rv[i as int] == rs@[i as int]@);
            assert(rv.skip(i as int).first() == rv[i as int]);
            assert(rv.skip(i as int).drop_first() =~= rv.skip(i as int + 1));
        }
        if rs[i].rr_type == DnsRecordType::OPT {
            return Some(rs[i].rr_class.wire_value());
        }
        i = i + 1;
    }
    proof {
        assert(rv.skip(rv.len() as int) =~= Seq::<SpecRecord>::empty());
    }
    None
}

/// Encode a message into its wire bytes. The four counts and each
/// rdata length are derived from the sections, never taken from the
/// stored fields. Fails with `NameTooLong` exactly when some name does
/// not fit the wire, and with `SectionTooLarge` exactly when the
/// names fit but a section or payload overflows its count field or the
/// whole exceeds the negotiated maximum size.
pub fn encode(m: &DnsMessage) -> (r: Result<Vec<u8>, EncodeError>)
    ensures
        match r {
            Ok(b) => msg_names_ok(m@) && sections_fit(m@) && b@ == spec_encode(m@),
            Err(EncodeError::NameTooLong) => !msg_names_ok(m@),
            Err(EncodeError::SectionTooLarge) => msg_names_ok(m@) && !sections_fit(m@),
        },
{
    if !check_message_names(m) {
        return Err(EncodeError::NameTooLong);
    }
    if m.records.queries.len() > 0xffff || m.records.answers.len() > 0xffff
        || m.records.authority.len() > 0xffff || m.records.additional.len() > 0xffff {
        return Err(EncodeError::SectionTooLarge);
    }
    let mut out: Vec<u8> = Vec::new();
    push_u16(&mut out, m.transaction_id);
    push_u16(&mut out, m.flags);
    push_u16(&mut out, m.records.queries.len() as u16);
    push_u16(&mut out, m.records.answers.len() as u16);
    push_u16(&mut out, m.records.authority.len() as u16);
    push_u16(&mut out, m.records.additional.len() as u16);
    proof {
        assert(out@ =~= spec_encode_header(m@));
    }
    let ghost qv = m@.queries;
    proof {
        assert(qv.skip(0) =~= qv);
    }
    let mut i: usize = 0;
    while i < m.records.queries.len()
        invariant
            i <= m.records.queries@.len(),
            qv == m@.queries,
            msg_names_ok(m@),
            out@ + spec_encode_questions(qv.skip(i as int)) =~= spec_encode_header(m@)
                + spec_encode_questions(qv),
        decreases m.records.queries@.len() - i,
    {
        proof {
            assert(qv[i as int] == m.records.queries@[i as int]@);
            assert(qv.skip(i as int).first() == qv[i as int]);
            assert(qv.skip(i as int).drop_first() =~= qv.skip(i as int + 1));
        }
        push_question(&mut out, &m.records.queries[i]);
        proof {
            assert(out@ + spec_encode_questions(qv.skip(i as int + 1)) =~= spec_encode_header(m@)
                + spec_encode_questions(qv));
        }
        i = i + 1;
    }
    proof {
        assert(qv.skip(qv.len() as int) =~= Seq::<SpecQuestion>::empty());
        assert(out@ =~= spec_encode_header(m@) + spec_encode_questions(qv));
    }
    if !push_records(&mut out, &m.records.answers) {
        return Err(EncodeError::SectionTooLarge);
    }
    if !push_records(&mut out, &m.records.authority) {
        return Err(EncodeError::SectionTooLarge);
    }
    if !push_records(&mut out, &m.records.additional) {
        return Err(EncodeError::SectionTooLarge);
    }
    proof {
        assert(out@ =~= spec_encode(m@));
    }
    let max = match find_edns_size(&m.records.additional) {
        Some(s) => s,
        None => CLASSIC_MAX_SIZE,
    };
    if out.len() > max as usize {
        return Err(EncodeError::SectionTooLarge);
    }
    Ok(out)
}

// ---------------------------------------------------------------------
// Executable decoding, proved against the spec parsing.
// ---------------------------------------------------------------------

/// Read the big-endian 16-bit value at `pos`.
fn read_u16(b: &[u8], pos: usize) -> (r: u16)
    requires
        pos + 2 <= b@.len(),
    ensures
        r == parse_u16(b@, pos as int),
{
    ((b[pos] as u16) << 8) | (b[pos + 1] as u16)
}

/// Read the big-endian 32-bit value at `pos`.
fn read_u32(b: &[u8], pos: usize) -> (r: u32)
    requires
        pos + 4 <= b@.len(),
    ensures
        r == parse_u32(b@, pos as int),
{
    ((b[pos] as u32) << 24) | ((b[pos + 1] as u32) << 16) | ((b[pos + 2] as u32) << 8) | (b[pos
        + 3] as u32)
}

/// Copy the bytes of `b` between `start` and `end` into a fresh vector.
fn copy_range(b: &[u8], start: usize, end: usize) -> (r: Vec<u8>)
    requires
        start <= end,
        end <= b@.len(),
    ensures
        r@ == b@.subrange(start as int, end as int),
{
    let mut out: Vec<u8> = Vec::new();
    let mut i = start;
    while i < end
        invariant
            start <= i <= end,
            end <= b@.len(),
            out@ =~= b@.subrange(start as int, i as int),
        decreases end - i,
    {
        out.push(b[i]);
        proof {
            assert(b@.subrange(start as int, i + 1) =~= b@.subrange(start as int, i as int).push(
                b@[i as int],
            ));
        }
        i = i + 1;
    }
    proof {
        assert(out@ =~= b@.subrange(start as int, end as int));
    }
    out
}

/// Decode a possibly compressed domain name at `pos`, following at
/// most `depth` compression pointers: exactly the bounded resolution
/// that `parse_name` states.
fn decode_name(b: &[u8], pos: usize, depth: u8) -> (r: Result<(Vec<Vec<u8>>, usize), DecodeError>)
    ensures
        match r {
            Ok(p) => parse_name(b@, pos as int, depth as int) == Ok::<
                (Seq<Seq<u8>>, int),
                DecodeError,
            >((crate::dns::labels_view(p.0@), p.1 as int)) && p.1 <= b@.len(),
            Err(e) => parse_name(b@, pos as int, depth as int) == Err::<
                (Seq<Seq<u8>>, int),
                DecodeError,
            >(e),
        },
    decreases depth as int, len_from(b@.len() as int, pos as int),
{
    if depth == 0 {
        return Err(DecodeError::CompressionLoop);
    }
    if pos >= b.len() {
        return Err(DecodeError::Truncated);
    }
    let c = b[pos];
    if c == 0 {
        let labels: Vec<Vec<u8>> = Vec::new();
        proof {
            assert(crate::dns::labels_view(labels@) =~= Seq::<Seq<u8>>::empty());
        }
        Ok((labels, pos + 1))
    } else if c < 64 {
        let cl = c as usize;
        if cl > b.len() - (pos + 1) {
            return Err(DecodeError::Truncated);
        }
        let label = copy_range(b, pos + 1, pos + 1 + cl);
        match decode_name(b, pos + 1 + cl, depth) {
            Err(e) => Err(e),
            Ok((mut labels, end)) => {
                proof {
                    assert(crate::dns::labels_view(labels@.insert(0, label)) =~= seq![
                        b@.subrange(pos + 1, pos + 1 + c),
                    ] + crate::dns::labels_view(labels@));
                }
                labels.insert(0, label);
                Ok((labels, end))
            },
        }
    } else if c >= 192 {
        if b.len() - pos < 2 {
            return Err(DecodeError::Truncated);
        }
        let off = (c as usize - 192) * 256 + (b[pos + 1] as usize);
        match decode_name(b, off, depth - 1) {
            Err(e) => Err(e),
            Ok((labels, _end)) => Ok((labels, pos + 2)),
        }
    } else {
        Err(DecodeError::BadLabel)
    }
}

/// Decode one question at `pos`.
fn decode_question(b: &[u8], pos: usize) -> (r: Result<(QueryZone, usize), DecodeError>)
    ensures
        match r {
            Ok(p) => parse_question(b@, pos as int) == Ok::<(SpecQuestion, int), DecodeError>(
                (p.0@, p.1 as int),
            ) && p.1 <= b@.len(),
            Err(e) => parse_question(b@, pos as int) == Err::<(SpecQuestion, int), DecodeError>(e),
        },
{
    let (labels, p) = match decode_name(b, pos, MAX_NAME_INDIRECTION) {
        Ok(x) => x,
        Err(e) => {
            return Err(e);
        },
    };
    if b.len() - p < 4 {
        return Err(DecodeError::Truncated);
    }
    let t = read_u16(b, p);
    let c = read_u16(b, p + 2);
    let q = QueryZone {
        qz_name: DomainName { labels },
        qz_type: DnsRecordType::from_wire(t),
        qz_class: DnsQueryClass::from_wire(c),
    };
    Ok((q, p + 4))
}

/// Decode `rdlen` payload bytes at `start` according to the record
/// type.
fn decode_rdata(b: &[u8], rtype: DnsRecordType, start: usize, rdlen: usize) -> (r: Result<
    RData,
    DecodeError,
>)
    requires
        start + rdlen <= b@.len(),
    ensures
        match r {
            Ok(d) => parse_rdata(b@, rtype, start as int, rdlen as int) == Ok::<
                SpecRData,
                DecodeError,
            >(d@),
            Err(e) => parse_rdata(b@, rtype, start as int, rdlen as int) == Err::<
                SpecRData,
                DecodeError,
            >(e),
        },
{
    let blen = b.len();
    if rtype == DnsRecordType::A && rdlen == 4 {
        Ok(RData::Ipv4(b[start], b[start + 1], b[start + 2], b[start + 3]))
    } else if rtype == DnsRecordType::AAAA && rdlen == 16 {
        let v = copy_range(b, start, start + 16);
        Ok(RData::Ipv6(v))
    } else if rtype == DnsRecordType::NS || rtype == DnsRecordType::CNAME || rtype
        == DnsRecordType::PTR {
        match decode_name(b, start, MAX_NAME_INDIRECTION) {
            Err(e) => Err(e),
            Ok((labels, end)) => if end == start + rdlen {
                Ok(RData::Name(DomainName { labels }))
            } else {
                Err(DecodeError::CountMismatch)
            },
        }
    } else {
        let v = copy_range(b, start, start + rdlen);
        Ok(RData::Opaque(v))
    }
}

/// Decode one resource record at `pos`.
fn decode_record(b: &[u8], pos: usize) -> (r: Result<(ResourceRecord, usize), DecodeError>)
    ensures
        match r {
            Ok(p) => parse_record(b@, pos as int) == Ok::<(SpecRecord, int), DecodeError>(
                (p.0@, p.1 as int),
            ) && p.1 <= b@.len(),
            Err(e) => parse_record(b@, pos as int) == Err::<(SpecRecord, int), DecodeError>(e),
        },
{
    let (labels, p) = match decode_name(b, pos, MAX_NAME_INDIRECTION) {
        Ok(x) => x,
        Err(e) => {
            return Err(e);
        },
    };
    if b.len() - p < 10 {
        return Err(DecodeError::Truncated);
    }
    let rtype = DnsRecordType::from_wire(read_u16(b, p));
    let rclass = DnsQueryClass::from_wire(read_u16(b, p + 2));
    let ttl = read_u32(b, p + 4);
    let rdlen = read_u16(b, p + 8) as usize;
    if rdlen > b.len() - (p + 10) {
        return Err(DecodeError::Truncated);
    }
    match decode_rdata(b, rtype, p + 10, rdlen) {
        Err(e) => Err(e),
        Ok(d) => Ok(
            (
                ResourceRecord {
                    rr_name: DomainName { labels },
                    rr_type: rtype,
                    rr_class: rclass,
                    rr_ttl: ttl,
                    rr_data: d,
                },
                p + 10 + rdlen,
            ),
        ),
    }
}

/// Decode `count` questions in sequence starting at `pos`.
fn decode_questions(b: &[u8], pos: usize, count: u16) -> (r: Result<
    (Vec<QueryZone>, usize),
    DecodeError,
>)
    requires
        pos <= b@.len(),
    ensures
        match r {
            Ok(p) => parse_questions(b@, pos as int, count as int) == Ok::<
                (Seq<SpecQuestion>, int),
                DecodeError,
            >((crate::dns::quests_view(p.0@), p.1 as int)) && p.1 <= b@.len(),
            Err(e) => parse_questions(b@, pos as int, count as int) == Err::<
                (Seq<SpecQuestion>, int),
                DecodeError,
            >(e),
        },
{
    let mut out: Vec<QueryZone> = Vec::new();
    let mut p = pos;
    let mut i: u16 = 0;
    proof {
        assert(crate::dns::quests_view(out@) =~= Seq::<SpecQuestion>::empty());
    }
    while i < count
        invariant
            i <= count,
            p <= b@.len(),
            ({
                let whole = parse_questions(b@, pos as int, count as int);
                match parse_questions(b@, p as int, (count - i) as int) {
                    Ok(t) => whole == Ok::<(Seq<SpecQuestion>, int), DecodeError>(
                        (crate::dns::quests_view(out@) + t.0, t.1),
                    ),
                    Err(e) => whole == Err::<(Seq<SpecQuestion>, int), DecodeError>(e),
                }
            }),
        decreases count - i,
    {
        match decode_question(b, p) {
            Err(e) => {
                return Err(e);
            },
            Ok((q, p2)) => {
                proof {
                    match parse_questions(b@, p2 as int, (count - i) as int - 1) {
                        Ok(t) => {
                            assert(crate::dns::quests_view(out@) + (seq![q@] + t.0)
                                =~= crate::dns::quests_view(out@.push(q)) + t.0);
                        },
                        Err(_) => {},
                    }
                }
                out.push(q);
                p = p2;
            },
        }
        i = i + 1;
    }
    proof {
        assert(crate::dns::quests_view(out@) + Seq::<SpecQuestion>::empty()
            =~= crate::dns::quests_view(out@));
    }
    Ok((out, p))
}

/// Decode `count` resource records in sequence starting at `pos`.
fn decode_records(b: &[u8], pos: usize, count: u16) -> (r: Result<
    (Vec<ResourceRecord>, usize),
    DecodeError,
>)
    requires
        pos <= b@.len(),
    ensures
        match r {
            Ok(p) => parse_records(b@, pos as int, count as int) == Ok::<
                (Seq<SpecRecord>, int),
                DecodeError,
            >((crate::dns::recs_view(p.0@), p.1 as int)) && p.1 <= b@.len(),
            Err(e) => parse_records(b@, pos as int, count as int) == Err::<
                (Seq<SpecRecord>, int),
                DecodeError,
            >(e),
        },
{
    let mut out: Vec<ResourceRecord> = Vec::new();
    let mut p = pos;
    let mut i: u16 = 0;
    proof {
        assert(crate::dns::recs_view(out@) =~= Seq::<SpecRecord>::empty());
    }
    while i < count
        invariant
            i <= count,
            p <= b@.len(),
            ({
                let whole = parse_records(b@, pos as int, count as int);
                match parse_records(b@, p as int, (count - i) as int) {
                    Ok(t) => whole == Ok::<(Seq<SpecRecord>, int), DecodeError>(
                        (crate::dns::recs_view(out@) + t.0, t.1),
                    ),
                    Err(e) => whole == Err::<(Seq<SpecRecord>, int), DecodeError>(e),
                }
            }),
        decreases count - i,
    {
        match decode_record(b, p) {
            Err(e) => {
                return Err(e);
            },
            Ok((rec, p2)) => {
                proof {
                    match parse_records(b@, p2 as int, (count - i) as int - 1) {
                        Ok(t) => {
                            assert(crate::dns::recs_view(out@) + (seq![rec@] + t.0)
                                =~= crate::dns::recs_view(out@.push(rec)) + t.0);
                        },
                        Err(_) => {},
                    }
                }
                out.push(rec);
                p = p2;
            },
        }
        i = i + 1;
    }
    proof {
        assert(crate::dns::recs_view(out@) + Seq::<SpecRecord>::empty() =~= crate::dns::recs_view(
            out@,
        ));
    }
    Ok((out, p))
}

/// Decode a byte buffer into a message: exactly the function
/// `parse_message`, so a buffer shorter than the 12-byte header is
/// rejected as truncated, the sections are read per the header's
/// counts, and any malformed input yields its typed error. Never
/// panics and never reads outside the buffer.
pub fn decode(b: &[u8]) -> (r: Result<DnsMessage, DecodeError>)
    ensures
        match r {
            Ok(m) => parse_message(b@) == Ok::<SpecMessage, DecodeError>(m@),
            Err(e) => parse_message(b@) == Err::<SpecMessage, DecodeError>(e),
        },
        b@.len() < 12 ==> r == Err::<DnsMessage, DecodeError>(DecodeError::Truncated),
{
    if b.len() < 12 {
        return Err(DecodeError::Truncated);
    }
    let id = read_u16(b, 0);
    let flags = read_u16(b, 2);
    let qc = read_u16(b, 4);
    let anc = read_u16(b, 6);
    let auc = read_u16(b, 8);
    let adc = read_u16(b, 10);
    let (qs, p1) = match decode_questions(b, 12, qc) {
        Ok(x) => x,
        Err(e) => {
            return Err(e);
        },
    };
    let (ans, p2) = match decode_records(b, p1, anc) {
        Ok(x) => x,
        Err(e) => {
            return Err(e);
        },
    };
    let (aus, p3) = match decode_records(b, p2, auc) {
        Ok(x) => x,
        Err(e) => {
            return Err(e);
        },
    };
    let (ads, p4) = match decode_records(b, p3, adc) {
        Ok(x) => x,
        Err(e) => {
            return Err(e);
        },
    };
    if p4 != b.len() {
        return Err(DecodeError::CountMismatch);
    }
    let m = DnsMessage {
        transaction_id: id,
        flags,
        query_count: qc,
        answer_count: anc,
        authority_count: auc,
        additional_count: adc,
        records: DnsMessageSection { queries: qs, answers: ans, authority: aus, additional: ads },
    };
    Ok(m)
}

// ---------------------------------------------------------------------
// The round trip: parsing an encoded well-formed message gives the
// message back.
// ---------------------------------------------------------------------

/// The wire length of one question.
pub open spec fn question_wire_len(q: SpecQuestion) -> int {
    name_wire_len(q.name) + 4
}

/// The wire length of a question section.
pub open spec fn questions_wire_len(qs: Seq<SpecQuestion>) -> int
    decreases qs.len(),
{
    if qs.len() == 0 {
        0
    } else {
        question_wire_len(qs.first()) + questions_wire_len(qs.drop_first())
    }
}

/// The wire length of one resource record.
pub open spec fn record_wire_len(r: SpecRecord) -> int {
    name_wire_len(r.name) + 10 + spec_encode_rdata(r.rdata).len()
}

/// The wire length of a record section.
pub open spec fn records_wire_len(rs: Seq<SpecRecord>) -> int
    decreases rs.len(),
{
    if rs.len() == 0 {
        0
    } else {
        record_wire_len(rs.first()) + records_wire_len(rs.drop_first())
    }
}

/// The encoded form of a question has exactly its wire length.
pub proof fn lemma_encoded_question_len(q: SpecQuestion)
    ensures
        spec_encode_question(q).len() == question_wire_len(q),
{
    lemma_encoded_name_len(q.name);
}

/// The encoded form of a record has exactly its wire length.
pub proof fn lemma_encoded_record_len(r: SpecRecord)
    ensures
        spec_encode_record(r).len() == record_wire_len(r),
{
    lemma_encoded_name_len(r.name);
}

/// The encoded form of a question section has exactly its wire length,
/// and that length is not negative.
pub proof fn lemma_encoded_questions_len(qs: Seq<SpecQuestion>)
    ensures
        spec_encode_questions(qs).len() == questions_wire_len(qs),
        questions_wire_len(qs) >= 0,
    decreases qs.len(),
{
    if qs.len() > 0 {
        lemma_encoded_question_len(qs.first());
        lemma_encoded_questions_len(qs.drop_first());
    }
}

/// The encoded form of a record section has exactly its wire length,
/// and that length is not negative.
pub proof fn lemma_encoded_records_len(rs: Seq<SpecRecord>)
    ensures
        spec_encode_records(rs).len() == records_wire_len(rs),
        records_wire_len(rs) >= 0,
    decreases rs.len(),
{
    if rs.len() > 0 {
        lemma_encoded_record_len(rs.first());
        lemma_encoded_records_len(rs.drop_first());
        lemma_name_wire_len_ge_one(rs.first().name);
    }
}

/// Parsing the two encoded bytes of a 16-bit value gives the value.
pub proof fn lemma_parse_u16_of_encoded(b: Seq<u8>, pos: int, x: u16)
    requires
        0 <= pos,
        pos + 2 <= b.len(),
        b.subrange(pos, pos + 2) == spec_encode_u16(x),
    ensures
        parse_u16(b, pos) == x,
{
    assert(b.subrange(pos, pos + 2)[0] == b[pos]);
    assert(b.subrange(pos, pos + 2)[1] == b[pos + 1]);
    assert((((x >> 8) as u8 as u16) << 8) | ((x & 0xff) as u8 as u16) == x) by (bit_vector);
}

/// Parsing the four encoded bytes of a 32-bit value gives the value.
proof fn lemma_parse_u32_of_encoded(b: Seq<u8>, pos: int, x: u32)
    requires
        0 <= pos,
        pos + 4 <= b.len(),
        b.subrange(pos, pos + 4) == spec_encode_u32(x),
    ensures
        parse_u32(b, pos) == x,
{
    assert(b.subrange(pos, pos + 4)[0] == b[pos]);
    assert(b.subrange(pos, pos + 4)[1] == b[pos + 1]);
    assert(b.subrange(pos, pos + 4)[2] == b[pos + 2]);
    assert(b.subrange(pos, pos + 4)[3] == b[pos + 3]);
    assert((((x >> 24) as u8 as u32) << 24) | ((((x >> 16) & 0xff) as u8 as u32) << 16) | ((((x
        >> 8) & 0xff) as u8 as u32) << 8) | ((x & 0xff) as u8 as u32) == x) by (bit_vector);
}

/// Parsing an encoded wire-fitting name gives the name back, whatever
/// follows it in the buffer and whatever the remaining pointer budget.
proof fn lemma_parse_name_of_encoded(b: Seq<u8>, pos: int, name: Seq<Seq<u8>>, depth: int)
    requires
        name_ok(name),
        0 <= pos,
        pos + name_wire_len(name) <= b.len(),
        b.subrange(pos, pos + name_wire_len(name)) == spec_encode_name(name),
        depth >= 1,
    ensures
        parse_name(b, pos, depth) == Ok::<(Seq<Seq<u8>>, int), DecodeError>(
            (name, pos + name_wire_len(name)),
        ),
    decreases name.len(),
{
    lemma_encoded_name_len(name);
    let ln = name_wire_len(name);
    let sub = b.subrange(pos, pos + ln);
    if name.len() == 0 {
        assert(sub[0] == b[pos]);
        assert(b[pos] == 0);
        assert(name =~= Seq::<Seq<u8>>::empty());
    } else {
        let l = name.first();
        let c = l.len() as int;
        assert(label_ok(name[0]));
        assert(sub[0] == b[pos]);
        assert(b[pos] == c as u8);
        assert(b[pos] as int == c);
        let rest = name.drop_first();
        let lr = name_wire_len(rest);
        lemma_name_wire_len_ge_one(rest);
        assert(ln == 1 + c + lr);
        // The label's bytes.
        assert(b.subrange(pos + 1, pos + 1 + c) =~= sub.subrange(1, 1 + c));
        assert(sub.subrange(1, 1 + c) =~= l);
        // The encoding of the remaining labels.
        assert(b.subrange(pos + 1 + c, pos + 1 + c + lr) =~= sub.subrange(1 + c, ln));
        assert(sub.subrange(1 + c, ln) =~= spec_encode_name(rest));
        // The remaining labels are a wire-fitting name.
        assert(forall|i: int| 0 <= i < rest.len() ==> rest[i] == name[i + 1]);
        assert(name_ok(rest));
        lemma_parse_name_of_encoded(b, pos + 1 + c, rest, depth);
        assert(seq![b.subrange(pos + 1, pos + 1 + c)] + rest =~= name);
    }
}

/// Parsing an encoded well-formed question gives the question back.
proof fn lemma_parse_question_of_encoded(b: Seq<u8>, pos: int, q: SpecQuestion)
    requires
        question_wf(q),
        0 <= pos,
        pos + question_wire_len(q) <= b.len(),
        b.subrange(pos, pos + question_wire_len(q)) == spec_encode_question(q),
    ensures
        parse_question(b, pos) == Ok::<(SpecQuestion, int), DecodeError>(
            (q, pos + question_wire_len(q)),
        ),
{
    lemma_encoded_name_len(q.name);
    let ln = name_wire_len(q.name);
    let ql = question_wire_len(q);
    let sub = b.subrange(pos, pos + ql);
    assert(b.subrange(pos, pos + ln) =~= sub.subrange(0, ln));
    assert(sub.subrange(0, ln) =~= spec_encode_name(q.name));
    lemma_parse_name_of_encoded(b, pos, q.name, MAX_NAME_INDIRECTION as int);
    assert(b.subrange(pos + ln, pos + ln + 2) =~= sub.subrange(ln, ln + 2));
    assert(sub.subrange(ln, ln + 2) =~= spec_encode_u16(q.qtype.spec_wire()));
    lemma_parse_u16_of_encoded(b, pos + ln, q.qtype.spec_wire());
    assert(b.subrange(pos + ln + 2, pos + ln + 4) =~= sub.subrange(ln + 2, ln + 4));
    assert(sub.subrange(ln + 2, ln + 4) =~= spec_encode_u16(q.qclass.spec_wire()));
    lemma_parse_u16_of_encoded(b, pos + ln + 2, q.qclass.spec_wire());
    assert(DnsRecordType::spec_from_wire(q.qtype.spec_wire()) == q.qtype);
    assert(DnsQueryClass::spec_from_wire(q.qclass.spec_wire()) == q.qclass);
}

/// Parsing an encoded well-formed record gives the record back.
proof fn lemma_parse_record_of_encoded(b: Seq<u8>, pos: int, r: SpecRecord)
    requires
        record_wf(r),
        rdata_len_ok(r),
        0 <= pos,
        pos + record_wire_len(r) <= b.len(),
        b.subrange(pos, pos + record_wire_len(r)) == spec_encode_record(r),
    ensures
        parse_record(b, pos) == Ok::<(SpecRecord, int), DecodeError>(
            (r, pos + record_wire_len(r)),
        ),
{
    lemma_encoded_name_len(r.name);
    let ln = name_wire_len(r.name);
    let rd = spec_encode_rdata(r.rdata);
    let rl = record_wire_len(r);
    let sub = b.subrange(pos, pos + rl);
    assert(b.subrange(pos, pos + ln) =~= sub.subrange(0, ln));
    assert(sub.subrange(0, ln) =~= spec_encode_name(r.name));
    lemma_parse_name_of_encoded(b, pos, r.name, MAX_NAME_INDIRECTION as int);
    let p = pos + ln;
    assert(b.subrange(p, p + 2) =~= sub.subrange(ln, ln + 2));
    assert(sub.subrange(ln, ln + 2) =~= spec_encode_u16(r.rtype.spec_wire()));
    lemma_parse_u16_of_encoded(b, p, r.rtype.spec_wire());
    assert(b.subrange(p + 2, p + 4) =~= sub.subrange(ln + 2, ln + 4));
    assert(sub.subrange(ln + 2, ln + 4) =~= spec_encode_u16(r.rclass.spec_wire()));
    lemma_parse_u16_of_encoded(b, p + 2, r.rclass.spec_wire());
    assert(b.subrange(p + 4, p + 8) =~= sub.subrange(ln + 4, ln + 8));
    assert(sub.subrange(ln + 4, ln + 8) =~= spec_encode_u32(r.ttl));
    lemma_parse_u32_of_encoded(b, p + 4, r.ttl);
    assert(b.subrange(p + 8, p + 10) =~= sub.subrange(ln + 8, ln + 10));
    assert(sub.subrange(ln + 8, ln + 10) =~= spec_encode_u16(rd.len() as u16));
    lemma_parse_u16_of_encoded(b, p + 8, rd.len() as u16);
    assert(parse_u16(b, p + 8) as int == rd.len());
    let start = p + 10;
    assert(b.subrange(start, start + rd.len()) =~= sub.subrange(ln + 10, rl));
    assert(sub.subrange(ln + 10, rl) =~= rd);
    assert(DnsRecordType::spec_from_wire(r.rtype.spec_wire()) == r.rtype);
    assert(DnsQueryClass::spec_from_wire(r.rclass.spec_wire()) == r.rclass);
    // The payload reads back as the canonical variant the model holds.
    match r.rdata {
        SpecRData::Ipv4(x0, x1, x2, x3) => {
            assert(r.rtype == DnsRecordType::A && rd.len() == 4);
            assert(b[start] == rd[0] && b[start + 1] == rd[1] && b[start + 2] == rd[2] && b[start
                + 3] == rd[3]);
        },
        SpecRData::Ipv6(s) => {
            assert(r.rtype == DnsRecordType::AAAA && rd.len() == 16);
            assert(b.subrange(start, start + 16) =~= s);
        },
        SpecRData::Name(n) => {
            lemma_encoded_name_len(n);
            assert(b.subrange(start, start + name_wire_len(n)) =~= rd);
            lemma_parse_name_of_encoded(b, start, n, MAX_NAME_INDIRECTION as int);
        },
        SpecRData::Opaque(s) => {
            assert(b.subrange(start, start + rd.len()) =~= s);
        },
    }
}

/// Parsing an encoded section of well-formed questions gives the
/// questions back.
proof fn lemma_parse_questions_of_encoded(b: Seq<u8>, pos: int, qs: Seq<SpecQuestion>)
    requires
        forall|i: int| #![trigger qs[i]] 0 <= i < qs.len() ==> question_wf(qs[i]),
        0 <= pos,
        pos + questions_wire_len(qs) <= b.len(),
        b.subrange(pos, pos + questions_wire_len(qs)) == spec_encode_questions(qs),
    ensures
        parse_questions(b, pos, qs.len() as int) == Ok::<(Seq<SpecQuestion>, int), DecodeError>(
            (qs, pos + questions_wire_len(qs)),
        ),
    decreases qs.len(),
{
    lemma_encoded_questions_len(qs);
    if qs.len() == 0 {
        assert(qs =~= Seq::<SpecQuestion>::empty());
    } else {
        let q = qs.first();
        let ql = question_wire_len(q);
        let rest = qs.drop_first();
        let total = questions_wire_len(qs);
        lemma_encoded_question_len(q);
        lemma_encoded_questions_len(rest);
        lemma_name_wire_len_ge_one(q.name);
        let sub = b.subrange(pos, pos + total);
        assert(b.subrange(pos, pos + ql) =~= sub.subrange(0, ql));
        assert(sub.subrange(0, ql) =~= spec_encode_question(q));
        lemma_parse_question_of_encoded(b, pos, q);
        assert(b.subrange(pos + ql, pos + total) =~= sub.subrange(ql, total));
        assert(sub.subrange(ql, total) =~= spec_encode_questions(rest));
        assert(forall|i: int| #![trigger rest[i]] 0 <= i < rest.len() ==> rest[i] == qs[i + 1]);
        lemma_parse_questions_of_encoded(b, pos + ql, rest);
        assert(seq![q] + rest =~= qs);
    }
}

/// Parsing an encoded section of well-formed records gives the records
/// back.
proof fn lemma_parse_records_of_encoded(b: Seq<u8>, pos: int, rs: Seq<SpecRecord>)
    requires
        forall|i: int| #![trigger rs[i]] 0 <= i < rs.len() ==> record_wf(rs[i]) && rdata_len_ok(
            rs[i],
        ),
        0 <= pos,
        pos + records_wire_len(rs) <= b.len(),
        b.subrange(pos, pos + records_wire_len(rs)) == spec_encode_records(rs),
    ensures
        parse_records(b, pos, rs.len() as int) == Ok::<(Seq<SpecRecord>, int), DecodeError>(
            (rs, pos + records_wire_len(rs)),
        ),
    decreases rs.len(),
{
    lemma_encoded_records_len(rs);
    if rs.len() == 0 {
        assert(rs =~= Seq::<SpecRecord>::empty());
    } else {
        let r = rs.first();
        let rl = record_wire_len(r);
        let rest = rs.drop_first();
        let total = records_wire_len(rs);
        lemma_encoded_record_len(r);
        lemma_encoded_records_len(rest);
        lemma_name_wire_len_ge_one(r.name);
        let sub = b.subrange(pos, pos + total);
        assert(b.subrange(pos, pos + rl) =~= sub.subrange(0, rl));
        assert(sub.subrange(0, rl) =~= spec_encode_record(r));
        lemma_parse_record_of_encoded(b, pos, r);
        assert(b.subrange(pos + rl, pos + total) =~= sub.subrange(rl, total));
        assert(sub.subrange(rl, total) =~= spec_encode_records(rest));
        assert(forall|i: int| #![trigger rest[i]] 0 <= i < rest.len() ==> rest[i] == rs[i + 1]);
        lemma_parse_records_of_encoded(b, pos + rl, rest);
        assert(seq![r] + rest =~= rs);
    }
}

/// The byte layout of an encoded message: where the six header
/// fields lie.
proof fn lemma_encoded_header_layout(m: SpecMessage)
    ensures
        spec_encode(m).len() >= 12,
        spec_encode(m).subrange(0, 2) == spec_encode_u16(m.transaction_id),
        spec_encode(m).subrange(2, 4) == spec_encode_u16(m.flags),
        spec_encode(m).subrange(4, 6) == spec_encode_u16(m.queries.len() as u16),
        spec_encode(m).subrange(6, 8) == spec_encode_u16(m.answers.len() as u16),
        spec_encode(m).subrange(8, 10) == spec_encode_u16(m.authority.len() as u16),
        spec_encode(m).subrange(10, 12) == spec_encode_u16(m.additional.len() as u16),
{
    let b = spec_encode(m);
    lemma_encoded_questions_len(m.queries);
    lemma_encoded_records_len(m.answers);
    lemma_encoded_records_len(m.authority);
    lemma_encoded_records_len(m.additional);
    assert(b.subrange(0, 2) =~= spec_encode_u16(m.transaction_id));
    assert(b.subrange(2, 4) =~= spec_encode_u16(m.flags));
    assert(b.subrange(4, 6) =~= spec_encode_u16(m.queries.len() as u16));
    assert(b.subrange(6, 8) =~= spec_encode_u16(m.answers.len() as u16));
    assert(b.subrange(8, 10) =~= spec_encode_u16(m.authority.len() as u16));
    assert(b.subrange(10, 12) =~= spec_encode_u16(m.additional.len() as u16));
}

/// The byte layout of an encoded message: where the four sections lie.
proof fn lemma_encoded_sections_layout(m: SpecMessage)
    ensures
        ({
            let b = spec_encode(m);
            let p1 = 12 + questions_wire_len(m.queries);
            let p2 = p1 + records_wire_len(m.answers);
            let p3 = p2 + records_wire_len(m.authority);
            let p4 = p3 + records_wire_len(m.additional);
            &&& b.len() == p4
            &&& b.subrange(12, p1) == spec_encode_questions(m.queries)
            &&& b.subrange(p1, p2) == spec_encode_records(m.answers)
            &&& b.subrange(p2, p3) == spec_encode_records(m.authority)
            &&& b.subrange(p3, p4) == spec_encode_records(m.additional)
        }),
{
    let b = spec_encode(m);
    lemma_encoded_questions_len(m.queries);
    lemma_encoded_records_len(m.answers);
    lemma_encoded_records_len(m.authority);
    lemma_encoded_records_len(m.additional);
    let p1 = 12 + questions_wire_len(m.queries);
    let p2 = p1 + records_wire_len(m.answers);
    let p3 = p2 + records_wire_len(m.authority);
    let p4 = p3 + records_wire_len(m.additional);
    assert(b.subrange(12, p1) =~= spec_encode_questions(m.queries));
    assert(b.subrange(p1, p2) =~= spec_encode_records(m.answers));
    assert(b.subrange(p2, p3) =~= spec_encode_records(m.authority));
    assert(b.subrange(p3, p4) =~= spec_encode_records(m.additional));
}

/// The round trip: for every message constructible under the model —
/// well formed and fitting the wire's count and size fields — parsing
/// its encoding yields the message itself, equal in every semantic
/// field. Together with the contracts of `encode` and `decode`, which
/// compute exactly `spec_encode` and `parse_message`, this says that
/// `decode(encode(m))` gives `m` back whenever `encode` succeeds.
#[verifier::rlimit(100)]
pub proof fn lemma_parse_of_encoded_message(m: SpecMessage)
    requires
        message_wf(m),
        sections_fit(m),
    ensures
        parse_message(spec_encode(m)) == Ok::<SpecMessage, DecodeError>(m),
{
    let b = spec_encode(m);
    lemma_encoded_questions_len(m.queries);
    lemma_encoded_records_len(m.answers);
    lemma_encoded_records_len(m.authority);
    lemma_encoded_records_len(m.additional);
    let ql = questions_wire_len(m.queries);
    let al1 = records_wire_len(m.answers);
    let al2 = records_wire_len(m.authority);
    let al3 = records_wire_len(m.additional);
    let p1 = 12 + ql;
    let p2 = p1 + al1;
    let p3 = p2 + al2;
    let p4 = p3 + al3;
    lemma_encoded_header_layout(m);
    lemma_parse_u16_of_encoded(b, 0, m.transaction_id);
    lemma_parse_u16_of_encoded(b, 2, m.flags);
    lemma_parse_u16_of_encoded(b, 4, m.queries.len() as u16);
    lemma_parse_u16_of_encoded(b, 6, m.answers.len() as u16);
    lemma_parse_u16_of_encoded(b, 8, m.authority.len() as u16);
    lemma_parse_u16_of_encoded(b, 10, m.additional.len() as u16);
    lemma_encoded_sections_layout(m);
    lemma_parse_questions_of_encoded(b, 12, m.queries);
    lemma_parse_records_of_encoded(b, p1, m.answers);
    lemma_parse_records_of_encoded(b, p2, m.authority);
    lemma_parse_records_of_encoded(b, p3, m.additional);
    let r = parse_message(b);
    assert(r is Ok);
    assert(r->Ok_0 =~= m);
}

/// A compressed name whose pointer refers to itself is rejected as a
/// compression loop, for every remaining indirection budget: the
/// decoder never follows such a pointer forever.
pub proof fn lemma_self_pointer_rejected(b: Seq<u8>, pos: int, depth: int)
    requires
        0 <= pos,
        pos + 2 <= b.len(),
        b[pos] >= 192,
        (b[pos] - 192) * 256 + b[pos + 1] == pos,
        depth >= 0,
    ensures
        parse_name(b, pos, depth) == Err::<(Seq<Seq<u8>>, int), DecodeError>(
            DecodeError::CompressionLoop,
        ),
    decreases depth,
{
    if depth > 0 {
        lemma_self_pointer_rejected(b, pos, depth - 1);
    }
}

} // verus!
