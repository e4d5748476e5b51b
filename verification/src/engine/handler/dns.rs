use vstd::prelude::*;
use vstd::string::StringSliceAdditionalSpecFns;

verus! {

/// Why a DNS name could not be encoded or a DNS answer could not be read.
#[derive(Debug, Clone, Copy, PartialEq, Eq)]
pub enum DnsError {
    /// The domain name is longer than 255 bytes.
    DomainTooLong { len: usize },
    /// The answer carries another transaction id than the query.
    IdMismatch { got: u16, expected: u16 },
    /// The QR bit says the packet is a query, not a response.
    NotAResponse,
    /// The server answered with a non-zero RCODE.
    ServerFailure { rcode: u16 },
    /// The answer count is zero.
    NoAnswers,
    /// A read ran past the end of the packet.
    OutOfBounds,
    /// An answer's RDATA runs past the end of the packet.
    RdataPastEnd,
    /// An A record whose RDATA is not exactly four bytes long.
    BadARecordLength { len: u16 },
    /// No answer record is an A record.
    NoARecord,
}

/// The value of two bytes read in network (big-endian) order.
pub open spec fn be16(hi: u8, lo: u8) -> int {
    hi * 256 + lo
}

/// The value of four bytes read in network (big-endian) order.
pub open spec fn be32(b0: u8, b1: u8, b2: u8, b3: u8) -> int {
    ((b0 * 256 + b1) * 256 + b2) * 256 + b3
}

/// Reads a big-endian `u16` at `*cursor` and moves the cursor past it.
pub fn read_u16(data: &[u8], cursor: &mut usize) -> (r: Result<u16, DnsError>)
    ensures
        *old(cursor) + 2 <= data@.len() ==> {
            &&& r == Ok::<u16, DnsError>(be16(data@[*old(cursor) as int], data@[*old(cursor) + 1]) as u16)
            &&& *final(cursor) == *old(cursor) + 2
        },
        *old(cursor) + 2 > data@.len() ==> {
            &&& r == Err::<u16, DnsError>(DnsError::OutOfBounds)
            &&& *final(cursor) == *old(cursor)
        },
{
    if data.len() < 2 || *cursor > data.len() - 2 {
        return Err(DnsError::OutOfBounds);
    }
    let hi = data[*cursor];
    let lo = data[*cursor + 1];
    let value: u16 = (hi as u16) * 256 + (lo as u16);
    *cursor = *cursor + 2;
    Ok(value)
}

/// Reads a big-endian `u32` at `*cursor` and moves the cursor past it.
pub fn read_u32(data: &[u8], cursor: &mut usize) -> (r: Result<u32, DnsError>)
    ensures
        *old(cursor) + 4 <= data@.len() ==> {
            &&& r == Ok::<u32, DnsError>(be32(
                data@[*old(cursor) as int],
                data@[*old(cursor) + 1],
                data@[*old(cursor) + 2],
                data@[*old(cursor) + 3],
            ) as u32)
            &&& *final(cursor) == *old(cursor) + 4
        },
        *old(cursor) + 4 > data@.len() ==> {
            &&& r == Err::<u32, DnsError>(DnsError::OutOfBounds)
            &&& *final(cursor) == *old(cursor)
        },
{
    if data.len() < 4 || *cursor > data.len() - 4 {
        return Err(DnsError::OutOfBounds);
    }
    let b0 = data[*cursor] as u32;
    let b1 = data[*cursor + 1] as u32;
    let b2 = data[*cursor + 2] as u32;
    let b3 = data[*cursor + 3] as u32;
    let value: u32 = ((b0 * 256 + b1) * 256 + b2) * 256 + b3;
    *cursor = *cursor + 4;
    Ok(value)
}


/// Where reading a (possibly compressed) DNS name that starts at `c` stops,
/// and whether it succeeded: a zero byte ends the name, a byte with both top
/// bits set starts a two-byte compression pointer that ends it, any other
/// byte is the length of a label that follows it.
pub open spec fn name_end(data: Seq<u8>, c: int) -> (bool, int)
    decreases data.len() - c,
{
    if c < 0 || c >= data.len() {
        (false, c)
    } else {
        let len = data[c];
        if len == 0 {
            (true, c + 1)
        } else if len >= 0xC0 {
            if c + 2 > data.len() {
                (false, c)
            } else {
                (true, c + 2)
            }
        } else if c + 1 + len > data.len() {
            (false, c)
        } else {
            name_end(data, c + 1 + len)
        }
    }
}

/// Skips over the name that starts at `*cursor`; the cursor ends where
/// `name_end` says, on success and on failure alike.
pub fn skip_name(data: &[u8], cursor: &mut usize) -> (r: Result<(), DnsError>)
    ensures
        r is Ok <==> name_end(data@, *old(cursor) as int).0,
        r is Err ==> r == Err::<(), DnsError>(DnsError::OutOfBounds),
        *final(cursor) == name_end(data@, *old(cursor) as int).1,
{
    loop
        invariant
            name_end(data@, *old(cursor) as int) == name_end(data@, *cursor as int),
        decreases data@.len() - *cursor,
    {
        if *cursor >= data.len() {
            return Err(DnsError::OutOfBounds);
        }
        let len = data[*cursor];
        if len == 0 {
            *cursor = *cursor + 1;
            return Ok(());
        }
        if len & 0xC0 == 0xC0 {
            assert(len >= 0xC0) by (bit_vector)
                requires
                    len & 0xC0 == 0xC0,
            ;
            if data.len() - *cursor < 2 {
                return Err(DnsError::OutOfBounds);
            }
            *cursor = *cursor + 2;
            return Ok(());
        }
        assert(len < 0xC0) by (bit_vector)
            requires
                len & 0xC0 != 0xC0,
        ;
        let label_start = *cursor + 1;
        if (len as usize) > data.len() - label_start {
            return Err(DnsError::OutOfBounds);
        }
        *cursor = label_start + len as usize;
    }
}

/// Where the question section of `n` questions that starts at `c` ends, if
/// it lies within the packet: each question is a name, a type and a class.
pub open spec fn questions_end(data: Seq<u8>, c: int, n: nat) -> Option<int>
    decreases n,
{
    if n == 0 {
        Some(c)
    } else {
        let (ok, c1) = name_end(data, c);
        if !ok || c1 + 4 > data.len() {
            None
        } else {
            questions_end(data, c1 + 4, (n - 1) as nat)
        }
    }
}

/// The RDATA of the first A record among `n` answer records that start at
/// `c`, or why there is none.
pub open spec fn first_a_record(data: Seq<u8>, c: int, n: nat) -> Result<Seq<u8>, DnsError>
    decreases n,
{
    if n == 0 {
        Err(DnsError::NoARecord)
    } else {
        let (ok, c1) = name_end(data, c);
        if !ok || c1 + 10 > data.len() {
            Err(DnsError::OutOfBounds)
        } else {
            let record_type = be16(data[c1], data[c1 + 1]);
            let rdlength = be16(data[c1 + 8], data[c1 + 9]);
            let rdata = c1 + 10;
            if rdata + rdlength > data.len() {
                Err(DnsError::RdataPastEnd)
            } else if record_type == 1 {
                if rdlength != 4 {
                    Err(DnsError::BadARecordLength { len: rdlength as u16 })
                } else {
                    Ok(data.subrange(rdata, rdata + 4))
                }
            } else {
                first_a_record(data, rdata + rdlength, (n - 1) as nat)
            }
        }
    }
}

/// What reading a DNS response to the query with transaction id `id` gives:
/// the four address bytes of its first A record, or why it gives none.
pub open spec fn dns_answer(r: Seq<u8>, id: u16) -> Result<Seq<u8>, DnsError> {
    if r.len() < 2 {
        Err(DnsError::OutOfBounds)
    } else if be16(r[0], r[1]) != id {
        Err(DnsError::IdMismatch { got: be16(r[0], r[1]) as u16, expected: id })
    } else if r.len() < 4 {
        Err(DnsError::OutOfBounds)
    } else if be16(r[2], r[3]) / 32768 != 1 {
        Err(DnsError::NotAResponse)
    } else if be16(r[2], r[3]) % 16 != 0 {
        Err(DnsError::ServerFailure { rcode: (be16(r[2], r[3]) % 16) as u16 })
    } else if r.len() < 12 {
        Err(DnsError::OutOfBounds)
    } else {
        match questions_end(r, 12, be16(r[4], r[5]) as nat) {
            None => Err(DnsError::OutOfBounds),
            Some(c) => if be16(r[6], r[7]) == 0 {
                Err(DnsError::NoAnswers)
            } else {
                first_a_record(r, c, be16(r[6], r[7]) as nat)
            },
        }
    }
}

/// Reads the IPv4 address of the first A record of a DNS response to the
/// query whose transaction id is `dns_id`.
pub fn parse_dns_response(response: Vec<u8>, dns_id: u16) -> (r: Result<[u8; 4], DnsError>)
    ensures
        r is Ok <==> dns_answer(response@, dns_id) is Ok,
        r matches Ok(ip) ==> ip@ == dns_answer(response@, dns_id)->Ok_0,
        r matches Err(e) ==> dns_answer(response@, dns_id) == Err::<Seq<u8>, DnsError>(e),
{
    let data = response.as_slice();
    let mut cursor: usize = 0;

    let response_id = match read_u16(data, &mut cursor) {
        Ok(v) => v,
        Err(e) => return Err(e),
    };
    if response_id != dns_id {
        return Err(DnsError::IdMismatch { got: response_id, expected: dns_id });
    }

    let response_flags = match read_u16(data, &mut cursor) {
        Ok(v) => v,
        Err(e) => return Err(e),
    };
    let qr = (response_flags >> 15) & 0x1;
    assert((response_flags >> 15) & 0x1 == response_flags / 32768) by (bit_vector);
    if qr != 1 {
        return Err(DnsError::NotAResponse);
    }

    let rcode = response_flags & 0x000f;
    assert(response_flags & 0x000f == response_flags % 16) by (bit_vector);
    if rcode != 0 {
        return Err(DnsError::ServerFailure { rcode });
    }

    let qdcount = match read_u16(data, &mut cursor) {
        Ok(v) => v,
        Err(e) => return Err(e),
    };
    let ancount = match read_u16(data, &mut cursor) {
        Ok(v) => v,
        Err(e) => return Err(e),
    };
    let _nscount = match read_u16(data, &mut cursor) {
        Ok(v) => v,
        Err(e) => return Err(e),
    };
    let _arcount = match read_u16(data, &mut cursor) {
        Ok(v) => v,
        Err(e) => return Err(e),
    };
    assert(cursor == 12);
    let ghost outcome = match questions_end(data@, 12, qdcount as nat) {
        None => Err(DnsError::OutOfBounds),
        Some(c) => if ancount == 0 {
            Err(DnsError::NoAnswers)
        } else {
            first_a_record(data@, c, ancount as nat)
        },
    };
    assert(dns_answer(response@, dns_id) == outcome);

    // The question section is skipped: only the answers matter.
    let mut i: u16 = 0;
    while i < qdcount
        invariant
            data@ == response@,
            0 <= i <= qdcount,
            dns_answer(response@, dns_id) == outcome,
            outcome == match questions_end(data@, 12, qdcount as nat) {
                None => Err(DnsError::OutOfBounds),
                Some(c) => if ancount == 0 {
                    Err(DnsError::NoAnswers)
                } else {
                    first_a_record(data@, c, ancount as nat)
                },
            },
            cursor <= data@.len(),
            data@.len() >= 12,
            questions_end(data@, 12, qdcount as nat) == questions_end(data@, cursor as int, (qdcount - i) as nat),
        decreases qdcount - i,
    {
        let ghost c0 = cursor as int;
        assert(questions_end(data@, c0, (qdcount - i) as nat) == ({
            let (ok, c1) = name_end(data@, c0);
            if !ok || c1 + 4 > data@.len() {
                None
            } else {
                questions_end(data@, c1 + 4, (qdcount - i - 1) as nat)
            }
        }));
        if skip_name(data, &mut cursor).is_err() {
            return Err(DnsError::OutOfBounds);
        }
        let _qtype = match read_u16(data, &mut cursor) {
        Ok(v) => v,
        Err(e) => return Err(e),
    };
        let _qclass = match read_u16(data, &mut cursor) {
        Ok(v) => v,
        Err(e) => return Err(e),
    };
        i = i + 1;
    }

    if ancount == 0 {
        return Err(DnsError::NoAnswers);
    }

    let mut j: u16 = 0;
    while j < ancount
        invariant
            data@ == response@,
            0 <= j <= ancount,
            ancount > 0,
            dns_answer(response@, dns_id) == first_a_record(
                data@,
                questions_end(data@, 12, qdcount as nat)->Some_0,
                ancount as nat,
            ),
            cursor <= data@.len(),
            questions_end(data@, 12, qdcount as nat) is Some,
            first_a_record(data@, questions_end(data@, 12, qdcount as nat)->Some_0, ancount as nat)
                == first_a_record(data@, cursor as int, (ancount - j) as nat),
        decreases ancount - j,
    {
        let ghost c0 = cursor as int;
        assert(first_a_record(data@, c0, (ancount - j) as nat) == ({
            let (ok, c1) = name_end(data@, c0);
            if !ok || c1 + 10 > data@.len() {
                Err(DnsError::OutOfBounds)
            } else {
                let record_type = be16(data@[c1], data@[c1 + 1]);
                let rdlength = be16(data@[c1 + 8], data@[c1 + 9]);
                let rdata = c1 + 10;
                if rdata + rdlength > data@.len() {
                    Err(DnsError::RdataPastEnd)
                } else if record_type == 1 {
                    if rdlength != 4 {
                        Err(DnsError::BadARecordLength { len: rdlength as u16 })
                    } else {
                        Ok(data@.subrange(rdata, rdata + 4))
                    }
                } else {
                    first_a_record(data@, rdata + rdlength, (ancount - j - 1) as nat)
                }
            }
        }));
        if skip_name(data, &mut cursor).is_err() {
            return Err(DnsError::OutOfBounds);
        }
        let record = match read_u16(data, &mut cursor) {
        Ok(v) => v,
        Err(e) => return Err(e),
    };
        let _class = match read_u16(data, &mut cursor) {
        Ok(v) => v,
        Err(e) => return Err(e),
    };
        let _ttl = match read_u32(data, &mut cursor) {
        Ok(v) => v,
        Err(e) => return Err(e),
    };
        let rdlength = match read_u16(data, &mut cursor) {
        Ok(v) => v,
        Err(e) => return Err(e),
    };

        if rdlength as usize > data.len() - cursor {
            return Err(DnsError::RdataPastEnd);
        }
        let rdata_start = cursor;
        cursor = cursor + rdlength as usize;

        if let Some(DnsRecordType::A) = DnsRecordType::from_u16(record) {
            if rdlength != 4 {
                return Err(DnsError::BadARecordLength { len: rdlength });
            }
            let mut ip = [0u8; 4];
            ip[0] = data[rdata_start];
            ip[1] = data[rdata_start + 1];
            ip[2] = data[rdata_start + 2];
            ip[3] = data[rdata_start + 3];
            assert(ip@ =~= data@.subrange(rdata_start as int, rdata_start + 4));
            return Ok(ip);
        }
        j = j + 1;
    }

    Err(DnsError::NoARecord)
}

/// The known record type whose number on the wire is `value`, if any.
pub open spec fn spec_record_type(value: u16) -> Option<DnsRecordType> {
    if value == 1 {
        Some(DnsRecordType::A)
    } else if value == 28 {
        Some(DnsRecordType::AAAA)
    } else if value == 2 {
        Some(DnsRecordType::NS)
    } else if value == 5 {
        Some(DnsRecordType::CNAME)
    } else if value == 16 {
        Some(DnsRecordType::TXT)
    } else {
        None
    }
}

/// The DNS record types this client knows by name.
#[derive(Debug, Clone, Copy, PartialEq, Eq)]
pub enum DnsRecordType {
    A,
    AAAA,
    NS,
    CNAME,
    TXT,
}

impl DnsRecordType {
    /// The record type's number on the wire.
    pub open spec fn spec_code(self) -> u16 {
        match self {
            DnsRecordType::A => 1,
            DnsRecordType::AAAA => 28,
            DnsRecordType::NS => 2,
            DnsRecordType::CNAME => 5,
            DnsRecordType::TXT => 16,
        }
    }

    /// The record type's number on the wire.
    pub fn code(self) -> (c: u16)
        ensures
            c == self.spec_code(),
    {
        match self {
            DnsRecordType::A => 1,
            DnsRecordType::AAAA => 28,
            DnsRecordType::NS => 2,
            DnsRecordType::CNAME => 5,
            DnsRecordType::TXT => 16,
        }
    }

    /// The known record type with number `value`, if any.
    pub fn from_u16(value: u16) -> (r: Option<DnsRecordType>)
        ensures
            r == spec_record_type(value),
    {
        match value {
            1 => Some(DnsRecordType::A),
            28 => Some(DnsRecordType::AAAA),
            2 => Some(DnsRecordType::NS),
            5 => Some(DnsRecordType::CNAME),
            16 => Some(DnsRecordType::TXT),
            _ => None,
        }
    }
}


/// The dot-separated pieces of a name seen so far: the finished labels and
/// the label still being read. This is `str::split('.')` taken byte by byte;
/// `'.'` is ASCII, so it never occurs inside a multi-byte UTF-8 sequence.
pub open spec fn label_split(s: Seq<u8>) -> (Seq<Seq<u8>>, Seq<u8>)
    decreases s.len(),
{
    if s.len() == 0 {
        (Seq::empty(), Seq::empty())
    } else {
        let (done, current) = label_split(s.drop_last());
        if s.last() == 0x2Eu8 {
            (done.push(current), Seq::empty())
        } else {
            (done, current.push(s.last()))
        }
    }
}

/// The labels of a name: the pieces between its dots.
pub open spec fn labels(s: Seq<u8>) -> Seq<Seq<u8>> {
    label_split(s).0.push(label_split(s).1)
}

/// Labels in wire form: each one preceded by its length byte.
pub open spec fn encode_labels(ls: Seq<Seq<u8>>) -> Seq<u8>
    decreases ls.len(),
{
    if ls.len() == 0 {
        Seq::empty()
    } else {
        encode_labels(ls.drop_last()) + seq![ls.last().len() as u8] + ls.last()
    }
}

/// A domain name in DNS wire form: its labels, then the zero byte of the
/// root. The empty name is the root alone.
pub open spec fn encoded_name(s: Seq<u8>) -> Seq<u8> {
    if s.len() == 0 {
        seq![0u8]
    } else {
        encode_labels(labels(s)).push(0u8)
    }
}

/// Appends `bytes[start..end]`, preceded by its length, to `out`.
fn push_label(out: &mut Vec<u8>, bytes: &[u8], start: usize, end: usize)
    requires
        start <= end <= bytes@.len(),
        end - start <= 255,
    ensures
        final(out)@ == old(out)@ + seq![(end - start) as u8] + bytes@.subrange(start as int, end as int),
{
    out.push((end - start) as u8);
    let ghost base = out@;
    let mut k = start;
    while k < end
        invariant
            start <= k <= end <= bytes@.len(),
            out@ == base + bytes@.subrange(start as int, k as int),
        decreases end - k,
    {
        out.push(bytes[k]);
        assert(bytes@.subrange(start as int, k + 1) =~= bytes@.subrange(start as int, k as int).push(bytes@[k as int]));
        k = k + 1;
    }
}

/// Encodes a domain name into DNS wire form: a length byte before each
/// dot-separated label and a zero byte at the end. Names longer than 255
/// bytes are refused. Labels are not checked: an empty label or one longer
/// than 63 bytes is written as it is, with its length as its length byte,
/// and only a name whose labels all fit (`labels_fit`) is guaranteed to read
/// back as one whole name. The labels of the wire form of any other name
/// still spell that name (`spells_name`).
pub fn encode_domain_name(domain: &str) -> (r: Result<Vec<u8>, DnsError>)
    ensures
        (domain.spec_bytes().len() > 255) <==> (r is Err),
        r matches Err(e) ==> (e == DnsError::DomainTooLong { len: domain.spec_bytes().len() as usize }),
        r matches Ok(v) ==> v@ == encoded_name(domain.spec_bytes()),
        r matches Ok(v) ==> (domain.spec_bytes().len() > 0 ==> spells_name(v@, domain.spec_bytes())),
        r matches Ok(v) ==> (labels_fit(domain.spec_bytes()) ==> name_end(v@, 0) == (true, v@.len() as int)),
{
    let bytes = domain.as_bytes();
    let n = bytes.len();
    if n == 0 {
        let mut root = Vec::new();
        root.push(0u8);
        assert(root@ =~= seq![0u8]);
        return Ok(root);
    }
    if n > 255 {
        return Err(DnsError::DomainTooLong { len: n });
    }
    let mut result: Vec<u8> = Vec::with_capacity(n + 2);
    let mut start: usize = 0;
    let mut i: usize = 0;
    assert(bytes@.take(0) =~= Seq::<u8>::empty());
    while i < n
        invariant
            n == bytes@.len() <= 255,
            0 <= start <= i <= n,
            result@ == encode_labels(label_split(bytes@.take(i as int)).0),
            label_split(bytes@.take(i as int)).1 == bytes@.subrange(start as int, i as int),
        decreases n - i,
    {
        let ghost prefix = bytes@.take(i as int);
        assert(bytes@.take(i + 1).drop_last() =~= prefix);
        assert(bytes@.take(i + 1).last() == bytes@[i as int]);
        if bytes[i] == 0x2Eu8 {
            let ghost done = label_split(prefix).0;
            let ghost current = label_split(prefix).1;
            assert(done.push(current).drop_last() =~= done);
            push_label(&mut result, bytes, start, i);
            start = i + 1;
            assert(bytes@.subrange(start as int, i + 1) =~= Seq::<u8>::empty());
        } else {
            assert(bytes@.subrange(start as int, i + 1) =~= bytes@.subrange(start as int, i as int).push(bytes@[i as int]));
        }
        i = i + 1;
    }
    assert(bytes@.take(n as int) =~= bytes@);
    let ghost ls = labels(bytes@);
    assert(ls.drop_last() =~= label_split(bytes@).0);
    push_label(&mut result, bytes, start, n);
    result.push(0u8);
    proof {
        lemma_encoding_round_trips(bytes@);
        if labels_fit(bytes@) {
            assert(result@.subrange(0, result@.len() as int) =~= result@);
            lemma_encoded_name_reads_back(result@, 0, bytes@);
        }
    }
    Ok(result)
}

/// The high byte of a 16-bit value.
pub open spec fn high_byte(x: u16) -> u8 {
    (x / 256) as u8
}

/// The low byte of a 16-bit value.
pub open spec fn low_byte(x: u16) -> u8 {
    (x % 256) as u8
}

/// A standard query for one record of type `query_type` about the name
/// `encoded_domain`, with transaction id `id`: the 12-byte header asks for
/// recursion and holds one question, which is followed by QTYPE and
/// QCLASS IN.
pub open spec fn query_packet(id: u16, encoded_domain: Seq<u8>, query_type: DnsRecordType) -> Seq<u8> {
    seq![high_byte(id), low_byte(id), 0x01u8, 0x00u8, 0x00u8, 0x01u8, 0x00u8, 0x00u8, 0x00u8, 0x00u8, 0x00u8, 0x00u8]
        + encoded_domain
        + seq![high_byte(query_type.spec_code()), low_byte(query_type.spec_code()), 0x00u8, 0x01u8]
}

/// Builds the query packet for the transaction id `id`.
pub fn build_query_packet_with_id(encoded_domain: &[u8], query_type: DnsRecordType, id: u16) -> (packet: Vec<u8>)
    requires
        encoded_domain@.len() + 16 <= usize::MAX,
    ensures
        packet@ == query_packet(id, encoded_domain@, query_type),
{
    let code = query_type.code();
    let mut query: Vec<u8> = Vec::with_capacity(encoded_domain.len() + 16);
    query.push((id / 256) as u8);
    query.push((id % 256) as u8);
    query.push(0x01);
    query.push(0x00);
    query.push(0x00);
    query.push(0x01);
    query.push(0x00);
    query.push(0x00);
    query.push(0x00);
    query.push(0x00);
    query.push(0x00);
    query.push(0x00);
    let ghost header = query@;
    let mut k: usize = 0;
    while k < encoded_domain.len()
        invariant
            k <= encoded_domain@.len(),
            query@ == header + encoded_domain@.take(k as int),
        decreases encoded_domain@.len() - k,
    {
        query.push(encoded_domain[k]);
        assert(encoded_domain@.take(k + 1) =~= encoded_domain@.take(k as int).push(encoded_domain@[k as int]));
        k = k + 1;
    }
    assert(encoded_domain@.take(encoded_domain@.len() as int) =~= encoded_domain@);
    query.push((code / 256) as u8);
    query.push((code % 256) as u8);
    query.push(0x00);
    query.push(0x01);
    assert(query@ =~= query_packet(id, encoded_domain@, query_type));
    query
}

/// Draws a transaction id with `rand::random::<u16>()`. Its value comes from
/// a random number generator: nothing is stated of it.
#[verifier::external_body]
fn random_transaction_id() -> u16 {
    rand::random::<u16>()
}

/// Builds a query packet under a fresh random transaction id, and returns
/// the packet with that id.
pub fn build_query_packet(encoded_domain: &[u8], query_type: DnsRecordType) -> (r: (Vec<u8>, u16))
    requires
        encoded_domain@.len() + 16 <= usize::MAX,
    ensures
        r.0@ == query_packet(r.1, encoded_domain@, query_type),
{
    let id = random_transaction_id();
    let packet = build_query_packet_with_id(encoded_domain, query_type, id);
    (packet, id)
}


/// A name whose labels can all be written in wire form and read back: it
/// is 1 to 255 bytes long and each of its labels is 1 to 63 bytes long.
pub open spec fn labels_fit(s: Seq<u8>) -> bool {
    &&& 0 < s.len() <= 255
    &&& forall|i: int| 0 <= i < labels(s).len() ==> 1 <= #[trigger] labels(s)[i].len() <= 63
}

proof fn lemma_name_end_over_labels(data: Seq<u8>, c: int, ls: Seq<Seq<u8>>)
    requires
        0 <= c,
        c + encode_labels(ls).len() <= data.len(),
        data.subrange(c, c + encode_labels(ls).len()) == encode_labels(ls),
        forall|i: int| 0 <= i < ls.len() ==> 1 <= #[trigger] ls[i].len() <= 63,
    ensures
        name_end(data, c) == name_end(data, c + encode_labels(ls).len()),
    decreases ls.len(),
{
    if ls.len() > 0 {
        let init = ls.drop_last();
        let last = ls.last();
        let a = encode_labels(init);
        let whole = encode_labels(ls);
        assert(whole == a + seq![last.len() as u8] + last);
        assert(forall|i: int| 0 <= i < init.len() ==> #[trigger] init[i] == ls[i]);
        assert(data.subrange(c, c + a.len()) =~= whole.subrange(0, a.len() as int));
        assert(whole.subrange(0, a.len() as int) =~= a);
        lemma_name_end_over_labels(data, c, init);
        let p = c + a.len();
        assert(ls[ls.len() - 1] == last);
        assert(data[p] == whole[a.len() as int]);
        assert(data[p] == last.len() as u8);
        assert(name_end(data, p) == name_end(data, p + 1 + last.len()));
    }
}

/// A name written by `encode_domain_name` and read by `skip_name` is one
/// whole name: reading stops right after its last byte, wherever the name
/// stands in the packet and whatever follows it.
pub proof fn lemma_encoded_name_reads_back(data: Seq<u8>, c: int, s: Seq<u8>)
    requires
        labels_fit(s),
        0 <= c,
        c + encoded_name(s).len() <= data.len(),
        data.subrange(c, c + encoded_name(s).len()) == encoded_name(s),
    ensures
        name_end(data, c) == (true, c + encoded_name(s).len()),
{
    let ls = labels(s);
    let body = encode_labels(ls);
    let e = encoded_name(s);
    assert(e == body.push(0u8));
    assert(data.subrange(c, c + body.len()) =~= e.subrange(0, body.len() as int));
    assert(e.subrange(0, body.len() as int) =~= body);
    lemma_name_end_over_labels(data, c, ls);
    assert(data[c + body.len()] == e[body.len() as int]);
}

/// The labels that a run of wire-form labels holds, read from the front:
/// a length byte, then that many bytes, until the run ends; `None` when a
/// label runs past the end.
pub open spec fn wire_labels(d: Seq<u8>) -> Option<Seq<Seq<u8>>>
    decreases d.len(),
{
    if d.len() == 0 {
        Some(Seq::empty())
    } else if 1 + d[0] > d.len() {
        None
    } else {
        match wire_labels(d.subrange(1 + d[0] as int, d.len() as int)) {
            Some(rest) => Some(seq![d.subrange(1, 1 + d[0] as int)] + rest),
            None => None,
        }
    }
}

/// Pieces of text joined into one, with a `'.'` between each two.
pub open spec fn join_dots(ls: Seq<Seq<u8>>) -> Seq<u8>
    decreases ls.len(),
{
    if ls.len() == 0 {
        Seq::empty()
    } else if ls.len() == 1 {
        ls[0]
    } else {
        join_dots(ls.drop_last()) + seq![0x2Eu8] + ls.last()
    }
}

/// No piece holds a `'.'`.
pub open spec fn dot_free(ls: Seq<Seq<u8>>) -> bool {
    forall|i: int, j: int| 0 <= i < ls.len() && 0 <= j < ls[i].len() ==> #[trigger] ls[i][j] != 0x2Eu8
}

/// The wire form `v` spells the name `s`: it ends with the zero byte, and
/// the labels before it hold no `'.'` and, joined with `'.'`, give `s`.
pub open spec fn spells_name(v: Seq<u8>, s: Seq<u8>) -> bool {
    &&& v.len() > 0
    &&& v.last() == 0u8
    &&& wire_labels(v.drop_last()) matches Some(ls)
    &&& dot_free(ls)
    &&& join_dots(ls) == s
}

proof fn lemma_wire_labels_concat(a: Seq<u8>, b: Seq<u8>, la: Seq<Seq<u8>>, lb: Seq<Seq<u8>>)
    requires
        wire_labels(a) == Some(la),
        wire_labels(b) == Some(lb),
    ensures
        wire_labels(a + b) == Some(la + lb),
    decreases a.len(),
{
    if a.len() == 0 {
        assert(a + b =~= b);
        assert(la + lb =~= lb);
    } else {
        let n = a[0] as int;
        let rest_a = a.subrange(1 + n, a.len() as int);
        let ra = wire_labels(rest_a)->Some_0;
        lemma_wire_labels_concat(rest_a, b, ra, lb);
        let ab = a + b;
        assert(ab[0] == a[0]);
        assert(ab.subrange(1 + n, ab.len() as int) =~= rest_a + b);
        assert(ab.subrange(1, 1 + n) =~= a.subrange(1, 1 + n));
        assert(seq![a.subrange(1, 1 + n)] + (ra + lb) =~= la + lb);
    }
}

proof fn lemma_wire_labels_of_encoding(ls: Seq<Seq<u8>>)
    requires
        forall|i: int| 0 <= i < ls.len() ==> #[trigger] ls[i].len() <= 255,
    ensures
        wire_labels(encode_labels(ls)) == Some(ls),
    decreases ls.len(),
{
    if ls.len() > 0 {
        let init = ls.drop_last();
        let last = ls.last();
        assert(forall|i: int| 0 <= i < init.len() ==> #[trigger] init[i] == ls[i]);
        lemma_wire_labels_of_encoding(init);
        assert(ls[ls.len() - 1] == last);
        let one = seq![last.len() as u8] + last;
        assert(one.subrange(1 + last.len() as int, one.len() as int) =~= Seq::<u8>::empty());
        assert(one.subrange(1, 1 + last.len() as int) =~= last);
        assert(wire_labels(Seq::<u8>::empty()) == Some(Seq::<Seq<u8>>::empty()));
        assert(seq![last] + Seq::<Seq<u8>>::empty() =~= seq![last]);
        assert(wire_labels(one) == Some(seq![last]));
        lemma_wire_labels_concat(encode_labels(init), one, init, seq![last]);
        assert(encode_labels(ls) =~= encode_labels(init) + one);
        assert(init + seq![last] =~= ls);
    }
}

proof fn lemma_label_split_pieces(s: Seq<u8>)
    ensures
        join_dots(label_split(s).0.push(label_split(s).1)) == s,
        dot_free(label_split(s).0.push(label_split(s).1)),
        forall|i: int| 0 <= i < label_split(s).0.len() ==> #[trigger] label_split(s).0[i].len() <= s.len(),
        label_split(s).1.len() <= s.len(),
    decreases s.len(),
{
    if s.len() > 0 {
        let p = s.drop_last();
        let b = s.last();
        lemma_label_split_pieces(p);
        let (done, cur) = label_split(p);
        let x = done.push(cur);
        assert(s =~= p.push(b));
        if b == 0x2Eu8 {
            let y = x.push(Seq::<u8>::empty());
            assert(y.drop_last() =~= x);
            assert(join_dots(y) =~= s);
            assert forall|i: int, j: int| 0 <= i < y.len() && 0 <= j < y[i].len() implies #[trigger] y[i][j] != 0x2Eu8 by {
                assert(i < x.len());
                assert(y[i] == x[i]);
            }
            assert forall|i: int| 0 <= i < x.len() implies #[trigger] x[i].len() <= s.len() by {
                if i < done.len() {
                    assert(x[i] == done[i]);
                }
            }
        } else {
            let c2 = cur.push(b);
            let y = done.push(c2);
            assert(y.drop_last() =~= done);
            assert(x.drop_last() =~= done);
            if done.len() == 0 {
                assert(join_dots(x) == cur);
                assert(join_dots(y) =~= s);
            } else {
                assert(join_dots(y) =~= s);
            }
            assert forall|i: int, j: int| 0 <= i < y.len() && 0 <= j < y[i].len() implies #[trigger] y[i][j] != 0x2Eu8 by {
                if i < done.len() {
                    assert(y[i] == x[i]);
                } else {
                    assert(y[i] == c2);
                    if j < cur.len() {
                        assert(x[i] == cur);
                        assert(c2[j] == x[i][j]);
                    }
                }
            }
        }
    }
}

/// Encoding a name and reading the labels of its wire form back gives the
/// name again: the labels are exactly the pieces of the name between its
/// dots, in order, and joined with dots they give the name. So no byte but
/// `'.'` ever begins a new label.
pub proof fn lemma_encoding_round_trips(s: Seq<u8>)
    requires
        0 < s.len() <= 255,
    ensures
        spells_name(encoded_name(s), s),
{
    lemma_label_split_pieces(s);
    let ls = labels(s);
    let (done, cur) = label_split(s);
    assert forall|i: int| 0 <= i < ls.len() implies #[trigger] ls[i].len() <= 255 by {
        if i < done.len() {
            assert(ls[i] == done[i]);
        }
    }
    lemma_wire_labels_of_encoding(ls);
    let e = encoded_name(s);
    assert(e.drop_last() =~= encode_labels(ls));
}

/// Two bytes written as `high_byte`, `low_byte` read back as the value.
pub proof fn lemma_id_bytes_read_back(id: u16)
    ensures
        be16(high_byte(id), low_byte(id)) == id,
{
}

/// A DNS answer is accepted only if it carries the transaction id of the
/// query: its first two bytes are those of the query packet.
pub proof fn lemma_answer_matches_query_id(
    response: Seq<u8>,
    id: u16,
    encoded_domain: Seq<u8>,
    query_type: DnsRecordType,
)
    requires
        dns_answer(response, id) is Ok,
    ensures
        response.len() >= 2,
        response[0] == query_packet(id, encoded_domain, query_type)[0],
        response[1] == query_packet(id, encoded_domain, query_type)[1],
{
    let hi = response[0];
    let lo = response[1];
    assert(be16(hi, lo) == id);
    assert(high_byte(id) == hi);
    assert(low_byte(id) == lo);
}

/// The response that a recursive resolver gives to a query for the A record
/// of `name`: header (QR and RD set, RA set, RCODE 0, one question, one
/// answer), the question, and one A record whose name points back at the
/// question, with time to live `ttl` and address `ip`.
pub open spec fn a_record_response(id: u16, name: Seq<u8>, ttl: Seq<u8>, ip: Seq<u8>) -> Seq<u8> {
    seq![high_byte(id), low_byte(id), 0x81u8, 0x80u8, 0x00u8, 0x01u8, 0x00u8, 0x01u8, 0x00u8, 0x00u8, 0x00u8, 0x00u8]
        + name
        + seq![0x00u8, 0x01u8, 0x00u8, 0x01u8]
        + seq![0xC0u8, 0x0Cu8, 0x00u8, 0x01u8, 0x00u8, 0x01u8]
        + ttl
        + seq![0x00u8, 0x04u8]
        + ip
}

/// Reading the response to a query for the A record of a domain gives back
/// the address that the response carries.
pub proof fn lemma_a_record_response_reads_back(id: u16, s: Seq<u8>, ttl: Seq<u8>, ip: Seq<u8>)
    requires
        labels_fit(s),
        ttl.len() == 4,
        ip.len() == 4,
    ensures
        dns_answer(a_record_response(id, encoded_name(s), ttl, ip), id) == Ok::<Seq<u8>, DnsError>(ip),
{
    let e = encoded_name(s);
    let n = e.len() as int;
    let header = seq![high_byte(id), low_byte(id), 0x81u8, 0x80u8, 0x00u8, 0x01u8, 0x00u8, 0x01u8, 0x00u8, 0x00u8, 0x00u8, 0x00u8];
    let q_tail = seq![0x00u8, 0x01u8, 0x00u8, 0x01u8];
    let a_head = seq![0xC0u8, 0x0Cu8, 0x00u8, 0x01u8, 0x00u8, 0x01u8];
    let rdlen = seq![0x00u8, 0x04u8];
    let r = a_record_response(id, e, ttl, ip);
    assert(r == header + e + q_tail + a_head + ttl + rdlen + ip);
    assert(r.len() == 32 + n);
    assert(r[0] == high_byte(id));
    assert(r[1] == low_byte(id));
    assert(r[2] == 0x81u8);
    assert(r[3] == 0x80u8);
    assert(r[4] == 0u8 && r[5] == 1u8 && r[6] == 0u8 && r[7] == 1u8);
    lemma_id_bytes_read_back(id);
    assert(r.subrange(12, 12 + n) =~= e);
    lemma_encoded_name_reads_back(r, 12, s);
    assert(questions_end(r, 12 + n + 4, 0) == Some(16 + n));
    assert(questions_end(r, 12, 1) == Some(16 + n));
    assert(r[16 + n] == 0xC0u8);
    assert(r[16 + n + 2] == 0u8 && r[16 + n + 3] == 1u8);
    assert(name_end(r, 16 + n) == (true, 18 + n));
    assert(r[18 + n] == 0u8 && r[19 + n] == 1u8);
    assert(r[26 + n] == 0u8 && r[27 + n] == 4u8);
    assert(r.subrange(28 + n, 32 + n) =~= ip);
    assert(first_a_record(r, 16 + n, 1) == Ok::<Seq<u8>, DnsError>(ip));
}


/// The question of a query built for a domain is one whole name followed by
/// QTYPE and QCLASS, ending the packet: what the query writes, the reader
/// of names reads back.
pub proof fn lemma_query_question_reads_back(id: u16, s: Seq<u8>, query_type: DnsRecordType)
    requires
        labels_fit(s),
    ensures
        name_end(query_packet(id, encoded_name(s), query_type), 12) == (true, 12 + encoded_name(s).len() as int),
        query_packet(id, encoded_name(s), query_type).len() == 12 + encoded_name(s).len() + 4,
        questions_end(query_packet(id, encoded_name(s), query_type), 12, 1)
            == Some(query_packet(id, encoded_name(s), query_type).len() as int),
{
    let e = encoded_name(s);
    let n = e.len() as int;
    let q = query_packet(id, e, query_type);
    assert(q.subrange(12, 12 + n) =~= e);
    lemma_encoded_name_reads_back(q, 12, s);
    assert(questions_end(q, 12 + n + 4, 0) == Some(12 + n + 4));
}

} // verus!
