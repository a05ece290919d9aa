use vstd::prelude::*;
use vstd::slice::slice_to_vec;
use vstd::string::StringSliceAdditionalSpecFns;

verus! {

/// Query types this client asks for.
#[derive(Clone, Copy, Debug, PartialEq, Eq, Structural)]
pub enum QueryType {
    A,
}

impl QueryType {
    pub open spec fn spec_code(self) -> u16 {
        match self {
            QueryType::A => 1,
        }
    }

    pub fn code(self) -> (r: u16)
        ensures
            r == self.spec_code(),
    {
        match self {
            QueryType::A => 1,
        }
    }
}

/// Query classes this client asks for.
#[derive(Clone, Copy, Debug, PartialEq, Eq, Structural)]
pub enum QueryClass {
    IN,
}

impl QueryClass {
    pub open spec fn spec_code(self) -> u16 {
        match self {
            QueryClass::IN => 1,
        }
    }

    pub fn code(self) -> (r: u16)
        ensures
            r == self.spec_code(),
    {
        match self {
            QueryClass::IN => 1,
        }
    }
}

#[derive(Clone, Copy, Debug, PartialEq, Eq, Structural)]
pub enum ResponseCode {
    NoError,
    FormatError,
    ServerFailure,
    NameError,
    NotImplemented,
    Refused,
    UnknownError,
    NetworkError,
}

/// Recursion desired.
pub const FLAG_RD: u16 = 0x0100;

pub const DOT: u8 = 0x2E;

/// A 16-bit value as two bytes, most significant first.
pub open spec fn be16(x: u16) -> Seq<u8> {
    seq![(x / 256) as u8, (x % 256) as u8]
}

/// A 16-bit value read from two bytes, most significant first.
pub open spec fn be16_at(d: Seq<u8>, i: int) -> u16 {
    (d[i] as int * 256 + d[i + 1] as int) as u16
}

/// Length of the first label of a dotted name.
pub open spec fn label_len(b: Seq<u8>) -> nat
    decreases b.len(),
{
    if b.len() == 0 || b[0] == DOT {
        0
    } else {
        1 + label_len(b.skip(1))
    }
}

/// A dotted name in wire form, without the closing empty label: each label
/// preceded by its length (kept to its low 8 bits).
pub open spec fn name_wire(b: Seq<u8>) -> Seq<u8>
    decreases b.len(),
{
    let n = label_len(b);
    let head = seq![n as u8] + b.take(n as int);
    if n >= b.len() {
        head
    } else {
        head + name_wire(b.skip(n as int + 1))
    }
}

/// A query for one name: id, flags (recursion desired), one question, no
/// answer, authority or additional records; the name, the root label, the
/// type and the class.
pub open spec fn query_wire(id: u16, name: Seq<u8>, qtype: u16, qclass: u16) -> Seq<u8> {
    be16(id) + be16(FLAG_RD) + be16(1) + seq![0u8, 0u8, 0u8, 0u8, 0u8, 0u8] + name_wire(name)
        + seq![0u8] + be16(qtype) + be16(qclass)
}

pub open spec fn rcode_of(v: u16) -> ResponseCode {
    if v == 0 {
        ResponseCode::NoError
    } else if v == 1 {
        ResponseCode::FormatError
    } else if v == 2 {
        ResponseCode::ServerFailure
    } else if v == 3 {
        ResponseCode::NameError
    } else if v == 4 {
        ResponseCode::NotImplemented
    } else if v == 5 {
        ResponseCode::Refused
    } else {
        ResponseCode::UnknownError
    }
}

/// The code in bits 11..15 of a header.
pub open spec fn header_code(h: u16) -> u16 {
    (h >> 11u16) & 0xFu16
}

/// A DNS message as the bytes of one datagram.
#[derive(Debug)]
pub struct Message {
    pub datagram: Vec<u8>,
}

proof fn lemma_label_step(b: Seq<u8>, j: int)
    requires
        0 <= j < b.len(),
        b[j] != DOT,
    ensures
        label_len(b.skip(j)) == 1 + label_len(b.skip(j + 1)),
{
    assert(b.skip(j).skip(1) =~= b.skip(j + 1));
}

proof fn lemma_label_end(b: Seq<u8>, j: int)
    requires
        0 <= j <= b.len(),
        j == b.len() || b[j] == DOT,
    ensures
        label_len(b.skip(j)) == 0,
{
}

proof fn lemma_name_step(b: Seq<u8>, start: int, j: int)
    requires
        0 <= start <= j <= b.len(),
        label_len(b.skip(start)) == j - start,
    ensures
        j >= b.len() ==> name_wire(b.skip(start)) == seq![(j - start) as u8] + b.subrange(start, j),
        j < b.len() ==> name_wire(b.skip(start)) == seq![(j - start) as u8] + b.subrange(start, j)
            + name_wire(b.skip(j + 1)),
{
    let s = b.skip(start);
    assert(s.take(j - start) =~= b.subrange(start, j));
    if j < b.len() {
        assert(s.skip(j - start + 1) =~= b.skip(j + 1));
    }
}

impl Message {
    /// A message holding a copy of `datagram`.
    pub fn from(datagram: &[u8]) -> (m: Message)
        ensures
            m.datagram@ == datagram@,
    {
        Message { datagram: slice_to_vec(datagram) }
    }

    /// A query with transaction id `id` for the name `qname`, split at dots.
    pub fn query(id: u16, qname: &str, qtype: QueryType, qclass: QueryClass) -> (m: Message)
        ensures
            m.datagram@ == query_wire(id, qname.spec_bytes(), qtype.spec_code(), qclass.spec_code()),
    {
        let bytes = qname.as_bytes();
        let ghost b = bytes@;
        let len = bytes.len();
        let mut datagram: Vec<u8> = Vec::new();
        datagram.push((id / 256) as u8);
        datagram.push((id % 256) as u8);
        datagram.push((FLAG_RD / 256) as u8);
        datagram.push((FLAG_RD % 256) as u8);
        datagram.push(0);
        datagram.push(1);
        let mut z: usize = 0;
        while z < 6
            invariant
                z <= 6,
                datagram@.len() == 6 + z,
                datagram@.subrange(0, 6) == be16(id) + be16(FLAG_RD) + be16(1),
                forall|i: int| 6 <= i < 6 + z ==> datagram@[i] == 0u8,
            decreases 6 - z,
        {
            datagram.push(0);
            z = z + 1;
        }
        let ghost header = datagram@;
        assert(header =~= be16(id) + be16(FLAG_RD) + be16(1) + seq![0u8, 0u8, 0u8, 0u8, 0u8, 0u8]);
        let mut start: usize = 0;
        assert(b.skip(0) =~= b);
        loop
            invariant_except_break
                datagram@ + name_wire(b.skip(start as int)) == header + name_wire(b),
            invariant
                b == bytes@,
                len == b.len(),
                start <= len,
            ensures
                datagram@ == header + name_wire(b),
            decreases len - start,
        {
            let mut j = start;
            while j < len && bytes[j] != DOT
                invariant
                    b == bytes@,
                    len == b.len(),
                    start <= j <= len,
                    label_len(b.skip(start as int)) == (j - start) + label_len(b.skip(j as int)),
                decreases len - j,
            {
                proof {
                    lemma_label_step(b, j as int);
                }
                j = j + 1;
            }
            proof {
                lemma_label_end(b, j as int);
                lemma_name_step(b, start as int, j as int);
            }
            let ghost before = datagram@;
            datagram.push(#[verifier::truncate] ((j - start) as u8));
            let mut k = start;
            while k < j
                invariant
                    b == bytes@,
                    start <= k <= j <= len,
                    len == b.len(),
                    datagram@ == before + seq![(j - start) as u8] + b.subrange(start as int, k as int),
                decreases j - k,
            {
                datagram.push(bytes[k]);
                k = k + 1;
                assert(datagram@ =~= before + seq![(j - start) as u8] + b.subrange(start as int, k as int));
            }
            if j >= len {
                assert(datagram@ == header + name_wire(b)) by {
                    assert(before + name_wire(b.skip(start as int)) == header + name_wire(b));
                    assert(datagram@ =~= before + name_wire(b.skip(start as int)));
                }
                break;
            }
            proof {
                assert(datagram@ + name_wire(b.skip(j + 1)) =~= before + name_wire(b.skip(start as int)));
            }
            start = j + 1;
        }
        datagram.push(0);
        let t = qtype.code();
        let c = qclass.code();
        datagram.push((t / 256) as u8);
        datagram.push((t % 256) as u8);
        datagram.push((c / 256) as u8);
        datagram.push((c % 256) as u8);
        assert(datagram@ =~= query_wire(id, b, qtype.spec_code(), qclass.spec_code()));
        Message { datagram }
    }

    /// The transaction id: bytes 0 and 1.
    pub fn id(&self) -> (r: u16)
        requires
            self.datagram@.len() >= 2,
        ensures
            r == be16_at(self.datagram@, 0),
    {
        (self.datagram[0] as u16) * 256 + (self.datagram[1] as u16)
    }

    /// The flags word: bytes 2 and 3.
    pub fn header(&self) -> (r: u16)
        requires
            self.datagram@.len() >= 4,
        ensures
            r == be16_at(self.datagram@, 2),
    {
        (self.datagram[2] as u16) * 256 + (self.datagram[3] as u16)
    }

    /// Bit 15 of the header: the message is a response.
    pub fn is_response(&self) -> (r: bool)
        requires
            self.datagram@.len() >= 4,
        ensures
            r == ((be16_at(self.datagram@, 2) >> 15u16) & 1u16 == 1u16),
    {
        (self.header() >> 15u16) & 1u16 == 1u16
    }

    /// The response code carried in bits 11..15 of the header.
    pub fn rcode(&self) -> (r: ResponseCode)
        requires
            self.datagram@.len() >= 4,
        ensures
            r == rcode_of(header_code(be16_at(self.datagram@, 2))),
    {
        let v = (self.header() >> 11u16) & 0xFu16;
        if v == 0 {
            ResponseCode::NoError
        } else if v == 1 {
            ResponseCode::FormatError
        } else if v == 2 {
            ResponseCode::ServerFailure
        } else if v == 3 {
            ResponseCode::NameError
        } else if v == 4 {
            ResponseCode::NotImplemented
        } else if v == 5 {
            ResponseCode::Refused
        } else {
            ResponseCode::UnknownError
        }
    }
}

/// What a received datagram means to a client waiting on `query`: `None`
/// when it is not a response to it (keep waiting); else the address in its
/// last four bytes when the code is `NoError`, or the code.
pub open spec fn reply_outcome(query: Seq<u8>, reply: Seq<u8>) -> Option<Result<Seq<u8>, ResponseCode>> {
    if be16_at(reply, 0) != be16_at(query, 0) || (be16_at(reply, 2) >> 15u16) & 1u16 != 1u16 {
        None
    } else if rcode_of(header_code(be16_at(reply, 2))) == ResponseCode::NoError {
        Some(Ok(reply.skip(reply.len() - 4)))
    } else {
        Some(Err(rcode_of(header_code(be16_at(reply, 2)))))
    }
}

pub open spec fn outcome_view(r: Option<Result<[u8; 4], ResponseCode>>) -> Option<Result<Seq<u8>, ResponseCode>> {
    match r {
        None => None,
        Some(Ok(a)) => Some(Ok(a@)),
        Some(Err(e)) => Some(Err(e)),
    }
}

/// Judges a datagram received while waiting for the answer to `query`.
pub fn reply_to(query: &Message, reply: &Message) -> (r: Option<Result<[u8; 4], ResponseCode>>)
    requires
        query.datagram@.len() >= 2,
        reply.datagram@.len() >= 4,
    ensures
        outcome_view(r) == reply_outcome(query.datagram@, reply.datagram@),
{
    if reply.id() != query.id() || !reply.is_response() {
        return None;
    }
    match reply.rcode() {
        ResponseCode::NoError => {
            let n = reply.datagram.len();
            let a = [
                reply.datagram[n - 4],
                reply.datagram[n - 3],
                reply.datagram[n - 2],
                reply.datagram[n - 1],
            ];
            assert(a@ =~= reply.datagram@.skip(n - 4));
            Some(Ok(a))
        },
        code => Some(Err(code)),
    }
}

/// Where the resolver stands with its UDP socket.
#[derive(Clone, Copy, Debug, PartialEq, Eq, Structural)]
pub enum ResolveState {
    Bind,
    Query,
    Response,
}

/// What the resolver does with its socket in one round.
#[derive(Clone, Copy, Debug, PartialEq, Eq, Structural)]
pub enum ResolveAction {
    /// The deadline passed: give up with `NetworkError`.
    GiveUp,
    /// Bind the socket to the local endpoint.
    Bind,
    /// Send the query to the server.
    Send,
    /// Take one datagram and judge it with `reply_to`.
    Receive,
    /// Nothing to do until the interface moves on.
    Wait,
}

/// One round of the resolver: past the deadline it gives up; otherwise a
/// closed socket gets bound, then the query goes out as soon as it can be
/// sent, then each datagram that arrives is received.
pub open spec fn resolve_round(
    state: ResolveState,
    timed_out: bool,
    is_open: bool,
    can_send: bool,
    can_recv: bool,
) -> (ResolveAction, ResolveState) {
    if timed_out {
        (ResolveAction::GiveUp, state)
    } else {
        match state {
            ResolveState::Bind => if !is_open {
                (ResolveAction::Bind, ResolveState::Query)
            } else {
                (ResolveAction::Wait, ResolveState::Bind)
            },
            ResolveState::Query => if can_send {
                (ResolveAction::Send, ResolveState::Response)
            } else {
                (ResolveAction::Wait, ResolveState::Query)
            },
            ResolveState::Response => if can_recv {
                (ResolveAction::Receive, ResolveState::Response)
            } else {
                (ResolveAction::Wait, ResolveState::Response)
            },
        }
    }
}

/// Decides one round of the resolver loop.
pub fn resolve_step(
    state: ResolveState,
    timed_out: bool,
    is_open: bool,
    can_send: bool,
    can_recv: bool,
) -> (r: (ResolveAction, ResolveState))
    ensures
        r == resolve_round(state, timed_out, is_open, can_send, can_recv),
{
    if timed_out {
        return (ResolveAction::GiveUp, state);
    }
    match state {
        ResolveState::Bind => if !is_open {
            (ResolveAction::Bind, ResolveState::Query)
        } else {
            (ResolveAction::Wait, ResolveState::Bind)
        },
        ResolveState::Query => if can_send {
            (ResolveAction::Send, ResolveState::Response)
        } else {
            (ResolveAction::Wait, ResolveState::Query)
        },
        ResolveState::Response => if can_recv {
            (ResolveAction::Receive, ResolveState::Response)
        } else {
            (ResolveAction::Wait, ResolveState::Response)
        },
    }
}

/// An ephemeral port (49152..65536) chosen by a random number.
pub fn local_port(random: u16) -> (p: u16)
    ensures
        p == 49152 + random % 16384,
        49152 <= p,
{
    49152 + random % 16384
}

} // verus!
