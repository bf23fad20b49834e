//! STUN: asking a server for the address that it sees, and telling its answers
//! from other packets.
use crate::net::{opt_address, plain_address, AddressView, IpAddress, SocketAddress};
use crate::probe::random_bytes;
use crate::wire::{read_u16, same_bytes, slice_bytes, u16_at};
use vstd::prelude::*;

verus! {

pub const STUN_HEADER_SIZE: usize = 20;

pub const STUN_BINDING_REQUEST: u16 = 0x0001;

pub const STUN_BINDING_SUCCESS: u16 = 0x0101;

pub const STUN_ATTR_MAPPED_ADDRESS: u16 = 0x0001;

pub const STUN_ATTR_XOR_MAPPED_ADDRESS: u16 = 0x0020;

/// The bytes that mark a STUN message.
pub open spec fn cookie() -> Seq<u8> {
    seq![0x21u8, 0x12u8, 0xA4u8, 0x42u8]
}

fn cookie_byte(i: usize) -> (r: u8)
    requires
        i < 4,
    ensures
        r == cookie()[i as int],
{
    if i == 0 {
        0x21
    } else if i == 1 {
        0x12
    } else if i == 2 {
        0xA4
    } else {
        0x42
    }
}

/// The first two bytes of the mark as a number.
pub const COOKIE_HIGH: u16 = 0x2112;

// ---------------------------------------------------------------------------
// Requests
// ---------------------------------------------------------------------------

/// Writes a request with a transaction id.
pub fn binding_request(transaction_id: &[u8; 12]) -> (r: Vec<u8>)
    ensures
        r@ == seq![0u8, 1u8, 0u8, 0u8] + cookie() + transaction_id@,
{
    let mut out: Vec<u8> = Vec::new();
    out.push(0);
    out.push(1);
    out.push(0);
    out.push(0);
    out.push(0x21);
    out.push(0x12);
    out.push(0xA4);
    out.push(0x42);
    let mut i: usize = 0;
    proof {
        assert(out@ =~= seq![0u8, 1u8, 0u8, 0u8] + cookie() + transaction_id@.take(0));
    }
    while i < 12
        invariant
            i <= 12,
            out@ == seq![0u8, 1u8, 0u8, 0u8] + cookie() + transaction_id@.take(i as int),
        decreases 12 - i,
    {
        out.push(transaction_id[i]);
        proof {
            assert(out@ =~= seq![0u8, 1u8, 0u8, 0u8] + cookie() + transaction_id@.take(
                i as int + 1,
            ));
        }
        i = i + 1;
    }
    proof {
        assert(transaction_id@.take(12) =~= transaction_id@);
    }
    out
}

/// Makes a binding request with a random transaction id, and gives the id
/// too.
pub fn new_binding_request() -> (r: ([u8; 12], Vec<u8>))
    ensures
        r.1@ == seq![0u8, 1u8, 0u8, 0u8] + cookie() + r.0@,
{
    let b: Vec<u8> = random_bytes(12);
    let id: [u8; 12] = [
        b[0],
        b[1],
        b[2],
        b[3],
        b[4],
        b[5],
        b[6],
        b[7],
        b[8],
        b[9],
        b[10],
        b[11],
    ];
    let request: Vec<u8> = binding_request(&id);
    (id, request)
}

// ---------------------------------------------------------------------------
// Addresses
// ---------------------------------------------------------------------------

/// The address that an attribute holds as it is.
pub open spec fn mapped_address(value: Seq<u8>) -> Option<AddressView> {
    if value.len() < 4 {
        None
    } else if value[1] == 1 && value.len() >= 8 {
        Some(plain_address(value.subrange(4, 8), u16_at(value, 2)))
    } else if value[1] == 2 && value.len() >= 20 {
        Some(plain_address(value.subrange(4, 20), u16_at(value, 2)))
    } else {
        None
    }
}

/// The bytes with which an address is mixed: the mark, then the transaction
/// id.
pub open spec fn mask(transaction_id: Seq<u8>) -> Seq<u8> {
    cookie() + transaction_id
}

/// Bytes mixed with others, one by one.
pub open spec fn mixed(bytes: Seq<u8>, with: Seq<u8>) -> Seq<u8> {
    Seq::new(bytes.len(), |i: int| bytes[i] ^ with[i])
}

/// The address that an attribute holds mixed with the mark and the
/// transaction id.
pub open spec fn xor_mapped_address(value: Seq<u8>, transaction_id: Seq<u8>) -> Option<AddressView> {
    match mapped_address(value) {
        Some(a) => Some(
            plain_address(mixed(a.ip, mask(transaction_id)), a.port ^ COOKIE_HIGH),
        ),
        None => None,
    }
}

fn four_bytes(b: &Vec<u8>) -> (r: [u8; 4])
    requires
        b@.len() == 4,
    ensures
        r@ == b@,
{
    let r: [u8; 4] = [b[0], b[1], b[2], b[3]];
    proof {
        assert(r@ =~= b@);
    }
    r
}

fn sixteen_bytes(b: &Vec<u8>) -> (r: [u8; 16])
    requires
        b@.len() == 16,
    ensures
        r@ == b@,
{
    let r: [u8; 16] = [
        b[0],
        b[1],
        b[2],
        b[3],
        b[4],
        b[5],
        b[6],
        b[7],
        b[8],
        b[9],
        b[10],
        b[11],
        b[12],
        b[13],
        b[14],
        b[15],
    ];
    proof {
        assert(r@ =~= b@);
    }
    r
}

pub fn parse_mapped_address(value: &[u8]) -> (r: Option<SocketAddress>)
    ensures
        opt_address(r) == mapped_address(value@),
{
    if value.len() < 4 {
        return None;
    }
    let port: u16 = read_u16(value, 2);
    if value[1] == 1 {
        if value.len() < 8 {
            return None;
        }
        let bytes: Vec<u8> = slice_bytes(value, 4, 8);
        Some(SocketAddress { ip: IpAddress::V4(four_bytes(&bytes)), port })
    } else if value[1] == 2 {
        if value.len() < 20 {
            return None;
        }
        let bytes: Vec<u8> = slice_bytes(value, 4, 20);
        let octets: [u8; 16] = sixteen_bytes(&bytes);
        Some(SocketAddress { ip: IpAddress::V6 { octets, flow_info: 0, scope_id: 0 }, port })
    } else {
        None
    }
}

fn mix_address(bytes: &[u8], transaction_id: &[u8; 12]) -> (r: Vec<u8>)
    requires
        bytes@.len() <= 16,
    ensures
        r@ == mixed(bytes@, mask(transaction_id@)),
{
    let mut out: Vec<u8> = Vec::new();
    let mut i: usize = 0;
    while i < bytes.len()
        invariant
            i <= bytes@.len() <= 16,
            out@.len() == i,
            forall|k: int|
                0 <= k < i ==> #[trigger] out@[k] == bytes@[k] ^ mask(transaction_id@)[k],
        decreases bytes@.len() - i,
    {
        let with: u8 = if i < 4 {
            cookie_byte(i)
        } else {
            transaction_id[i - 4]
        };
        out.push(bytes[i] ^ with);
        i = i + 1;
    }
    proof {
        assert(out@ =~= mixed(bytes@, mask(transaction_id@)));
    }
    out
}

pub fn parse_xor_mapped_address(value: &[u8], transaction_id: &[u8; 12]) -> (r: Option<
    SocketAddress,
>)
    ensures
        opt_address(r) == xor_mapped_address(value@, transaction_id@),
{
    if value.len() < 4 {
        return None;
    }
    let port: u16 = read_u16(value, 2) ^ COOKIE_HIGH;
    if value[1] == 1 {
        if value.len() < 8 {
            return None;
        }
        let bytes: Vec<u8> = mix_address(slice_bytes(value, 4, 8).as_slice(), transaction_id);
        Some(SocketAddress { ip: IpAddress::V4(four_bytes(&bytes)), port })
    } else if value[1] == 2 {
        if value.len() < 20 {
            return None;
        }
        let bytes: Vec<u8> = mix_address(slice_bytes(value, 4, 20).as_slice(), transaction_id);
        let octets: [u8; 16] = sixteen_bytes(&bytes);
        Some(SocketAddress { ip: IpAddress::V6 { octets, flow_info: 0, scope_id: 0 }, port })
    } else {
        None
    }
}

/// Mixing twice gives the bytes back.
pub proof fn law_mixing_undoes_itself(bytes: Seq<u8>, with: Seq<u8>)
    ensures
        mixed(mixed(bytes, with), with) == bytes,
{
    assert forall|i: int| 0 <= i < bytes.len() implies #[trigger] mixed(
        mixed(bytes, with),
        with,
    )[i] == bytes[i] by {
        let a = bytes[i];
        let b = with[i];
        assert((a ^ b) ^ b == a) by (bit_vector);
    }
    assert(mixed(mixed(bytes, with), with) =~= bytes);
}

// ---------------------------------------------------------------------------
// Responses
// ---------------------------------------------------------------------------

/// Why a response cannot be used.
#[derive(Debug, Clone, Copy, PartialEq, Eq, Structural)]
pub enum StunError {
    TooShort,
    UnexpectedType,
    Truncated,
    InvalidCookie,
    MismatchedTransaction,
    AttributeTooLong,
}

impl StunError {
    /// What the error shows.
    pub open spec fn text(&self) -> Seq<char> {
        match self {
            StunError::TooShort => "STUN response too short"@,
            StunError::UnexpectedType => "unexpected STUN response type"@,
            StunError::Truncated => "STUN response truncated"@,
            StunError::InvalidCookie => "invalid STUN magic cookie"@,
            StunError::MismatchedTransaction => "mismatched STUN transaction id"@,
            StunError::AttributeTooLong => "STUN attribute exceeds message length"@,
        }
    }

    pub fn message(&self) -> (r: String)
        ensures
            r@ == self.text(),
    {
        match self {
            StunError::TooShort => "STUN response too short".to_owned(),
            StunError::UnexpectedType => "unexpected STUN response type".to_owned(),
            StunError::Truncated => "STUN response truncated".to_owned(),
            StunError::InvalidCookie => "invalid STUN magic cookie".to_owned(),
            StunError::MismatchedTransaction => "mismatched STUN transaction id".to_owned(),
            StunError::AttributeTooLong => "STUN attribute exceeds message length".to_owned(),
        }
    }
}

/// The bytes that fill an attribute up to a multiple of four.
pub open spec fn padding(len: int) -> int {
    (4 - len % 4) % 4
}

/// The address that an attribute of a type holds.
pub open spec fn attribute_address(kind: u16, value: Seq<u8>, transaction_id: Seq<u8>) -> Option<
    AddressView,
> {
    if kind == STUN_ATTR_XOR_MAPPED_ADDRESS {
        xor_mapped_address(value, transaction_id)
    } else if kind == STUN_ATTR_MAPPED_ADDRESS {
        mapped_address(value)
    } else {
        None
    }
}

/// The first address among the attributes from an offset on.
pub open spec fn attributes_address(
    data: Seq<u8>,
    transaction_id: Seq<u8>,
    offset: int,
    end: int,
) -> Result<Option<AddressView>, StunError>
    decreases
            if offset + 4 > end {
                0
            } else {
                end - offset
            },
{
    if offset < 0 || offset + 4 > end {
        Ok(None)
    } else {
        let len = u16_at(data, offset + 2) as int;
        let start = offset + 4;
        if start + len > data.len() {
            Err(StunError::AttributeTooLong)
        } else {
            match attribute_address(
                u16_at(data, offset),
                data.subrange(start, start + len),
                transaction_id,
            ) {
                Some(a) => Ok(Some(a)),
                None => attributes_address(
                    data,
                    transaction_id,
                    start + len + padding(len),
                    end,
                ),
            }
        }
    }
}

/// What a response says of the address that the server sees.
pub open spec fn response_address(data: Seq<u8>, transaction_id: Seq<u8>) -> Result<
    Option<AddressView>,
    StunError,
> {
    if data.len() < STUN_HEADER_SIZE {
        Err(StunError::TooShort)
    } else if u16_at(data, 0) != STUN_BINDING_SUCCESS {
        Err(StunError::UnexpectedType)
    } else if data.len() < STUN_HEADER_SIZE + u16_at(data, 2) {
        Err(StunError::Truncated)
    } else if data.subrange(4, 8) != cookie() {
        Err(StunError::InvalidCookie)
    } else if data.subrange(8, 20) != transaction_id {
        Err(StunError::MismatchedTransaction)
    } else {
        attributes_address(data, transaction_id, 20, 20 + u16_at(data, 2))
    }
}

fn has_cookie(data: &[u8]) -> (r: bool)
    requires
        data@.len() >= 8,
    ensures
        r == (data@.subrange(4, 8) == cookie()),
{
    let r: bool = data[4] == 0x21 && data[5] == 0x12 && data[6] == 0xA4 && data[7] == 0x42;
    proof {
        let s = data@.subrange(4, 8);
        if r {
            assert(s =~= cookie());
        } else if s == cookie() {
            assert(s[0] == 0x21 && s[1] == 0x12 && s[2] == 0xA4 && s[3] == 0x42);
        }
    }
    r
}

pub fn parse_stun_response(data: &[u8], transaction_id: &[u8; 12]) -> (r: Result<
    Option<SocketAddress>,
    StunError,
>)
    ensures
        match r {
            Ok(a) => response_address(data@, transaction_id@) == Ok::<_, StunError>(opt_address(a)),
            Err(e) => response_address(data@, transaction_id@) == Err::<Option<AddressView>, _>(e),
        },
{
    if data.len() < STUN_HEADER_SIZE {
        return Err(StunError::TooShort);
    }
    if read_u16(data, 0) != STUN_BINDING_SUCCESS {
        return Err(StunError::UnexpectedType);
    }
    let message_len: usize = read_u16(data, 2) as usize;
    if data.len() < STUN_HEADER_SIZE + message_len {
        return Err(StunError::Truncated);
    }
    if !has_cookie(data) {
        return Err(StunError::InvalidCookie);
    }
    let id: Vec<u8> = slice_bytes(data, 8, 20);
    if !same_bytes(id.as_slice(), transaction_id.as_slice()) {
        return Err(StunError::MismatchedTransaction);
    }
    let end: usize = STUN_HEADER_SIZE + message_len;
    let mut offset: usize = STUN_HEADER_SIZE;
    while offset + 4 <= end
        invariant
            20 <= offset <= 131093,
            end <= data@.len(),
            end <= 65555,
            end == 20 + u16_at(data@, 2),
            data@.len() >= 20,
            response_address(data@, transaction_id@) == attributes_address(
                data@,
                transaction_id@,
                offset as int,
                end as int,
            ),
        decreases 131100 - offset,
    {
        let kind: u16 = read_u16(data, offset);
        let len: usize = read_u16(data, offset + 2) as usize;
        let start: usize = offset + 4;
        if start + len > data.len() {
            return Err(StunError::AttributeTooLong);
        }
        let value: Vec<u8> = slice_bytes(data, start, start + len);
        let found: Option<SocketAddress> = if kind == STUN_ATTR_XOR_MAPPED_ADDRESS {
            parse_xor_mapped_address(value.as_slice(), transaction_id)
        } else if kind == STUN_ATTR_MAPPED_ADDRESS {
            parse_mapped_address(value.as_slice())
        } else {
            None
        };
        if found.is_some() {
            return Ok(found);
        }
        offset = start + len + (4 - len % 4) % 4;
    }
    Ok(None)
}

/// A response as a server writes it: with one mixed address.
pub open spec fn success_response(address: AddressView, transaction_id: Seq<u8>) -> Seq<u8> {
    let family = if address.ip.len() == 4 {
        1u8
    } else {
        2u8
    };
    let port = address.port ^ COOKIE_HIGH;
    let body = seq![0u8, family, (port / 256) as u8, (port % 256) as u8] + mixed(
        address.ip,
        mask(transaction_id),
    );
    seq![1u8, 1u8, 0u8, (4 + body.len()) as u8] + cookie() + transaction_id + seq![
        0u8,
        0x20u8,
        0u8,
        body.len() as u8,
    ] + body
}

/// The address that a server writes into its response is the one that is read
/// from it. The response has no room for a flow label and a scope.
pub proof fn law_response_reads_back(address: AddressView, transaction_id: Seq<u8>)
    requires
        address.ip.len() == 4 || address.ip.len() == 16,
        address.flow_info == 0,
        address.scope_id == 0,
        transaction_id.len() == 12,
    ensures
        response_address(success_response(address, transaction_id), transaction_id) == Ok::<
            Option<AddressView>,
            StunError,
        >(Some(address)),
{
    let data = success_response(address, transaction_id);
    let m = mask(transaction_id);
    let n = address.ip.len() as int;
    let p = address.port;
    let port = p ^ COOKIE_HIGH;
    assert((p ^ 0x2112u16) ^ 0x2112u16 == p) by (bit_vector);
    law_mixing_undoes_itself(address.ip, m);
    assert(data.len() == 28 + n);
    assert(data[0] == 1 && data[1] == 1 && data[2] == 0 && data[3] == 8 + n);
    assert(data.subrange(4, 8) =~= cookie());
    assert(data.subrange(8, 20) =~= transaction_id);
    assert(data[20] == 0 && data[21] == 0x20 && data[22] == 0 && data[23] == 4 + n);
    let value = data.subrange(24, 28 + n);
    assert(value[1] == (if n == 4 {
        1u8
    } else {
        2u8
    }));
    assert(value[2] == (port / 256) as u8 && value[3] == (port % 256) as u8);
    assert(u16_at(value, 2) == port);
    assert(value.subrange(4, 4 + n) =~= mixed(address.ip, m));
    assert(xor_mapped_address(value, transaction_id) == Some(address));
}

// ---------------------------------------------------------------------------
// Packets of a shared socket
// ---------------------------------------------------------------------------

/// The packet is a STUN message.
pub open spec fn is_stun(packet: Seq<u8>) -> bool {
    &&& packet.len() >= STUN_HEADER_SIZE
    &&& packet[0] < 64
    &&& STUN_HEADER_SIZE + u16_at(packet, 2) <= packet.len()
    &&& packet.subrange(4, 8) == cookie()
}

pub fn is_stun_packet(packet: &[u8]) -> (r: bool)
    ensures
        r == is_stun(packet@),
{
    if packet.len() < STUN_HEADER_SIZE {
        return false;
    }
    if packet[0] >= 64 {
        return false;
    }
    let message_len: usize = read_u16(packet, 2) as usize;
    if STUN_HEADER_SIZE + message_len > packet.len() {
        return false;
    }
    has_cookie(packet)
}

/// What becomes of a packet.
#[derive(Debug)]
pub enum PacketUse {
    /// It is no STUN message and goes on.
    Forward,
    /// It is a STUN message that nobody waits for.
    Dropped,
    /// It answers the request with the transaction id.
    Answer { transaction_id: Vec<u8> },
}

/// Some id of the list has the bytes.
pub open spec fn holds_id(ids: Seq<Vec<u8>>, t: Seq<u8>) -> bool {
    exists|i: int| 0 <= i < ids.len() && (#[trigger] ids[i])@ == t
}

proof fn lemma_holds_push(ids: Seq<Vec<u8>>, added: Vec<u8>, t: Seq<u8>)
    ensures
        holds_id(ids.push(added), t) <==> holds_id(ids, t) || added@ == t,
{
    let all = ids.push(added);
    if holds_id(ids, t) {
        let i = choose|i: int| 0 <= i < ids.len() && (#[trigger] ids[i])@ == t;
        assert(all[i]@ == t);
    }
    if added@ == t {
        assert(all[ids.len() as int]@ == t);
    }
    if holds_id(all, t) && added@ != t {
        let i = choose|i: int| 0 <= i < all.len() && (#[trigger] all[i])@ == t;
        assert(ids[i]@ == t);
    }
}

/// The transaction ids of requests that wait for an answer.
#[derive(Debug)]
pub struct StunWaiters {
    ids: Vec<Vec<u8>>,
}

impl View for StunWaiters {
    type V = Set<Seq<u8>>;

    closed spec fn view(&self) -> Set<Seq<u8>> {
        Set::new(|t: Seq<u8>| holds_id(self.ids@, t))
    }
}

impl StunWaiters {
    pub fn new() -> (r: Self)
        ensures
            r@ == Set::<Seq<u8>>::empty(),
    {
        let r: Self = StunWaiters { ids: Vec::new() };
        proof {
            assert(r@ =~= Set::<Seq<u8>>::empty());
        }
        r
    }

    /// Waits for an answer; tells whether it was waited for before.
    pub fn register(&mut self, transaction_id: Vec<u8>) -> (r: bool)
        ensures
            r == old(self)@.contains(transaction_id@),
            final(self)@ == old(self)@.insert(transaction_id@),
    {
        let ghost id = transaction_id@;
        let known: bool = self.cancel(transaction_id.as_slice());
        let ghost left = self.ids@;
        let ghost left_view = self@;
        self.ids.push(transaction_id);
        proof {
            assert forall|t: Seq<u8>| self@.contains(t) <==> old(self)@.insert(id).contains(t) by {
                lemma_holds_push(left, transaction_id, t);
                assert(left_view.contains(t) <==> holds_id(left, t));
                assert(self@.contains(t) <==> holds_id(self.ids@, t));
                assert(self.ids@ =~= left.push(transaction_id));
            }
            assert(self@ =~= old(self)@.insert(id));
        }
        known
    }

    /// Waits no longer for an answer; tells whether it was waited for.
    pub fn cancel(&mut self, transaction_id: &[u8]) -> (r: bool)
        ensures
            r == old(self)@.contains(transaction_id@),
            final(self)@ == old(self)@.remove(transaction_id@),
    {
        let ghost before = self.ids@;
        let mut ids: Vec<Vec<u8>> = Vec::new();
        core::mem::swap(&mut ids, &mut self.ids);
        let mut kept: Vec<Vec<u8>> = Vec::new();
        let mut found: bool = false;
        proof {
            assert(before.take(0) =~= Seq::<Vec<u8>>::empty());
        }
        for id in it: ids
            invariant
                it.seq() == before,
                found == holds_id(before.take(it.index() as int), transaction_id@),
                forall|t: Seq<u8>| #[trigger]
                    holds_id(kept@, t) <==> t != transaction_id@ && holds_id(
                        before.take(it.index() as int),
                        t,
                    ),
        {
            let ghost n = it.index() as int;
            let ghost current = kept@;
            let ghost seen = before.take(n);
            let same: bool = same_bytes(id.as_slice(), transaction_id);
            if same {
                found = true;
            } else {
                kept.push(id);
            }
            proof {
                assert(before.take(n + 1) =~= seen.push(id));
                lemma_holds_push(seen, id, transaction_id@);
                assert forall|t: Seq<u8>| #[trigger]
                    holds_id(kept@, t) <==> t != transaction_id@ && holds_id(
                        before.take(n + 1),
                        t,
                    ) by {
                    lemma_holds_push(seen, id, t);
                    lemma_holds_push(current, id, t);
                    assert(holds_id(current, t) <==> t != transaction_id@ && holds_id(seen, t));
                }
            }
        }
        proof {
            assert(before.take(before.len() as int) =~= before);
        }
        self.ids = kept;
        proof {
            assert(self@ =~= old(self)@.remove(transaction_id@));
        }
        found
    }

    /// Decides what becomes of a packet. An answer is waited for no longer.
    pub fn try_handle_stun(&mut self, packet: &[u8]) -> (r: PacketUse)
        ensures
            ({
                let id = packet@.subrange(8, 20);
                if !is_stun(packet@) {
                    r is Forward && final(self)@ == old(self)@
                } else if u16_at(packet@, 0) == STUN_BINDING_SUCCESS && old(self)@.contains(id) {
                    &&& r matches PacketUse::Answer { transaction_id } && transaction_id@ == id
                    &&& final(self)@ == old(self)@.remove(id)
                } else {
                    r is Dropped && final(self)@ == old(self)@
                }
            }),
    {
        if !is_stun_packet(packet) {
            return PacketUse::Forward;
        }
        if read_u16(packet, 0) != STUN_BINDING_SUCCESS {
            return PacketUse::Dropped;
        }
        let transaction_id: Vec<u8> = slice_bytes(packet, 8, 20);
        if self.cancel(transaction_id.as_slice()) {
            PacketUse::Answer { transaction_id }
        } else {
            proof {
                assert(self@ =~= old(self)@);
            }
            PacketUse::Dropped
        }
    }

    /// Takes the STUN messages out of a batch of packets. The others stay, in
    /// their order; the answers that were waited for are given beside them.
    pub fn filter_stun_packets(&mut self, packets: Vec<Vec<u8>>) -> (r: (
        Vec<Vec<u8>>,
        Vec<(Vec<u8>, Vec<u8>)>,
    ))
        ensures
            r.0@ == other_packets(packets@),
            answer_views(r.1@) == answers_in(old(self)@, packets@),
            final(self)@ == waiting_after(old(self)@, packets@),
    {
        let ghost all = packets@;
        let ghost waiting = self@;
        let mut kept: Vec<Vec<u8>> = Vec::new();
        let mut answers: Vec<(Vec<u8>, Vec<u8>)> = Vec::new();
        proof {
            assert(all.take(0) =~= Seq::<Vec<u8>>::empty());
            assert(answer_views(answers@) =~= Seq::<(Seq<u8>, Seq<u8>)>::empty());
        }
        for packet in it: packets
            invariant
                it.seq() == all,
                kept@ == other_packets(all.take(it.index() as int)),
                answer_views(answers@) == answers_in(waiting, all.take(it.index() as int)),
                self@ == waiting_after(waiting, all.take(it.index() as int)),
        {
            let ghost i = it.index() as int;
            proof {
                assert(all.take(i + 1).drop_last() =~= all.take(i));
                assert(all.take(i + 1).last() == packet);
            }
            match self.try_handle_stun(packet.as_slice()) {
                PacketUse::Forward => {
                    kept.push(packet);
                },
                PacketUse::Dropped => {},
                PacketUse::Answer { transaction_id } => {
                    let ghost before = answers@;
                    let ghost added = (transaction_id@, packet@);
                    answers.push((transaction_id, packet));
                    proof {
                        assert(answer_views(answers@) =~= answer_views(before).push(added));
                    }
                },
            }
        }
        proof {
            assert(all.take(all.len() as int) =~= all);
        }
        (kept, answers)
    }
}

/// Answers by transaction id and bytes.
pub open spec fn answer_views(answers: Seq<(Vec<u8>, Vec<u8>)>) -> Seq<(Seq<u8>, Seq<u8>)> {
    answers.map_values(|a: (Vec<u8>, Vec<u8>)| (a.0@, a.1@))
}

/// The packet answers a request that waits.
pub open spec fn is_answer(waiting: Set<Seq<u8>>, packet: Seq<u8>) -> bool {
    is_stun(packet) && u16_at(packet, 0) == STUN_BINDING_SUCCESS && waiting.contains(
        packet.subrange(8, 20),
    )
}

/// The requests that still wait after a batch of packets.
pub open spec fn waiting_after(waiting: Set<Seq<u8>>, packets: Seq<Vec<u8>>) -> Set<Seq<u8>>
    decreases packets.len(),
{
    if packets.len() == 0 {
        waiting
    } else {
        let left = waiting_after(waiting, packets.drop_last());
        if is_answer(left, packets.last()@) {
            left.remove(packets.last()@.subrange(8, 20))
        } else {
            left
        }
    }
}

/// The answers in a batch of packets, each with its transaction id.
pub open spec fn answers_in(waiting: Set<Seq<u8>>, packets: Seq<Vec<u8>>) -> Seq<
    (Seq<u8>, Seq<u8>),
>
    decreases packets.len(),
{
    if packets.len() == 0 {
        seq![]
    } else {
        let earlier = answers_in(waiting, packets.drop_last());
        if is_answer(waiting_after(waiting, packets.drop_last()), packets.last()@) {
            earlier.push((packets.last()@.subrange(8, 20), packets.last()@))
        } else {
            earlier
        }
    }
}

/// The packets that are no STUN messages.
pub open spec fn other_packets(packets: Seq<Vec<u8>>) -> Seq<Vec<u8>>
    decreases packets.len(),
{
    if packets.len() == 0 {
        seq![]
    } else {
        let earlier = other_packets(packets.drop_last());
        if is_stun(packets.last()@) {
            earlier
        } else {
            earlier.push(packets.last())
        }
    }
}

/// A request is answered once: a second packet with its transaction id is
/// waited for by nobody.
pub proof fn law_answered_once(waiting: Set<Seq<u8>>, transaction_id: Seq<u8>)
    ensures
        !waiting.remove(transaction_id).contains(transaction_id),
{
}

/// The first bits of a packet tell STUN from other traffic: a number below 64
/// has its two highest bits clear.
pub proof fn law_leading_bits(b: u8)
    ensures
        b & 0b1100_0000u8 == 0u8 <==> b < 64,
{
    assert(b & 0b1100_0000u8 == 0u8 <==> b < 64) by (bit_vector);
}

// ---------------------------------------------------------------------------
// Probes
// ---------------------------------------------------------------------------

/// The first address that a server reported.
pub open spec fn first_reported(outcomes: Seq<Option<SocketAddress>>) -> Option<SocketAddress>
    decreases outcomes.len(),
{
    if outcomes.len() == 0 {
        None
    } else if outcomes[0] is Some {
        outcomes[0]
    } else {
        first_reported(outcomes.drop_first())
    }
}

/// What the probes of several servers say: the first address that one of them
/// reported.
pub fn run_stun_probes(outcomes: &Vec<Option<SocketAddress>>) -> (r: Option<SocketAddress>)
    ensures
        r == first_reported(outcomes@),
{
    let mut i: usize = 0;
    proof {
        assert(outcomes@.skip(0) =~= outcomes@);
    }
    while i < outcomes.len()
        invariant
            i <= outcomes@.len(),
            first_reported(outcomes@) == first_reported(outcomes@.skip(i as int)),
        decreases outcomes@.len() - i,
    {
        proof {
            assert(outcomes@.skip(i as int).drop_first() =~= outcomes@.skip(i as int + 1));
        }
        if outcomes[i].is_some() {
            return outcomes[i];
        }
        i = i + 1;
    }
    None
}

/// Keeps the address that was last seen; tells whether it is a new one.
pub fn update_observed_addr(observed: &mut Option<SocketAddress>, new_addr: SocketAddress) -> (r:
    bool)
    ensures
        r == (opt_address(*old(observed)) != Some(new_addr@)),
        opt_address(*final(observed)) == Some(new_addr@),
{
    let known: bool = match observed {
        Some(current) => current.same(&new_addr),
        None => false,
    };
    if known {
        false
    } else {
        *observed = Some(new_addr);
        true
    }
}

// ---------------------------------------------------------------------------
// Laws of calls
// ---------------------------------------------------------------------------

/// A request is twenty bytes: its type, no attributes, the mark, and the
/// transaction id.
pub proof fn law_request_is_marked(transaction_id: [u8; 12], r: Vec<u8>)
    requires
        call_ensures(binding_request, (&transaction_id,), r),
    ensures
        r@.len() == 20,
        r@[0] == 0 && r@[1] == 1 && r@[2] == 0 && r@[3] == 0,
        r@[4] == 0x21 && r@[5] == 0x12 && r@[6] == 0xA4 && r@[7] == 0x42,
        forall|i: int| 0 <= i < 12 ==> #[trigger] r@[8 + i] == transaction_id@[i],
{
}

/// An address that stands as it is in an attribute is read byte by byte.
pub proof fn law_plain_address_is_read(value: &[u8], r: Option<SocketAddress>)
    requires
        call_ensures(parse_mapped_address, (value,), r),
    ensures
        r is Some <==> (value@.len() >= 8 && value@[1] == 1) || (value@.len() >= 20 && value@[1]
            == 2),
        r matches Some(a) ==> {
            &&& a.port == value@[2] * 256 + value@[3]
            &&& value@[1] == 1 ==> (a@.ip.len() == 4 && forall|i: int|
                0 <= i < 4 ==> #[trigger] a@.ip[i] == value@[4 + i])
            &&& value@[1] == 2 ==> (a@.ip.len() == 16 && forall|i: int|
                0 <= i < 16 ==> #[trigger] a@.ip[i] == value@[4 + i])
        },
{
    if let Some(a) = r {
        assert(a.port == a@.port);
    }
}

/// A mixed address is read by mixing it again, byte by byte: the first four
/// bytes with the mark, the others with the transaction id, and the port with
/// the first two bytes of the mark.
pub proof fn law_mixed_address_is_read(
    value: &[u8],
    transaction_id: [u8; 12],
    r: Option<SocketAddress>,
)
    requires
        call_ensures(parse_xor_mapped_address, (value, &transaction_id), r),
    ensures
        r is Some <==> (value@.len() >= 8 && value@[1] == 1) || (value@.len() >= 20 && value@[1]
            == 2),
        r matches Some(a) ==> {
            &&& a.port ^ 0x2112u16 == value@[2] * 256 + value@[3]
            &&& a@.ip.len() == (if value@[1] == 1 {
                4nat
            } else {
                16nat
            })
            &&& a@.ip[0] ^ 0x21u8 == value@[4]
            &&& a@.ip[1] ^ 0x12u8 == value@[5]
            &&& a@.ip[2] ^ 0xA4u8 == value@[6]
            &&& a@.ip[3] ^ 0x42u8 == value@[7]
            &&& forall|i: int|
                4 <= i < a@.ip.len() ==> (#[trigger] a@.ip[i]) ^ transaction_id@[i - 4] == value@[4
                    + i]
        },
{
    if let Some(a) = r {
        assert(a.port == a@.port);
        let plain = mapped_address(value@)->0;
        let p = plain.port;
        assert((p ^ 0x2112u16) ^ 0x2112u16 == p) by (bit_vector);
        let m = mask(transaction_id@);
        assert(a@.ip == mixed(plain.ip, m));
        assert forall|i: int| 0 <= i < a@.ip.len() implies (#[trigger] a@.ip[i]) ^ m[i] == value@[4
            + i] by {
            let x = plain.ip[i];
            let y = m[i];
            assert((x ^ y) ^ y == x) by (bit_vector);
        }
        assert(m[0] == 0x21 && m[1] == 0x12 && m[2] == 0xA4 && m[3] == 0x42);
        assert(a@.ip[0] ^ m[0] == value@[4]);
        assert(a@.ip[1] ^ m[1] == value@[5]);
        assert(a@.ip[2] ^ m[2] == value@[6]);
        assert(a@.ip[3] ^ m[3] == value@[7]);
        assert forall|i: int| 4 <= i < a@.ip.len() implies (#[trigger] a@.ip[i])
            ^ transaction_id@[i - 4] == value@[4 + i] by {
            assert(a@.ip[i] ^ m[i] == value@[4 + i]);
        }
    }
}

/// A packet holds the mark in its place.
pub open spec fn is_marked(packet: Seq<u8>) -> bool {
    packet[4] == 0x21 && packet[5] == 0x12 && packet[6] == 0xA4 && packet[7] == 0x42
}

proof fn lemma_is_marked(packet: Seq<u8>)
    requires
        packet.len() >= 8,
    ensures
        is_marked(packet) <==> packet.subrange(4, 8) == cookie(),
{
    let s = packet.subrange(4, 8);
    if is_marked(packet) {
        assert(s =~= cookie());
    } else if s == cookie() {
        assert(s[0] == 0x21 && s[1] == 0x12 && s[2] == 0xA4 && s[3] == 0x42);
    }
}

/// A response that is too short, of another type, cut off, without the mark or
/// for another request is refused, and it is told which.
pub proof fn law_response_is_checked(
    data: &[u8],
    transaction_id: [u8; 12],
    r: Result<Option<SocketAddress>, StunError>,
)
    requires
        call_ensures(parse_stun_response, (data, &transaction_id), r),
    ensures
        ({
            let long = data@.len() >= 20;
            let good = long && data@[0] == 1 && data@[1] == 1;
            let whole = good && data@.len() >= 20 + data@[2] * 256 + data@[3];
            let marked = whole && is_marked(data@);
            let own = marked && data@.subrange(8, 20) == transaction_id@;
            &&& r == Err::<Option<SocketAddress>, StunError>(StunError::TooShort) <==> !long
            &&& r == Err::<Option<SocketAddress>, StunError>(StunError::UnexpectedType) <==> long
                && !good
            &&& r == Err::<Option<SocketAddress>, StunError>(StunError::Truncated) <==> good
                && !whole
            &&& r == Err::<Option<SocketAddress>, StunError>(StunError::InvalidCookie) <==> whole
                && !marked
            &&& r == Err::<Option<SocketAddress>, StunError>(StunError::MismatchedTransaction)
                <==> marked && !own
            &&& r is Ok ==> own
            &&& own && data@[2] == 0 && data@[3] < 4 ==> (r matches Ok(None))
        }),
{
    if data@.len() >= 20 {
        lemma_is_marked(data@);
        lemma_no_other_errors(data@, transaction_id@, 20, 20 + u16_at(data@, 2));
    }
}

proof fn lemma_no_other_errors(data: Seq<u8>, transaction_id: Seq<u8>, offset: int, end: int)
    ensures
        attributes_address(data, transaction_id, offset, end) matches Err(e) ==> e
            == StunError::AttributeTooLong,
    decreases
            if offset + 4 > end {
                0
            } else {
                end - offset
            },
{
    if offset >= 0 && offset + 4 <= end {
        let len = u16_at(data, offset + 2) as int;
        lemma_no_other_errors(data, transaction_id, offset + 4 + len + padding(len), end);
    }
}

/// The length of the attribute at an offset.
pub open spec fn value_len(data: Seq<u8>, offset: int) -> int {
    data[offset + 2] * 256 + data[offset + 3]
}

/// Where the next attribute starts: behind the value, at a multiple of four from
/// where the value starts.
pub open spec fn follows(data: Seq<u8>, offset: int, next: int) -> bool {
    let end = offset + 4 + value_len(data, offset);
    end <= next < end + 4 && (next - offset) % 4 == 0
}

/// No address is read from the attribute at an offset, but the attribute is
/// whole.
pub open spec fn is_other_attribute(data: Seq<u8>, offset: int) -> bool {
    &&& !(data[offset] == 0 && (data[offset + 1] == 1 || data[offset + 1] == 0x20))
    &&& offset + 4 + value_len(data, offset) <= data.len()
}

proof fn lemma_skipped(
    data: Seq<u8>,
    transaction_id: Seq<u8>,
    offsets: Seq<int>,
    k: int,
    end: int,
)
    requires
        0 <= k < offsets.len(),
        offsets[0] == 20,
        end <= data.len(),
        forall|i: int|
            0 <= i < k ==> offsets[i] + 4 <= end && is_other_attribute(data, #[trigger] offsets[i])
                && follows(data, offsets[i], offsets[i + 1]),
    ensures
        offsets[k] >= 20,
        attributes_address(data, transaction_id, 20, end) == attributes_address(
            data,
            transaction_id,
            offsets[k],
            end,
        ),
    decreases k,
{
    if k > 0 {
        lemma_skipped(data, transaction_id, offsets, k - 1, end);
        let o = offsets[k - 1];
        assert(is_other_attribute(data, offsets[k - 1]));
        assert(follows(data, o, offsets[k - 1 + 1]));
        let len = u16_at(data, o + 2) as int;
        assert(len == value_len(data, o));
        assert(offsets[k] == o + 4 + len + padding(len));
        let kind = u16_at(data, o);
        assert(kind == data[o] * 256 + data[o + 1]);
        assert(attribute_address(kind, data.subrange(o + 4, o + 4 + len), transaction_id) is None);
    }
}

/// The address of a response is that of its first attribute that has one:
/// attributes of other types are skipped, whatever they hold, together with
/// what fills them up.
pub proof fn law_first_address_counts(
    data: &[u8],
    transaction_id: [u8; 12],
    r: Result<Option<SocketAddress>, StunError>,
    offsets: Seq<int>,
    value: &[u8],
    mixed: Option<SocketAddress>,
    plain: Option<SocketAddress>,
)
    requires
        call_ensures(parse_stun_response, (data, &transaction_id), r),
        data@.len() >= 20 + data@[2] * 256 + data@[3],
        data@[0] == 1 && data@[1] == 1,
        is_marked(data@),
        data@.subrange(8, 20) == transaction_id@,
        offsets.len() > 0,
        offsets[0] == 20,
        forall|i: int|
            0 <= i < offsets.len() - 1 ==> offsets[i] + 4 <= 20 + data@[2] * 256 + data@[3]
                && is_other_attribute(data@, #[trigger] offsets[i]) && follows(
                data@,
                offsets[i],
                offsets[i + 1],
            ),
        ({
            let last = offsets.last();
            &&& last + 4 + value_len(data@, last) <= 20 + data@[2] * 256 + data@[3]
            &&& value@ == data@.subrange(last + 4, last + 4 + value_len(data@, last))
        }),
        call_ensures(parse_xor_mapped_address, (value, &transaction_id), mixed),
        call_ensures(parse_mapped_address, (value,), plain),
    ensures
        ({
            let last = offsets.last();
            &&& data@[last] == 0 && data@[last + 1] == 0x20 && mixed is Some ==> (r matches Ok(
                Some(a),
            ) && a@ == mixed->0@)
            &&& data@[last] == 0 && data@[last + 1] == 1 && plain is Some ==> (r matches Ok(Some(a))
                && a@ == plain->0@)
        }),
{
    lemma_is_marked(data@);
    let end = 20 + u16_at(data@, 2);
    assert(end == 20 + data@[2] * 256 + data@[3]);
    let k = offsets.len() - 1;
    lemma_skipped(data@, transaction_id@, offsets, k, end);
    let last = offsets[k];
    let len = u16_at(data@, last + 2) as int;
    assert(len == value_len(data@, last));
    assert(u16_at(data@, last) == data@[last] * 256 + data@[last + 1]);
}

/// A packet that has the form of a STUN message.
pub open spec fn has_stun_form(packet: Seq<u8>) -> bool {
    &&& packet.len() >= 20
    &&& packet[0] < 64
    &&& packet.len() >= 20 + packet[2] * 256 + packet[3]
    &&& is_marked(packet)
}

/// A packet is taken for a STUN message just where it has the form of one.
pub proof fn law_stun_messages_are_told(packet: &[u8], r: bool)
    requires
        call_ensures(is_stun_packet, (packet,), r),
    ensures
        r <==> has_stun_form(packet@),
{
    if packet@.len() >= 8 {
        lemma_is_marked(packet@);
    }
}

/// A packet goes on just where it is no STUN message. A success message that is
/// waited for is an answer, and is waited for no longer; nothing else changes.
pub proof fn law_answers_are_told(waiters: &mut StunWaiters, packet: &[u8], r: PacketUse)
    requires
        call_ensures(StunWaiters::try_handle_stun, (waiters, packet), r),
    ensures
        r is Forward <==> !has_stun_form(packet@),
        r is Answer <==> has_stun_form(packet@) && packet@[0] == 1 && packet@[1] == 1 && old(
            waiters,
        )@.contains(packet@.subrange(8, 20)),
        r matches PacketUse::Answer { transaction_id } ==> transaction_id@ == packet@.subrange(
            8,
            20,
        ),
        r is Answer ==> !final(waiters)@.contains(packet@.subrange(8, 20)),
        forall|id: Seq<u8>|
            !(r is Answer) || id != packet@.subrange(8, 20) ==> (#[trigger] final(waiters)@.contains(
                id,
            ) <==> old(waiters)@.contains(id)),
{
    if packet@.len() >= 8 {
        lemma_is_marked(packet@);
    }
}

/// Whoever registers waits, and whoever cancels does not; nobody else is
/// touched, and both tell whether there was somebody before.
pub proof fn law_waiting_and_not(
    waiters: &mut StunWaiters,
    id: Vec<u8>,
    known: bool,
    after: &mut StunWaiters,
    cancelled: &[u8],
    found: bool,
    other: Seq<u8>,
)
    requires
        call_ensures(StunWaiters::register, (waiters, id), known),
        *old(after) == *final(waiters),
        call_ensures(StunWaiters::cancel, (after, cancelled), found),
    ensures
        known <==> old(waiters)@.contains(id@),
        final(waiters)@.contains(id@),
        found <==> cancelled@ == id@ || old(waiters)@.contains(cancelled@),
        !final(after)@.contains(cancelled@),
        other != id@ && other != cancelled@ ==> final(after)@.contains(other) == old(
            waiters,
        )@.contains(other),
{
}

proof fn lemma_other_packets(packets: Seq<Vec<u8>>)
    ensures
        other_packets(packets) == packets.filter(|p: Vec<u8>| !has_stun_form(p@)),
    decreases packets.len(),
{
    reveal(Seq::filter);
    if packets.len() > 0 {
        lemma_other_packets(packets.drop_last());
        if packets.last()@.len() >= 8 {
            lemma_is_marked(packets.last()@);
        }
    }
}

/// Of a batch of packets just those go on that are no STUN messages, in their
/// order and unchanged.
pub proof fn law_other_packets_go_on(
    waiters: &mut StunWaiters,
    packets: Vec<Vec<u8>>,
    r: (Vec<Vec<u8>>, Vec<(Vec<u8>, Vec<u8>)>),
)
    requires
        call_ensures(StunWaiters::filter_stun_packets, (waiters, packets), r),
    ensures
        r.0@ == packets@.filter(|p: Vec<u8>| !has_stun_form(p@)),
{
    lemma_other_packets(packets@);
}

/// The packet is the success message of a request.
pub open spec fn is_success_of(packet: Seq<u8>, id: Seq<u8>) -> bool {
    has_stun_form(packet) && packet[0] == 1 && packet[1] == 1 && packet.subrange(8, 20) == id
}

proof fn lemma_is_answer(waiting: Set<Seq<u8>>, packet: Seq<u8>)
    ensures
        is_answer(waiting, packet) <==> is_success_of(packet, packet.subrange(8, 20))
            && waiting.contains(packet.subrange(8, 20)),
{
    if packet.len() >= 8 {
        lemma_is_marked(packet);
    }
}

proof fn lemma_batch(waiting: Set<Seq<u8>>, packets: Seq<Vec<u8>>, id: Seq<u8>)
    ensures
        ({
            let came = exists|i: int|
                0 <= i < packets.len() && is_success_of((#[trigger] packets[i])@, id);
            let answers = answers_in(waiting, packets);
            &&& waiting_after(waiting, packets).contains(id) <==> waiting.contains(id) && !came
            &&& (exists|j: int| 0 <= j < answers.len() && (#[trigger] answers[j]).0 == id)
                <==> waiting.contains(id) && came
        }),
    decreases packets.len(),
{
    if packets.len() > 0 {
        let n = packets.len() - 1;
        let shorter = packets.drop_last();
        let last = packets.last()@;
        lemma_batch(waiting, shorter, id);
        let left = waiting_after(waiting, shorter);
        lemma_is_answer(left, last);
        let earlier = answers_in(waiting, shorter);
        let answers = answers_in(waiting, packets);
        assert(packets[n]@ == last);
        if exists|i: int| 0 <= i < shorter.len() && is_success_of((#[trigger] shorter[i])@, id) {
            let i = choose|i: int|
                0 <= i < shorter.len() && is_success_of((#[trigger] shorter[i])@, id);
            assert(is_success_of(packets[i]@, id));
        }
        if exists|i: int| 0 <= i < packets.len() && is_success_of((#[trigger] packets[i])@, id) {
            let i = choose|i: int|
                0 <= i < packets.len() && is_success_of((#[trigger] packets[i])@, id);
            if i < n {
                assert(is_success_of(shorter[i]@, id));
            }
        }
        if exists|j: int| 0 <= j < earlier.len() && (#[trigger] earlier[j]).0 == id {
            let j = choose|j: int| 0 <= j < earlier.len() && (#[trigger] earlier[j]).0 == id;
            assert(answers[j].0 == id);
        }
        if exists|j: int| 0 <= j < answers.len() && (#[trigger] answers[j]).0 == id {
            let j = choose|j: int| 0 <= j < answers.len() && (#[trigger] answers[j]).0 == id;
            if j < earlier.len() {
                assert(earlier[j].0 == id);
            }
        }
        if is_answer(left, last) && last.subrange(8, 20) == id {
            assert(answers[answers.len() - 1].0 == id);
        }
    }
}

/// A request that waits gets its answer just where the batch holds the success
/// message of it, and waits on just where it does not.
pub proof fn law_waiting_requests_are_answered(
    waiters: &mut StunWaiters,
    packets: Vec<Vec<u8>>,
    r: (Vec<Vec<u8>>, Vec<(Vec<u8>, Vec<u8>)>),
    id: Seq<u8>,
)
    requires
        call_ensures(StunWaiters::filter_stun_packets, (waiters, packets), r),
    ensures
        ({
            let came = exists|i: int|
                0 <= i < packets@.len() && is_success_of((#[trigger] packets@[i])@, id);
            &&& final(waiters)@.contains(id) <==> old(waiters)@.contains(id) && !came
            &&& (exists|j: int| 0 <= j < r.1@.len() && (#[trigger] r.1@[j]).0@ == id) <==> old(
                waiters,
            )@.contains(id) && came
        }),
{
    lemma_batch(old(waiters)@, packets@, id);
    let answers = answers_in(old(waiters)@, packets@);
    assert(answers.len() == r.1@.len());
    assert forall|j: int| 0 <= j < r.1@.len() implies #[trigger] answers[j].0 == r.1@[j].0@ by {
        assert(answer_views(r.1@)[j] == answers[j]);
    }
    if exists|j: int| 0 <= j < r.1@.len() && (#[trigger] r.1@[j]).0@ == id {
        let j = choose|j: int| 0 <= j < r.1@.len() && (#[trigger] r.1@[j]).0@ == id;
        assert(answers[j].0 == id);
    }
    if exists|j: int| 0 <= j < answers.len() && (#[trigger] answers[j]).0 == id {
        let j = choose|j: int| 0 <= j < answers.len() && (#[trigger] answers[j]).0 == id;
        assert(r.1@[j].0@ == id);
    }
}

proof fn lemma_first_reported(outcomes: Seq<Option<SocketAddress>>)
    ensures
        first_reported(outcomes) is None <==> forall|i: int|
            0 <= i < outcomes.len() ==> (#[trigger] outcomes[i]) is None,
        first_reported(outcomes) is Some ==> exists|i: int|
            0 <= i < outcomes.len() && #[trigger] outcomes[i] == first_reported(outcomes) && (
            forall|k: int| 0 <= k < i ==> (#[trigger] outcomes[k]) is None),
    decreases outcomes.len(),
{
    if outcomes.len() > 0 && outcomes[0] is None {
        let rest = outcomes.drop_first();
        lemma_first_reported(rest);
        if first_reported(rest) is None {
            assert forall|i: int| 0 <= i < outcomes.len() implies (
            #[trigger] outcomes[i]) is None by {
                if i > 0 {
                    assert(rest[i - 1] == outcomes[i]);
                }
            }
        } else {
            let i = choose|i: int|
                0 <= i < rest.len() && #[trigger] rest[i] == first_reported(rest) && (forall|
                    k: int,
                |
                    0 <= k < i ==> (#[trigger] rest[k]) is None);
            assert(outcomes[i + 1] == rest[i]);
            assert forall|k: int| 0 <= k < i + 1 implies (#[trigger] outcomes[k]) is None by {
                if k > 0 {
                    assert(rest[k - 1] == outcomes[k]);
                }
            }
        }
    }
}

/// Of several servers the first that reported an address is believed.
pub proof fn law_first_server_is_believed(
    outcomes: Vec<Option<SocketAddress>>,
    r: Option<SocketAddress>,
)
    requires
        call_ensures(run_stun_probes, (&outcomes,), r),
    ensures
        r is None <==> forall|i: int|
            0 <= i < outcomes@.len() ==> (#[trigger] outcomes@[i]) is None,
        r is Some ==> exists|i: int|
            0 <= i < outcomes@.len() && #[trigger] outcomes@[i] == r && (forall|k: int|
                0 <= k < i ==> (#[trigger] outcomes@[k]) is None),
{
    lemma_first_reported(outcomes@);
}

/// The address that was seen last is kept, and it is told as new just where it
/// is not the one before.
pub proof fn law_last_seen_address_is_kept(
    observed: &mut Option<SocketAddress>,
    address: SocketAddress,
    r: bool,
)
    requires
        call_ensures(update_observed_addr, (observed, address), r),
    ensures
        *final(observed) matches Some(a) && a@ == address@,
        !r <==> (*old(observed) matches Some(a) && a@ == address@),
{
}

} // verus!
