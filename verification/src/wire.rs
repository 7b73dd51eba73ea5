//! The integers in which poll outcomes and addresses cross the boundary
//! between host and guest.
//!
//! The outcome of a read or a write is one 64-bit word. Its low half is the
//! status: 0 for pending, 1 for success, and the error's code plus 2 for a
//! failure. Its high half is the number of bytes moved, for a success. The
//! outcome of a flush or a shutdown is a status alone.
use vstd::prelude::*;

use crate::outcome::ErrorKind;
use crate::outcome::Poll;

verus! {

/// The status of work that is still pending.
pub const STATUS_PENDING: u8 = 0;

/// The status of work that has succeeded.
pub const STATUS_OK: u8 = 1;

/// What is added to an error's code to make its status.
pub const STATUS_ERROR_BASE: u8 = 2;

/// The guest's answer for a task that is not done.
pub const ANSWER_PENDING: u8 = 0;

/// The guest's answer for a task that is done.
pub const ANSWER_READY: u8 = 1;

/// The number of values of half a word.
pub open spec fn half() -> int {
    0x1_0000_0000
}

/// The word for the outcome of a read or a write.
pub open spec fn transfer_word(polled: Poll<Result<usize, ErrorKind>>) -> int {
    match polled {
        Poll::Pending => 0,
        Poll::Ready(Ok(len)) => 1 + (len as int % half()) * half(),
        Poll::Ready(Err(kind)) => kind.code + 2,
    }
}

/// The outcome that a word stands for.
pub open spec fn transfer_outcome(word: int) -> Poll<Result<usize, ErrorKind>> {
    let status = word % half();
    if status == 0 {
        Poll::Pending
    } else if status == 1 {
        Poll::Ready(Ok((word / half()) as usize))
    } else {
        Poll::Ready(Err(ErrorKind { code: ((status - 2) % 256) as u8 }))
    }
}

/// The status for the outcome of a flush or a shutdown.
pub open spec fn completion_status(polled: Poll<Result<(), ErrorKind>>) -> int {
    match polled {
        Poll::Pending => 0,
        Poll::Ready(Ok(_)) => 1,
        Poll::Ready(Err(kind)) => kind.code + 2,
    }
}

/// The outcome that a status stands for.
pub open spec fn completion_outcome(status: int) -> Poll<Result<(), ErrorKind>> {
    if status == 0 {
        Poll::Pending
    } else if status == 1 {
        Poll::Ready(Ok(()))
    } else {
        Poll::Ready(Err(ErrorKind { code: ((status - 2) % 256) as u8 }))
    }
}

/// The number by which the guest tells the host how a poll of a task went.
pub open spec fn task_answer(polled: Poll<()>) -> int {
    match polled {
        Poll::Pending => 0,
        Poll::Ready(_) => 1,
    }
}

/// Makes the host's answer to a read or a write.
pub fn encode_transfer(polled: Poll<Result<usize, ErrorKind>>) -> (word: u64)
    ensures
        word == transfer_word(polled),
        polled is Pending ==> word == 0,
        polled matches Poll::Ready(Ok(len)) ==> word & 0xffff_ffff == 1 && word >> 32 == (
        len as u64) & 0xffff_ffff,
        polled matches Poll::Ready(Err(kind)) ==> word - 2 == kind.code,
{
    match polled {
        Poll::Pending => STATUS_PENDING as u64,
        Poll::Ready(Ok(len)) => {
            let amount: u64 = len as u64;
            proof {
                assert(1u64 | (amount << 32) == 1 + (amount % 0x1_0000_0000) * 0x1_0000_0000)
                    by (bit_vector);
                assert((1u64 | (amount << 32)) & 0xffff_ffff == 1) by (bit_vector);
                assert((1u64 | (amount << 32)) >> 32 == amount & 0xffff_ffff) by (bit_vector);
            }
            STATUS_OK as u64 | (amount << 32)
        },
        Poll::Ready(Err(kind)) => kind.code as u64 + STATUS_ERROR_BASE as u64,
    }
}

/// Reads the host's answer to a read or a write.
pub fn decode_transfer(word: u64) -> (polled: Poll<Result<usize, ErrorKind>>)
    ensures
        polled == transfer_outcome(word as int),
        word & 0xffff_ffff == 0 <==> polled is Pending,
        word & 0xffff_ffff == 1 <==> polled matches Poll::Ready(Ok(_)),
        polled matches Poll::Ready(Ok(len)) ==> len == word >> 32,
        polled matches Poll::Ready(Err(kind)) ==> kind.code == ((word & 0xffff_ffff) - 2) % 256,
{
    let status: u64 = word & 0xffff_ffff;
    proof {
        assert(word & 0xffff_ffff == word % 0x1_0000_0000) by (bit_vector);
        assert(word >> 32 == word / 0x1_0000_0000) by (bit_vector);
    }
    if status == STATUS_PENDING as u64 {
        Poll::Pending
    } else if status == STATUS_OK as u64 {
        Poll::Ready(Ok((word >> 32) as usize))
    } else {
        let rest: u64 = status - STATUS_ERROR_BASE as u64;
        proof {
            assert(rest as u8 == rest % 256) by (bit_vector);
        }
        Poll::Ready(Err(ErrorKind { code: rest as u8 }))
    }
}

/// Makes the host's answer to a flush or a shutdown.
pub fn encode_completion(polled: Poll<Result<(), ErrorKind>>) -> (status: u32)
    ensures
        status == completion_status(polled),
        polled is Pending ==> status == 0,
        polled matches Poll::Ready(Ok(_)) ==> status == 1,
        polled matches Poll::Ready(Err(kind)) ==> status - 2 == kind.code,
{
    match polled {
        Poll::Pending => STATUS_PENDING as u32,
        Poll::Ready(Ok(_)) => STATUS_OK as u32,
        Poll::Ready(Err(kind)) => kind.code as u32 + STATUS_ERROR_BASE as u32,
    }
}

/// Reads the host's answer to a flush or a shutdown, of which the guest gets
/// the low byte.
pub fn decode_completion(status: u8) -> (polled: Poll<Result<(), ErrorKind>>)
    ensures
        polled == completion_outcome(status as int),
        status == 0 <==> polled is Pending,
        status == 1 <==> polled matches Poll::Ready(Ok(_)),
        polled matches Poll::Ready(Err(kind)) ==> kind.code + 2 == status,
{
    if status == STATUS_PENDING {
        Poll::Pending
    } else if status == STATUS_OK {
        Poll::Ready(Ok(()))
    } else {
        Poll::Ready(Err(ErrorKind { code: status - STATUS_ERROR_BASE }))
    }
}

/// What the host says of a read or a write is what the guest hears, as long as
/// the number of bytes fits the half word that carries it.
pub proof fn transfer_round_trip(polled: Poll<Result<usize, ErrorKind>>)
    requires
        polled matches Poll::Ready(Ok(len)) ==> len < half(),
    ensures
        0 <= transfer_word(polled) <= u64::MAX,
        transfer_outcome(transfer_word(polled)) == polled,
{
}

/// What the host says of a flush or a shutdown is what the guest hears, as long
/// as the error's status fits the byte that the guest gets.
pub proof fn completion_round_trip(polled: Poll<Result<(), ErrorKind>>)
    requires
        polled matches Poll::Ready(Err(kind)) ==> kind.code + 2 <= u8::MAX,
    ensures
        0 <= completion_status(polled) <= u8::MAX,
        completion_outcome(completion_status(polled)) == polled,
{
    if let Poll::Ready(Ok(unit)) = polled {
        assert(unit == ());
    }
}

/// The word of a read or a write, taken apart in bits. A success has the low half
/// 1 and the number of bytes, or what of it fits, as its high half. A failure is
/// its error's code, moved up by 2, and pending work is 0.
pub proof fn transfer_word_in_bits(polled: Poll<Result<usize, ErrorKind>>, word: u64)
    requires
        word == transfer_word(polled),
    ensures
        match polled {
            Poll::Pending => word == 0,
            Poll::Ready(Ok(len)) => {
                &&& word & 0xffff_ffff == 1
                &&& word >> 32 == (len as u64) & 0xffff_ffff
                &&& len <= 0xffff_ffff ==> word >> 32 == len
            },
            Poll::Ready(Err(kind)) => word & 0xffff_ffff == kind.code + 2 && word >> 32 == 0,
        },
{
    assert(word & 0xffff_ffff == word % 0x1_0000_0000) by (bit_vector);
    assert(word >> 32 == word / 0x1_0000_0000) by (bit_vector);
    if let Poll::Ready(Ok(len)) = polled {
        let amount = len as u64;
        assert(amount & 0xffff_ffff == amount % 0x1_0000_0000) by (bit_vector);
    }
}

/// What the guest hears of any word, in bits: the low half decides between
/// pending, success and failure; a success moved as many bytes as the high half
/// says; a failure's code lies 2 below the low half, of which it is the lowest
/// byte.
pub proof fn transfer_outcome_in_bits(word: u64)
    ensures
        word & 0xffff_ffff == 0 ==> transfer_outcome(word as int) is Pending,
        word & 0xffff_ffff == 1 ==> (transfer_outcome(word as int) matches Poll::Ready(Ok(len))
            && len == word >> 32),
        word & 0xffff_ffff >= 2 ==> (transfer_outcome(word as int) matches Poll::Ready(Err(kind))
            && kind.code == ((word & 0xffff_ffff) - 2) % 256),
{
    assert(word & 0xffff_ffff == word % 0x1_0000_0000) by (bit_vector);
    assert(word >> 32 == word / 0x1_0000_0000) by (bit_vector);
}

/// One more byte moved is one more in the high half, and the next error code is
/// the next word.
pub proof fn transfer_words_step(len: usize, code: u8)
    requires
        len < 0xffff_ffff,
        code < 255,
    ensures
        transfer_word(Poll::Ready(Ok((len + 1) as usize))) - transfer_word(Poll::Ready(Ok(len)))
            == 0x1_0000_0000,
        transfer_word(Poll::Ready(Err(ErrorKind { code: (code + 1) as u8 }))) - transfer_word(
            Poll::Ready(Err(ErrorKind { code })),
        ) == 1,
{
}

/// The status of a flush or a shutdown: 0 and 1 are pending and done, and an
/// error's status lies 2 above its code, whatever the code.
pub proof fn completion_status_is_shifted(polled: Poll<Result<(), ErrorKind>>)
    ensures
        polled is Pending ==> completion_status(polled) == 0,
        polled matches Poll::Ready(Ok(_)) ==> completion_status(polled) == 1,
        polled matches Poll::Ready(Err(kind)) ==> completion_status(polled) - kind.code == 2,
{
}

/// What the guest hears of any status: each from 2 on is the error whose code
/// lies 2 below.
pub proof fn completion_outcome_is_shifted(status: u8)
    ensures
        status == 0 ==> completion_outcome(status as int) is Pending,
        status == 1 ==> completion_outcome(status as int) matches Poll::Ready(Ok(_)),
        status >= 2 ==> (completion_outcome(status as int) matches Poll::Ready(Err(kind))
            && kind.code + 2 == status),
{
}

/// The guest's answer is 1 for a task that is ready and 0 for one that is not.
pub proof fn task_answer_tells_ready(polled: Poll<()>)
    ensures
        polled is Ready ==> task_answer(polled) == 1,
        polled is Pending ==> task_answer(polled) == 0,
{
}

/// The address of a TCP endpoint.
#[derive(Clone, Copy, PartialEq, Eq, Debug)]
pub struct SocketAddrV4 {
    pub ip: [u8; 4],
    pub port: u16,
}

/// The number that four octets make, the first being the most significant.
pub open spec fn ip_bits(ip: Seq<u8>) -> int {
    ip[0] * 0x100_0000 + ip[1] * 0x1_0000 + ip[2] * 0x100 + ip[3]
}

/// The octet of a number that has `unit` as the value of its lowest bit.
pub open spec fn octet(bits: int, unit: int) -> u8 {
    (bits / unit % 256) as u8
}

impl SocketAddrV4 {
    /// The two integers by which the guest asks for a connection to this
    /// address.
    pub fn to_wire(&self) -> (wire: (u32, u16))
        ensures
            wire.0 == ip_bits(self.ip@),
            wire.0 == ((self.ip@[0] * 256 + self.ip@[1]) * 256 + self.ip@[2]) * 256 + self.ip@[3],
            wire.1 == self.port,
    {
        let a: u32 = self.ip[0] as u32;
        let b: u32 = self.ip[1] as u32;
        let c: u32 = self.ip[2] as u32;
        let d: u32 = self.ip[3] as u32;
        (a * 0x100_0000 + b * 0x1_0000 + c * 0x100 + d, self.port)
    }

    /// The address that the host connects to for the two integers it got, the
    /// second of which arrives widened and is cut back to a port.
    pub fn from_wire(address: u32, port: u32) -> (addr: SocketAddrV4)
        ensures
            addr.ip@ == seq![
                octet(address as int, 0x100_0000),
                octet(address as int, 0x1_0000),
                octet(address as int, 0x100),
                octet(address as int, 1),
            ],
            addr.ip@[0] == (address >> 24) as u8,
            addr.ip@[1] == (address >> 16) as u8,
            addr.ip@[2] == (address >> 8) as u8,
            addr.ip@[3] == address as u8,
            addr.port == port % 0x1_0000,
            addr.port == port as u16,
    {
        proof {
            assert((address >> 24) as u8 == address / 0x100_0000 % 256) by (bit_vector);
            assert((address >> 16) as u8 == address / 0x1_0000 % 256) by (bit_vector);
            assert((address >> 8) as u8 == address / 0x100 % 256) by (bit_vector);
            assert(address as u8 == address % 256) by (bit_vector);
            assert(port as u16 == port % 0x1_0000) by (bit_vector);
        }
        let addr = SocketAddrV4 {
            ip: [
                (address >> 24) as u8,
                (address >> 16) as u8,
                (address >> 8) as u8,
                address as u8,
            ],
            port: port as u16,
        };
        assert(addr.ip@ =~= seq![
            octet(address as int, 0x100_0000),
            octet(address as int, 0x1_0000),
            octet(address as int, 0x100),
            octet(address as int, 1),
        ]);
        addr
    }
}

/// The host connects to the very octets that the guest asked for.
pub proof fn address_round_trip(ip: Seq<u8>)
    requires
        ip.len() == 4,
    ensures
        0 <= ip_bits(ip) <= u32::MAX,
        seq![
            octet(ip_bits(ip), 0x100_0000),
            octet(ip_bits(ip), 0x1_0000),
            octet(ip_bits(ip), 0x100),
            octet(ip_bits(ip), 1),
        ] == ip,
{
    let bits = ip_bits(ip);
    assert(bits / 0x100_0000 == ip[0]);
    assert(bits / 0x1_0000 == ip[0] * 0x100 + ip[1]);
    assert(bits / 0x100 == ip[0] * 0x1_0000 + ip[1] * 0x100 + ip[2]);
    assert(seq![
        octet(bits, 0x100_0000),
        octet(bits, 0x1_0000),
        octet(bits, 0x100),
        octet(bits, 1),
    ] =~= ip);
}

/// The host finds the octets of any number in its bytes, from the most
/// significant to the least.
pub proof fn octets_are_bytes(address: u32)
    ensures
        octet(address as int, 0x100_0000) == (address >> 24) as u8,
        octet(address as int, 0x1_0000) == (address >> 16) as u8,
        octet(address as int, 0x100) == (address >> 8) as u8,
        octet(address as int, 1) == address as u8,
{
    assert((address >> 24) as u8 == address / 0x100_0000 % 256) by (bit_vector);
    assert((address >> 16) as u8 == address / 0x1_0000 % 256) by (bit_vector);
    assert((address >> 8) as u8 == address / 0x100 % 256) by (bit_vector);
    assert(address as u8 == address % 256) by (bit_vector);
}

/// The guest's number for any octets is what they are as digits to the base 256,
/// the first being the highest.
pub proof fn ip_bits_are_digits(ip: Seq<u8>)
    requires
        ip.len() == 4,
    ensures
        ip_bits(ip) == ((ip[0] * 256 + ip[1]) * 256 + ip[2]) * 256 + ip[3],
        ip_bits(ip) % 256 == ip[3],
        ip_bits(ip) / 256 % 256 == ip[2],
        ip_bits(ip) / 256 / 256 % 256 == ip[1],
        ip_bits(ip) / 256 / 256 / 256 == ip[0],
{
    let bits = ip_bits(ip);
    assert(bits / 256 == (ip[0] * 256 + ip[1]) * 256 + ip[2]);
    assert(bits / 256 / 256 == ip[0] * 256 + ip[1]);
}

} // verus!
