//! Reassembling a length-prefixed secret from bytes delivered one at a
//! time: eight little-endian length bytes, then that many payload bytes.
use vstd::prelude::*;
use vstd::utf8::{decode_utf8, valid_utf8};
use vstd::slice::slice_to_vec;
use crate::text::utf8_to_string;

verus! {

/// Bytes of the little-endian length prefix.
pub const U64_BYTES: usize = 8;

/// The little-endian 64-bit value of the first eight bytes of `b`.
pub open spec fn le_u64(b: Seq<u8>) -> u64 {
    (b[0] as u64) | (b[1] as u64) << 8u64 | (b[2] as u64) << 16u64 | (b[3] as u64) << 24u64 | (
    b[4] as u64) << 32u64 | (b[5] as u64) << 40u64 | (b[6] as u64) << 48u64 | (b[7] as u64)
        << 56u64
}

/// The payload length announced by the collected bytes, once the prefix is
/// complete.
pub open spec fn announced_len(bytes: Seq<u8>) -> Option<u64> {
    if bytes.len() >= U64_BYTES {
        Some(le_u64(bytes))
    } else {
        None
    }
}

/// The collected bytes hold the prefix and exactly the payload it announces.
pub open spec fn is_full(bytes: Seq<u8>) -> bool {
    announced_len(bytes) matches Some(n) && bytes.len() == n + U64_BYTES
}

/// The payload: the collected bytes after the prefix.
pub open spec fn payload(bytes: Seq<u8>) -> Seq<u8> {
    bytes.subrange(U64_BYTES as int, bytes.len() as int)
}

/// The phase that the collected bytes put the accumulator in.
pub open spec fn phase(bytes: Seq<u8>) -> SecretState {
    if bytes.len() == 0 {
        SecretState::Empty
    } else if bytes.len() < U64_BYTES {
        SecretState::AwaitingLength
    } else if is_full(bytes) {
        SecretState::Complete
    } else {
        SecretState::AwaitingPayload
    }
}

/// What pushing `byte` onto the collected bytes gives.
pub open spec fn push_result(bytes: Seq<u8>, byte: u8) -> Result<Seq<u8>, SecretErrors> {
    if is_full(bytes) {
        Err(SecretErrors::Overflow)
    } else {
        Ok(bytes.push(byte))
    }
}

/// What reading the secret out of the collected bytes gives.
pub open spec fn finish_result(bytes: Seq<u8>) -> Result<Seq<char>, SecretErrors> {
    if !is_full(bytes) {
        Err(SecretErrors::Incomplete)
    } else if !valid_utf8(payload(bytes)) {
        Err(SecretErrors::Utf8Error)
    } else {
        Ok(decode_utf8(payload(bytes)))
    }
}

/// Why a byte could not be taken or a secret could not be read out.
#[derive(Debug, Clone, Copy, PartialEq, Eq, Structural)]
pub enum SecretErrors {
    /// A byte was pushed after the announced payload was complete.
    Overflow,
    /// Fewer than eight bytes were given for the length prefix.
    Underflow,
    /// The announced payload has not been fully collected yet.
    Incomplete,
    /// The payload is not valid UTF-8.
    Utf8Error,
}

/// The phases of the accumulator.
#[derive(Debug, Clone, Copy, PartialEq, Eq, Structural)]
pub enum SecretState {
    /// No byte collected.
    Empty,
    /// Some of the eight length bytes collected.
    AwaitingLength,
    /// Length known, payload still short.
    AwaitingPayload,
    /// Payload fully collected.
    Complete,
}

/// Collects the bytes of a length-prefixed secret.
#[derive(Debug)]
pub struct Secret {
    bytes: Vec<u8>,
    expected_secret_len: Option<u64>,
    completed: bool,
}

impl View for Secret {
    type V = Seq<u8>;

    /// The bytes collected so far.
    closed spec fn view(&self) -> Seq<u8> {
        self.bytes@
    }
}

/// Reads the announced payload length from the first eight bytes.
pub fn get_expected_str_len(bytes: &[u8]) -> (r: Result<u64, SecretErrors>)
    ensures
        r == (match announced_len(bytes@) {
            Some(n) => Ok::<u64, SecretErrors>(n),
            None => Err(SecretErrors::Underflow),
        }),
{
    if bytes.len() < U64_BYTES {
        return Err(SecretErrors::Underflow);
    }
    Ok((bytes[0] as u64) | (bytes[1] as u64) << 8 | (bytes[2] as u64) << 16 | (bytes[3] as u64)
        << 24 | (bytes[4] as u64) << 32 | (bytes[5] as u64) << 40 | (bytes[6] as u64) << 48 | (
    bytes[7] as u64) << 56)
}

impl Secret {
    /// The fields agree with the collected bytes.
    pub closed spec fn wf(&self) -> bool {
        &&& self.expected_secret_len == announced_len(self.bytes@)
        &&& self.completed == is_full(self.bytes@)
    }

    /// An accumulator with nothing collected.
    pub fn new() -> (r: Secret)
        ensures
            r.wf(),
            r@ == Seq::<u8>::empty(),
    {
        Secret { bytes: Vec::new(), expected_secret_len: None, completed: false }
    }

    /// An accumulator that has collected the bytes of `arr`.
    pub fn from_array(arr: &[u8]) -> (r: Secret)
        ensures
            r.wf(),
            r@ == arr@,
    {
        let expected_secret_len = match get_expected_str_len(arr) {
            Ok(n) => Some(n),
            Err(_) => None,
        };
        let completed = Self::full_after(arr.len(), expected_secret_len);
        Secret { bytes: slice_to_vec(arr), expected_secret_len, completed }
    }

    fn full_after(len: usize, expected: Option<u64>) -> (r: bool)
        requires
            expected is Some ==> len >= U64_BYTES,
        ensures
            r == (expected matches Some(n) && len == n + U64_BYTES),
    {
        match expected {
            Some(n) => (len - U64_BYTES) as u64 == n,
            None => false,
        }
    }

    /// Appends one byte. Once the announced payload is complete every
    /// further byte is refused and nothing changes.
    pub fn push_byte(&mut self, byte: u8) -> (r: Result<(), SecretErrors>)
        requires
            old(self).wf(),
        ensures
            final(self).wf(),
            match push_result(old(self)@, byte) {
                Ok(b) => r is Ok && final(self)@ == b,
                Err(e) => r == Err::<(), SecretErrors>(e) && final(self)@ == old(self)@,
            },
    {
        if self.is_complete() {
            return Err(SecretErrors::Overflow);
        }
        self.bytes.push(byte);
        if self.expected_secret_len.is_none() && self.bytes.len() >= U64_BYTES {
            self.expected_secret_len = match get_expected_str_len(self.bytes.as_slice()) {
                Ok(n) => Some(n),
                Err(_) => None,
            };
        }
        proof {
            if old(self).bytes@.len() >= U64_BYTES {
                let (a, b) = (self.bytes@, old(self).bytes@);
                assert(a[0] == b[0] && a[1] == b[1] && a[2] == b[2] && a[3] == b[3]);
                assert(a[4] == b[4] && a[5] == b[5] && a[6] == b[6] && a[7] == b[7]);
                assert(le_u64(a) == le_u64(b));
            }
        }
        self.completed = Self::full_after(self.bytes.len(), self.expected_secret_len);
        Ok(())
    }

    /// Reads the secret out of a complete accumulator, leaving it as it is.
    pub fn get_as_string(&self) -> (r: Result<String, SecretErrors>)
        requires
            self.wf(),
        ensures
            match finish_result(self@) {
                Ok(s) => r matches Ok(t) && t@ == s,
                Err(e) => r == Err::<String, SecretErrors>(e),
            },
    {
        if !self.is_complete() {
            return Err(SecretErrors::Incomplete);
        }
        let n = self.bytes.len();
        let mut rest: Vec<u8> = Vec::new();
        let mut i: usize = U64_BYTES;
        while i < n
            invariant
                U64_BYTES <= i <= n,
                n == self.bytes@.len(),
                rest@ == self.bytes@.subrange(U64_BYTES as int, i as int),
            decreases n - i,
        {
            rest.push(self.bytes[i]);
            i = i + 1;
            assert(rest@ =~= self.bytes@.subrange(U64_BYTES as int, i as int));
        }
        match utf8_to_string(rest.as_slice()) {
            Some(s) => Ok(s),
            None => Err(SecretErrors::Utf8Error),
        }
    }

    /// Whether the announced payload is fully collected.
    pub fn is_complete(&self) -> (r: bool)
        requires
            self.wf(),
        ensures
            r == is_full(self@),
    {
        self.completed
    }

    /// The phase the accumulator is in.
    pub fn state(&self) -> (r: SecretState)
        requires
            self.wf(),
        ensures
            r == phase(self@),
    {
        let n = self.bytes.len();
        if n == 0 {
            SecretState::Empty
        } else if n < U64_BYTES {
            SecretState::AwaitingLength
        } else if self.completed {
            SecretState::Complete
        } else {
            SecretState::AwaitingPayload
        }
    }

    /// The bytes collected so far, prefix included.
    pub fn as_bytes(&self) -> (r: &[u8])
        ensures
            r@ == self@,
    {
        self.bytes.as_slice()
    }
}

/// Pushing never shrinks what was collected: a push that is taken appends
/// one byte and keeps the rest. Once the payload is complete, a further
/// push is refused with `Overflow`.
pub proof fn lemma_push_monotone(bytes: Seq<u8>, byte: u8)
    ensures
        push_result(bytes, byte) matches Ok(b) ==> b.len() == bytes.len() + 1 && b.subrange(
            0,
            bytes.len() as int,
        ) == bytes,
        is_full(bytes) ==> push_result(bytes, byte) == Err::<Seq<u8>, SecretErrors>(
            SecretErrors::Overflow,
        ),
{
    if !is_full(bytes) {
        assert(bytes.push(byte).subrange(0, bytes.len() as int) =~= bytes);
    }
}

} // verus!
