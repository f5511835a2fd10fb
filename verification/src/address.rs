//! Fixed-width 20-byte origin-chain address with strict-length encode and
//! decode. A truncated or padded address never silently round-trips: decoding
//! succeeds exactly on 20-byte inputs, and hex parsing exactly on 40 hex
//! digits.
use vstd::prelude::*;
use vstd::slice::slice_to_vec;
use vstd::arithmetic::div_mod::lemma_fundamental_div_mod;

verus! {

/// Value of a single hex digit, either case; -1 when the character is none.
pub open spec fn hex_digit_val(c: char) -> int {
    if c == '0' { 0 } else if c == '1' { 1 } else if c == '2' { 2 } else if c == '3' { 3 }
    else if c == '4' { 4 } else if c == '5' { 5 } else if c == '6' { 6 } else if c == '7' { 7 }
    else if c == '8' { 8 } else if c == '9' { 9 }
    else if c == 'a' || c == 'A' { 10 } else if c == 'b' || c == 'B' { 11 }
    else if c == 'c' || c == 'C' { 12 } else if c == 'd' || c == 'D' { 13 }
    else if c == 'e' || c == 'E' { 14 } else if c == 'f' || c == 'F' { 15 }
    else { -1 }
}

pub open spec fn is_hex_digit(c: char) -> bool {
    hex_digit_val(c) >= 0
}

/// Lower-case hex digit for a value below 16.
pub open spec fn hex_char(v: int) -> char {
    if v == 0 { '0' } else if v == 1 { '1' } else if v == 2 { '2' } else if v == 3 { '3' }
    else if v == 4 { '4' } else if v == 5 { '5' } else if v == 6 { '6' } else if v == 7 { '7' }
    else if v == 8 { '8' } else if v == 9 { '9' } else if v == 10 { 'a' } else if v == 11 { 'b' }
    else if v == 12 { 'c' } else if v == 13 { 'd' } else if v == 14 { 'e' } else { 'f' }
}

/// Lower-case hex rendering of a byte sequence: two digits per byte, high
/// nibble first, in order.
pub open spec fn hex_of(b: Seq<u8>) -> Seq<char>
    decreases b.len(),
{
    if b.len() == 0 {
        Seq::<char>::empty()
    } else {
        hex_of(b.drop_last()) + seq![hex_char(b.last() as int / 16), hex_char(b.last() as int % 16)]
    }
}

/// A string that denotes a byte sequence: even length, hex digits only.
pub open spec fn valid_hex(s: Seq<char>) -> bool {
    s.len() % 2 == 0 && forall|i: int| 0 <= i < s.len() ==> is_hex_digit(#[trigger] s[i])
}

/// The bytes a hex string denotes; meaningful only when `valid_hex` holds.
pub open spec fn bytes_of_hex(s: Seq<char>) -> Seq<u8>
    decreases s.len(),
{
    if s.len() < 2 {
        Seq::<u8>::empty()
    } else {
        bytes_of_hex(s.subrange(0, s.len() - 2))
            + seq![(hex_digit_val(s[s.len() - 2]) * 16 + hex_digit_val(s[s.len() - 1])) as u8]
    }
}

pub proof fn lemma_bytes_of_hex_len(s: Seq<char>)
    requires
        s.len() % 2 == 0,
    ensures
        bytes_of_hex(s).len() == s.len() / 2,
    decreases s.len(),
{
    if s.len() >= 2 {
        lemma_bytes_of_hex_len(s.subrange(0, s.len() - 2));
    }
}

/// Hex encoding round-trips: the rendering of any byte sequence is a valid
/// hex string of twice the length, and decoding it yields the bytes back.
pub proof fn lemma_hex_round_trip(b: Seq<u8>)
    ensures
        hex_of(b).len() == 2 * b.len(),
        valid_hex(hex_of(b)),
        bytes_of_hex(hex_of(b)) == b,
    decreases b.len(),
{
    if b.len() == 0 {
        assert(bytes_of_hex(hex_of(b)) =~= b);
    } else {
        let tail = b.drop_last();
        lemma_hex_round_trip(tail);
        let last = b.last() as int;
        let h = hex_of(b);
        lemma_fundamental_div_mod(last, 16);
        assert(h.subrange(0, h.len() - 2) =~= hex_of(tail));
        assert(bytes_of_hex(h) =~= b);
        assert forall|i: int| 0 <= i < h.len() implies is_hex_digit(#[trigger] h[i]) by {
            if i < h.len() - 2 {
                assert(h[i] == hex_of(tail)[i]);
            }
        }
    }
}

/// Spec-level strict-length address decoding: exactly 20 bytes or nothing.
pub open spec fn address_decode(s: Seq<u8>) -> Option<Seq<u8>> {
    if s.len() == 20 {
        Some(s)
    } else {
        None
    }
}

/// Decoding inverts encoding for every valid address, in both forms, and
/// decoding fails for any byte sequence whose length is not 20: the hex
/// rendering of the 20 bytes is a valid 40-digit hex string denoting the
/// same bytes, and the strict byte decoding accepts exactly those bytes.
pub proof fn lemma_address_round_trip(a: Seq<u8>)
    requires
        a.len() == 20,
    ensures
        hex_of(a).len() == 40,
        valid_hex(hex_of(a)),
        bytes_of_hex(hex_of(a)) == a,
        address_decode(a) == Some(a),
        forall|s: Seq<u8>| s.len() != 20 ==> #[trigger] address_decode(s) is None,
{
    lemma_hex_round_trip(a);
}

/// Raised when an address is built from other than 20 bytes or 40 hex digits.
#[derive(Clone, Copy, Debug, PartialEq, Eq, Structural)]
pub struct AddressLengthError;

impl AddressLengthError {
    /// Stable diagnostic text, in place of a `Display` rendering.
    pub fn message(&self) -> (r: &'static str)
        ensures
            r@ == "ERR_WRONG_ADDRESS_LENGTH"@,
    {
        "ERR_WRONG_ADDRESS_LENGTH"
    }
}

/// Base origin-chain address type: exactly 20 raw bytes, immutable once
/// constructed.
#[derive(Debug, PartialEq, Eq)]
pub struct Address {
    bytes: Vec<u8>,
}

impl View for Address {
    type V = Seq<u8>;

    closed spec fn view(&self) -> Seq<u8> {
        self.bytes@
    }
}

impl Clone for Address {
    fn clone(&self) -> (r: Self)
        ensures
            r@ == self@,
    {
        Address { bytes: slice_to_vec(self.bytes.as_slice()) }
    }
}

/// Construct an `Address` from its raw bytes.
#[allow(non_snake_case)]
pub fn AddressConst(addr: Vec<u8>) -> (r: Address)
    requires
        addr@.len() == 20,
    ensures
        r@ == addr@,
{
    Address { bytes: addr }
}

impl Address {
    /// Every address holds exactly 20 bytes.
    pub open spec fn wf(&self) -> bool {
        self@.len() == 20
    }

    /// Construct an address from exactly 20 raw bytes.
    pub fn new(val: Vec<u8>) -> (r: Self)
        requires
            val@.len() == 20,
        ensures
            r@ == val@,
            r.wf(),
    {
        Address { bytes: val }
    }

    /// Get a copy of the raw bytes.
    pub fn raw(&self) -> (r: Vec<u8>)
        ensures
            r@ == self@,
    {
        slice_to_vec(self.bytes.as_slice())
    }

    /// Borrow the raw bytes.
    pub fn as_bytes(&self) -> (r: &[u8])
        ensures
            r@ == self@,
    {
        self.bytes.as_slice()
    }

    /// Construct an address from a slice that is known to hold 20 bytes.
    pub fn from_slice(raw_addr: &[u8]) -> (r: Self)
        requires
            raw_addr@.len() == 20,
        ensures
            r@ == raw_addr@,
            r.wf(),
    {
        Address { bytes: slice_to_vec(raw_addr) }
    }

    /// Strict-length decoding: succeeds exactly on 20-byte inputs.
    pub fn try_from_slice(v: &[u8]) -> (r: Result<Self, AddressLengthError>)
        ensures
            r is Ok <==> address_decode(v@) is Some,
            r matches Ok(a) ==> a@ == v@ && a.wf(),
            r is Err ==> v@.len() != 20,
    {
        if v.len() == 20 {
            Ok(Self::from_slice(v))
        } else {
            Err(AddressLengthError)
        }
    }

    /// Encode the address as a lower-case hex string, no prefix.
    pub fn encode(&self) -> (r: String)
        ensures
            r@ == hex_of(self@),
    {
        hex_encode(self.bytes.as_slice())
    }

    /// Parse an address from a hex string: succeeds exactly on 40 hex digits.
    pub fn from_hex(s: &str) -> (r: Result<Self, AddressLengthError>)
        ensures
            r is Ok <==> valid_hex(s@) && s@.len() == 40,
            r matches Ok(a) ==> a@ == bytes_of_hex(s@) && a.wf(),
    {
        match hex_decode(s) {
            Some(b) => {
                proof {
                    lemma_bytes_of_hex_len(s@);
                }
                if b.len() == 20 {
                    Ok(Address { bytes: b })
                } else {
                    Err(AddressLengthError)
                }
            },
            None => Err(AddressLengthError),
        }
    }

    /// Compare two addresses byte for byte.
    pub fn eq_addr(&self, other: &Address) -> (r: bool)
        ensures
            r == (self@ == other@),
    {
        if self.bytes.len() != other.bytes.len() {
            return false;
        }
        let mut i: usize = 0;
        while i < self.bytes.len()
            invariant
                i <= self.bytes@.len(),
                self.bytes@.len() == other.bytes@.len(),
                forall|j: int| 0 <= j < i ==> self.bytes@[j] == other.bytes@[j],
            decreases self.bytes@.len() - i,
        {
            if self.bytes[i] != other.bytes[i] {
                return false;
            }
            i += 1;
        }
        proof {
            assert(self.bytes@ =~= other.bytes@);
        }
        true
    }
}

/// Relies on `hex::encode`: each byte becomes two lower-case hex digits, high
/// nibble first, in input order.
#[verifier::external_body]
fn hex_encode(b: &[u8]) -> (r: String)
    ensures
        r@ == hex_of(b@),
{
    hex::encode(b)
}

/// Relies on `hex::decode`: succeeds exactly on even-length strings of hex
/// digits (either case) and returns the denoted bytes, high nibble first.
#[verifier::external_body]
fn hex_decode(s: &str) -> (r: Option<Vec<u8>>)
    ensures
        r is Some <==> valid_hex(s@),
        r matches Some(b) ==> b@ == bytes_of_hex(s@),
{
    match hex::decode(s) {
        Ok(v) => Some(v),
        Err(_) => None,
    }
}

} // verus!
