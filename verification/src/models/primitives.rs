//! Fixed-width binary values: hashes, addresses and signatures.
//!
//! Each is a copyable array of bytes whose view is the byte sequence. The
//! text form of each is lowercase hexadecimal without a prefix.

use crate::encoding::{hex_bytes, hex_decode, hex_encode, hex_text, is_hex_text};
use vstd::prelude::*;
use vstd::slice::slice_to_vec;

verus! {

/// Account balances, in the ledger's smallest unit.
pub type Balance = u128;

/// Block numbers and positions inside a block.
pub type Id = u64;

/// `len` zero bytes.
pub open spec fn zero_bytes(len: nat) -> Seq<u8> {
    Seq::new(len, |i: int| 0u8)
}

/// How many zero bytes `bytes` starts with.
pub open spec fn leading_zero_bytes(bytes: Seq<u8>) -> nat
    decreases bytes.len(),
{
    if bytes.len() == 0 || bytes[0] != 0 {
        0
    } else {
        1 + leading_zero_bytes(bytes.drop_first())
    }
}

/// The count of leading zero bytes is the first position that holds a
/// non-zero byte, or the length where there is none.
pub proof fn lemma_leading_zero_bytes(bytes: Seq<u8>, count: nat)
    requires
        count <= bytes.len(),
        forall|i: int| 0 <= i < count ==> bytes[i] == 0,
        count < bytes.len() ==> bytes[count as int] != 0,
    ensures
        leading_zero_bytes(bytes) == count,
    decreases bytes.len(),
{
    if count > 0 {
        let rest = bytes.drop_first();
        assert forall|i: int| 0 <= i < count - 1 implies rest[i] == 0 by {
            assert(rest[i] == bytes[i + 1]);
        }
        lemma_leading_zero_bytes(rest, (count - 1) as nat);
    }
}

/// A point in time: whole seconds since the start of 1970.
#[derive(Copy, Clone, Debug, PartialEq, Eq, Structural)]
pub struct Timestamp(u64);

impl Timestamp {
    /// The seconds.
    pub closed spec fn seconds(self) -> u64 {
        self.0
    }

    /// The seconds since the start of 1970.
    pub fn as_secs(&self) -> (seconds: u64)
        ensures
            seconds == self.seconds(),
    {
        self.0
    }

    /// The time on the clock of this machine. Nothing is known of it.
    pub fn now() -> Self {
        Timestamp(clock_seconds())
    }
}

/// `SystemTime::now`: the time on the clock of this machine, in whole seconds
/// since the start of 1970, and 0 where the clock stands before that. Nothing
/// is claimed of the value.
#[verifier::external_body]
fn clock_seconds() -> u64 {
    match std::time::SystemTime::now().duration_since(std::time::SystemTime::UNIX_EPOCH) {
        Ok(time) => time.as_secs(),
        Err(_) => 0,
    }
}

/// A 32-byte hash.
#[derive(Copy, Clone, Debug, Eq)]
pub struct H256([u8; 32]);

impl View for H256 {
    type V = Seq<u8>;

    closed spec fn view(&self) -> Seq<u8> {
        self.0@
    }
}

impl PartialEq for H256 {
    fn eq(&self, other: &Self) -> (same: bool) {
        let mut i: usize = 0;
        while i < 32
            invariant
                i <= 32,
                forall|j: int| 0 <= j < i ==> self.0[j] == other.0[j],
            decreases 32 - i,
        {
            if self.0[i] != other.0[i] {
                return false;
            }
            i += 1;
        }
        assert(self.0 =~= other.0);
        true
    }
}

impl vstd::std_specs::cmp::PartialEqSpecImpl for H256 {
    open spec fn obeys_eq_spec() -> bool {
        true
    }

    open spec fn eq_spec(&self, other: &Self) -> bool {
        *self == *other
    }
}

impl Default for H256 {
    fn default() -> (h: Self)
        ensures
            h@ == zero_bytes(32),
    {
        H256::zero()
    }
}

impl H256 {
    /// A hash has 32 bytes.
    pub broadcast proof fn lemma_len(self)
        ensures
            #[trigger] self@.len() == 32,
    {
    }

    /// Two hashes with the same bytes are the same hash.
    pub proof fn lemma_eq(self, other: Self)
        ensures
            (self@ == other@) <==> (self == other),
    {
        if self@ == other@ {
            assert(self.0 =~= other.0);
        }
    }

    /// Wraps 32 bytes as a hash.
    pub fn new(bytes: [u8; 32]) -> (h: Self)
        ensures
            h@ == bytes@,
    {
        H256(bytes)
    }

    /// The all-zero hash.
    pub fn zero() -> (h: Self)
        ensures
            h@ == zero_bytes(32),
    {
        H256([0u8; 32])
    }

    /// Copies a hash out of a slice of exactly 32 bytes.
    pub fn from_slice(slice: &[u8]) -> (h: Self)
        requires
            slice@.len() == 32,
        ensures
            h@ == slice@,
    {
        let mut result = [0u8; 32];
        let mut i: usize = 0;
        while i < 32
            invariant
                i <= 32,
                slice@.len() == 32,
                forall|j: int| 0 <= j < i ==> result@[j] == slice@[j],
            decreases 32 - i,
        {
            result[i] = slice[i];
            i += 1;
        }
        H256(result)
    }

    /// The hash that nullable stored bytes stand for: the bytes themselves, or
    /// the zero hash where there are none.
    pub fn from(bytes: Option<Vec<u8>>) -> (h: Self)
        requires
            bytes matches Some(b) ==> b@.len() == 32,
        ensures
            h@ == (match bytes {
                Some(b) => b@,
                None => zero_bytes(32),
            }),
    {
        match bytes {
            Some(b) => H256::from_slice(b.as_slice()),
            None => H256::zero(),
        }
    }

    /// Reads a hash from 64 hexadecimal digits.
    pub fn from_hex_string(s: &str) -> (h: Self)
        requires
            is_hex_text(s@),
            s@.len() == 64,
        ensures
            h@ == hex_bytes(s@),
    {
        match hex_decode(s) {
            Ok(bytes) => H256::from_slice(bytes.as_slice()),
            Err(_) => vstd::pervasive::unreached(),
        }
    }

    /// Reads a hash from text, if the text is 64 hexadecimal digits.
    pub fn parse_hex(s: &str) -> (parsed: Option<Self>)
        ensures
            parsed is Some <==> is_hex_text(s@) && s@.len() == 64,
            parsed matches Some(h) ==> h@ == hex_bytes(s@),
    {
        match hex_decode(s) {
            Ok(bytes) => {
                if bytes.len() == 32 {
                    Some(H256::from_slice(bytes.as_slice()))
                } else {
                    None
                }
            },
            Err(_) => None,
        }
    }

    /// The bytes, in a new vector.
    pub fn to_vec(&self) -> (bytes: Vec<u8>)
        ensures
            bytes@ == self@,
    {
        slice_to_vec(self.as_bytes())
    }

    /// The bytes.
    pub fn as_bytes(&self) -> (bytes: &[u8])
        ensures
            bytes@ == self@,
    {
        &self.0
    }

    /// The number of leading zero bytes (not bits).
    pub fn leading_zeros(&self) -> (count: usize)
        ensures
            count == leading_zero_bytes(self@),
    {
        let mut i: usize = 0;
        while i < 32 && self.0[i] == 0
            invariant
                i <= 32,
                forall|j: int| 0 <= j < i ==> self@[j] == 0,
            decreases 32 - i,
        {
            i += 1;
        }
        proof {
            lemma_leading_zero_bytes(self@, i as nat);
        }
        i
    }

    /// The 64 hexadecimal digits of the hash.
    pub fn as_hex_string(&self) -> (text: String)
        ensures
            text@ == hex_text(self@),
    {
        hex_encode(self.as_bytes())
    }
}

/// A 33-byte account address: a compressed public key.
#[derive(Copy, Clone, Debug, Eq)]
pub struct Address([u8; 33]);

impl View for Address {
    type V = Seq<u8>;

    closed spec fn view(&self) -> Seq<u8> {
        self.0@
    }
}

impl PartialEq for Address {
    fn eq(&self, other: &Self) -> (same: bool) {
        let mut i: usize = 0;
        while i < 33
            invariant
                i <= 33,
                forall|j: int| 0 <= j < i ==> self.0[j] == other.0[j],
            decreases 33 - i,
        {
            if self.0[i] != other.0[i] {
                return false;
            }
            i += 1;
        }
        assert(self.0 =~= other.0);
        true
    }
}

impl vstd::std_specs::cmp::PartialEqSpecImpl for Address {
    open spec fn obeys_eq_spec() -> bool {
        true
    }

    open spec fn eq_spec(&self, other: &Self) -> bool {
        *self == *other
    }
}

impl Default for Address {
    fn default() -> (a: Self)
        ensures
            a@ == zero_bytes(33),
    {
        Address([0u8; 33])
    }
}

impl Address {
    /// An address has 33 bytes.
    pub broadcast proof fn lemma_len(self)
        ensures
            #[trigger] self@.len() == 33,
    {
    }

    /// Two addresses with the same bytes are the same address.
    pub proof fn lemma_eq(self, other: Self)
        ensures
            (self@ == other@) <==> (self == other),
    {
        if self@ == other@ {
            assert(self.0 =~= other.0);
        }
    }

    /// Copies an address out of a slice of exactly 33 bytes.
    pub fn from_bytes(bytes: &[u8]) -> (a: Self)
        requires
            bytes@.len() == 33,
        ensures
            a@ == bytes@,
    {
        let mut result = [0u8; 33];
        let mut i: usize = 0;
        while i < 33
            invariant
                i <= 33,
                bytes@.len() == 33,
                forall|j: int| 0 <= j < i ==> result@[j] == bytes@[j],
            decreases 33 - i,
        {
            result[i] = bytes[i];
            i += 1;
        }
        Address(result)
    }

    /// The address that nullable stored bytes stand for: the bytes themselves,
    /// or the all-zero address where there are none.
    pub fn from(bytes: Option<Vec<u8>>) -> (a: Self)
        requires
            bytes matches Some(b) ==> b@.len() == 33,
        ensures
            a@ == (match bytes {
                Some(b) => b@,
                None => zero_bytes(33),
            }),
    {
        match bytes {
            Some(b) => Address::from_bytes(b.as_slice()),
            None => Address::default(),
        }
    }

    /// The 66 hexadecimal digits of the address.
    pub fn as_hex_string(&self) -> (text: String)
        ensures
            text@ == hex_text(self@),
    {
        hex_encode(self.as_bytes())
    }

    /// Reads an address from 66 hexadecimal digits.
    pub fn from_hex_string(s: &str) -> (a: Self)
        requires
            is_hex_text(s@),
            s@.len() == 66,
        ensures
            a@ == hex_bytes(s@),
    {
        match hex_decode(s) {
            Ok(bytes) => Address::from_bytes(bytes.as_slice()),
            Err(_) => vstd::pervasive::unreached(),
        }
    }

    /// Reads an address from text, if the text is 66 hexadecimal digits.
    pub fn parse_hex(s: &str) -> (parsed: Option<Self>)
        ensures
            parsed is Some <==> is_hex_text(s@) && s@.len() == 66,
            parsed matches Some(a) ==> a@ == hex_bytes(s@),
    {
        match hex_decode(s) {
            Ok(bytes) => {
                if bytes.len() == 33 {
                    Some(Address::from_bytes(bytes.as_slice()))
                } else {
                    None
                }
            },
            Err(_) => None,
        }
    }

    /// The bytes.
    pub fn as_bytes(&self) -> (bytes: &[u8])
        ensures
            bytes@ == self@,
    {
        &self.0
    }
}

/// A 64-byte compact signature: `r` followed by `s`.
#[derive(Copy, Clone, Debug, Eq)]
pub struct Signature([u8; 64]);

impl View for Signature {
    type V = Seq<u8>;

    closed spec fn view(&self) -> Seq<u8> {
        self.0@
    }
}

impl PartialEq for Signature {
    fn eq(&self, other: &Self) -> (same: bool) {
        let mut i: usize = 0;
        while i < 64
            invariant
                i <= 64,
                forall|j: int| 0 <= j < i ==> self.0[j] == other.0[j],
            decreases 64 - i,
        {
            if self.0[i] != other.0[i] {
                return false;
            }
            i += 1;
        }
        assert(self.0 =~= other.0);
        true
    }
}

impl vstd::std_specs::cmp::PartialEqSpecImpl for Signature {
    open spec fn obeys_eq_spec() -> bool {
        true
    }

    open spec fn eq_spec(&self, other: &Self) -> bool {
        *self == *other
    }
}

impl Signature {
    /// A signature has 64 bytes.
    pub broadcast proof fn lemma_len(self)
        ensures
            #[trigger] self@.len() == 64,
    {
    }

    /// Two signatures with the same bytes are the same signature.
    pub proof fn lemma_eq(self, other: Self)
        ensures
            (self@ == other@) <==> (self == other),
    {
        if self@ == other@ {
            assert(self.0 =~= other.0);
        }
    }

    /// Wraps 64 bytes as a signature.
    pub fn new(bytes: [u8; 64]) -> (sig: Self)
        ensures
            sig@ == bytes@,
    {
        Signature(bytes)
    }

    /// Copies a signature out of a slice of exactly 64 bytes.
    pub fn from_slice(slice: &[u8]) -> (sig: Self)
        requires
            slice@.len() == 64,
        ensures
            sig@ == slice@,
    {
        let mut result = [0u8; 64];
        let mut i: usize = 0;
        while i < 64
            invariant
                i <= 64,
                slice@.len() == 64,
                forall|j: int| 0 <= j < i ==> result@[j] == slice@[j],
            decreases 64 - i,
        {
            result[i] = slice[i];
            i += 1;
        }
        Signature(result)
    }

    /// The bytes, in a new vector.
    pub fn to_vec(&self) -> (bytes: Vec<u8>)
        ensures
            bytes@ == self@,
    {
        slice_to_vec(self.as_slice())
    }

    /// The bytes.
    pub fn as_slice(&self) -> (bytes: &[u8])
        ensures
            bytes@ == self@,
    {
        &self.0
    }

    /// The 128 hexadecimal digits of the signature.
    pub fn as_hex_string(&self) -> (text: String)
        ensures
            text@ == hex_text(self@),
    {
        hex_encode(self.as_slice())
    }

    /// Reads a signature from 128 hexadecimal digits.
    pub fn from_hex_string(s: &str) -> (sig: Self)
        requires
            is_hex_text(s@),
            s@.len() == 128,
        ensures
            sig@ == hex_bytes(s@),
    {
        match hex_decode(s) {
            Ok(bytes) => Signature::from_slice(bytes.as_slice()),
            Err(_) => vstd::pervasive::unreached(),
        }
    }

    /// Reads a signature from text, if the text is 128 hexadecimal digits.
    pub fn parse_hex(s: &str) -> (parsed: Option<Self>)
        ensures
            parsed is Some <==> is_hex_text(s@) && s@.len() == 128,
            parsed matches Some(sig) ==> sig@ == hex_bytes(s@),
    {
        match hex_decode(s) {
            Ok(bytes) => {
                if bytes.len() == 64 {
                    Some(Signature::from_slice(bytes.as_slice()))
                } else {
                    None
                }
            },
            Err(_) => None,
        }
    }
}

} // verus!
