use vstd::prelude::*;
use crate::rng::random_bytes_16;

verus! {

/// A 16-byte identifier. Equality and ordering go by the byte values; the
/// textual form is 32 hex characters, two per byte, written in lower case.
#[derive(Clone, Copy, Debug, PartialEq, Eq, PartialOrd, Ord, Hash)]
pub struct UUID {
    pub v: [u8; 16],
}

/// The lower-case hex character for a value below 16, as an ASCII byte.
pub open spec fn hex_char_of(n: int) -> u8
    recommends
        0 <= n < 16,
{
    if n < 10 {
        (48 + n) as u8
    } else {
        (87 + n) as u8
    }
}

/// The hex encoding of a byte sequence: two lower-case hex characters per
/// byte, high half first, as ASCII bytes.
pub open spec fn hex_encoded(s: Seq<u8>) -> Seq<u8> {
    Seq::new(
        s.len() * 2,
        |i: int|
            if i % 2 == 0 {
                hex_char_of((s[i / 2] >> 4) as int)
            } else {
                hex_char_of((s[i / 2] & 0xf) as int)
            },
    )
}

/// Whether an ASCII byte is a hex character, upper or lower case.
pub open spec fn is_hex_char(c: u8) -> bool {
    (48 <= c <= 57) || (97 <= c <= 102) || (65 <= c <= 70)
}

/// The value of a hex character.
pub open spec fn hex_value(c: u8) -> int
    recommends
        is_hex_char(c),
{
    if 48 <= c <= 57 {
        c - 48
    } else if 97 <= c <= 102 {
        c - 87
    } else {
        c - 55
    }
}

/// The byte read from a pair of hex characters, high half first.
pub open spec fn byte_of_hex_pair(hi: u8, lo: u8) -> u8
    recommends
        is_hex_char(hi),
        is_hex_char(lo),
{
    (hex_value(hi) * 16 + hex_value(lo)) as u8
}

/// The bytes read from a full hex string of even length.
pub open spec fn hex_decoded(s: Seq<u8>) -> Seq<u8> {
    Seq::new(s.len() / 2, |i: int| byte_of_hex_pair(s[2 * i], s[2 * i + 1]))
}

/// The lower-case hex character for a value below 16.
fn hex_char(n: u8) -> (r: u8)
    requires
        n < 16,
    ensures
        r == hex_char_of(n as int),
{
    if n < 10 {
        48 + n
    } else {
        87 + n
    }
}

/// The value of a hex character, or `None` for any other byte.
fn hex_char_value(c: u8) -> (r: Option<u8>)
    ensures
        r is Some <==> is_hex_char(c),
        r is Some ==> r->0 == hex_value(c) && r->0 < 16,
{
    if 48 <= c && c <= 57 {
        Some(c - 48)
    } else if 97 <= c && c <= 102 {
        Some(c - 87)
    } else if 65 <= c && c <= 70 {
        Some(c - 55)
    } else {
        None
    }
}

impl UUID {
    /// A fresh identifier of sixteen random bytes.
    pub fn random() -> UUID {
        UUID { v: random_bytes_16() }
    }

    /// The textual form of this identifier: exactly 32 lower-case hex
    /// characters, two per byte, no separators, as ASCII bytes.
    pub fn to_hex(&self) -> (r: Vec<u8>)
        ensures
            r@ == hex_encoded(self.v@),
            r@.len() == 32,
    {
        let mut out: Vec<u8> = Vec::new();
        let mut i: usize = 0;
        while i < 16
            invariant
                i <= 16,
                out@.len() == 2 * i,
                forall|j: int| 0 <= j < 2 * i ==> out@[j] == hex_encoded(self.v@)[j],
            decreases 16 - i,
        {
            let b = self.v[i];
            proof {
                assert((b >> 4) < 16 && (b & 0xf) < 16) by (bit_vector);
                assert(hex_encoded(self.v@)[2 * i as int] == hex_char_of((b >> 4) as int));
                assert(hex_encoded(self.v@)[2 * i as int + 1] == hex_char_of((b & 0xf) as int));
            }
            out.push(hex_char(b >> 4));
            out.push(hex_char(b & 0xf));
            i = i + 1;
        }
        proof {
            assert(out@ =~= hex_encoded(self.v@));
        }
        out
    }

    /// Reads an identifier back from its textual form. Fails exactly when the
    /// input is not 32 characters long or some character is not hex; upper
    /// case is accepted on the way in.
    pub fn from_hex(s: &[u8]) -> (r: Option<UUID>)
        ensures
            r is Some <==> (s@.len() == 32 && forall|i: int| 0 <= i < 32 ==> is_hex_char(s@[i])),
            r is Some ==> r->0.v@ =~= hex_decoded(s@),
    {
        if s.len() != 32 {
            return None;
        }
        let mut v: [u8; 16] = [0u8; 16];
        let mut i: usize = 0;
        while i < 16
            invariant
                i <= 16,
                s@.len() == 32,
                forall|j: int| 0 <= j < 2 * i ==> is_hex_char(s@[j]),
                forall|j: int| 0 <= j < i ==> v@[j] == byte_of_hex_pair(s@[2 * j], s@[2 * j + 1]),
            decreases 16 - i,
        {
            let hi = match hex_char_value(s[2 * i]) {
                Some(h) => h,
                None => {
                    return None;
                },
            };
            let lo = match hex_char_value(s[2 * i + 1]) {
                Some(l) => l,
                None => {
                    return None;
                },
            };
            v[i] = hi * 16 + lo;
            i = i + 1;
        }
        Some(UUID { v })
    }
}

/// Encoding sixteen bytes and reading the characters back returns the very
/// bytes that were encoded, and every character of the encoding is hex.
pub proof fn lemma_hex_round_trip(b: Seq<u8>)
    requires
        b.len() == 16,
    ensures
        hex_encoded(b).len() == 32,
        forall|i: int| 0 <= i < 32 ==> is_hex_char(#[trigger] hex_encoded(b)[i]),
        hex_decoded(hex_encoded(b)) =~= b,
{
    assert forall|i: int| 0 <= i < 32 implies is_hex_char(#[trigger] hex_encoded(b)[i]) by {
        let x = b[i / 2];
        assert((x >> 4) < 16 && (x & 0xf) < 16) by (bit_vector);
        lemma_hex_char_of_is_hex((x >> 4) as int);
        lemma_hex_char_of_is_hex((x & 0xf) as int);
    }
    assert forall|i: int| 0 <= i < 16 implies hex_decoded(hex_encoded(b))[i] == b[i] by {
        let x = b[i];
        let hi = hex_encoded(b)[2 * i];
        let lo = hex_encoded(b)[2 * i + 1];
        assert(hi == hex_char_of((x >> 4) as int) && lo == hex_char_of((x & 0xf) as int));
        assert((x >> 4) < 16 && (x & 0xf) < 16) by (bit_vector);
        lemma_hex_value_of_char((x >> 4) as int);
        lemma_hex_value_of_char((x & 0xf) as int);
        assert((x >> 4) * 16 + (x & 0xf) == x) by (bit_vector);
    }
}

/// The hex character of a value below 16 is itself a hex character.
proof fn lemma_hex_char_of_is_hex(n: int)
    requires
        0 <= n < 16,
    ensures
        is_hex_char(hex_char_of(n)),
{
}

/// Reading a hex character back gives the value it was made from.
proof fn lemma_hex_value_of_char(n: int)
    requires
        0 <= n < 16,
    ensures
        hex_value(hex_char_of(n)) == n,
{
}

} // verus!
