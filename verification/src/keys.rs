//! Lookup keys for the packed stores, in two flavors: variable-length byte
//! strings (terms), ordered lexicographically, and fixed-width unsigned
//! 32-bit integers (document ids), ordered numerically.
//!
//! Both serialize to a fixed stride per kind so that a lookup-table row can
//! be found by arithmetic offset: a string key is one length byte, the key
//! bytes, and zero padding up to [`STR_KEY_CAP`] bytes; an integer key is
//! four big-endian bytes.

use vstd::prelude::*;
use crate::bytes::lex_lt;
use crate::bytes::lemma_lex_lt_trichotomy;
use crate::bytes::lemma_lex_lt_transitive;
use crate::bytes::push_repeat;
use crate::bytes::bytes_eq;
use crate::bytes::bytes_lt;

verus! {

/// Maximum byte length of a string key; longer terms are rejected at build
/// time so that every lookup-table row has the same width.
pub const STR_KEY_CAP: usize = 255;

/// The two key kinds a packed store can be keyed by.
#[derive(Clone, Copy, Debug, PartialEq, Eq, Structural)]
pub enum KeyKind {
    Str,
    U32,
}

impl KeyKind {
    /// Byte width of one encoded key of this kind.
    pub open spec fn spec_stride(self) -> nat {
        match self {
            KeyKind::Str => 256,
            KeyKind::U32 => 4,
        }
    }

    /// Byte width of one encoded key of this kind.
    pub fn stride(self) -> (r: usize)
        ensures
            r == self.spec_stride(),
    {
        match self {
            KeyKind::Str => 256,
            KeyKind::U32 => 4,
        }
    }
}

/// A lookup key: a term's bytes or a document id.
pub enum PackedKey {
    Str(Vec<u8>),
    U32(u32),
}

impl PackedKey {
    /// String keys must fit the fixed row width and must not be empty.
    pub open spec fn wf(&self) -> bool {
        match self {
            PackedKey::Str(b) => 1 <= b@.len() <= STR_KEY_CAP,
            PackedKey::U32(_) => true,
        }
    }

    pub open spec fn spec_kind(&self) -> KeyKind {
        match self {
            PackedKey::Str(_) => KeyKind::Str,
            PackedKey::U32(_) => KeyKind::U32,
        }
    }

    pub fn kind(&self) -> (r: KeyKind)
        ensures
            r == self.spec_kind(),
    {
        match self {
            PackedKey::Str(_) => KeyKind::Str,
            PackedKey::U32(_) => KeyKind::U32,
        }
    }

    /// Total order on keys: integer keys numerically, string keys
    /// lexicographically; the two kinds never share a store, integer keys
    /// sort first only to make the order total.
    pub open spec fn key_lt(&self, other: &PackedKey) -> bool {
        match (self, other) {
            (PackedKey::U32(x), PackedKey::U32(y)) => *x < *y,
            (PackedKey::U32(_), PackedKey::Str(_)) => true,
            (PackedKey::Str(_), PackedKey::U32(_)) => false,
            (PackedKey::Str(x), PackedKey::Str(y)) => lex_lt(x@, y@),
        }
    }

    /// Key equivalence: same kind and same payload.
    pub open spec fn key_eq(&self, other: &PackedKey) -> bool {
        match (self, other) {
            (PackedKey::U32(x), PackedKey::U32(y)) => x == y,
            (PackedKey::Str(x), PackedKey::Str(y)) => x@ == y@,
            _ => false,
        }
    }

    /// Non-strict key order.
    pub open spec fn key_le(&self, other: &PackedKey) -> bool {
        self.key_lt(other) || self.key_eq(other)
    }

    /// The byte string of a string key (empty for an integer key).
    pub open spec fn str_view(&self) -> Seq<u8> {
        match self {
            PackedKey::Str(b) => b@,
            PackedKey::U32(_) => Seq::empty(),
        }
    }

    /// The id of an integer key (zero for a string key).
    pub open spec fn u32_view(&self) -> u32 {
        match self {
            PackedKey::Str(_) => 0,
            PackedKey::U32(x) => *x,
        }
    }

    /// The fixed-stride encoding of this key as written into a lookup row.
    pub open spec fn encoded(&self) -> Seq<u8> {
        match self {
            PackedKey::Str(b) => seq![b@.len() as u8] + b@ + Seq::new(
                (STR_KEY_CAP - b@.len()) as nat,
                |i: int| 0u8,
            ),
            PackedKey::U32(x) => seq![
                ((x >> 24) & 0xff) as u8,
                ((x >> 16) & 0xff) as u8,
                ((x >> 8) & 0xff) as u8,
                (x & 0xff) as u8,
            ],
        }
    }

    /// An encoded key fills exactly one stride of its kind.
    pub proof fn lemma_encoded_len(&self)
        requires
            self.wf(),
        ensures
            self.encoded().len() == self.spec_kind().spec_stride(),
    {
    }

    /// Appends the fixed-stride encoding of the key to `out`.
    pub fn encode_into(&self, out: &mut Vec<u8>)
        requires
            self.wf(),
        ensures
            final(out)@ == old(out)@ + self.encoded(),
    {
        match self {
            PackedKey::Str(b) => {
                out.push(b.len() as u8);
                let mut i: usize = 0;
                let n = b.len();
                while i < n
                    invariant
                        n == b@.len(),
                        1 <= n <= STR_KEY_CAP,
                        0 <= i <= n,
                        out@ == old(out)@ + seq![b@.len() as u8] + b@.take(i as int),
                    decreases n - i,
                {
                    out.push(b[i]);
                    proof {
                        assert(out@ =~= old(out)@ + seq![b@.len() as u8] + b@.take(i + 1));
                    }
                    i += 1;
                }
                proof {
                    assert(b@.take(n as int) =~= b@);
                }
                push_repeat(out, 0, STR_KEY_CAP - n);
                proof {
                    assert(out@ =~= old(out)@ + self.encoded());
                }
            },
            PackedKey::U32(x) => {
                out.push(((*x >> 24) & 0xff) as u8);
                out.push(((*x >> 16) & 0xff) as u8);
                out.push(((*x >> 8) & 0xff) as u8);
                out.push((*x & 0xff) as u8);
                proof {
                    assert(out@ =~= old(out)@ + self.encoded());
                }
            },
        }
    }

    /// Decides the strict key order.
    pub fn lt(&self, other: &PackedKey) -> (r: bool)
        ensures
            r == self.key_lt(other),
    {
        match (self, other) {
            (PackedKey::U32(x), PackedKey::U32(y)) => *x < *y,
            (PackedKey::U32(_), PackedKey::Str(_)) => true,
            (PackedKey::Str(_), PackedKey::U32(_)) => false,
            (PackedKey::Str(x), PackedKey::Str(y)) => bytes_lt(x, y),
        }
    }

    /// Decides key equivalence.
    pub fn eq_key(&self, other: &PackedKey) -> (r: bool)
        ensures
            r == self.key_eq(other),
    {
        match (self, other) {
            (PackedKey::U32(x), PackedKey::U32(y)) => *x == *y,
            (PackedKey::Str(x), PackedKey::Str(y)) => bytes_eq(x, y),
            _ => false,
        }
    }
}

/// Of two keys, exactly one of `key_lt`, its converse, or `key_eq` holds.
pub proof fn lemma_key_lt_trichotomy(a: &PackedKey, b: &PackedKey)
    ensures
        a.key_lt(b) || b.key_lt(a) || a.key_eq(b),
        a.key_lt(b) ==> !b.key_lt(a) && !a.key_eq(b),
        a.key_eq(b) ==> !a.key_lt(b) && !b.key_lt(a),
{
    match (a, b) {
        (PackedKey::Str(x), PackedKey::Str(y)) => {
            lemma_lex_lt_trichotomy(x@, y@);
        },
        _ => {},
    }
}

/// The strict key order is transitive, and key equivalence is a congruence
/// for it.
pub proof fn lemma_key_lt_transitive(a: &PackedKey, b: &PackedKey, c: &PackedKey)
    ensures
        a.key_lt(b) && b.key_lt(c) ==> a.key_lt(c),
        a.key_eq(b) && b.key_lt(c) ==> a.key_lt(c),
        a.key_lt(b) && b.key_eq(c) ==> a.key_lt(c),
        a.key_eq(b) && b.key_eq(c) ==> a.key_eq(c),
{
    match (a, b, c) {
        (PackedKey::Str(x), PackedKey::Str(y), PackedKey::Str(z)) => {
            if lex_lt(x@, y@) && lex_lt(y@, z@) {
                lemma_lex_lt_transitive(x@, y@, z@);
            }
        },
        _ => {},
    }
}

} // verus!
