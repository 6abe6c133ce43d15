//! Opaque asset identifiers: a deterministic 64-bit FNV-1a hash of a path.

use vstd::prelude::*;
use vstd::string::StringSliceAdditionalSpecFns;

verus! {

/// FNV-1a 64-bit offset basis.
pub const FNV_OFFSET_BASIS: u64 = 0xcbf29ce484222325;

/// FNV-1a 64-bit prime.
pub const FNV_PRIME: u64 = 0x100000001b3;

/// One FNV-1a round: xor the byte in, multiply by the prime modulo 2^64.
pub open spec fn fnv1a_step(h: u64, b: u8) -> u64 {
    (((h ^ (b as u64)) as nat * FNV_PRIME as nat) % 0x1_0000_0000_0000_0000nat) as u64
}

/// FNV-1a 64-bit hash of a byte string.
pub open spec fn fnv1a(bytes: Seq<u8>) -> u64
    decreases bytes.len(),
{
    if bytes.len() == 0 {
        FNV_OFFSET_BASIS
    } else {
        fnv1a_step(fnv1a(bytes.drop_last()), bytes.last())
    }
}

/// Opaque asset identifier wrapping a 64-bit hash of the asset's path.
///
/// The hash is deterministic across runs and platforms, so ids can be stored
/// in save files.
#[derive(Clone, Copy, PartialEq, Eq, Hash, PartialOrd, Ord, Debug)]
pub struct AssetId(pub u64);

impl AssetId {
    /// The id of a path: FNV-1a over the path's UTF-8 bytes.
    pub fn from_path(path: &str) -> (r: AssetId)
        ensures
            r.0 == fnv1a(path.spec_bytes()),
    {
        let bytes = path.as_bytes();
        let mut hash: u64 = FNV_OFFSET_BASIS;
        let mut i: usize = 0;
        while i < bytes.len()
            invariant
                i <= bytes@.len(),
                bytes@ == path.spec_bytes(),
                hash == fnv1a(bytes@.take(i as int)),
            decreases bytes.len() - i,
        {
            hash = hash ^ (bytes[i] as u64);
            hash = hash.wrapping_mul(FNV_PRIME);
            i = i + 1;
            assert(bytes@.take(i as int).drop_last() == bytes@.take(i - 1));
        }
        assert(bytes@.take(bytes@.len() as int) == bytes@);
        AssetId(hash)
    }

    /// Raw u64 value (for serialization).
    pub fn as_u64(self) -> (r: u64)
        ensures
            r == self.0,
    {
        self.0
    }

    /// Construct from a raw u64 (for deserialization).
    pub fn from_raw(value: u64) -> (r: AssetId)
        ensures
            r.0 == value,
    {
        AssetId(value)
    }

    /// Debug form: `AssetId(0x` followed by the 16 hex digits and `)`.
    pub fn debug_string(self) -> (r: String)
        ensures
            r@ == seq!['A', 's', 's', 'e', 't', 'I', 'd', '('] + hex_prefixed(self.0) + seq![')'],
    {
        let mut s = String::new();
        let head = ['A', 's', 's', 'e', 't', 'I', 'd', '('];
        let mut i: usize = 0;
        while i < 8
            invariant
                i <= 8,
                s@ == head@.take(i as int),
            decreases 8 - i,
        {
            crate::text::push_char(&mut s, head[i]);
            i = i + 1;
            assert(s@ == head@.take(i as int));
        }
        assert(head@.take(8) == seq!['A', 's', 's', 'e', 't', 'I', 'd', '(']);
        let hx = hex_string(self.0);
        let mut j: usize = 0;
        while j < hx.len()
            invariant
                j <= hx@.len(),
                hx@ == hex_prefixed(self.0),
                s@ == seq!['A', 's', 's', 'e', 't', 'I', 'd', '('] + hx@.take(j as int),
            decreases hx.len() - j,
        {
            crate::text::push_char(&mut s, hx[j]);
            j = j + 1;
            assert(hx@.take(j as int) == hx@.take(j - 1).push(hx@[j - 1]));
        }
        assert(hx@.take(hx@.len() as int) == hx@);
        crate::text::push_char(&mut s, ')');
        s
    }

    /// Display form: `0x` followed by 16 lowercase hex digits (`{:#018x}`).
    pub fn display_string(self) -> (r: String)
        ensures
            r@ == hex_prefixed(self.0),
    {
        let hx = hex_string(self.0);
        crate::text::string_from(&hx)
    }
}

/// Lowercase hex digit for a nibble.
pub open spec fn hex_digit(n: u64) -> char {
    if n < 10 {
        (('0' as u32) + n) as char
    } else {
        (('a' as u32) + n - 10) as char
    }
}

/// The 16 lowercase hex digits of `v`, most significant first.
pub open spec fn hex16(v: u64) -> Seq<char> {
    Seq::new(16, |i: int| hex_digit(((v as nat / pow16((15 - i) as nat)) % 16) as u64))
}

/// 16 to the power `e`.
pub open spec fn pow16(e: nat) -> nat
    decreases e,
{
    if e == 0 {
        1
    } else {
        16 * pow16((e - 1) as nat)
    }
}

/// `0x` followed by [`hex16`].
pub open spec fn hex_prefixed(v: u64) -> Seq<char> {
    seq!['0', 'x'] + hex16(v)
}

pub fn nibble_char(n: u64) -> (r: char)
    requires
        n < 16,
    ensures
        r == hex_digit(n),
{
    let c: u32 = if n < 10 {
        ('0' as u32) + (n as u32)
    } else {
        ('a' as u32) + (n as u32) - 10
    };
    crate::text::char_from_ascii(c)
}

proof fn lemma_pow16_pos(e: nat)
    ensures
        pow16(e) >= 1,
    decreases e,
{
    if e > 0 {
        lemma_pow16_pos((e - 1) as nat);
    }
}

fn hex_string(v: u64) -> (r: Vec<char>)
    ensures
        r@ == hex_prefixed(v),
{
    let mut out: Vec<char> = Vec::new();
    out.push('0');
    out.push('x');
    let mut digits: Vec<char> = Vec::new();
    let mut k: usize = 0;
    let mut rest: u64 = v;
    let ghost mut p: nat = 1;
    // Collect digits least significant first.
    while k < 16
        invariant
            k <= 16,
            digits@.len() == k,
            p == pow16(k as nat),
            rest as nat == v as nat / p,
            forall|i: int|
                0 <= i < k ==> digits@[i] == hex_digit(((v as nat / pow16(i as nat)) % 16) as u64),
        decreases 16 - k,
    {
        proof {
            lemma_pow16_pos(k as nat);
            assert(rest as nat / 16 == v as nat / (p * 16)) by (nonlinear_arith)
                requires
                    rest as nat == v as nat / p,
                    p >= 1,
            {
                vstd::arithmetic::div_mod::lemma_div_denominator(v as int, p as int, 16);
            }
        }
        let d = rest % 16;
        digits.push(nibble_char(d));
        rest = rest / 16;
        proof {
            p = p * 16;
        }
        k = k + 1;
    }
    let mut j: usize = 16;
    while j > 0
        invariant
            j <= 16,
            digits@.len() == 16,
            out@ == hex_prefixed(v).subrange(0, 2 + 16 - j),
            forall|i: int|
                0 <= i < 16 ==> digits@[i] == hex_digit(((v as nat / pow16(i as nat)) % 16) as u64),
        decreases j,
    {
        j = j - 1;
        out.push(digits[j]);
        assert(hex16(v)[15 - j as int] == digits@[j as int]);
        assert(out@ =~= hex_prefixed(v).subrange(0, 2 + 16 - j));
    }
    assert(out@ =~= hex_prefixed(v));
    out
}

/// Unified error type for the engine.
#[derive(Debug, PartialEq, Eq)]
pub enum Error {
    /// I/O error, with the host's description.
    Io(String),
    /// Asset not found, malformed, or otherwise unusable.
    Asset(String),
    /// Save game error (version, migration, corruption).
    Save(String),
    /// Scripting error (Rhai compile / runtime).
    Script(String),
    /// Render device error.
    Render(String),
    /// Audio device error.
    Audio(String),
    /// Catch-all for errors that don't fit elsewhere.
    Other(String),
}

} // verus!
