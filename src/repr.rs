//! Integer representations that an enumeration can be stored in.
use vstd::arithmetic::power2::{lemma2_to64, lemma2_to64_rest, lemma_pow2_adds, pow2};
use vstd::arithmetic::div_mod::{lemma_add_mod_noop, lemma_fundamental_div_mod_converse};
use vstd::prelude::*;

verus! {

/// The integer type that stores the discriminants of an enumeration.
#[derive(Clone, Copy, Debug, PartialEq, Eq, Structural)]
pub enum Repr {
    I8,
    I16,
    I32,
    I64,
    I128,
    U8,
    U16,
    U32,
    U64,
    U128,
    Isize,
    Usize,
}

/// Width in bits of the target's `usize` and `isize`.
pub open spec fn word_bits() -> nat {
    if usize::MAX == 0xffff_ffff {
        32
    } else {
        64
    }
}

impl Repr {
    /// Width in bits.
    pub open spec fn bits(self) -> nat {
        match self {
            Repr::I8 | Repr::U8 => 8,
            Repr::I16 | Repr::U16 => 16,
            Repr::I32 | Repr::U32 => 32,
            Repr::I64 | Repr::U64 => 64,
            Repr::I128 | Repr::U128 => 128,
            Repr::Isize | Repr::Usize => word_bits(),
        }
    }

    pub open spec fn signed(self) -> bool {
        match self {
            Repr::I8 | Repr::I16 | Repr::I32 | Repr::I64 | Repr::I128 | Repr::Isize => true,
            _ => false,
        }
    }

    /// Whether literal discriminants are folded while resolving, rather than
    /// kept as a base plus an offset.
    pub open spec fn computable(self) -> bool {
        match self {
            Repr::I8 | Repr::I16 | Repr::I32 | Repr::I64 => true,
            Repr::U8 | Repr::U16 | Repr::U32 => true,
            _ => false,
        }
    }

    /// Number of distinct values of the type: two to the power of its width.
    pub open spec fn modulus(self) -> int {
        pow2(self.bits()) as int
    }

    /// Largest value of the type.
    pub open spec fn max_value(self) -> int {
        if self.signed() {
            pow2((self.bits() - 1) as nat) - 1
        } else {
            self.modulus() - 1
        }
    }

    /// A value of the type is stored as its bit pattern, zero-extended to 128
    /// bits; `raw` is such a pattern when it is below the modulus.
    pub open spec fn holds(self, raw: u128) -> bool {
        raw < self.modulus()
    }

    /// Wraparound: the bit pattern of `x` taken modulo the type's width.
    pub open spec fn wrap(self, x: int) -> int {
        x % self.modulus()
    }

    pub fn is_computable(self) -> (r: bool)
        ensures
            r == self.computable(),
    {
        match self {
            Repr::I8 | Repr::I16 | Repr::I32 | Repr::I64 => true,
            Repr::U8 | Repr::U16 | Repr::U32 => true,
            _ => false,
        }
    }

    /// Largest value of the type, as a bit pattern.
    pub fn max(self) -> (r: u128)
        ensures
            r == self.max_value(),
    {
        proof {
            lemma_pow2_values();
        }
        match self {
            Repr::I8 => 0x7f,
            Repr::I16 => 0x7fff,
            Repr::I32 => 0x7fff_ffff,
            Repr::I64 => 0x7fff_ffff_ffff_ffff,
            Repr::I128 => 0x7fff_ffff_ffff_ffff_ffff_ffff_ffff_ffff,
            Repr::U8 => 0xff,
            Repr::U16 => 0xffff,
            Repr::U32 => 0xffff_ffff,
            Repr::U64 => 0xffff_ffff_ffff_ffff,
            Repr::U128 => 0xffff_ffff_ffff_ffff_ffff_ffff_ffff_ffff,
            Repr::Isize => if usize::MAX as u128 == 0xffff_ffff {
                0x7fff_ffff
            } else {
                0x7fff_ffff_ffff_ffff
            },
            Repr::Usize => usize::MAX as u128,
        }
    }

    /// Whether `raw` is the bit pattern of a value of the type.
    pub fn contains(self, raw: u128) -> (r: bool)
        ensures
            r == self.holds(raw),
    {
        proof {
            lemma_pow2_values();
        }
        match self {
            Repr::I8 | Repr::U8 => raw <= 0xff,
            Repr::I16 | Repr::U16 => raw <= 0xffff,
            Repr::I32 | Repr::U32 => raw <= 0xffff_ffff,
            Repr::I64 | Repr::U64 => raw <= 0xffff_ffff_ffff_ffff,
            Repr::I128 | Repr::U128 => true,
            Repr::Isize | Repr::Usize => raw <= usize::MAX as u128,
        }
    }

    /// `base + offset` with wraparound at the type's width.
    pub fn wrapping_add(self, base: u128, offset: u128) -> (r: u128)
        ensures
            r == self.wrap(base + offset),
    {
        proof {
            lemma_pow2_values();
        }
        let m: u128 = match self {
            Repr::I8 | Repr::U8 => 0x100,
            Repr::I16 | Repr::U16 => 0x1_0000,
            Repr::I32 | Repr::U32 => 0x1_0000_0000,
            Repr::I64 | Repr::U64 => 0x1_0000_0000_0000_0000,
            Repr::Isize | Repr::Usize => usize::MAX as u128 + 1,
            Repr::I128 | Repr::U128 => {
                proof {
                    let s = base + offset;
                    let m = pow2(128) as int;
                    if s >= m {
                        lemma_fundamental_div_mod_converse(s, m, 1, s - m);
                    } else {
                        lemma_fundamental_div_mod_converse(s, m, 0, s);
                    }
                }
                return base.wrapping_add(offset);
            },
        };
        let b = base % m;
        let o = offset % m;
        proof {
            lemma_add_mod(base as int, offset as int, m as int);
        }
        (b + o) % m
    }
}

/// The representation a token names, if it names one.
pub open spec fn repr_of(tok: Seq<char>) -> Option<Repr> {
    if tok == "i8"@ {
        Some(Repr::I8)
    } else if tok == "i16"@ {
        Some(Repr::I16)
    } else if tok == "i32"@ {
        Some(Repr::I32)
    } else if tok == "i64"@ {
        Some(Repr::I64)
    } else if tok == "i128"@ {
        Some(Repr::I128)
    } else if tok == "u8"@ {
        Some(Repr::U8)
    } else if tok == "u16"@ {
        Some(Repr::U16)
    } else if tok == "u32"@ {
        Some(Repr::U32)
    } else if tok == "u64"@ {
        Some(Repr::U64)
    } else if tok == "u128"@ {
        Some(Repr::U128)
    } else if tok == "isize"@ {
        Some(Repr::Isize)
    } else if tok == "usize"@ {
        Some(Repr::Usize)
    } else {
        None
    }
}

/// Whether two strings hold the same characters.
pub fn same_text(a: &str, b: &str) -> (r: bool)
    ensures
        r == (a@ == b@),
{
    let n = a.unicode_len();
    if n != b.unicode_len() {
        return false;
    }
    let mut i: usize = 0;
    while i < n
        invariant
            n == a@.len(),
            n == b@.len(),
            i <= n,
            a@.subrange(0, i as int) == b@.subrange(0, i as int),
        decreases n - i,
    {
        if a.get_char(i) != b.get_char(i) {
            return false;
        }
        assert(a@.subrange(0, i + 1) == a@.subrange(0, i as int).push(a@[i as int]));
        assert(b@.subrange(0, i + 1) == b@.subrange(0, i as int).push(b@[i as int]));
        i = i + 1;
    }
    assert(a@ == a@.subrange(0, n as int));
    assert(b@ == b@.subrange(0, n as int));
    true
}

/// Reads a representation token such as `u8` or `i64`.
pub fn parse_repr(tok: &str) -> (r: Option<Repr>)
    ensures
        r == repr_of(tok@),
{
    if same_text(tok, "i8") {
        Some(Repr::I8)
    } else if same_text(tok, "i16") {
        Some(Repr::I16)
    } else if same_text(tok, "i32") {
        Some(Repr::I32)
    } else if same_text(tok, "i64") {
        Some(Repr::I64)
    } else if same_text(tok, "i128") {
        Some(Repr::I128)
    } else if same_text(tok, "u8") {
        Some(Repr::U8)
    } else if same_text(tok, "u16") {
        Some(Repr::U16)
    } else if same_text(tok, "u32") {
        Some(Repr::U32)
    } else if same_text(tok, "u64") {
        Some(Repr::U64)
    } else if same_text(tok, "u128") {
        Some(Repr::U128)
    } else if same_text(tok, "isize") {
        Some(Repr::Isize)
    } else if same_text(tok, "usize") {
        Some(Repr::Usize)
    } else {
        None
    }
}

pub proof fn lemma_pow2_values()
    ensures
        pow2(7) == 0x80,
        pow2(8) == 0x100,
        pow2(15) == 0x8000,
        pow2(16) == 0x1_0000,
        pow2(31) == 0x8000_0000,
        pow2(32) == 0x1_0000_0000,
        pow2(63) == 0x8000_0000_0000_0000,
        pow2(64) == 0x1_0000_0000_0000_0000,
        pow2(127) == 0x8000_0000_0000_0000_0000_0000_0000_0000,
        pow2(128) == 0x1_0000_0000_0000_0000_0000_0000_0000_0000,
{
    lemma2_to64();
    lemma2_to64_rest();
    lemma_pow2_adds(64, 63);
    lemma_pow2_adds(64, 64);
}

/// The largest value and every wrapped value lie below the modulus, which is
/// at most two to the 128.
pub proof fn lemma_range(r: Repr, x: int)
    ensures
        0 < r.max_value() < r.modulus() <= pow2(128),
        0 <= r.wrap(x) < r.modulus(),
{
    lemma_pow2_values();
}

proof fn lemma_add_mod(a: int, b: int, m: int)
    requires
        m > 0,
    ensures
        (a % m + b % m) % m == (a + b) % m,
{
    lemma_add_mod_noop(a, b, m);
}

} // verus!
