//! The word model: 6-bit scalars, signed and unsigned, and 12-bit values
//! built from two words. All wrapping arithmetic is modulo the word width;
//! casting between signatures reinterprets the 6-bit two's-complement
//! pattern rather than translating the value.

use vstd::prelude::*;

verus! {

/// The number of bits in a word.
pub const WORD_SIZE: usize = 6;

/// Interprets a 6-bit unsigned pattern as a signed value.
pub open spec fn as_signed6(v: u8) -> i8 {
    if v < 32 {
        v as i8
    } else {
        (v - 64) as i8
    }
}

/// The 6-bit two's-complement pattern of a signed value in [-32, 31].
pub open spec fn as_unsigned6(s: i8) -> u8 {
    if s >= 0 {
        s as u8
    } else {
        (s + 64) as u8
    }
}

/// An unsigned value constrained to 6 bits: range [0, 63].
#[allow(non_camel_case_types)]
#[derive(Debug, Clone, Copy, PartialEq, Eq, Structural)]
pub struct uWord {
    v: u8,
}

impl View for uWord {
    type V = u8;

    closed spec fn view(&self) -> u8 {
        self.v
    }
}

impl uWord {
    /// Every unsigned word holds a 6-bit value.
    #[verifier::type_invariant]
    pub open spec fn inv(self) -> bool {
        self@ < 64
    }

    pub fn value(self) -> (r: u8)
        ensures
            r == self@,
            r < 64,
    {
        proof {
            use_type_invariant(&self);
        }
        self.v
    }

    pub fn zero() -> (r: Self)
        ensures
            r@ == 0,
    {
        uWord { v: 0 }
    }

    pub fn max() -> (r: Self)
        ensures
            r@ == 63,
    {
        uWord { v: 63 }
    }

    /// Constructs a word from a value known to be in range.
    pub fn lit(x: u8) -> (r: Self)
        requires
            x < 64,
        ensures
            r@ == x,
    {
        uWord { v: x }
    }

    /// Checked construction: `None` exactly when the value is out of range.
    pub fn try_new(x: u8) -> (r: Option<Self>)
        ensures
            x < 64 ==> r == Some(uWord::spec_new(x)),
            x >= 64 ==> r is None,
    {
        if x < 64 {
            Some(uWord { v: x })
        } else {
            None
        }
    }

    /// Reinterprets the 6-bit pattern as a signed word; the raw bits are kept.
    pub fn as_iword(self) -> (r: iWord)
        ensures
            r@ == as_signed6(self@),
    {
        proof {
            use_type_invariant(&self);
        }
        if self.v < 32 {
            iWord { v: self.v as i8 }
        } else {
            iWord { v: (self.v as i8) - 64 }
        }
    }

    pub fn sign_bit(self) -> (r: bool)
        ensures
            r == (self@ >= 32),
    {
        proof {
            use_type_invariant(&self);
        }
        self.v >= 32
    }

    /// Checked increment: fails (rather than wrapping) at the maximum word.
    pub fn increment(self) -> (r: Option<Self>)
        ensures
            self@ < 63 ==> r == Some(uWord::spec_new((self@ + 1) as u8)),
            self@ == 63 ==> r is None,
    {
        proof {
            use_type_invariant(&self);
        }
        if self.v < 63 {
            Some(uWord { v: self.v + 1 })
        } else {
            None
        }
    }

    /// The word a ghost value stands for; for stating contracts.
    pub closed spec fn spec_new(x: u8) -> Self {
        uWord { v: x }
    }
}

/// `uWord::spec_new` inverts the view.
pub broadcast proof fn lemma_uword_spec_new(x: u8)
    ensures
        #[trigger] uWord::spec_new(x)@ == x,
{
}

/// Rebuilding a uword from its own view yields the value itself.
pub broadcast proof fn lemma_uword_spec_new_id(a: uWord)
    ensures
        #[trigger] uWord::spec_new(a@) == a,
{
}

/// Two unsigned words are equal exactly when their views are.
pub broadcast proof fn lemma_uword_view_injective(a: uWord, b: uWord)
    ensures
        #![trigger a@, b@]
        (a == b) <==> (a@ == b@),
{
}

/// A signed value constrained to 6 bits: range [-32, 31], stored as the
/// two's-complement pattern.
#[allow(non_camel_case_types)]
#[derive(Debug, Clone, Copy, PartialEq, Eq, Structural)]
pub struct iWord {
    v: i8,
}

impl View for iWord {
    type V = i8;

    closed spec fn view(&self) -> i8 {
        self.v
    }
}

impl iWord {
    /// Every signed word holds a value in the 6-bit two's-complement range.
    #[verifier::type_invariant]
    pub open spec fn inv(self) -> bool {
        -32 <= self@ < 32
    }

    pub fn value(self) -> (r: i8)
        ensures
            r == self@,
            -32 <= r < 32,
    {
        proof {
            use_type_invariant(&self);
        }
        self.v
    }

    pub fn zero() -> (r: Self)
        ensures
            r@ == 0,
    {
        iWord { v: 0 }
    }

    /// Checked construction: `None` exactly when the value is out of range.
    pub fn try_new(x: i8) -> (r: Option<Self>)
        ensures
            -32 <= x < 32 ==> r == Some(iWord::spec_new(x)),
            !(-32 <= x < 32) ==> r is None,
    {
        if -32 <= x && x < 32 {
            Some(iWord { v: x })
        } else {
            None
        }
    }

    /// Reinterprets the value's 6-bit two's-complement pattern as unsigned.
    pub fn as_uword(self) -> (r: uWord)
        ensures
            r@ == as_unsigned6(self@),
    {
        proof {
            use_type_invariant(&self);
        }
        if self.v >= 0 {
            uWord { v: self.v as u8 }
        } else {
            uWord { v: (self.v + 64) as u8 }
        }
    }

    pub fn sign_bit(self) -> (r: bool)
        ensures
            r == (self@ < 0),
    {
        proof {
            use_type_invariant(&self);
        }
        self.v < 0
    }

    /// Checked increment: fails (rather than wrapping) at the maximum word.
    pub fn increment(self) -> (r: Option<Self>)
        ensures
            self@ < 31 ==> r == Some(iWord::spec_new((self@ + 1) as i8)),
            self@ == 31 ==> r is None,
    {
        proof {
            use_type_invariant(&self);
        }
        if self.v < 31 {
            Some(iWord { v: self.v + 1 })
        } else {
            None
        }
    }

    /// The word a ghost value stands for; for stating contracts.
    pub closed spec fn spec_new(x: i8) -> Self {
        iWord { v: x }
    }
}

/// `iWord::spec_new` inverts the view.
pub broadcast proof fn lemma_iword_spec_new(x: i8)
    ensures
        #[trigger] iWord::spec_new(x)@ == x,
{
}

/// Rebuilding a iword from its own view yields the value itself.
pub broadcast proof fn lemma_iword_spec_new_id(a: iWord)
    ensures
        #[trigger] iWord::spec_new(a@) == a,
{
}

/// Two signed words are equal exactly when their views are.
pub broadcast proof fn lemma_iword_view_injective(a: iWord, b: iWord)
    ensures
        #![trigger a@, b@]
        (a == b) <==> (a@ == b@),
{
}

/// Casting between signatures keeps the 6-bit pattern: reinterpreting an
/// unsigned word as signed and back is the identity, and the two casts
/// agree on the underlying bits.
pub proof fn lemma_cast_keeps_bits(v: u8)
    requires
        v < 64,
    ensures
        as_unsigned6(as_signed6(v)) == v,
{
}

/// An unsigned 12-bit value formed from two 6-bit words (high, low); the
/// machine's address type.
#[allow(non_camel_case_types)]
#[derive(Debug, Clone, Copy, PartialEq, Eq, Structural)]
pub struct uLong {
    v: u16,
}

impl View for uLong {
    type V = u16;

    closed spec fn view(&self) -> u16 {
        self.v
    }
}

impl uLong {
    /// Every address holds a 12-bit value.
    #[verifier::type_invariant]
    pub open spec fn inv(self) -> bool {
        self@ < 4096
    }

    pub fn value(self) -> (r: u16)
        ensures
            r == self@,
            r < 4096,
    {
        proof {
            use_type_invariant(&self);
        }
        self.v
    }

    pub fn zero() -> (r: Self)
        ensures
            r@ == 0,
    {
        uLong { v: 0 }
    }

    /// Combines two words as a two-digit base-64 number.
    pub fn from_hi_lo(hi: uWord, lo: uWord) -> (r: Self)
        ensures
            r@ == hi@ * 64 + lo@,
    {
        proof {
            use_type_invariant(&hi);
            use_type_invariant(&lo);
        }
        uLong { v: (hi.value() as u16) * 64 + (lo.value() as u16) }
    }

    pub fn lo(self) -> (r: uWord)
        ensures
            r@ == self@ % 64,
    {
        proof {
            use_type_invariant(&self);
        }
        uWord { v: (self.v % 64) as u8 }
    }

    pub fn hi(self) -> (r: uWord)
        ensures
            r@ == self@ / 64,
    {
        proof {
            use_type_invariant(&self);
        }
        uWord { v: (self.v / 64) as u8 }
    }

    /// Checked construction: `None` exactly when the value is out of range.
    pub fn try_new(x: u16) -> (r: Option<Self>)
        ensures
            x < 4096 ==> r == Some(uLong::spec_new(x)),
            x >= 4096 ==> r is None,
    {
        if x < 4096 {
            Some(uLong { v: x })
        } else {
            None
        }
    }

    /// Adds a displacement, wrapping modulo the 12-bit address space; carry
    /// propagates between the two 6-bit digits as in a two-digit base-64
    /// number.
    pub fn wrapping_add(self, d: i16) -> (r: Self)
        ensures
            r@ == (self@ + d) % 4096,
    {
        proof {
            use_type_invariant(&self);
        }
        let s: i32 = self.v as i32 + d as i32;
        let m: i32 = s % 4096;
        let w: i32 = if m < 0 {
            m + 4096
        } else {
            m
        };
        proof {
            assert(w == (self@ + d) % 4096) by {
                vstd::arithmetic::div_mod::lemma_mod_twice(s as int, 4096);
                if s % 4096 != (s as int) % 4096 {
                    // exec `%` truncates; spec `%` is Euclidean.
                }
            }
        }
        uLong { v: w as u16 }
    }

    /// The value a ghost address stands for; for stating contracts.
    pub closed spec fn spec_new(x: u16) -> Self {
        uLong { v: x }
    }
}

/// `uLong::spec_new` inverts the view.
pub broadcast proof fn lemma_ulong_spec_new(x: u16)
    ensures
        #[trigger] uLong::spec_new(x)@ == x,
{
}

/// Rebuilding a ulong from its own view yields the value itself.
pub broadcast proof fn lemma_ulong_spec_new_id(a: uLong)
    ensures
        #[trigger] uLong::spec_new(a@) == a,
{
}

/// Two addresses are equal exactly when their views are.
pub broadcast proof fn lemma_ulong_view_injective(a: uLong, b: uLong)
    ensures
        #![trigger a@, b@]
        (a == b) <==> (a@ == b@),
{
}

/// A signed 12-bit value formed from a signed high word and an unsigned low
/// word; the time-offset type.
#[allow(non_camel_case_types)]
#[derive(Debug, Clone, Copy, PartialEq, Eq, Structural)]
pub struct iLong {
    v: i16,
}

impl View for iLong {
    type V = i16;

    closed spec fn view(&self) -> i16 {
        self.v
    }
}

impl iLong {
    /// Every time offset holds a value in the 12-bit two's-complement range.
    #[verifier::type_invariant]
    pub open spec fn inv(self) -> bool {
        -2048 <= self@ < 2048
    }

    pub fn value(self) -> (r: i16)
        ensures
            r == self@,
            -2048 <= r < 2048,
    {
        proof {
            use_type_invariant(&self);
        }
        self.v
    }

    pub fn zero() -> (r: Self)
        ensures
            r@ == 0,
    {
        iLong { v: 0 }
    }

    /// Combines a signed high word and an unsigned low word: the value is
    /// `hi * 64 + lo`.
    pub fn from_hi_lo(hi: iWord, lo: uWord) -> (r: Self)
        ensures
            r@ == hi@ * 64 + lo@,
    {
        proof {
            use_type_invariant(&hi);
            use_type_invariant(&lo);
        }
        iLong { v: (hi.value() as i16) * 64 + (lo.value() as i16) }
    }

    /// The low 6 bits of the value's 12-bit two's-complement pattern.
    pub fn lo(self) -> (r: uWord)
        ensures
            r@ == self@ % 64,
    {
        proof {
            use_type_invariant(&self);
        }
        let bits: u16 = if self.v < 0 {
            (self.v + 4096) as u16
        } else {
            self.v as u16
        };
        let r = uWord { v: (bits % 64) as u8 };
        proof {
            if self.v < 0 {
                assert((self@ + 4096) % 64 == self@ % 64) by {
                    vstd::arithmetic::div_mod::lemma_mod_add_multiples_vanish(
                        self@ as int,
                        64,
                    );
                }
            }
        }
        r
    }

    /// The high signed digit of the value: floor division by 64.
    pub fn hi(self) -> (r: iWord)
        ensures
            r@ == self@ / 64,
    {
        proof {
            use_type_invariant(&self);
        }
        if self.v >= 0 {
            iWord { v: (self.v / 64) as i8 }
        } else {
            let q: i16 = (self.v - 63) / 64;
            proof {
                assert(q == self@ / 64) by {
                    vstd::arithmetic::div_mod::lemma_fundamental_div_mod(self@ as int, 64);
                }
            }
            iWord { v: q as i8 }
        }
    }

    /// Checked construction: `None` exactly when the value is out of range.
    pub fn try_new(x: i16) -> (r: Option<Self>)
        ensures
            -2048 <= x < 2048 ==> r == Some(iLong::spec_new(x)),
            !(-2048 <= x < 2048) ==> r is None,
    {
        if -2048 <= x && x < 2048 {
            Some(iLong { v: x })
        } else {
            None
        }
    }

    /// The value a ghost time offset stands for; for stating contracts.
    pub closed spec fn spec_new(x: i16) -> Self {
        iLong { v: x }
    }
}

/// `iLong::spec_new` inverts the view.
pub broadcast proof fn lemma_ilong_spec_new(x: i16)
    ensures
        #[trigger] iLong::spec_new(x)@ == x,
{
}

/// Rebuilding a ilong from its own view yields the value itself.
pub broadcast proof fn lemma_ilong_spec_new_id(a: iLong)
    ensures
        #[trigger] iLong::spec_new(a@) == a,
{
}

/// Two time offsets are equal exactly when their views are.
pub broadcast proof fn lemma_ilong_view_injective(a: iLong, b: iLong)
    ensures
        #![trigger a@, b@]
        (a == b) <==> (a@ == b@),
{
}

/// The view lemmas of the four scalar types, for use as a group.
pub broadcast group group_word_lemmas {
    lemma_uword_spec_new,
    lemma_uword_spec_new_id,
    lemma_uword_view_injective,
    lemma_iword_spec_new,
    lemma_iword_spec_new_id,
    lemma_iword_view_injective,
    lemma_ulong_spec_new,
    lemma_ulong_spec_new_id,
    lemma_ulong_view_injective,
    lemma_ilong_spec_new,
    lemma_ilong_spec_new_id,
    lemma_ilong_view_injective,
}

} // verus!
