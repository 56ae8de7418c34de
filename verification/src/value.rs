//! The comparable-value abstraction: a 64-bit floating-point value carried
//! as its raw IEEE-754 bit pattern. The pattern is kept untouched — reading
//! the value back returns exactly the bits it was created from — while
//! equality and ordering go through a canonicalized key, so that -0.0 equals
//! +0.0 and every NaN equals every other NaN and orders above all the rest.

use vstd::prelude::*;

verus! {

/// Sign bit of a 64-bit IEEE-754 pattern; also the bit pattern of -0.0.
pub const SIGN_BIT: u64 = 0x8000_0000_0000_0000;

/// Exponent mask of a 64-bit IEEE-754 pattern.
pub const EXP_MASK: u64 = 0x7ff0_0000_0000_0000;

/// Fraction (mantissa) mask of a 64-bit IEEE-754 pattern.
pub const FRAC_MASK: u64 = 0x000f_ffff_ffff_ffff;

/// The quiet-NaN pattern every NaN compares as.
pub const CANONICAL_NAN: u64 = 0x7ff8_0000_0000_0000;

/// True when the pattern encodes a NaN: exponent all ones, fraction nonzero.
pub open spec fn is_nan_bits(b: u64) -> bool {
    b & EXP_MASK == EXP_MASK && b & FRAC_MASK != 0
}

/// Collapses every NaN to one pattern and -0.0 to +0.0, so that numerically
/// equal values share one comparison representation. This shapes comparison
/// only; the stored value keeps its raw pattern.
pub open spec fn canonical_bits(b: u64) -> u64 {
    if is_nan_bits(b) {
        CANONICAL_NAN
    } else if b == SIGN_BIT {
        0u64
    } else {
        b
    }
}

/// Monotone re-encoding of a pattern so that unsigned integer order on keys
/// is the numeric order: negative values (sign bit set) are complemented,
/// non-negative values get the sign bit set.
pub open spec fn order_key(b: u64) -> u64 {
    if b & SIGN_BIT == 0 {
        b | SIGN_BIT
    } else {
        !b
    }
}

/// The key a raw pattern is compared by: canonicalize, then re-encode.
pub open spec fn value_key(raw: u64) -> u64 {
    order_key(canonical_bits(raw))
}

/// +0.0 and -0.0 share one key: the order treats them as equal.
pub proof fn lemma_signed_zeros_equal()
    by (bit_vector)
    ensures
        value_key(0u64) == value_key(SIGN_BIT),
{
}

/// Any two NaN patterns share one key: all NaNs compare equal.
pub proof fn lemma_nans_equal(a: u64, b: u64)
    by (bit_vector)
    requires
        is_nan_bits(a),
        is_nan_bits(b),
    ensures
        value_key(a) == value_key(b),
{
}

/// A NaN orders strictly above every non-NaN value, +infinity included.
pub proof fn lemma_nan_greatest(n: u64, b: u64)
    by (bit_vector)
    requires
        is_nan_bits(n),
        !is_nan_bits(b),
    ensures
        value_key(b) < value_key(n),
{
}

/// Keys separate values exactly: two raw patterns share a key precisely when
/// they canonicalize to the same pattern.
pub proof fn lemma_key_injective(a: u64, b: u64)
    by (bit_vector)
    ensures
        value_key(a) == value_key(b) <==> canonical_bits(a) == canonical_bits(b),
{
}

/// One 64-bit floating-point value under the canonical total order.
/// The raw pattern is stored as given and read back unchanged; the
/// hand-written comparisons below go through `value_key`, so -0.0 equals
/// +0.0 and every NaN equals every other NaN and orders above all the rest.
#[derive(Clone, Copy, Debug)]
pub struct CmpValue {
    raw: u64,
}

impl View for CmpValue {
    type V = u64;

    closed spec fn view(&self) -> u64 {
        self.raw
    }
}

impl CmpValue {
    /// The canonical key this value is compared by.
    pub open spec fn key(self) -> u64 {
        value_key(self@)
    }

    /// Wraps a raw 64-bit floating-point pattern, unchanged.
    pub fn new(raw: u64) -> (v: CmpValue)
        ensures
            v@ == raw,
    {
        CmpValue { raw }
    }

    /// Computes the canonical key this value is compared by.
    pub fn sort_key(&self) -> (k: u64)
        ensures
            k == self.key(),
    {
        let canon: u64 = if (self.raw & EXP_MASK) == EXP_MASK && (self.raw & FRAC_MASK) != 0 {
            CANONICAL_NAN
        } else if self.raw == SIGN_BIT {
            0u64
        } else {
            self.raw
        };
        if (canon & SIGN_BIT) == 0 {
            canon | SIGN_BIT
        } else {
            !canon
        }
    }

    /// The raw pattern this value wraps, exactly as it was created.
    pub fn bits(self) -> (r: u64)
        ensures
            r == self@,
    {
        self.raw
    }
}

impl PartialEq for CmpValue {
    /// Equality by canonical key: -0.0 equals +0.0, NaNs equal each other.
    fn eq(&self, other: &CmpValue) -> (r: bool) {
        self.sort_key() == other.sort_key()
    }
}

impl vstd::std_specs::cmp::PartialEqSpecImpl for CmpValue {
    open spec fn obeys_eq_spec() -> bool {
        true
    }

    open spec fn eq_spec(&self, other: &CmpValue) -> bool {
        self.key() == other.key()
    }
}

impl Eq for CmpValue {

}

impl PartialOrd for CmpValue {
    /// The canonical total order: every two values are comparable.
    fn partial_cmp(&self, other: &CmpValue) -> (r: Option<core::cmp::Ordering>) {
        let a = self.sort_key();
        let b = other.sort_key();
        if a < b {
            Some(core::cmp::Ordering::Less)
        } else if a == b {
            Some(core::cmp::Ordering::Equal)
        } else {
            Some(core::cmp::Ordering::Greater)
        }
    }
}

impl vstd::std_specs::cmp::PartialOrdSpecImpl for CmpValue {
    open spec fn obeys_partial_cmp_spec() -> bool {
        true
    }

    open spec fn partial_cmp_spec(&self, other: &CmpValue) -> Option<core::cmp::Ordering> {
        if self.key() < other.key() {
            Some(core::cmp::Ordering::Less)
        } else if self.key() == other.key() {
            Some(core::cmp::Ordering::Equal)
        } else {
            Some(core::cmp::Ordering::Greater)
        }
    }
}

/// Access to the primitive a comparable value wraps: the raw 64-bit pattern,
/// in and out unchanged.
pub trait Inner: Sized {
    type InnerType;

    fn inner(self) -> Self::InnerType;

    fn create(inner: Self::InnerType) -> Self;
}

impl Inner for CmpValue {
    type InnerType = u64;

    /// Returns exactly the pattern the value was created from.
    fn inner(self) -> (r: u64)
        ensures
            r == self@,
    {
        self.bits()
    }

    /// Wraps a raw pattern, unchanged.
    fn create(inner: u64) -> (v: CmpValue)
        ensures
            v@ == inner,
    {
        CmpValue::new(inner)
    }
}

/// Something float-like, but orderable. P is the backing primitive
/// representation.
pub trait Float<P>: Copy + PartialEq + Eq + PartialOrd + Inner<InnerType = P> {

}

impl Float<u64> for CmpValue {

}

} // verus!
