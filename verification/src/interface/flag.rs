use vstd::prelude::*;
use vstd::string::StringExecFns;

verus! {

/// Integer type in which flag sets are exchanged with callers.
pub type Index = usize;

/// No flag set.
pub const NONE: Index = 0;
/// Read access.
pub const READ: Index = 1;
/// Write access.
pub const WRITE: Index = 2;
/// Execute access.
pub const EXECUTE: Index = 4;
/// Delete access.
pub const DELETE: Index = 8;
/// Every known flag: the union of `READ`, `WRITE`, `EXECUTE` and `DELETE`.
pub const ALL: Index = 15;

/// A raw value names a set of known flags exactly when it has no bit outside `ALL`.
pub open spec fn known_bits(value: Index) -> bool {
    value <= ALL
}

/// Whether the flag set `bits` holds every flag of the (known) value `value`.
pub open spec fn holds(bits: Index, value: Index) -> bool {
    known_bits(value) && (bits & value) == value
}

/// The flag set `bits` after adding `value`; unknown values leave it unchanged.
pub open spec fn added(bits: Index, value: Index) -> Index {
    if known_bits(value) {
        bits | value
    } else {
        bits
    }
}

/// The character `'1'` or `'0'` for bit `k` of `bits`.
pub open spec fn bit_char(bits: Index, k: nat) -> char {
    if (bits as nat / vstd::arithmetic::power2::pow2(k)) % 2 == 1 {
        '1'
    } else {
        '0'
    }
}

/// The debug text of a flag set: its four flag bits in binary, most significant first.
pub open spec fn repr_text(bits: Index) -> Seq<char> {
    "Modern(bits=0b"@ + seq![bit_char(bits, 3), bit_char(bits, 2), bit_char(bits, 1), bit_char(bits, 0)]
        + ")"@
}

/// A set of access flags; only the bits of `ALL` can ever be set.
#[derive(Clone, Copy, Debug)]
pub struct ModernFlags {
    bits: Index,
}

impl ModernFlags {
    #[verifier::type_invariant]
    spec fn only_known_bits(self) -> bool {
        known_bits(self.bits)
    }

    /// The raw bits of the set.
    pub closed spec fn view(self) -> Index {
        self.bits
    }

    /// The empty set.
    pub fn none() -> (f: ModernFlags)
        ensures
            f@ == NONE,
    {
        ModernFlags { bits: NONE }
    }

    /// The set with exactly the bits of `value`, when they are all known flags.
    pub fn from_bits(value: Index) -> (r: Option<ModernFlags>)
        ensures
            r is Some <==> known_bits(value),
            r is Some <==> (value & !ALL) == 0,
            r matches Some(f) ==> f@ == value,
    {
        assert(known_bits(value) <==> (value & !15usize) == 0) by (bit_vector);
        if value <= ALL {
            Some(ModernFlags { bits: value })
        } else {
            None
        }
    }

    /// Adds every flag of `flag` to the set.
    pub fn set(&mut self, flag: ModernFlags)
        ensures
            final(self)@ == old(self)@ | flag@,
            known_bits(final(self)@),
    {
        proof {
            use_type_invariant(&*self);
            use_type_invariant(&flag);
        }
        let a = self.bits;
        let b = flag.bits;
        assert(a <= 15usize && b <= 15usize ==> (a | b) <= 15usize) by (bit_vector);
        self.bits = a | b;
    }

    /// Whether every flag of `flag` is in the set.
    pub fn contains(&self, flag: ModernFlags) -> (r: bool)
        ensures
            r == ((self@ & flag@) == flag@),
    {
        (self.bits & flag.bits) == flag.bits
    }

    /// The raw bits of the set.
    pub fn bits(&self) -> (r: Index)
        ensures
            r == self@,
            known_bits(r),
    {
        proof {
            use_type_invariant(self);
        }
        self.bits
    }
}

impl Default for ModernFlags {
    fn default() -> (f: ModernFlags)
        ensures
            f@ == NONE,
    {
        ModernFlags::none()
    }
}

/// The access-flag selector handed to a simulation configuration.
#[derive(Clone, Debug)]
pub struct Modern {
    pub inner: ModernFlags,
}

impl Default for Modern {
    fn default() -> (m: Modern)
        ensures
            m.inner@ == NONE,
    {
        Modern::new()
    }
}

impl Modern {
    /// A selector with no flag set.
    pub fn new() -> (m: Modern)
        ensures
            m.inner@ == NONE,
    {
        Modern { inner: ModernFlags::none() }
    }

    /// Adds the flags of `value`; a value with an unknown bit is ignored.
    pub fn add(&mut self, value: Index)
        ensures
            final(self).inner@ == added(old(self).inner@, value),
    {
        match ModernFlags::from_bits(value) {
            Some(flag) => self.inner.set(flag),
            None => {},
        }
    }

    /// Whether the selector holds every flag of `value`; `false` for a value
    /// with an unknown bit.
    pub fn has(&self, value: Index) -> (r: bool)
        ensures
            r == holds(self.inner@, value),
    {
        match ModernFlags::from_bits(value) {
            Some(flag) => self.inner.contains(flag),
            None => false,
        }
    }

    /// The raw bits of the selected flags.
    pub fn bits(&self) -> (r: Index)
        ensures
            r == self.inner@,
            known_bits(r),
    {
        self.inner.bits()
    }

    /// Debug text naming the selected flags in binary, as in `Modern(bits=0b0101)`.
    #[allow(non_snake_case)]
    pub fn __repr__(&self) -> (r: String)
        ensures
            r@ == repr_text(self.inner@),
    {
        let bits = self.inner.bits();
        let mut text = String::from_str("Modern(bits=0b");
        let mut k: usize = 4;
        while k > 0
            invariant
                k <= 4,
                bits <= ALL,
                text@ == "Modern(bits=0b"@ + Seq::new((4 - k) as nat, |i: int| bit_char(bits, (3 - i) as nat)),
            decreases k,
        {
            k = k - 1;
            let digit = (bits >> k) & 1;
            proof {
                lemma_shift_digit(bits, k);
            }
            let ghost before = text@;
            if digit == 1 {
                text.append("1");
            } else {
                text.append("0");
            }
            proof {
                reveal_strlit("1");
                reveal_strlit("0");
                assert(text@ =~= "Modern(bits=0b"@ + Seq::new((4 - k) as nat, |i: int| bit_char(bits, (3 - i) as nat)));
            }
        }
        text.append(")");
        proof {
            reveal_strlit(")");
            reveal_strlit("Modern(bits=0b");
            assert(text@ =~= repr_text(bits));
        }
        text
    }
}

/// Bit `k` of `bits`, read with a shift and a mask, is the digit that `bit_char` names.
proof fn lemma_shift_digit(bits: Index, k: usize)
    requires
        k < 4,
        bits <= ALL,
    ensures
        ((bits >> k) & 1) == 1 <==> bit_char(bits, k as nat) == '1',
        ((bits >> k) & 1) <= 1,
{
    vstd::arithmetic::power2::lemma2_to64();
    assert(((bits >> k) & 1) <= 1) by (bit_vector);
    if k == 0 {
        assert(((bits >> 0usize) & 1) == bits % 2) by (bit_vector);
    } else if k == 1 {
        assert(((bits >> 1usize) & 1) == (bits / 2) % 2) by (bit_vector);
    } else if k == 2 {
        assert(((bits >> 2usize) & 1) == (bits / 4) % 2) by (bit_vector);
    } else {
        assert(((bits >> 3usize) & 1) == (bits / 8) % 2) by (bit_vector);
    }
}

/// Adding a known value makes every one of its flags present.
pub proof fn lemma_added_value_is_held(bits: Index, value: Index)
    requires
        known_bits(bits),
        known_bits(value),
    ensures
        holds(added(bits, value), value),
        known_bits(added(bits, value)),
{
    assert(bits <= 15usize && value <= 15usize ==> ((bits | value) & value) == value && (bits | value) <= 15usize) by (bit_vector);
}

/// Adding a value never removes a flag that was already present.
pub proof fn lemma_add_keeps_held(bits: Index, value: Index, other: Index)
    requires
        known_bits(bits),
        holds(bits, other),
    ensures
        holds(added(bits, value), other),
{
    assert((bits & other) == other ==> ((bits | value) & other) == other) by (bit_vector);
}

/// Adding the same value twice is the same as adding it once.
pub proof fn lemma_add_idempotent(bits: Index, value: Index)
    ensures
        added(added(bits, value), value) == added(bits, value),
{
    assert(((bits | value) | value) == (bits | value)) by (bit_vector);
}

/// The order in which two values are added does not matter.
pub proof fn lemma_add_commutes(bits: Index, first: Index, second: Index)
    ensures
        added(added(bits, first), second) == added(added(bits, second), first),
{
    assert(((bits | first) | second) == ((bits | second) | first)) by (bit_vector);
}

/// The empty value is held by every flag set.
pub proof fn lemma_none_always_held(bits: Index)
    ensures
        holds(bits, NONE),
{
    assert((bits & 0usize) == 0usize) by (bit_vector);
}

/// The empty set holds nothing but the empty value.
pub proof fn lemma_empty_holds_only_none(value: Index)
    ensures
        holds(NONE, value) <==> value == NONE,
{
    assert((0usize & value) == value <==> value == 0usize) by (bit_vector);
}

/// A value with a bit outside `ALL` is never held and adding it changes nothing.
pub proof fn lemma_unknown_value_ignored(bits: Index, value: Index)
    requires
        !known_bits(value),
    ensures
        !holds(bits, value),
        added(bits, value) == bits,
{
}

} // verus!
