//! Alignment and size values, and the layout metadata that every GPU-visible type carries.
use vstd::prelude::*;

verus! {

/// `n` is a power of two (1, 2, 4, 8, ...).
pub open spec fn is_pow2(n: int) -> bool
    decreases n,
{
    if n <= 0 {
        false
    } else if n == 1 {
        true
    } else {
        n % 2 == 0 && is_pow2(n / 2)
    }
}

/// The number of bytes that must follow offset `n` to reach the next multiple of `align`.
pub open spec fn padding_for(align: int, n: int) -> int {
    if n % align > 0 {
        align - n % align
    } else {
        0
    }
}

/// The smallest multiple of `align` that is at least `n`.
pub open spec fn round_up_to(align: int, n: int) -> int {
    n + padding_for(align, n)
}

/// `p` is the smallest power of two that is at least `n`.
pub open spec fn is_next_pow2(p: int, n: int) -> bool {
    &&& is_pow2(p)
    &&& n <= p
    &&& (p == 1 || p / 2 < n)
}

/// The larger of two integers.
pub open spec fn max_int(a: int, b: int) -> int {
    if a >= b {
        a
    } else {
        b
    }
}

/// Every power of two is positive.
pub proof fn lemma_pow2_positive(n: int)
    requires
        is_pow2(n),
    ensures
        n >= 1,
{
}

/// Doubling a power of two gives a power of two.
pub proof fn lemma_pow2_double(n: int)
    requires
        is_pow2(n),
    ensures
        is_pow2(2 * n),
{
    assert((2 * n) / 2 == n);
}

/// A power of two divides every power of two that is not smaller than it.
pub proof fn lemma_pow2_divides(a: int, b: int)
    requires
        is_pow2(a),
        is_pow2(b),
        a <= b,
    ensures
        b % a == 0,
    decreases a,
{
    if a == 1 {
    } else {
        let a2 = a / 2;
        let b2 = b / 2;
        assert(b != 1);
        assert(a == 2 * a2);
        assert(b == 2 * b2);
        lemma_pow2_divides(a2, b2);
        let k = b2 / a2;
        assert(b2 == a2 * k) by (nonlinear_arith)
            requires
                b2 % a2 == 0,
                a2 >= 1,
                k == b2 / a2,
        ;
        assert(b % a == 0) by (nonlinear_arith)
            requires
                b == 2 * b2,
                a == 2 * a2,
                b2 == a2 * k,
                a2 >= 1,
        {
            assert(b == a * k);
            vstd::arithmetic::div_mod::lemma_mod_multiples_basic(k, a);
        }
    }
}

/// Facts about `padding_for` and `round_up_to` for a positive alignment: the result is a
/// multiple of the alignment, never below `n`, and less than one alignment above it.
pub proof fn lemma_round_up(align: int, n: int)
    requires
        align > 0,
        n >= 0,
    ensures
        0 <= padding_for(align, n) < align,
        round_up_to(align, n) % align == 0,
        n <= round_up_to(align, n) < n + align,
        n % align == 0 ==> round_up_to(align, n) == n,
{
    let r = n % align;
    if r > 0 {
        assert((n + (align - r)) % align == 0) by (nonlinear_arith)
            requires
                r == n % align,
                align > 0,
                n >= 0,
        {
            vstd::arithmetic::div_mod::lemma_fundamental_div_mod(n, align);
            let q = n / align;
            assert(n + (align - r) == align * (q + 1));
            vstd::arithmetic::div_mod::lemma_mod_multiples_basic(q + 1, align);
        }
    }
}

/// Padding then rounding: `n` plus the padding needed for `n` is `n` rounded up.
pub proof fn lemma_padding_completes_round_up(align: int, n: int)
    requires
        align > 0,
        n >= 0,
    ensures
        n + padding_for(align, n) == round_up_to(align, n),
        padding_for(align, round_up_to(align, n)) == 0,
{
    lemma_round_up(align, n);
}

/// Rounding up twice gives the same as rounding up once.
pub proof fn lemma_round_up_idempotent(align: int, n: int)
    requires
        align > 0,
        n >= 0,
    ensures
        round_up_to(align, round_up_to(align, n)) == round_up_to(align, n),
{
    lemma_round_up(align, n);
    lemma_round_up(align, round_up_to(align, n));
}

/// Rounding up gives the least multiple of the alignment that is not below `n`: every multiple
/// `k` of the alignment with `n <= k` is at least the rounded value.
pub proof fn lemma_round_up_least(align: int, n: int, k: int)
    requires
        align > 0,
        n >= 0,
        k >= n,
        k % align == 0,
    ensures
        round_up_to(align, n) <= k,
{
    lemma_round_up(align, n);
    let r = round_up_to(align, n);
    if k < r {
        assert(false) by (nonlinear_arith)
            requires
                align > 0,
                k % align == 0,
                r % align == 0,
                n <= k < r,
                r < n + align,
                k >= 0,
        {
            vstd::arithmetic::div_mod::lemma_fundamental_div_mod(k, align);
            vstd::arithmetic::div_mod::lemma_fundamental_div_mod(r, align);
            let qk = k / align;
            let qr = r / align;
            assert(k == align * qk);
            assert(r == align * qr);
            assert(align * qk < align * qr);
            assert(qk < qr);
            assert(align * (qr - qk) < align);
            assert(qr - qk >= 1);
            assert(align * (qr - qk) >= align);
        }
    }
}

/// Rounding up keeps order: a larger `n` never rounds to a smaller value.
pub proof fn lemma_round_up_monotone(align: int, n: int, m: int)
    requires
        align > 0,
        0 <= n <= m,
    ensures
        round_up_to(align, n) <= round_up_to(align, m),
{
    lemma_round_up(align, m);
    lemma_round_up_least(align, n, round_up_to(align, m));
}

/// Rounding a power of two up to another power of two gives the larger of the two, which is
/// again a power of two.
pub proof fn lemma_round_up_pow2(align: int, a: int)
    requires
        is_pow2(align),
        is_pow2(a),
    ensures
        round_up_to(align, a) == max_int(align, a),
        is_pow2(round_up_to(align, a)),
{
    if align <= a {
        lemma_pow2_divides(align, a);
    } else {
        assert(a % align == a) by (nonlinear_arith)
            requires
                0 < a < align,
        ;
    }
}

/// The required alignment of a GPU-visible type: a power of two.
#[derive(Debug, Clone, Copy, PartialEq, Eq, Structural)]
pub struct AlignmentValue(u64);

impl AlignmentValue {
    #[verifier::type_invariant]
    spec fn inv(self) -> bool {
        is_pow2(self.0 as int)
    }

    /// The alignment in bytes.
    pub closed spec fn spec_get(&self) -> u64 {
        self.0
    }

    /// The alignment value holding `val`; only meaningful when `val` is a power of two.
    pub closed spec fn spec_new(val: u64) -> AlignmentValue {
        AlignmentValue(val)
    }

    /// Reading back the value of `spec_new`.
    pub broadcast proof fn lemma_spec_new(val: u64)
        ensures
            #[trigger] AlignmentValue::spec_new(val).spec_get() == val,
    {
    }

    /// An alignment is the one `spec_new` builds from its value.
    pub broadcast proof fn lemma_spec_new_of_get(a: AlignmentValue)
        ensures
            #[trigger] AlignmentValue::spec_new(a.spec_get()) == a,
    {
    }

    /// Builds an alignment from a power of two.
    pub fn new(val: u64) -> (r: Self)
        requires
            is_pow2(val as int),
        ensures
            r == AlignmentValue::spec_new(val),
            r.spec_get() == val,
    {
        AlignmentValue(val)
    }

    /// The smallest power of two that is at least `size`.
    pub fn from_next_power_of_two_size(size: SizeValue) -> (r: Self)
        requires
            size.spec_get() <= 0x8000_0000_0000_0000u64,
        ensures
            is_next_pow2(r.spec_get() as int, size.spec_get() as int),
    {
        let n = size.get();
        let mut p: u64 = 1;
        while p < n
            invariant
                is_pow2(p as int),
                p >= 1,
                n <= 0x8000_0000_0000_0000u64,
                p == 1 || p / 2 < n,
            decreases u64::MAX - p,
        {
            proof {
                lemma_pow2_double(p as int);
            }
            p = p * 2;
        }
        AlignmentValue(p)
    }

    /// The alignment in bytes.
    #[verifier::when_used_as_spec(spec_get)]
    pub fn get(&self) -> (r: u64)
        ensures
            r == self.spec_get(),
            is_pow2(r as int),
    {
        proof {
            use_type_invariant(self);
        }
        self.0
    }

    /// The number of bytes that must follow offset `n` to reach the next multiple of this
    /// alignment.
    pub fn padding_needed_for(&self, n: u64) -> (r: u64)
        ensures
            r == padding_for(self.spec_get() as int, n as int),
            r < self.spec_get(),
            ((n + r) as int) % (self.spec_get() as int) == 0,
    {
        let a = self.get();
        proof {
            lemma_pow2_positive(a as int);
            lemma_round_up(a as int, n as int);
        }
        let r = n % a;
        if r > 0 {
            a - r
        } else {
            0
        }
    }

    /// Will round up the given `n` so that the returned value will be a multiple of this
    /// alignment: the smallest such multiple that is not below `n`.
    pub fn round_up(&self, n: u64) -> (r: u64)
        requires
            round_up_to(self.spec_get() as int, n as int) <= u64::MAX,
        ensures
            r == round_up_to(self.spec_get() as int, n as int),
            (r as int) % (self.spec_get() as int) == 0,
            n <= r < n + self.spec_get(),
    {
        proof {
            use_type_invariant(self);
            lemma_pow2_positive(self.0 as int);
            lemma_round_up(self.0 as int, n as int);
        }
        n + self.padding_needed_for(n)
    }

    /// Will round up the given size so that the returned size will be a multiple of this
    /// alignment: the smallest such multiple that is not below it.
    pub fn round_up_size(&self, n: SizeValue) -> (r: SizeValue)
        requires
            round_up_to(self.spec_get() as int, n.spec_get() as int) <= u64::MAX,
        ensures
            r.spec_get() == round_up_to(self.spec_get() as int, n.spec_get() as int),
    {
        let v = n.get();
        let rounded = self.round_up(v);
        SizeValue::new(rounded)
    }

    /// The largest of a non-empty list of alignments.
    pub fn max<const N: usize>(input: [AlignmentValue; N]) -> (r: Self)
        requires
            N > 0,
        ensures
            exists|i: int| 0 <= i < N && r == input@[i],
            forall|i: int| 0 <= i < N ==> (#[trigger] input@[i]).spec_get() <= r.spec_get(),
    {
        let mut max = input[0];
        let mut i: usize = 1;
        while i < N
            invariant
                1 <= i <= N,
                exists|j: int| 0 <= j < i && max == input@[j],
                forall|j: int| 0 <= j < i ==> (#[trigger] input@[j]).spec_get() <= max.spec_get(),
            decreases N - i,
        {
            let candidate = input[i];
            if candidate.get() > max.get() {
                max = candidate;
            }
            i = i + 1;
        }
        max
    }
}

/// The size in bytes of a GPU-visible type: never zero.
#[derive(Debug, Clone, Copy, PartialEq, Eq, Structural)]
pub struct SizeValue(u64);

impl SizeValue {
    #[verifier::type_invariant]
    spec fn inv(self) -> bool {
        self.0 > 0
    }

    /// The size in bytes.
    pub closed spec fn spec_get(&self) -> u64 {
        self.0
    }

    /// The size value holding `val`; only meaningful when `val` is not zero.
    pub closed spec fn spec_new(val: u64) -> SizeValue {
        SizeValue(val)
    }

    /// Reading back the value of `spec_new`.
    pub broadcast proof fn lemma_spec_new(val: u64)
        ensures
            #[trigger] SizeValue::spec_new(val).spec_get() == val,
    {
    }

    /// A size is the one `spec_new` builds from its value.
    pub broadcast proof fn lemma_spec_new_of_get(s: SizeValue)
        ensures
            #[trigger] SizeValue::spec_new(s.spec_get()) == s,
    {
    }

    /// Builds a size from a non-zero number of bytes.
    pub fn new(val: u64) -> (r: Self)
        requires
            val != 0,
        ensures
            r == SizeValue::spec_new(val),
            r.spec_get() == val,
    {
        SizeValue(val)
    }

    /// Builds a size from a non-zero number of bytes.
    pub fn from(val: u64) -> (r: Self)
        requires
            val != 0,
        ensures
            r == SizeValue::spec_new(val),
            r.spec_get() == val,
    {
        SizeValue(val)
    }

    /// The size in bytes.
    #[verifier::when_used_as_spec(spec_get)]
    pub fn get(&self) -> (r: u64)
        ensures
            r == self.spec_get(),
            r > 0,
    {
        proof {
            use_type_invariant(self);
        }
        self.0
    }

    /// This size taken `rhs` times.
    pub fn mul(self, rhs: u64) -> (r: Self)
        requires
            rhs != 0,
            self.spec_get() * rhs <= u64::MAX,
        ensures
            r.spec_get() == self.spec_get() * rhs,
    {
        let v = self.get();
        proof {
            assert(v * rhs > 0) by (nonlinear_arith)
                requires
                    v > 0,
                    rhs > 0,
            ;
        }
        SizeValue(v * rhs)
    }
}

/// The layout of a type: its alignment, its minimum size, whether its bytes can be copied
/// as they lie in memory, and what the kind of type adds (array stride, field offsets).
#[derive(Debug)]
pub struct Metadata<E> {
    pub alignment: AlignmentValue,
    pub min_size: SizeValue,
    pub is_pod: bool,
    pub extra: E,
}

impl Metadata<()> {
    /// Metadata of a plain type with the given alignment and size.
    pub fn from_alignment_and_size(alignment: u64, size: u64) -> (r: Self)
        requires
            is_pow2(alignment as int),
            size != 0,
        ensures
            r == (Metadata {
                alignment: AlignmentValue::spec_new(alignment),
                min_size: SizeValue::spec_new(size),
                is_pod: false,
                extra: (),
            }),
            r.alignment.spec_get() == alignment,
            r.min_size.spec_get() == size,
    {
        Metadata {
            alignment: AlignmentValue::new(alignment),
            min_size: SizeValue::new(size),
            is_pod: false,
            extra: (),
        }
    }
}

impl<E> Metadata<E> {
    /// The alignment.
    pub fn alignment(self) -> (r: AlignmentValue)
        ensures
            r == self.alignment,
    {
        self.alignment
    }

    /// The minimum size.
    pub fn min_size(self) -> (r: SizeValue)
        ensures
            r == self.min_size,
    {
        self.min_size
    }

    /// Whether the bytes of the type can be copied as they lie in memory.
    pub fn is_pod(self) -> (r: bool)
        ensures
            r == self.is_pod,
    {
        self.is_pod
    }

    /// The same metadata, marked as plain old data.
    pub fn pod(self) -> (r: Self)
        ensures
            r.alignment == self.alignment,
            r.min_size == self.min_size,
            r.extra == self.extra,
            r.is_pod,
    {
        let mut m = self;
        m.is_pod = true;
        m
    }

    /// The same metadata with the plain-old-data flag set (it sets the flag, as `pod` does).
    pub fn no_pod(self) -> (r: Self)
        ensures
            r.alignment == self.alignment,
            r.min_size == self.min_size,
            r.extra == self.extra,
            r.is_pod,
    {
        let mut m = self;
        m.is_pod = true;
        m
    }
}

/// What the layout of an array adds: the distance between elements, and the padding that
/// follows each element.
#[derive(Debug)]
pub struct ArrayMetadata {
    pub stride: SizeValue,
    pub el_padding: u64,
}

impl Metadata<ArrayMetadata> {
    /// The distance between the starts of two consecutive elements.
    pub fn stride(self) -> (r: SizeValue)
        ensures
            r == self.extra.stride,
    {
        self.extra.stride
    }

    /// The padding that follows each element.
    pub fn el_padding(self) -> (r: u64)
        ensures
            r == self.extra.el_padding,
    {
        self.extra.el_padding
    }
}

/// What the layout of a struct with `N` fields adds: the offset of each field, and the
/// padding that follows it.
#[derive(Debug)]
pub struct StructMetadata<const N: usize> {
    pub offsets: [u64; N],
    pub paddings: [u64; N],
}

impl<const N: usize> Metadata<StructMetadata<N>> {
    /// The offset of field `i`.
    pub fn offset(self, i: usize) -> (r: u64)
        requires
            i < N,
        ensures
            r == self.extra.offsets@[i as int],
    {
        self.extra.offsets[i]
    }

    /// The offset of the last field.
    pub fn last_offset(self) -> (r: u64)
        requires
            N > 0,
        ensures
            r == self.extra.offsets@[N - 1],
    {
        self.extra.offsets[N - 1]
    }

    /// The padding that follows field `i`.
    pub fn padding(self, i: usize) -> (r: u64)
        requires
            i < N,
        ensures
            r == self.extra.paddings@[i as int],
    {
        self.extra.paddings[i]
    }
}

/// A type that can be laid out in GPU memory under the rules of `Layout`.
pub trait GpuLayout<Layout> {
    /// What the layout adds for this kind of type.
    type ExtraMetadata;

    /// Whether the type has a layout at all (an empty array, or one whose size overflows,
    /// has none).
    spec fn has_layout() -> bool;

    /// The layout of the type.
    spec fn layout() -> Metadata<Self::ExtraMetadata>;

    /// `bytes` hold this value as the layout places it (padding bytes may hold anything).
    spec fn encodes(&self, bytes: Seq<u8>) -> bool;

    /// Two values held by the same bytes are equal.
    proof fn lemma_encoding_unique(a: &Self, b: &Self, bytes: Seq<u8>)
        requires
            a.encodes(bytes),
            b.encodes(bytes),
        ensures
            a == b,
    ;

    /// The layout of the type.
    fn metadata() -> (m: Metadata<Self::ExtraMetadata>)
        requires
            Self::has_layout(),
        ensures
            m == Self::layout(),
    ;

    /// The number of bytes a value of this type occupies.
    fn size(&self) -> (r: u64)
        requires
            Self::has_layout(),
        ensures
            r == Self::layout().min_size.spec_get(),
    {
        let m = Self::metadata();
        m.min_size().get()
    }
}

/// A type whose size under `Layout` is known from the type alone.
pub trait GpuLayoutSize<Layout>: GpuLayout<Layout> {
    /// The number of bytes a value of this type occupies.
    fn layout_size() -> (r: u64)
        requires
            Self::has_layout(),
        ensures
            r == Self::layout().min_size.spec_get(),
    {
        let m = Self::metadata();
        m.min_size().get()
    }
}

/// The std140 layout rules of GLSL uniform buffers.
#[derive(Debug, Clone, Copy)]
pub struct Std140;

/// The size of `T` under std140.
pub fn std140_size_of<T: GpuLayoutSize<Std140>>() -> (r: u64)
    requires
        T::has_layout(),
    ensures
        r == T::layout().min_size.spec_get(),
{
    T::layout_size()
}

/// The alignment of `T` under std140.
pub fn std140_align_of<T: GpuLayout<Std140>>() -> (r: u64)
    requires
        T::has_layout(),
    ensures
        r == T::layout().alignment.spec_get(),
{
    let m = T::metadata();
    m.alignment().get()
}

} // verus!
