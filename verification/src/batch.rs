use vstd::prelude::*;

verus! {

/// Whether bit `i` of `bits` is set.
pub open spec fn bit_set(bits: u8, i: u8) -> bool {
    (bits >> i) & 1u8 == 1u8
}

/// 1 when bit `i` of `bits` is set, 0 otherwise.
pub open spec fn bit_count(bits: u8, i: u8) -> nat {
    if bit_set(bits, i) {
        1
    } else {
        0
    }
}

/// A set of strains to solve for, one bit per strain: clubs (bit 0),
/// diamonds (bit 1), hearts (bit 2), spades (bit 3) and notrump (bit 4).
#[derive(Debug, Clone, Copy, PartialEq, Eq)]
pub struct StrainFlags {
    bits: u8,
}

impl StrainFlags {
    /// The raw bits.
    pub closed spec fn spec_bits(self) -> u8 {
        self.bits
    }

    /// Only the five strain bits can be set.
    #[verifier::type_invariant]
    pub closed spec fn wf(self) -> bool {
        self.bits < 32
    }

    /// Whether every strain of `other` is in the set.
    pub open spec fn spec_contains(self, other: StrainFlags) -> bool {
        self.spec_bits() & other.spec_bits() == other.spec_bits()
    }

    /// The number of strains in the set.
    pub open spec fn spec_count(self) -> nat {
        let b = self.spec_bits();
        bit_count(b, 0) + bit_count(b, 1) + bit_count(b, 2) + bit_count(b, 3) + bit_count(b, 4)
    }

    /// The set of the strains whose bits are set in `bits`; other bits are
    /// dropped.
    pub fn from_bits_truncate(bits: u8) -> (flags: StrainFlags)
        ensures
            flags.spec_bits() == bits & 0x1f,
    {
        let b = bits & 0x1f;
        assert(b < 32) by (bit_vector)
            requires
                b == bits & 0x1f,
        ;
        StrainFlags { bits: b }
    }

    /// The raw bits.
    pub fn bits(&self) -> (bits: u8)
        ensures
            bits == self.spec_bits(),
            bits < 32,
    {
        proof {
            use_type_invariant(self);
        }
        self.bits
    }

    /// The empty set.
    pub fn empty() -> (flags: StrainFlags)
        ensures
            flags.spec_bits() == 0,
    {
        StrainFlags { bits: 0 }
    }

    /// All five strains.
    pub fn all() -> (flags: StrainFlags)
        ensures
            flags.spec_bits() == 0x1f,
    {
        StrainFlags { bits: 0x1f }
    }

    /// Clubs alone.
    pub fn clubs() -> (flags: StrainFlags)
        ensures
            flags.spec_bits() == 0x01,
    {
        StrainFlags { bits: 0x01 }
    }

    /// Diamonds alone.
    pub fn diamonds() -> (flags: StrainFlags)
        ensures
            flags.spec_bits() == 0x02,
    {
        StrainFlags { bits: 0x02 }
    }

    /// Hearts alone.
    pub fn hearts() -> (flags: StrainFlags)
        ensures
            flags.spec_bits() == 0x04,
    {
        StrainFlags { bits: 0x04 }
    }

    /// Spades alone.
    pub fn spades() -> (flags: StrainFlags)
        ensures
            flags.spec_bits() == 0x08,
    {
        StrainFlags { bits: 0x08 }
    }

    /// Notrump alone.
    pub fn notrump() -> (flags: StrainFlags)
        ensures
            flags.spec_bits() == 0x10,
    {
        StrainFlags { bits: 0x10 }
    }

    /// Whether every strain of `other` is in the set.
    pub fn contains(&self, other: StrainFlags) -> (res: bool)
        ensures
            res == self.spec_contains(other),
    {
        self.bits & other.bits == other.bits
    }

    /// The number of strains in the set.
    pub fn count(&self) -> (n: u32)
        ensures
            n == self.spec_count(),
            n <= 5,
    {
        let b = self.bits;
        let mut n: u32 = 0;
        if b & 0x01 != 0 {
            n = n + 1;
        }
        if b & 0x02 != 0 {
            n = n + 1;
        }
        if b & 0x04 != 0 {
            n = n + 1;
        }
        if b & 0x08 != 0 {
            n = n + 1;
        }
        if b & 0x10 != 0 {
            n = n + 1;
        }
        assert(bit_set(b, 0) <==> b & 0x01 != 0) by (bit_vector);
        assert(bit_set(b, 1) <==> b & 0x02 != 0) by (bit_vector);
        assert(bit_set(b, 2) <==> b & 0x04 != 0) by (bit_vector);
        assert(bit_set(b, 3) <==> b & 0x08 != 0) by (bit_vector);
        assert(bit_set(b, 4) <==> b & 0x10 != 0) by (bit_vector);
        n
    }
}

/// A set of strains that holds at least one strain.
#[derive(Debug, Clone, Copy, PartialEq, Eq)]
pub struct NonEmptyStrainFlags {
    flags: StrainFlags,
}

impl NonEmptyStrainFlags {
    /// The set of strains.
    pub closed spec fn spec_get(self) -> StrainFlags {
        self.flags
    }

    /// The set is not empty.
    #[verifier::type_invariant]
    pub closed spec fn wf(self) -> bool {
        self.flags.spec_bits() != 0
    }

    /// `flags` when it holds a strain, `None` for the empty set.
    pub fn new(flags: StrainFlags) -> (res: Option<NonEmptyStrainFlags>)
        ensures
            res is None <==> flags.spec_bits() == 0,
            res matches Some(f) ==> f.spec_get() == flags,
    {
        if flags.bits() == 0 {
            None
        } else {
            Some(NonEmptyStrainFlags { flags })
        }
    }

    /// All five strains.
    pub fn all() -> (flags: NonEmptyStrainFlags)
        ensures
            flags.spec_get().spec_bits() == 0x1f,
    {
        NonEmptyStrainFlags { flags: StrainFlags::all() }
    }

    /// The set of strains.
    pub fn get(&self) -> (flags: StrainFlags)
        ensures
            flags == self.spec_get(),
            flags.spec_bits() != 0,
            1 <= flags.spec_count() <= 5,
    {
        proof {
            use_type_invariant(self);
        }
        let f = self.flags;
        let b = f.bits();
        proof {
            lemma_nonzero_has_bit(b);
        }
        f
    }
}

/// A nonzero value below 32 sets one of its five low bits.
proof fn lemma_nonzero_has_bit(b: u8)
    requires
        0 < b < 32,
    ensures
        bit_set(b, 0) || bit_set(b, 1) || bit_set(b, 2) || bit_set(b, 3) || bit_set(b, 4),
{
    assert(0 < b < 32 ==> (bit_set(b, 0) || bit_set(b, 1) || bit_set(b, 2) || bit_set(b, 3)
        || bit_set(b, 4))) by (bit_vector);
}

/// The `CalcAllTables` strain filter for `flags`, in ddss's strain order
/// (spades, hearts, diamonds, clubs, notrump): 0 solves the strain, 1 skips
/// it.
pub open spec fn spec_strain_filter(flags: StrainFlags) -> Seq<i32> {
    seq![
        if flags.spec_bits() & 0x08 == 0x08 { 0i32 } else { 1i32 },
        if flags.spec_bits() & 0x04 == 0x04 { 0i32 } else { 1i32 },
        if flags.spec_bits() & 0x02 == 0x02 { 0i32 } else { 1i32 },
        if flags.spec_bits() & 0x01 == 0x01 { 0i32 } else { 1i32 },
        if flags.spec_bits() & 0x10 == 0x10 { 0i32 } else { 1i32 },
    ]
}

/// Entry `k` of the strain filter solves (0) or skips (1) the `k`-th strain
/// of ddss's order: spades (bit 3), hearts (bit 2), diamonds (bit 1), clubs
/// (bit 0) and notrump (bit 4).  Every entry is 0 or 1, and it is 0 exactly
/// when the set holds that strain.
pub proof fn lemma_strain_filter_follows_ddss_order(flags: StrainFlags)
    ensures
        spec_strain_filter(flags).len() == 5,
        spec_strain_filter(flags)[0] == 0 <==> bit_set(flags.spec_bits(), 3),
        spec_strain_filter(flags)[1] == 0 <==> bit_set(flags.spec_bits(), 2),
        spec_strain_filter(flags)[2] == 0 <==> bit_set(flags.spec_bits(), 1),
        spec_strain_filter(flags)[3] == 0 <==> bit_set(flags.spec_bits(), 0),
        spec_strain_filter(flags)[4] == 0 <==> bit_set(flags.spec_bits(), 4),
        forall|k: int|
            0 <= k < 5 ==> (spec_strain_filter(flags)[k] == 0 || spec_strain_filter(flags)[k]
                == 1),
{
    let b = flags.spec_bits();
    assert(bit_set(b, 0) <==> b & 0x01 == 0x01) by (bit_vector);
    assert(bit_set(b, 1) <==> b & 0x02 == 0x02) by (bit_vector);
    assert(bit_set(b, 2) <==> b & 0x04 == 0x04) by (bit_vector);
    assert(bit_set(b, 3) <==> b & 0x08 == 0x08) by (bit_vector);
    assert(bit_set(b, 4) <==> b & 0x10 == 0x10) by (bit_vector);
}

/// Counting strains: a set whose bits are a single strain bit counts 1, a
/// set with no strain bit counts 0, and the count of the union of two sets
/// without a common strain is the sum of their counts.
pub proof fn lemma_count_is_number_of_strains(a: StrainFlags, b: StrainFlags, c: StrainFlags)
    ensures
        a.spec_bits() & 0x1f == 0 ==> a.spec_count() == 0,
        (a.spec_bits() == 0x01 || a.spec_bits() == 0x02 || a.spec_bits() == 0x04
            || a.spec_bits() == 0x08 || a.spec_bits() == 0x10) ==> a.spec_count() == 1,
        a.spec_bits() & 0x1f == 0x1f ==> a.spec_count() == 5,
        a.spec_bits() & b.spec_bits() == 0 && c.spec_bits() == a.spec_bits() | b.spec_bits()
            ==> c.spec_count() == a.spec_count() + b.spec_count(),
{
    let x = a.spec_bits();
    let y = b.spec_bits();
    let z = c.spec_bits();
    assert(x & 0x1f == 0 ==> !bit_set(x, 0) && !bit_set(x, 1) && !bit_set(x, 2) && !bit_set(x, 3)
        && !bit_set(x, 4)) by (bit_vector);
    assert(x & 0x1f == 0x1f ==> bit_set(x, 0) && bit_set(x, 1) && bit_set(x, 2) && bit_set(x, 3)
        && bit_set(x, 4)) by (bit_vector);
    assert(x == 0x01 ==> bit_set(x, 0) && !bit_set(x, 1) && !bit_set(x, 2) && !bit_set(x, 3)
        && !bit_set(x, 4)) by (bit_vector);
    assert(x == 0x02 ==> !bit_set(x, 0) && bit_set(x, 1) && !bit_set(x, 2) && !bit_set(x, 3)
        && !bit_set(x, 4)) by (bit_vector);
    assert(x == 0x04 ==> !bit_set(x, 0) && !bit_set(x, 1) && bit_set(x, 2) && !bit_set(x, 3)
        && !bit_set(x, 4)) by (bit_vector);
    assert(x == 0x08 ==> !bit_set(x, 0) && !bit_set(x, 1) && !bit_set(x, 2) && bit_set(x, 3)
        && !bit_set(x, 4)) by (bit_vector);
    assert(x == 0x10 ==> !bit_set(x, 0) && !bit_set(x, 1) && !bit_set(x, 2) && !bit_set(x, 3)
        && bit_set(x, 4)) by (bit_vector);
    if x & y == 0 && z == x | y {
        assert(forall|i: u8|
            #![trigger bit_set(z, i)]
            i < 5 && x & y == 0 && z == x | y ==> (bit_set(z, i) <==> (bit_set(x, i) || bit_set(y, i)))
                && !(bit_set(x, i) && bit_set(y, i))) by (bit_vector);
        assert(bit_count(z, 0) == bit_count(x, 0) + bit_count(y, 0));
        assert(bit_count(z, 1) == bit_count(x, 1) + bit_count(y, 1));
        assert(bit_count(z, 2) == bit_count(x, 2) + bit_count(y, 2));
        assert(bit_count(z, 3) == bit_count(x, 3) + bit_count(y, 3));
        assert(bit_count(z, 4) == bit_count(x, 4) + bit_count(y, 4));
    }
}

/// Builds the strain filter that `CalcAllTables` takes for `flags`.
pub fn strain_filter(flags: StrainFlags) -> (filter: [i32; 5])
    ensures
        filter@ == spec_strain_filter(flags),
        filter@.len() == 5,
        filter@[0] == 0 <==> bit_set(flags.spec_bits(), 3),
        filter@[1] == 0 <==> bit_set(flags.spec_bits(), 2),
        filter@[2] == 0 <==> bit_set(flags.spec_bits(), 1),
        filter@[3] == 0 <==> bit_set(flags.spec_bits(), 0),
        filter@[4] == 0 <==> bit_set(flags.spec_bits(), 4),
        forall|k: int| 0 <= k < 5 ==> (filter@[k] == 0 || filter@[k] == 1),
{
    proof {
        lemma_strain_filter_follows_ddss_order(flags);
    }
    let filter = [
        if flags.contains(StrainFlags::spades()) { 0i32 } else { 1i32 },
        if flags.contains(StrainFlags::hearts()) { 0i32 } else { 1i32 },
        if flags.contains(StrainFlags::diamonds()) { 0i32 } else { 1i32 },
        if flags.contains(StrainFlags::clubs()) { 0i32 } else { 1i32 },
        if flags.contains(StrainFlags::notrump()) { 0i32 } else { 1i32 },
    ];
    assert(filter@ =~= spec_strain_filter(flags));
    filter
}

/// The end of the segment that starts at `start`: `size` items later, or
/// the end of the input when fewer are left.
pub open spec fn segment_end(start: int, size: int, len: int) -> int {
    if start + size <= len {
        start + size
    } else {
        len
    }
}

/// `r` cuts `len` items into consecutive segments of `size` items, in
/// order, the last one possibly shorter: segment `i` spans
/// `i * size .. min((i + 1) * size, len)`, no segment is empty and together
/// they reach `len`.  These are the segments of `slice::chunks(size)`.
pub open spec fn is_chunking(r: Seq<(usize, usize)>, len: int, size: int) -> bool {
    &&& forall|i: int|
        #![trigger r[i]]
        0 <= i < r.len() ==> {
            &&& r[i].0 == i * size
            &&& r[i].1 == segment_end(i * size, size, len)
            &&& r[i].0 < r[i].1
        }
    &&& r.len() * size >= len
}

/// The segments in which `slice::chunks(size)` cuts `len` items, as
/// half-open index ranges.
pub fn chunk_ranges(len: usize, size: usize) -> (r: Vec<(usize, usize)>)
    requires
        size > 0,
    ensures
        is_chunking(r@, len as int, size as int),
{
    let mut r: Vec<(usize, usize)> = Vec::new();
    let mut start: usize = 0;
    assert(r.len() * size == 0) by (nonlinear_arith)
        requires
            r.len() == 0,
    ;
    while start < len
        invariant
            size > 0,
            start <= len,
            r.len() * size >= start,
            start < len ==> start == r.len() * size,
            forall|i: int|
                #![trigger r@[i]]
                0 <= i < r.len() ==> {
                    &&& r@[i].0 == i * size
                    &&& r@[i].1 == segment_end(i * size, size as int, len as int)
                    &&& r@[i].0 < r@[i].1
                },
        decreases len - start,
    {
        let end: usize = if len - start > size {
            start + size
        } else {
            len
        };
        let ghost n = r.len() as int;
        r.push((start, end));
        proof {
            assert((n + 1) * size == n * size + size) by (nonlinear_arith);
        }
        start = end;
    }
    r
}

/// A set contains another exactly when every strain bit of the other is
/// set in it too.
pub proof fn lemma_contains_is_inclusion(a: StrainFlags, b: StrainFlags)
    ensures
        a.spec_contains(b) <==> {
            &&& (bit_set(b.spec_bits(), 0) ==> bit_set(a.spec_bits(), 0))
            &&& (bit_set(b.spec_bits(), 1) ==> bit_set(a.spec_bits(), 1))
            &&& (bit_set(b.spec_bits(), 2) ==> bit_set(a.spec_bits(), 2))
            &&& (bit_set(b.spec_bits(), 3) ==> bit_set(a.spec_bits(), 3))
            &&& (bit_set(b.spec_bits(), 4) ==> bit_set(a.spec_bits(), 4))
            &&& (bit_set(b.spec_bits(), 5) ==> bit_set(a.spec_bits(), 5))
            &&& (bit_set(b.spec_bits(), 6) ==> bit_set(a.spec_bits(), 6))
            &&& (bit_set(b.spec_bits(), 7) ==> bit_set(a.spec_bits(), 7))
        },
{
    let x = a.spec_bits();
    let y = b.spec_bits();
    assert((x & y == y) <==> {
            &&& (bit_set(y, 0) ==> bit_set(x, 0))
            &&& (bit_set(y, 1) ==> bit_set(x, 1))
            &&& (bit_set(y, 2) ==> bit_set(x, 2))
            &&& (bit_set(y, 3) ==> bit_set(x, 3))
            &&& (bit_set(y, 4) ==> bit_set(x, 4))
            &&& (bit_set(y, 5) ==> bit_set(x, 5))
            &&& (bit_set(y, 6) ==> bit_set(x, 6))
            &&& (bit_set(y, 7) ==> bit_set(x, 7))
        }) by (bit_vector);
}

/// The segments of a chunking start at 0, follow one another without gap
/// or overlap, end at `len`, and all but the last hold exactly `size`
/// items.
pub proof fn lemma_chunking_is_contiguous(r: Seq<(usize, usize)>, len: int, size: int)
    requires
        size > 0,
        len >= 0,
        is_chunking(r, len, size),
    ensures
        r.len() == 0 <==> len == 0,
        r.len() > 0 ==> r[0].0 == 0 && r[r.len() - 1].1 == len,
        forall|i: int|
            #![trigger r[i]]
            0 <= i < r.len() - 1 ==> r[i].1 == r[i + 1].0 && r[i].1 - r[i].0 == size,
{
    if r.len() > 0 {
        assert(r[0].0 == 0 * size);
        assert(0 * size == 0) by (nonlinear_arith);
        let l = r.len() - 1;
        assert(r[l].0 == l * size);
        assert(r[l].0 < r[l].1);
        assert(r[l].1 == len) by {
            if l * size + size <= len {
                assert(l * size + size == r.len() * size) by (nonlinear_arith)
                    requires
                        l == r.len() - 1,
                ;
                if l * size + size < len {
                    assert(false);
                }
            }
        }
    } else {
        assert(r.len() * size == 0) by (nonlinear_arith)
            requires
                r.len() == 0,
        ;
    }
    assert forall|i: int| #![trigger r[i]] 0 <= i < r.len() - 1 implies r[i].1 == r[i + 1].0 && r[i].1
        - r[i].0 == size by {
        let j = i + 1;
        assert(r[j].0 == j * size);
        assert(j * size == i * size + size) by (nonlinear_arith)
            requires
                j == i + 1,
        ;
        assert(r[j].0 < r[j].1);
    }
}

/// Every item lands in exactly one segment of a chunking: segment
/// `k / size` holds item `k`, and no other segment does.
pub proof fn lemma_chunking_partitions(r: Seq<(usize, usize)>, len: int, size: int, k: int)
    requires
        size > 0,
        is_chunking(r, len, size),
        0 <= k < len,
    ensures
        0 <= k / size < r.len(),
        r[k / size].0 <= k < r[k / size].1,
        forall|j: int| #![trigger r[j]] 0 <= j < r.len() && r[j].0 <= k < r[j].1 ==> j == k / size,
{
    let q = k / size;
    assert(q * size <= k < q * size + size) by (nonlinear_arith)
        requires
            size > 0,
            q == k / size,
            0 <= k,
    ;
    assert(0 <= q) by (nonlinear_arith)
        requires
            size > 0,
            q == k / size,
            0 <= k,
    ;
    assert(q < r.len()) by (nonlinear_arith)
        requires
            size > 0,
            q * size <= k,
            k < len,
            r.len() * size >= len,
    ;
    assert(r[q].0 <= k < r[q].1);
    assert forall|j: int| #![trigger r[j]] 0 <= j < r.len() && r[j].0 <= k < r[j].1 implies j == q by {
        assert(r[j].0 == j * size);
        assert(r[j].1 <= j * size + size);
        if j < q {
            assert(j * size + size <= q * size) by (nonlinear_arith)
                requires
                    j < q,
                    size > 0,
            ;
        } else if j > q {
            assert(q * size + size <= j * size) by (nonlinear_arith)
                requires
                    q < j,
                    size > 0,
            ;
        }
    }
}

/// No segment of a chunking is longer than `size`.
pub proof fn lemma_chunks_within_size(r: Seq<(usize, usize)>, len: int, size: int)
    requires
        is_chunking(r, len, size),
    ensures
        forall|i: int| #![trigger r[i]] 0 <= i < r.len() ==> 0 < r[i].1 - r[i].0 <= size,
{
}

/// How many deals fit in one `CalcAllTables` call: `max_boards` boards, one
/// per deal and strain.
pub fn deal_chunk_size(max_boards: u32, flags: NonEmptyStrainFlags) -> (size: usize)
    requires
        flags.spec_get().spec_count() <= max_boards,
    ensures
        size == max_boards as int / flags.spec_get().spec_count() as int,
        size >= 1,
        size * flags.spec_get().spec_count() <= max_boards,
{
    let f = flags.get();
    let n = f.count();
    let size = max_boards / n;
    proof {
        assert(size * n <= max_boards && size >= 1) by (nonlinear_arith)
            requires
                n >= 1,
                n <= max_boards,
                size == max_boards / n,
        ;
    }
    size as usize
}

/// The segments in which a batch of `n_deals` deals is solved, each small
/// enough that its deals times the strains of `flags` stay within
/// `max_boards`.
pub fn deal_segments(
    n_deals: usize,
    max_boards: u32,
    flags: NonEmptyStrainFlags,
) -> (r: Vec<(usize, usize)>)
    requires
        flags.spec_get().spec_count() <= max_boards,
    ensures
        is_chunking(
            r@,
            n_deals as int,
            max_boards as int / flags.spec_get().spec_count() as int,
        ),
        forall|i: int|
            #![trigger r@[i]]
            0 <= i < r.len() ==> (r@[i].1 - r@[i].0) * flags.spec_get().spec_count()
                <= max_boards,
{
    let size = deal_chunk_size(max_boards, flags);
    let r = chunk_ranges(n_deals, size);
    let ghost c = flags.spec_get().spec_count();
    assert forall|i: int| #![trigger r@[i]] 0 <= i < r.len() implies (r@[i].1 - r@[i].0) * c
        <= max_boards by {
        let d = r@[i].1 - r@[i].0;
        assert(0 < d <= size);
        assert(d * c <= size * c) by (nonlinear_arith)
            requires
                0 < d <= size,
                c >= 0,
        ;
    }
    r
}

} // verus!
