use vstd::prelude::*;

verus! {

/// Bit `p` of `g` is set.
pub open spec fn bit_set(g: usize, p: usize) -> bool {
    (g >> p) & 1usize == 1usize
}

/// Setting bit `p` sets that bit, keeps the others and keeps the value within 32 bits.
pub proof fn lemma_set_bit(g: usize, p: usize, q: usize)
    requires
        p < 32,
        q < 32,
        g <= 0xffff_ffff,
    ensures
        bit_set(g | (1usize << p), q) == (q == p || bit_set(g, q)),
        (g | (1usize << p)) <= 0xffff_ffff,
{
    assert(((g | (1usize << p)) >> q) & 1usize == 1usize <==> (q == p || (g >> q) & 1usize == 1usize))
        by (bit_vector)
        requires
            p < 32,
            q < 32,
    ;
    assert((g | (1usize << p)) <= 0xffff_ffff) by (bit_vector)
        requires
            p < 32,
            g <= 0xffff_ffff,
    ;
}

/// Clearing bit `p` clears that bit, keeps the others and keeps the value within 32 bits.
pub proof fn lemma_clear_bit(g: usize, p: usize, q: usize)
    requires
        p < 32,
        q < 32,
        g <= 0xffff_ffff,
    ensures
        bit_set(g & !(1usize << p), q) == (q != p && bit_set(g, q)),
        (g & !(1usize << p)) <= 0xffff_ffff,
{
    assert(((g & !(1usize << p)) >> q) & 1usize == 1usize <==> (q != p && (g >> q) & 1usize
        == 1usize)) by (bit_vector)
        requires
            p < 32,
            q < 32,
    ;
    assert((g & !(1usize << p)) <= 0xffff_ffff) by (bit_vector)
        requires
            g <= 0xffff_ffff,
    ;
}

/// No bit of 0 is set.
pub proof fn lemma_zero_no_bit(q: usize)
    requires
        q < 32,
    ensures
        !bit_set(0, q),
{
    assert((0usize >> q) & 1usize == 0usize) by (bit_vector);
}

/// The bit of priority `p` as a 32-bit mask, widened, is the bit `p`.
pub proof fn lemma_mask_widen(p: u8)
    requires
        p < 32,
    ensures
        ((1u32 << p) as usize) == (1usize << p),
{
    assert(((1u32 << p) as usize) == (1usize << p)) by (bit_vector)
        requires
            p < 32,
    ;
}

/// A nonzero value within 32 bits has a set bit at or above `p` if it has
/// any bit at or above `p`.
proof fn lemma_some_bit_from(g: usize, p: usize)
    requires
        g <= 0xffff_ffff,
        p <= 32,
        (g >> p) != 0,
    ensures
        exists|q: usize| p <= q < 32 && #[trigger] bit_set(g, q),
    decreases 32 - p,
{
    assert(g <= 0xffff_ffff && p >= 32 ==> (g >> p) == 0) by (bit_vector);
    if (g >> p) & 1usize == 1usize {
        assert(bit_set(g, p));
    } else {
        assert((g >> p) != 0 && (g >> p) & 1usize != 1usize && p < 32 ==> (g >> ((p + 1) as usize)) != 0)
            by (bit_vector);
        lemma_some_bit_from(g, (p + 1) as usize);
    }
}

/// A nonzero value within 32 bits has a set bit below 32.
pub proof fn lemma_nonzero_has_bit(g: usize)
    requires
        g <= 0xffff_ffff,
        g != 0,
    ensures
        exists|q: usize| q < 32 && #[trigger] bit_set(g, q),
{
    assert(g >> 0usize == g) by (bit_vector);
    lemma_some_bit_from(g, 0);
}

/// The lowest set bit of a nonzero value within 32 bits.
pub fn lowest_set_bit(g: usize) -> (p: u8)
    requires
        g <= 0xffff_ffff,
        g != 0,
    ensures
        p < 32,
        bit_set(g, p as usize),
        forall|q: usize| q < p ==> !#[trigger] bit_set(g, q),
{
    proof {
        lemma_nonzero_has_bit(g);
    }
    let mut p: u8 = 0;
    while p < 32
        invariant
            p <= 32,
            forall|q: usize| q < p ==> !#[trigger] bit_set(g, q),
            exists|q: usize| q < 32 && #[trigger] bit_set(g, q),
        decreases 32 - p,
    {
        if (g >> p) & 1 == 1 {
            return p;
        }
        p += 1;
    }
    proof {
        let q = choose|q: usize| q < 32 && #[trigger] bit_set(g, q);
        assert(!bit_set(g, q));
    }
    0
}

} // verus!
