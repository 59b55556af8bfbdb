use vstd::prelude::*;
use vstd::hash_map::HashMapWithView;
use crate::config::ALIGN_SIZE;
use crate::system::System;

verus! {

broadcast use vstd::std_specs::hash::group_hash_axioms;

/// Size of a block header, aligned.
pub const SIZEOF_STRUCT_MEM: usize = 16;

/// Size of the heap control block that precedes the blocks.
pub const SIZEOF_SMALL_MEM: usize = 24;

/// Smallest payload worth splitting a block for, aligned.
pub const MIN_SIZE_ALIGNED: usize = 16;

/// Size of a machine word (the stash in front of an aligned allocation).
pub const WORD_SIZE: usize = 4;

/// `size` rounded up to a multiple of `ALIGN_SIZE`.
pub open spec fn spec_align(size: int) -> int {
    (size + ALIGN_SIZE - 1) / (ALIGN_SIZE as int) * (ALIGN_SIZE as int)
}

/// `size` rounded up to a multiple of `ALIGN_SIZE`.
pub fn align(size: usize) -> (r: usize)
    requires
        size + ALIGN_SIZE - 1 <= usize::MAX,
    ensures
        r == spec_align(size as int),
        r >= size,
        r % ALIGN_SIZE == 0,
        r < size + ALIGN_SIZE,
{
    let s = size + (ALIGN_SIZE - 1);
    assert(s & !7usize == s - s % 8) by (bit_vector);
    s & !(ALIGN_SIZE - 1)
}

/// `size` rounded down to a multiple of `ALIGN_SIZE`.
pub fn align_down(size: usize) -> (r: usize)
    ensures
        r == size - size % ALIGN_SIZE,
{
    assert(size & !7usize == size - size % 8) by (bit_vector);
    size & !(ALIGN_SIZE - 1)
}

/// A block header: the tagged address of its heap, and the offsets of the
/// next and previous blocks.
#[derive(PartialEq, Eq, Structural, Copy, Clone, Debug)]
pub struct SmallMemItem {
    pub pool_ptr: usize,
    pub next: usize,
    pub prev: usize,
}

/// Tag of a block in use: the heap address with the low bit set.
pub open spec fn used_tag(pool: usize) -> usize {
    (pool & !1usize) | 1usize
}

/// Tag of a free block: the heap address with the low bit clear.
pub open spec fn freed_tag(pool: usize) -> usize {
    pool & !1usize
}

/// The block is in use.
pub open spec fn is_used(item: SmallMemItem) -> bool {
    item.pool_ptr & 1usize == 1usize
}

proof fn lemma_tags(pool: usize)
    ensures
        used_tag(pool) & 1usize == 1usize,
        freed_tag(pool) & 1usize == 0usize,
        0usize & 1usize == 0usize,
{
    assert(((pool & !1usize) | 1usize) & 1usize == 1usize) by (bit_vector);
    assert((pool & !1usize) & 1usize == 0usize) by (bit_vector);
    assert(0usize & 1usize == 0usize) by (bit_vector);
}

fn mem_used(pool: usize) -> (t: usize)
    ensures
        t == used_tag(pool),
{
    (pool & !1usize) | 1usize
}

fn mem_freed(pool: usize) -> (t: usize)
    ensures
        t == freed_tag(pool),
{
    pool & !1usize
}

fn mem_isused(item: &SmallMemItem) -> (b: bool)
    ensures
        b == is_used(*item),
{
    item.pool_ptr & 1usize == 1usize
}

/// A first-fit heap of blocks, each with a header, chained by offsets
/// from the start of the heap and ended by a sentinel block in use.
pub struct SmallMem {
    address: usize,
    total: usize,
    mem_size_aligned: usize,
    heap_ptr: usize,
    heap_end: usize,
    lfree: usize,
    pool: usize,
    items: HashMapWithView<usize, SmallMemItem>,
    stash: HashMapWithView<usize, usize>,
    blocks: Ghost<Seq<usize>>,
}

impl SmallMem {
    /// Offsets of the blocks in heap order; the last is the sentinel.
    pub closed spec fn chain(&self) -> Seq<usize> {
        self.blocks@
    }

    /// The header at an offset.
    pub closed spec fn item(&self, off: usize) -> SmallMemItem {
        self.items@[off]
    }

    /// There is a header at an offset.
    pub closed spec fn has_item(&self, off: usize) -> bool {
        self.items@.contains_key(off)
    }

    /// Address of the first block.
    pub closed spec fn base(&self) -> usize {
        self.heap_ptr
    }

    /// Offset of the sentinel block.
    pub closed spec fn end(&self) -> usize {
        self.heap_end
    }

    /// Offset of the lowest free block (the sentinel when none is free).
    pub closed spec fn lowest_free(&self) -> usize {
        self.lfree
    }

    /// Usable bytes of the heap.
    pub closed spec fn size_aligned(&self) -> usize {
        self.mem_size_aligned
    }

    /// The heap's own address, kept in every header.
    pub closed spec fn pool_addr(&self) -> usize {
        self.pool
    }

    /// Aligned allocations: aligned address to the address that was allocated for it.
    pub closed spec fn stashed(&self) -> Map<usize, usize> {
        self.stash@
    }

    /// Block `j` of the chain is free.
    pub open spec fn free_at(&self, j: int) -> bool {
        &&& 0 <= j < self.chain().len() - 1
        &&& !is_used(self.item(self.chain()[j]))
    }

    /// Block `j` of the chain is in use.
    pub open spec fn used_at(&self, j: int) -> bool {
        &&& 0 <= j < self.chain().len() - 1
        &&& is_used(self.item(self.chain()[j]))
    }

    /// Payload bytes of block `j`.
    pub open spec fn capacity(&self, j: int) -> int {
        self.chain()[j + 1] - self.chain()[j] - SIZEOF_STRUCT_MEM
    }

    /// The address handed out for block `j`.
    pub open spec fn payload(&self, j: int) -> int {
        self.base() + self.chain()[j] + SIZEOF_STRUCT_MEM
    }

    /// The header of block `j` links it to its neighbours.
    pub open spec fn link_ok(&self, j: int) -> bool {
        let b = self.chain();
        &&& self.has_item(b[j])
        &&& self.item(b[j]).next == b[j + 1]
        &&& self.item(b[j]).prev == if j == 0 { 0 } else { b[j - 1] }
        &&& b[j + 1] - b[j] >= SIZEOF_STRUCT_MEM
        &&& (self.item(b[j]).pool_ptr == used_tag(self.pool_addr()) || self.item(b[j]).pool_ptr == freed_tag(self.pool_addr()))
    }

    /// The heap invariant.
    pub open spec fn wf(&self) -> bool {
        &&& self.wf_chain()
        &&& exists|lf: int| #[trigger] self.lfree_at(lf)
    }

    /// The chain part of the heap invariant.
    pub open spec fn wf_chain(&self) -> bool {
        &&& self.wf_links()
        &&& self.adjacent_ok_except(-2)
    }

    /// No two neighbouring blocks are both free, except possibly the
    /// pairs around block `k`.
    pub open spec fn adjacent_ok_except(&self, k: int) -> bool {
        forall|j: int| 0 <= j < self.chain().len() - 2 && j != k - 1 && j != k ==> !(#[trigger] self.free_at(j) && self.free_at(j + 1))
    }

    /// The blocks are chained in heap order, the sentinel ends the chain.
    pub open spec fn wf_links(&self) -> bool {
        let b = self.chain();
        &&& b.len() >= 2
        &&& b[0] == 0
        &&& b.last() == self.end()
        &&& self.end() == self.size_aligned() + SIZEOF_STRUCT_MEM
        &&& self.base() + self.end() + SIZEOF_STRUCT_MEM <= usize::MAX
        &&& forall|i: int, j: int| 0 <= i < j < b.len() ==> b[i] < b[j]
        &&& forall|j: int| 0 <= j < b.len() - 1 ==> #[trigger] self.link_ok(j)
        &&& self.has_item(self.end())
        &&& self.item(self.end()).next == self.end()
        &&& self.item(self.end()).pool_ptr == used_tag(self.pool_addr())
    }

    /// `lf` is the index of the lowest free block (the sentinel's when none).
    pub open spec fn lfree_at(&self, lf: int) -> bool {
        &&& 0 <= lf < self.chain().len()
        &&& self.chain()[lf] == self.lowest_free()
        &&& forall|j: int| 0 <= j < lf ==> !#[trigger] self.free_at(j)
        &&& lf < self.chain().len() - 1 ==> self.free_at(lf)
    }

    /// Sets up a heap in the `size` bytes at `heap_start`: the control
    /// block, then one free block spanning the rest, then the sentinel.
    #[verifier::spinoff_prover]
    pub fn new(heap_start: usize, size: usize) -> (m: Self)
        requires
            heap_start + size <= usize::MAX - ALIGN_SIZE,
            heap_start + size >= spec_align(spec_align(heap_start as int) + SIZEOF_SMALL_MEM) + 2 * SIZEOF_STRUCT_MEM + ALIGN_SIZE,
        ensures
            m.wf(),
            m.chain() == seq![0usize, m.end()],
            m.free_at(0),
            m.lowest_free() == 0,
            m.pool_addr() == spec_align(heap_start as int),
            m.base() == spec_align(spec_align(heap_start as int) + SIZEOF_SMALL_MEM),
            m.base() + m.end() + SIZEOF_STRUCT_MEM == (heap_start + size) - (heap_start + size) % (ALIGN_SIZE as int),
            m.stashed() == Map::<usize, usize>::empty(),
    {
        let heap_start_align = align(heap_start);
        let start_addr = heap_start_align + SIZEOF_SMALL_MEM;
        let begin_align = align(start_addr);
        let end_align = align_down(heap_start + size);
        let mem_size = end_align - begin_align - 2 * SIZEOF_STRUCT_MEM;
        let pool = heap_start_align;
        let mut items: HashMapWithView<usize, SmallMemItem> = HashMapWithView::new();
        let next = mem_size + SIZEOF_STRUCT_MEM;
        items.insert(0, SmallMemItem { pool_ptr: mem_freed(pool), next, prev: 0 });
        items.insert(next, SmallMemItem { pool_ptr: mem_used(pool), next, prev: next });
        let ghost chain = seq![0usize, next];
        let m = SmallMem {
            address: begin_align,
            total: mem_size,
            mem_size_aligned: mem_size,
            heap_ptr: begin_align,
            heap_end: next,
            lfree: 0,
            pool,
            items,
            stash: HashMapWithView::new(),
            blocks: Ghost(chain),
        };
        proof {
            lemma_tags(pool);
            assert(m.link_ok(0));
            assert(m.lfree_at(0));
        }
        m
    }

    /// Offsets and in-use flags of the blocks before the sentinel, in heap order.
    pub open spec fn states(&self) -> Seq<(usize, bool)> {
        Seq::new((self.chain().len() - 1) as nat, |j: int| (self.chain()[j], is_used(self.item(self.chain()[j]))))
    }

    /// `new` is `old` after block `j` was taken for `sz` bytes: split in a
    /// block in use of exactly `sz` bytes and a free rest when the rest is
    /// worth a block, taken whole otherwise.
    pub open spec fn took(old: &Self, new: &Self, j: int, sz: int) -> bool {
        let b = old.chain();
        if old.capacity(j) >= sz + SIZEOF_STRUCT_MEM + MIN_SIZE_ALIGNED {
            &&& new.chain() == b.insert(j + 1, (b[j] + SIZEOF_STRUCT_MEM + sz) as usize)
            &&& new.states() == old.states().update(j, (b[j], true)).insert(j + 1, ((b[j] + SIZEOF_STRUCT_MEM + sz) as usize, false))
            &&& new.capacity(j) == sz
        } else {
            &&& new.chain() == b
            &&& new.states() == old.states().update(j, (b[j], true))
        }
    }

    /// Block `j` is the first free block with room for `size` bytes.
    pub open spec fn first_fit(&self, j: int, size: int) -> bool {
        &&& self.free_at(j)
        &&& self.capacity(j) >= size
        &&& forall|i: int| 0 <= i < j ==> !(#[trigger] self.free_at(i) && self.capacity(i) >= size)
    }

    /// No free block has room for `size` bytes.
    pub open spec fn no_fit(&self, size: int) -> bool {
        forall|i: int| 0 <= i < self.chain().len() - 1 ==> !(#[trigger] self.free_at(i) && self.capacity(i) >= size)
    }

    /// The heap's geometry is unchanged.
    pub open spec fn same_frame(&self, other: &Self) -> bool {
        &&& self.base() == other.base()
        &&& self.end() == other.end()
        &&& self.size_aligned() == other.size_aligned()
        &&& self.pool_addr() == other.pool_addr()
    }

    /// Moves the lowest-free mark from block `j`, now in use, to the next
    /// free block (or the sentinel).
    fn advance_lfree(&mut self, Ghost(j): Ghost<int>)
        requires
            0 <= j < old(self).chain().len(),
            old(self).chain()[j] == old(self).lowest_free(),
            forall|i: int| 0 <= i <= j ==> !#[trigger] old(self).free_at(i),
            old(self).chain().len() >= 2,
            old(self).chain().last() == old(self).end(),
            old(self).has_item(old(self).end()),
            old(self).item(old(self).end()).pool_ptr == used_tag(old(self).pool_addr()),
            forall|i: int| 0 <= i < old(self).chain().len() - 1 ==> #[trigger] old(self).link_ok(i),
            forall|a: int, b: int| 0 <= a < b < old(self).chain().len() ==> old(self).chain()[a] < old(self).chain()[b],
        ensures
            exists|lf: int| #[trigger] final(self).lfree_at(lf),
            old(self).wf_chain() ==> final(self).wf_chain(),
            final(self).chain() == old(self).chain(),
            final(self).items@ == old(self).items@,
            final(self).stash@ == old(self).stash@,
            final(self).same_frame(old(self)),
    {
        let ghost mut k = j;
        let mut lf = self.lfree;
        proof {
            if k < self.chain().len() - 1 {
                assert(self.link_ok(k));
            }
        }
        while mem_isused(self.items.get(&lf).unwrap()) && lf != self.heap_end
            invariant
                0 <= k < self.chain().len(),
                self.chain()[k] == lf,
                self.has_item(lf),
                forall|i: int| 0 <= i < k ==> !#[trigger] self.free_at(i),
                forall|a: int, b: int| 0 <= a < b < self.chain().len() ==> self.chain()[a] < self.chain()[b],
                *self == *old(self),
                self.chain().len() >= 2,
                self.chain().last() == self.end(),
                self.has_item(self.end()),
                forall|i: int| 0 <= i < self.chain().len() - 1 ==> #[trigger] self.link_ok(i),
            decreases self.chain().len() - k,
        {
            proof {
                assert(self.link_ok(k));
                assert(!self.free_at(k));
            }
            lf = self.items.get(&lf).unwrap().next;
            proof {
                k = k + 1;
                if k < self.chain().len() - 1 {
                    assert(self.link_ok(k));
                }
            }
        }
        proof {
            lemma_tags(self.pool);
            if k < self.chain().len() - 1 {
                assert(self.link_ok(k));
                assert(self.free_at(k));
            }
        }
        let ghost before = *self;
        self.lfree = lf;
        proof {
            if before.wf_chain() {
                Self::lemma_chain_frame(&before, self);
            }
            assert forall|i: int| 0 <= i < k implies !#[trigger] self.free_at(i) by {
                assert(!before.free_at(i));
            }
            if k < self.chain().len() - 1 {
                assert(before.free_at(k));
            }
            assert(self.lfree_at(k));
        }
    }

    /// A block that fits `size` bytes lies at or below `size_aligned - size`.
    proof fn lemma_fit_position(&self, j: int, size: int)
        requires
            self.wf(),
            0 <= j < self.chain().len() - 1,
            self.capacity(j) >= size,
            size >= 0,
        ensures
            self.chain()[j] <= self.size_aligned() - size,
    {
        assert(self.chain()[j + 1] <= self.end()) by {
            if j + 1 < self.chain().len() - 1 {
                assert(self.chain()[j + 1] < self.chain()[self.chain().len() - 1]);
            }
        }
    }

    /// First-fit allocation of `size` bytes (rounded up to the alignment):
    /// the first free block with room is taken, split in two when the rest
    /// is worth a block of its own; its payload address comes back. `None`
    /// when no free block has room.
    #[verifier::spinoff_prover]
    pub fn malloc(&mut self, size: usize) -> (r: Option<usize>)
        requires
            old(self).wf(),
            size + ALIGN_SIZE - 1 <= usize::MAX,
            spec_align(size as int) <= old(self).size_aligned(),
        ensures
            final(self).wf(),
            final(self).same_frame(old(self)),
            final(self).stashed() == old(self).stashed(),
            r is None ==> old(self).no_fit(spec_align(size as int)) && final(self).states() == old(self).states()
                && final(self).chain() == old(self).chain(),
            r is Some ==> exists|j: int| #![trigger old(self).first_fit(j, spec_align(size as int))] {
                &&& old(self).first_fit(j, spec_align(size as int))
                &&& r == Some(old(self).payload(j) as usize)
                &&& Self::took(old(self), final(self), j, spec_align(size as int))
            },
    {
        let asize = align(size);
        let mut ptr = self.lfree;
        let ghost lf = choose|lf: int| self.lfree_at(lf);
        let ghost mut j = lf;
        let ghost sz = asize as int;
        proof {
            assert(self.lfree_at(lf));
        }
        while ptr <= self.mem_size_aligned - asize
            invariant
                self.wf(),
                *self == *old(self),
                sz == asize,
                asize == spec_align(size as int),
                0 <= j < self.chain().len(),
                self.chain()[j] == ptr,
                forall|i: int| 0 <= i < j ==> !(#[trigger] self.free_at(i) && self.capacity(i) >= sz),
                asize <= self.size_aligned(),
            decreases self.chain().len() - j,
        {
            proof {
                if j == self.chain().len() - 1 {
                    assert(ptr == self.heap_end);
                    assert(false);
                }
                assert(self.link_ok(j));
            }
            let mem = *self.items.get(&ptr).unwrap();
            if !mem_isused(&mem) && (mem.next - (ptr + SIZEOF_STRUCT_MEM)) >= asize {
                proof {
                    assert(self.first_fit(j, sz));
                }
                let r = self.take_block(ptr, asize, Ghost(j));
                proof {
                    assert(old(self).first_fit(j, spec_align(size as int)));
                }
                return r;
            }
            ptr = mem.next;
            proof {
                j = j + 1;
            }
        }
        proof {
            assert forall|i: int| 0 <= i < self.chain().len() - 1 implies !(#[trigger] self.free_at(i) && self.capacity(i) >= sz) by {
                if i >= j && self.free_at(i) && self.capacity(i) >= sz {
                    self.lemma_fit_position(i, sz);
                    if i > j {
                        assert(self.chain()[j] < self.chain()[i]);
                    }
                }
            }
        }
        None
    }

    /// Takes free block `j` (at offset `ptr`) for `size` bytes.
    #[verifier::spinoff_prover]
    fn take_block(&mut self, ptr: usize, size: usize, Ghost(j): Ghost<int>) -> (r: Option<usize>)
        requires
            old(self).wf(),
            old(self).first_fit(j, size as int),
            old(self).chain()[j] == ptr,
        ensures
            final(self).wf(),
            final(self).same_frame(old(self)),
            final(self).stashed() == old(self).stashed(),
            r == Some(old(self).payload(j) as usize),
            Self::took(old(self), final(self), j, size as int),
    {
        proof {
            assert(old(self).link_ok(j));
            lemma_tags(self.pool);
            if j + 1 < self.chain().len() - 1 {
                assert(old(self).link_ok(j + 1));
                assert(!old(self).free_at(j + 1));
            }
        }
        let ghost b = self.blocks@;
        let ghost lf = choose|lf: int| old(self).lfree_at(lf);
        proof {
            assert(old(self).lfree_at(lf));
            assert(lf <= j);
        }
        let mut mem = *self.items.get(&ptr).unwrap();
        let ghost mem0 = mem;
        let split = mem.next - (ptr + SIZEOF_STRUCT_MEM) >= size + SIZEOF_STRUCT_MEM + MIN_SIZE_ALIGNED;
        if split {
            let ptr2 = ptr + SIZEOF_STRUCT_MEM + size;
            let mem2 = SmallMemItem { pool_ptr: mem_freed(self.pool), next: mem.next, prev: ptr };
            self.items.insert(ptr2, mem2);
            mem.next = ptr2;
            if mem2.next != self.mem_size_aligned + SIZEOF_STRUCT_MEM {
                proof {
                    assert(self.items@.contains_key(mem2.next));
                }
                let mut n = *self.items.get(&mem2.next).unwrap();
                n.prev = ptr2;
                self.items.insert(mem2.next, n);
            }
            self.blocks = Ghost(b.insert(j + 1, ptr2));
        }
        mem.pool_ptr = mem_used(self.pool);
        self.items.insert(ptr, mem);
        proof {
            if split {
                Self::lemma_take_split(old(self), self, j, size as int);
            } else {
                Self::lemma_take_whole(old(self), self, j);
            }
        }
        if ptr == self.lfree {
            proof {
                assert forall|i: int| 0 <= i <= j implies !#[trigger] self.free_at(i) by {
                    if i < j {
                        assert(!old(self).free_at(i));
                        assert(b[i] != b[j]);
                    }
                }
            }
            let ghost mid = *self;
            self.advance_lfree(Ghost(j));
            proof {
                Self::lemma_chain_frame(&mid, self);
            }
        } else {
            proof {
                assert(lf < j);
                assert(self.lfree_at(lf)) by {
                    assert forall|i: int| 0 <= i < lf implies !#[trigger] self.free_at(i) by {
                        assert(!old(self).free_at(i));
                        assert(b[i] != b[j]);
                    }
                    assert(old(self).free_at(lf));
                    assert(b[lf] != b[j]);
                }
            }
        }
        Some(self.heap_ptr + ptr + SIZEOF_STRUCT_MEM)
    }

    /// The chain invariant depends only on the chain, the headers and the geometry.
    proof fn lemma_chain_frame(a: &Self, b: &Self)
        requires
            a.wf_chain(),
            b.chain() == a.chain(),
            b.items@ == a.items@,
            b.same_frame(a),
        ensures
            b.wf_chain(),
            b.states() == a.states(),
            forall|i: int| #[trigger] b.free_at(i) == a.free_at(i),
    {
        assert forall|j: int| 0 <= j < b.chain().len() - 1 implies #[trigger] b.link_ok(j) by {
            assert(a.link_ok(j));
        }
        assert forall|j: int| 0 <= j < b.chain().len() - 2 implies !(#[trigger] b.free_at(j) && b.free_at(j + 1)) by {
            assert(!(a.free_at(j) && a.free_at(j + 1)));
        }
        assert(b.states() =~= a.states());
    }

    /// The invariant and the block states depend only on the chain, the
    /// headers, the geometry and the lowest-free mark.
    proof fn lemma_wf_frame(a: &Self, b: &Self)
        requires
            a.wf(),
            b.chain() == a.chain(),
            b.items@ == a.items@,
            b.same_frame(a),
            b.lowest_free() == a.lowest_free(),
        ensures
            b.wf(),
            b.states() == a.states(),
            forall|j: int| #[trigger] b.capacity(j) == a.capacity(j),
    {
        Self::lemma_chain_frame(a, b);
        let lf = choose|lf: int| a.lfree_at(lf);
        assert(a.lfree_at(lf));
        assert(b.lfree_at(lf));
    }

    /// The links depend only on the chain, the headers and the geometry.
    proof fn lemma_links_frame(a: &Self, b: &Self, k: int)
        requires
            a.wf_links(),
            a.adjacent_ok_except(k),
            b.chain() == a.chain(),
            b.items@ == a.items@,
            b.same_frame(a),
        ensures
            b.wf_links(),
            b.adjacent_ok_except(k),
            b.states() == a.states(),
            forall|i: int| #[trigger] b.free_at(i) == a.free_at(i),
    {
        assert forall|j: int| 0 <= j < b.chain().len() - 1 implies #[trigger] b.link_ok(j) by {
            assert(a.link_ok(j));
        }
        assert forall|j: int| 0 <= j < b.chain().len() - 2 && j != k - 1 && j != k implies !(#[trigger] b.free_at(j) && b.free_at(j + 1)) by {
            assert(!(a.free_at(j) && a.free_at(j + 1)));
        }
        assert(b.states() =~= a.states());
    }

    /// Taking the whole free block `j` keeps the chain well formed and marks
    /// just that block in use.
    proof fn lemma_take_whole(old: &Self, new: &Self, j: int)
        requires
            old.wf(),
            old.free_at(j),
            new.chain() == old.chain(),
            new.same_frame(old),
            new.items@ == old.items@.insert(old.chain()[j], SmallMemItem { pool_ptr: used_tag(old.pool_addr()), ..old.item(old.chain()[j]) }),
        ensures
            new.wf_chain(),
            new.states() == old.states().update(j, (old.chain()[j], true)),
            forall|i: int| 0 <= i < old.chain().len() - 1 && i != j ==> (#[trigger] new.free_at(i) == old.free_at(i)),
            !new.free_at(j),
    {
        let b = old.chain();
        let n = b.len();
        lemma_tags(old.pool_addr());
        assert forall|i: int| 0 <= i < n - 1 implies #[trigger] new.link_ok(i) by {
            assert(old.link_ok(i));
            if i != j { assert(b[i] != b[j]); }
        }
        assert(b[j] < b[n - 1]);
        assert forall|i: int| 0 <= i < old.chain().len() - 1 && i != j implies (#[trigger] new.free_at(i) == old.free_at(i)) by {
            assert(b[i] != b[j]);
        }
        assert forall|i: int| 0 <= i < n - 2 implies !(#[trigger] new.free_at(i) && new.free_at(i + 1)) by {
            assert(!(old.free_at(i) && old.free_at(i + 1)));
            if i != j { assert(b[i] != b[j]); }
            if i + 1 != j { assert(b[i + 1] != b[j]); }
        }
        assert(new.states() =~= old.states().update(j, (b[j], true)));
    }

    /// Splitting free block `j` into a block in use of `size` bytes and a
    /// free rest keeps the chain well formed.
    #[verifier::rlimit(60)]
    #[verifier::spinoff_prover]
    proof fn lemma_take_split(old: &Self, new: &Self, j: int, size: int)
        requires
            old.wf(),
            old.free_at(j),
            size >= 0,
            old.capacity(j) >= size + SIZEOF_STRUCT_MEM + MIN_SIZE_ALIGNED,
            new.chain() == old.chain().insert(j + 1, (old.chain()[j] + SIZEOF_STRUCT_MEM + size) as usize),
            new.same_frame(old),
            ({
                let b = old.chain();
                let ptr2 = (b[j] + SIZEOF_STRUCT_MEM + size) as usize;
                let m1 = old.items@.insert(ptr2, SmallMemItem { pool_ptr: freed_tag(old.pool_addr()), next: b[j + 1], prev: b[j] });
                let m2 = if b[j + 1] != old.end() {
                    m1.insert(b[j + 1], SmallMemItem { prev: ptr2, ..old.item(b[j + 1]) })
                } else {
                    m1
                };
                new.items@ == m2.insert(b[j], SmallMemItem { pool_ptr: used_tag(old.pool_addr()), next: ptr2, prev: old.item(b[j]).prev })
            }),
        ensures
            new.wf_chain(),
            new.states() == old.states().update(j, (old.chain()[j], true)).insert(j + 1, ((old.chain()[j] + SIZEOF_STRUCT_MEM + size) as usize, false)),
            new.capacity(j) == size,
            forall|i: int| 0 <= i < j ==> (#[trigger] new.free_at(i) == old.free_at(i)),
            !new.free_at(j),
    {
        let b = old.chain();
        let c = new.chain();
        let n = c.len();
        let ptr2 = (b[j] + SIZEOF_STRUCT_MEM + size) as usize;
        lemma_tags(old.pool_addr());
        assert(old.link_ok(j));
        if j + 1 < b.len() - 1 {
            assert(old.link_ok(j + 1));
            assert(!old.free_at(j + 1));
        }
        assert(b[j] < ptr2 < b[j + 1]);
        assert forall|x: int, y: int| 0 <= x < y < n implies c[x] < c[y] by {
            if x <= j && y > j + 1 { assert(b[x] < b[y - 1] || x == y - 1); }
            if x > j + 1 { assert(b[x - 1] < b[y - 1]); }
            if x <= j && y <= j { assert(b[x] < b[y]); }
            if x <= j && y == j + 1 { assert(b[x] <= b[j]); }
            if x == j + 1 { assert(b[j + 1] <= b[y - 1]); }
        }
        assert forall|i: int| 0 <= i < n - 1 implies #[trigger] new.link_ok(i) by {
            if i < j {
                assert(old.link_ok(i));
                assert(b[i] < b[j]);
                assert(b[i] < b[j + 1]);
            } else if i == j {
            } else if i == j + 1 {
            } else {
                assert(old.link_ok(i - 1));
                assert(b[i - 1] > b[j]);
                if i > j + 2 {
                    assert(b[i - 1] > b[j + 1]);
                }
            }
        }
        assert(b[j + 1] <= b[b.len() - 1]);
        assert forall|i: int| 0 <= i < j implies (#[trigger] new.free_at(i) == old.free_at(i)) by {
            assert(b[i] < b[j]);
        }
        assert forall|i: int| 0 <= i < n - 2 implies !(#[trigger] new.free_at(i) && new.free_at(i + 1)) by {
            if i < j - 1 {
                assert(!(old.free_at(i) && old.free_at(i + 1)));
                assert(b[i + 1] < b[j]);
            }
            if i > j + 1 {
                assert(!(old.free_at(i - 1) && old.free_at(i)));
                assert(b[i - 1] >= b[j + 1]);
            }
            if i == j + 1 && i + 1 < n - 1 {
                assert(c[i + 1] == b[j + 1]);
            }
        }
        assert forall|i: int| 0 <= i < n - 1 implies #[trigger] new.states()[i] == old.states().update(j, (b[j], true)).insert(j + 1, (ptr2, false))[i] by {
            if i < j {
                assert(b[i] < b[j]);
            } else if i > j + 1 {
                assert(b[i - 1] > b[j]);
                if i > j + 2 { assert(b[i - 1] > b[j + 1]); }
            }
        }
        assert(new.states() =~= old.states().update(j, (b[j], true)).insert(j + 1, (ptr2, false)));
    }

    /// Block `j` is in use and its payload is at `addr`.
    pub open spec fn allocation(&self, addr: usize, j: int) -> bool {
        &&& self.used_at(j)
        &&& self.payload(j) == addr
    }

    /// The chain after block `j` is freed and merged with free neighbours.
    pub open spec fn freed_chain(&self, j: int) -> Seq<usize> {
        let b = self.chain();
        let c2 = if self.free_at(j + 1) { b.remove(j + 1) } else { b };
        if j > 0 && self.free_at(j - 1) { c2.remove(j) } else { c2 }
    }

    /// The block states after block `j` is freed and merged with free neighbours.
    pub open spec fn freed_states(&self, j: int) -> Seq<(usize, bool)> {
        let s1 = self.states().update(j, (self.chain()[j], false));
        let s2 = if self.free_at(j + 1) { s1.remove(j + 1) } else { s1 };
        if j > 0 && self.free_at(j - 1) { s2.remove(j) } else { s2 }
    }

    /// Marking block `j` free keeps the links.
    proof fn lemma_mark_free(old: &Self, new: &Self, j: int)
        requires
            old.wf_chain(),
            old.used_at(j),
            new.chain() == old.chain(),
            new.same_frame(old),
            new.items@ == old.items@.insert(old.chain()[j], SmallMemItem { pool_ptr: freed_tag(old.pool_addr()), ..old.item(old.chain()[j]) }),
        ensures
            new.wf_links(),
            new.adjacent_ok_except(j),
            new.free_at(j),
            new.states() == old.states().update(j, (old.chain()[j], false)),
            forall|i: int| i != j ==> (#[trigger] new.free_at(i) == old.free_at(i)),
    {
        let b = old.chain();
        let n = b.len();
        lemma_tags(old.pool_addr());
        assert forall|i: int| 0 <= i < n - 1 implies #[trigger] new.link_ok(i) by {
            assert(old.link_ok(i));
            if i != j { assert(b[i] != b[j]); }
        }
        assert(b[j] < b[n - 1]);
        assert forall|i: int| i != j implies (#[trigger] new.free_at(i) == old.free_at(i)) by {
            if 0 <= i < n - 1 { assert(b[i] != b[j]); }
        }
        assert forall|i: int| 0 <= i < n - 2 && i != j - 1 && i != j implies !(#[trigger] new.free_at(i) && new.free_at(i + 1)) by {
            assert(!(old.free_at(i) && old.free_at(i + 1)));
        }
        assert(new.states() =~= old.states().update(j, (b[j], false)));
    }

    /// Merging free block `j + 1` into free block `j` keeps the links.
    #[verifier::rlimit(60)]
    #[verifier::spinoff_prover]
    proof fn lemma_merge_next(old: &Self, new: &Self, j: int)
        requires
            old.wf_links(),
            old.adjacent_ok_except(j),
            old.free_at(j),
            old.free_at(j + 1),
            new.chain() == old.chain().remove(j + 1),
            new.same_frame(old),
            ({
                let b = old.chain();
                new.items@ == old.items@.insert(b[j + 1], SmallMemItem { pool_ptr: 0, ..old.item(b[j + 1]) })
                    .insert(b[j], SmallMemItem { next: b[j + 2], ..old.item(b[j]) })
                    .insert(b[j + 2], SmallMemItem { prev: b[j], ..old.item(b[j + 2]) })
            }),
        ensures
            new.wf_links(),
            new.adjacent_ok_except(j),
            new.free_at(j),
            !new.free_at(j + 1),
            new.states() == old.states().remove(j + 1),
            forall|i: int| 0 <= i < j ==> (#[trigger] new.free_at(i) == old.free_at(i)),
    {
        let b = old.chain();
        let c = new.chain();
        let n = c.len();
        lemma_tags(old.pool_addr());
        assert(old.link_ok(j));
        assert(old.link_ok(j + 1));
        if j + 2 < b.len() - 1 {
            assert(old.link_ok(j + 2));
            assert(!old.free_at(j + 2));
        }
        assert forall|x: int, y: int| 0 <= x < y < n implies c[x] < c[y] by {
            if x <= j && y <= j { assert(b[x] < b[y]); }
            if x <= j && y > j { assert(b[x] < b[y + 1]); }
            if x > j { assert(b[x + 1] < b[y + 1]); }
        }
        assert forall|i: int| 0 <= i < n - 1 implies #[trigger] new.link_ok(i) by {
            if i < j {
                assert(old.link_ok(i));
                assert(b[i] < b[j]);
            } else if i == j {
            } else {
                assert(old.link_ok(i + 1));
                assert(b[i + 1] > b[j + 1]);
                if i > j + 1 { assert(b[i + 1] > b[j + 2]); }
            }
        }
        assert(b[j + 2] <= b[b.len() - 1]);
        assert(new.item(new.end()).next == new.end() && new.item(new.end()).pool_ptr == used_tag(new.pool_addr())) by {
            if b[j + 2] != b[b.len() - 1] {
                assert(b[j + 2] < b[b.len() - 1]);
            }
        }
        assert forall|i: int| 0 <= i < j implies (#[trigger] new.free_at(i) == old.free_at(i)) by {
            assert(b[i] < b[j]);
        }
        assert forall|i: int| 0 <= i < n - 2 && i != j - 1 && i != j implies !(#[trigger] new.free_at(i) && new.free_at(i + 1)) by {
            if i < j - 1 {
                assert(!(old.free_at(i) && old.free_at(i + 1)));
                assert(b[i + 1] < b[j]);
            } else {
                assert(!(old.free_at(i + 1) && old.free_at(i + 2)));
                assert(b[i + 1] > b[j + 1]);
                assert(b[i + 2] > b[j + 2]);
            }
        }
        assert forall|i: int| 0 <= i < n - 1 implies #[trigger] new.states()[i] == old.states().remove(j + 1)[i] by {
            if i < j {
                assert(b[i] < b[j]);
            } else if i > j {
                assert(b[i + 1] > b[j + 1]);
                if i > j + 1 { assert(b[i + 1] > b[j + 2]); }
            }
        }
        assert(new.states() =~= old.states().remove(j + 1));
    }

    /// Merging free block `j` into free block `j - 1` restores the full invariant.
    #[verifier::rlimit(60)]
    #[verifier::spinoff_prover]
    proof fn lemma_merge_prev(old: &Self, new: &Self, j: int)
        requires
            old.wf_links(),
            old.adjacent_ok_except(j),
            j > 0,
            old.free_at(j - 1),
            old.free_at(j),
            !old.free_at(j + 1),
            new.chain() == old.chain().remove(j),
            new.same_frame(old),
            ({
                let b = old.chain();
                new.items@ == old.items@.insert(b[j], SmallMemItem { pool_ptr: 0, ..old.item(b[j]) })
                    .insert(b[j - 1], SmallMemItem { next: b[j + 1], ..old.item(b[j - 1]) })
                    .insert(b[j + 1], SmallMemItem { prev: b[j - 1], ..old.item(b[j + 1]) })
            }),
        ensures
            new.wf_chain(),
            new.free_at(j - 1),
            new.states() == old.states().remove(j),
            forall|i: int| 0 <= i < j ==> (#[trigger] new.free_at(i) == old.free_at(i)),
    {
        let b = old.chain();
        let c = new.chain();
        let n = c.len();
        lemma_tags(old.pool_addr());
        assert(old.link_ok(j - 1));
        assert(old.link_ok(j));
        if j + 1 < b.len() - 1 {
            assert(old.link_ok(j + 1));
        }
        if j >= 2 {
            assert(!(old.free_at(j - 2) && old.free_at(j - 1)));
        }
        assert forall|x: int, y: int| 0 <= x < y < n implies c[x] < c[y] by {
            if x < j && y < j { assert(b[x] < b[y]); }
            if x < j && y >= j { assert(b[x] < b[y + 1]); }
            if x >= j { assert(b[x + 1] < b[y + 1]); }
        }
        assert forall|i: int| 0 <= i < n - 1 implies #[trigger] new.link_ok(i) by {
            if i < j - 1 {
                assert(old.link_ok(i));
                assert(b[i] < b[j - 1]);
            } else if i == j - 1 {
                if i > 0 { assert(old.link_ok(i - 1)); }
            } else {
                assert(old.link_ok(i + 1));
                assert(b[i + 1] > b[j]);
                if i > j { assert(b[i + 1] > b[j + 1]); }
            }
        }
        assert(b[j + 1] <= b[b.len() - 1]);
        assert(new.item(new.end()).next == new.end() && new.item(new.end()).pool_ptr == used_tag(new.pool_addr())) by {
            if b[j + 1] != b[b.len() - 1] {
                assert(b[j + 1] < b[b.len() - 1]);
            }
        }
        assert forall|i: int| 0 <= i < j implies (#[trigger] new.free_at(i) == old.free_at(i)) by {
            if i < j - 1 { assert(b[i] < b[j - 1]); }
        }
        assert forall|i: int| 0 <= i < n - 2 implies !(#[trigger] new.free_at(i) && new.free_at(i + 1)) by {
            if i < j - 2 {
                assert(!(old.free_at(i) && old.free_at(i + 1)));
                assert(b[i + 1] < b[j - 1]);
            } else if i == j - 2 {
                assert(b[i] < b[j - 1]);
            } else if i == j - 1 {
            } else {
                assert(!(old.free_at(i + 1) && old.free_at(i + 2)));
                assert(b[i + 1] > b[j]);
                assert(b[i + 2] > b[j + 1]);
            }
        }
        assert forall|i: int| 0 <= i < n - 1 implies #[trigger] new.states()[i] == old.states().remove(j)[i] by {
            if i < j - 1 {
                assert(b[i] < b[j - 1]);
            } else if i >= j {
                assert(b[i + 1] > b[j]);
                if i > j { assert(b[i + 1] > b[j + 1]); }
            }
        }
        assert(new.states() =~= old.states().remove(j));
    }

    /// Gives back the block whose payload is at `addr`: it becomes free
    /// and is merged with a free block after it and with a free block
    /// before it.
    #[verifier::spinoff_prover]
    pub fn free(&mut self, addr: usize)
        requires
            old(self).wf(),
            exists|j: int| #[trigger] old(self).allocation(addr, j),
        ensures
            final(self).wf(),
            final(self).same_frame(old(self)),
            final(self).stashed() == old(self).stashed(),
            exists|j: int| {
                &&& #[trigger] old(self).allocation(addr, j)
                &&& final(self).chain() == old(self).freed_chain(j)
                &&& final(self).states() == old(self).freed_states(j)
            },
    {
        let ghost j = choose|j: int| old(self).allocation(addr, j);
        let ghost lf = choose|lf: int| old(self).lfree_at(lf);
        proof {
            assert(old(self).allocation(addr, j));
            assert(old(self).lfree_at(lf));
            assert(old(self).link_ok(j));
            assert(lf != j);
        }
        let off = addr - SIZEOF_STRUCT_MEM - self.heap_ptr;
        let mut mem = *self.items.get(&off).unwrap();
        mem.pool_ptr = mem_freed(self.pool);
        self.items.insert(off, mem);
        proof {
            Self::lemma_mark_free(old(self), self, j);
        }
        let ghost marked = *self;
        if off < self.lfree {
            self.lfree = off;
        }
        proof {
            Self::lemma_links_frame(&marked, self, j);
            let b = self.chain();
            if lf > j {
                assert(b[j] < b[lf]);
                assert(self.lfree_at(j)) by {
                    assert forall|i: int| 0 <= i < j implies !#[trigger] self.free_at(i) by {
                        assert(!old(self).free_at(i));
                    }
                }
            } else {
                assert(b[lf] < b[j]);
                assert(self.lfree_at(lf)) by {
                    assert forall|i: int| 0 <= i < lf implies !#[trigger] self.free_at(i) by {
                        assert(!old(self).free_at(i));
                    }
                }
            }
            assert forall|i: int| i != j implies (#[trigger] self.free_at(i) == old(self).free_at(i)) by {
                assert(marked.free_at(i) == old(self).free_at(i));
            }
        }
        self.plug_holes(off, Ghost(j));
    }

    /// Merges free block `j` (at offset `off`) with a free block after it
    /// and with a free block before it.
    #[verifier::spinoff_prover]
    #[verifier::rlimit(60)]
    fn plug_holes(&mut self, off: usize, Ghost(j): Ghost<int>)
        requires
            old(self).wf_links(),
            old(self).adjacent_ok_except(j),
            old(self).free_at(j),
            old(self).chain()[j] == off,
            exists|lf: int| #[trigger] old(self).lfree_at(lf) && lf <= j,
        ensures
            final(self).wf(),
            final(self).same_frame(old(self)),
            final(self).stashed() == old(self).stashed(),
            ({
                let b = old(self).chain();
                let s1 = old(self).states();
                let c2 = if old(self).free_at(j + 1) { b.remove(j + 1) } else { b };
                let s2 = if old(self).free_at(j + 1) { s1.remove(j + 1) } else { s1 };
                &&& final(self).chain() == if j > 0 && old(self).free_at(j - 1) { c2.remove(j) } else { c2 }
                &&& final(self).states() == if j > 0 && old(self).free_at(j - 1) { s2.remove(j) } else { s2 }
            }),
    {
        let ghost lf = choose|lf: int| old(self).lfree_at(lf) && lf <= j;
        proof {
            assert(old(self).link_ok(j));
            lemma_tags(self.pool);
        }
        let ghost b = self.blocks@;
        let mem = *self.items.get(&off).unwrap();
        let nptr = mem.next;
        proof {
            if j + 1 < b.len() - 1 {
                assert(old(self).link_ok(j + 1));
            }
        }
        let nmem = *self.items.get(&nptr).unwrap();
        if off != nptr && !mem_isused(&nmem) && nptr != self.heap_end {
            proof {
                assert(j + 1 < b.len() - 1);
                assert(old(self).free_at(j + 1));
                assert(old(self).link_ok(j + 1));
                if j + 2 < b.len() - 1 {
                    assert(old(self).link_ok(j + 2));
                }
            }
            if self.lfree == nptr {
                self.lfree = off;
            }
            let mut dead = nmem;
            dead.pool_ptr = 0;
            self.items.insert(nptr, dead);
            let mut merged = mem;
            merged.next = nmem.next;
            self.items.insert(off, merged);
            let mut after = *self.items.get(&nmem.next).unwrap();
            after.prev = off;
            self.items.insert(nmem.next, after);
            self.blocks = Ghost(b.remove(j + 1));
            proof {
                Self::lemma_merge_next(old(self), self, j);
                assert(b[lf] <= b[j]);
                assert(self.lfree == b[lf]);
                assert(self.lfree_at(lf)) by {
                    assert forall|i: int| 0 <= i < lf implies !#[trigger] self.free_at(i) by {
                        assert(!old(self).free_at(i));
                    }
                    if lf == j {
                    } else {
                        assert(old(self).free_at(lf));
                    }
                }
            }
        } else {
            proof {
                if j + 1 < b.len() - 1 {
                    assert(b[j + 1] < b[b.len() - 1]);
                }
                assert(!old(self).free_at(j + 1));
            }
        }
        let ghost mid = *self;
        let ghost c = self.blocks@;
        proof {
            assert(mid.free_at(j));
            assert(!mid.free_at(j + 1));
            assert(mid.link_ok(j));
            if j > 0 {
                assert(mid.link_ok(j - 1));
            }
            if j + 1 < c.len() - 1 {
                assert(mid.link_ok(j + 1));
            }
            assert(forall|i: int| 0 <= i < j ==> (#[trigger] mid.free_at(i) == old(self).free_at(i)));
        }
        let mem = *self.items.get(&off).unwrap();
        let pptr = mem.prev;
        let pmem = *self.items.get(&pptr).unwrap();
        if pptr != off && !mem_isused(&pmem) {
            proof {
                assert(j > 0);
                assert(mid.free_at(j - 1));
            }
            if self.lfree == off {
                self.lfree = pptr;
            }
            let mut dead = mem;
            dead.pool_ptr = 0;
            self.items.insert(off, dead);
            let mut merged = pmem;
            merged.next = mem.next;
            self.items.insert(pptr, merged);
            let mut after = *self.items.get(&mem.next).unwrap();
            after.prev = pptr;
            self.items.insert(mem.next, after);
            self.blocks = Ghost(c.remove(j));
            proof {
                Self::lemma_merge_prev(&mid, self, j);
                assert(self.lfree_at(lf)) by {
                    assert(lf <= j - 1);
                    assert forall|i: int| 0 <= i < lf implies !#[trigger] self.free_at(i) by {
                        assert(!old(self).free_at(i));
                    }
                    assert(old(self).free_at(lf) || lf == j);
                }
            }
        } else {
            proof {
                if j > 0 {
                    assert(!mid.free_at(j - 1));
                    assert(!old(self).free_at(j - 1));
                }
                assert(mid.wf_chain()) by {
                    assert forall|i: int| 0 <= i < c.len() - 2 implies !(#[trigger] mid.free_at(i) && mid.free_at(i + 1)) by {
                    }
                }
                assert(mid.lfree_at(lf));
            }
        }
    }

    /// When `malloc_align(size, align)` can run: the heap is well formed,
    /// `align` is a power of two, the sizes involved fit in a `usize`, and
    /// some free block is large enough.
    pub open spec fn can_malloc_align(&self, size: usize, align: usize) -> bool {
        &&& self.wf()
        &&& is_pow2(align)
        &&& size <= usize::MAX - 2 * WORD_SIZE - align - ALIGN_SIZE
        &&& align <= usize::MAX - WORD_SIZE
        &&& spec_align(word_round(size as int) + word_round(align as int)) <= self.size_aligned()
        &&& !self.no_fit(spec_align(word_round(size as int) + word_round(align as int)))
    }

    /// What `malloc_align(size, align)` did, going from `old` to `new` and
    /// giving `p`: a first-fit block of `size + align` bytes (rounded) was
    /// taken, `p` is aligned and lies inside it after its start with room for
    /// `size` bytes, and the block's address is stashed for `p`.
    pub open spec fn malloc_align_done(old: &Self, new: &Self, size: usize, align: usize, p: usize) -> bool {
        &&& new.wf()
        &&& new.same_frame(old)
        &&& exists|j: int| #![trigger old.first_fit(j, spec_align(word_round(size as int) + word_round(align as int)))] {
            let sz = spec_align(word_round(size as int) + word_round(align as int));
            let ptr = old.payload(j);
            let a = word_round(align as int);
            &&& old.first_fit(j, sz)
            &&& Self::took(old, new, j, sz)
            &&& new.stashed() == old.stashed().insert(p, ptr as usize)
            &&& p & ((a - 1) as usize) == 0
            &&& ptr < p <= ptr + a
            &&& p + size <= ptr + sz
        }
    }

    /// Allocates `size` bytes at an address that is a multiple of `align`
    /// (at least a word): a block of `size + align` bytes (both rounded up
    /// to words) is taken first fit, the first aligned address strictly
    /// past the block's start is handed out, and the block's address is
    /// stashed in the word before it.
    #[verifier::spinoff_prover]
    pub fn malloc_align(&mut self, size: usize, align: usize) -> (p: usize)
        requires
            old(self).can_malloc_align(size, align),
        ensures
            Self::malloc_align_done(old(self), final(self), size, align, p),
    {
        let uintptr_size: usize = WORD_SIZE - 1;
        let align2 = word_round_exec(align);
        let size2 = word_round_exec(size);
        let align_size = size2 + align2;
        proof {
            lemma_pow2_round(align);
        }
        let r = self.malloc(align_size);
        match r {
            Some(ptr) => {
                let ghost j = choose|j: int| old(self).first_fit(j, spec_align(align_size as int))
                    && r == Some(old(self).payload(j) as usize) && Self::took(old(self), self, j, spec_align(align_size as int));
                proof {
                    assert(old(self).first_fit(j, spec_align(align_size as int)));
                    old(self).lemma_fit_position(j, spec_align(align_size as int));
                    assert(old(self).link_ok(j));
                }
                let align_ptr = round_past(ptr, align2);
                let ghost before = *self;
                self.stash.insert(align_ptr, ptr);
                proof {
                    Self::lemma_wf_frame(&before, self);
                    assert(Self::took(old(self), self, j, spec_align(align_size as int)));
                }
                align_ptr
            },
            None => {
                proof {
                    assert(false);
                }
                0
            },
        }
    }

    /// Gives back an aligned allocation: the block whose address is
    /// stashed for `p` is freed.
    pub fn free_align(&mut self, p: usize)
        requires
            old(self).wf(),
            old(self).stashed().contains_key(p),
            exists|j: int| #[trigger] old(self).allocation(old(self).stashed()[p], j),
        ensures
            final(self).wf(),
            final(self).same_frame(old(self)),
            final(self).stashed() == old(self).stashed(),
            exists|j: int| {
                &&& #[trigger] old(self).allocation(old(self).stashed()[p], j)
                &&& final(self).chain() == old(self).freed_chain(j)
                &&& final(self).states() == old(self).freed_states(j)
            },
    {
        let addr = *self.stash.get(&p).unwrap();
        self.free(addr);
    }
}

/// `x` is a power of two.
pub open spec fn is_pow2(x: usize) -> bool {
    x > 0 && x & ((x - 1) as usize) == 0
}

/// `x` rounded up to a multiple of the word size.
pub open spec fn word_round(x: int) -> int {
    (x + WORD_SIZE - 1) / (WORD_SIZE as int) * (WORD_SIZE as int)
}

/// `x` rounded up to a multiple of the word size.
fn word_round_exec(x: usize) -> (r: usize)
    requires
        x + WORD_SIZE - 1 <= usize::MAX,
    ensures
        r == word_round(x as int),
        x <= r < x + WORD_SIZE,
{
    let s = x + (WORD_SIZE - 1);
    assert(s & !3usize == s - s % 4) by (bit_vector);
    s & !(WORD_SIZE - 1)
}

/// A power of two rounded up to a multiple of the word size is a power of
/// two no smaller than a word.
proof fn lemma_pow2_round(a: usize)
    requires
        is_pow2(a),
        a <= usize::MAX - WORD_SIZE,
    ensures
        is_pow2(word_round(a as int) as usize),
        word_round(a as int) >= WORD_SIZE,
        word_round(a as int) <= a + WORD_SIZE,
{
    let s = (a + 3) as usize;
    assert(s & !3usize == s - s % 4) by (bit_vector);
    let r = s & !3usize;
    assert(r > 0 && r & ((r - 1) as usize) == 0 && r >= 4 && r <= a + 4)
        by (bit_vector)
        requires
            a > 0,
            a & ((a - 1) as usize) == 0,
            s == (a + 3) as usize,
            s >= a,
            r == s & !3usize,
    ;
}

/// The first multiple of `a` strictly past `x`... when `x` is not a
/// multiple itself, the next one; when it is, `x + a`.
fn round_past(x: usize, a: usize) -> (r: usize)
    requires
        is_pow2(a),
        x + a <= usize::MAX,
    ensures
        r & ((a - 1) as usize) == 0,
        x < r <= x + a,
{
    if x & (a - 1) == 0 {
        let y = x + a;
        assert(y & ((a - 1) as usize) == 0) by (bit_vector)
            requires
                x & ((a - 1) as usize) == 0,
                a > 0,
                a & ((a - 1) as usize) == 0,
                y == (x + a) as usize,
        ;
        y
    } else {
        let r = (x + (a - 1)) & !(a - 1);
        let y = x + a;
        assert(r & ((a - 1) as usize) == 0 && x < r && r <= x + a) by (bit_vector)
            requires
                x & ((a - 1) as usize) != 0,
                a > 0,
                a & ((a - 1) as usize) == 0,
                y == (x + a) as usize,
                y >= x,
                r == ((x + ((a - 1) as usize)) as usize) & !((a - 1) as usize),
        ;
        r
    }
}

/// Freeing what `malloc` has just handed out puts the heap's blocks back as
/// they were: `h1` is `h0` after `malloc` gave `addr` for `size` (rounded)
/// bytes, and `h2` is `h1` after `free(addr)`.
pub proof fn lemma_free_undoes_malloc(h0: SmallMem, h1: SmallMem, h2: SmallMem, size: int, addr: usize)
    requires
        h0.wf(),
        h1.wf(),
        h1.same_frame(&h0),
        exists|j: int| #![trigger h0.first_fit(j, size)]
            h0.first_fit(j, size) && h0.payload(j) == addr && SmallMem::took(&h0, &h1, j, size),
        exists|j: int| #![trigger h1.allocation(addr, j)]
            h1.allocation(addr, j) && h2.chain() == h1.freed_chain(j) && h2.states() == h1.freed_states(j),
    ensures
        h2.chain() == h0.chain(),
        h2.states() == h0.states(),
{
    let j = choose|j: int| #![trigger h0.first_fit(j, size)]
        h0.first_fit(j, size) && h0.payload(j) == addr && SmallMem::took(&h0, &h1, j, size);
    let k = choose|k: int| #![trigger h1.allocation(addr, k)]
        h1.allocation(addr, k) && h2.chain() == h1.freed_chain(k) && h2.states() == h1.freed_states(k);
    let b = h0.chain();
    let n = b.len();
    assert(h0.free_at(j));
    assert(h0.states()[j] == (b[j], false));
    assert(j + 1 < n - 1 ==> !h0.free_at(j + 1)) by {
        if j + 1 < n - 1 {
            assert(!(h0.free_at(j) && h0.free_at(j + 1)));
        }
    }
    assert(j > 0 ==> !h0.free_at(j - 1)) by {
        if j > 0 {
            assert(!(h0.free_at(j - 1) && h0.free_at(j)));
        }
    }
    let b1 = h1.chain();
    assert(b1[j] == b[j]);
    assert(h1.used_at(j)) by {
        assert(h1.states()[j].1);
    }
    assert(h1.allocation(addr, j));
    assert(k == j) by {
        if k < j {
            assert(b1[k] < b1[j]);
        } else if k > j {
            assert(b1[j] < b1[k]);
        }
    }
    assert forall|i: int| 0 <= i < b1.len() - 1 implies (#[trigger] h1.free_at(i)) == !h1.states()[i].1 by {
    }
    assert forall|i: int| 0 <= i < n - 1 implies (#[trigger] h0.free_at(i)) == !h0.states()[i].1 by {
    }
    if h0.capacity(j) >= size + SIZEOF_STRUCT_MEM + MIN_SIZE_ALIGNED {
        assert(h1.free_at(j + 1)) by {
            assert(h1.states()[j + 1].1 == false);
        }
        if j > 0 {
            assert(!h1.free_at(j - 1)) by {
                assert(h1.states()[j - 1] == h0.states()[j - 1]);
            }
        }
        assert(h1.freed_chain(j) =~= b);
        assert(h1.freed_states(j) =~= h0.states());
    } else {
        if j + 1 < n - 1 {
            assert(!h1.free_at(j + 1)) by {
                assert(h1.states()[j + 1] == h0.states()[j + 1]);
            }
        }
        if j > 0 {
            assert(!h1.free_at(j - 1)) by {
                assert(h1.states()[j - 1] == h0.states()[j - 1]);
            }
        }
        assert(h1.freed_chain(j) =~= b);
        assert(h1.freed_states(j) =~= h0.states());
    }
}

/// The kernel's allocator: requests are served from the kernel heap.
pub struct SystemHeapAllocator;

impl SystemHeapAllocator {
    /// Allocates `size` bytes aligned to `align` from the kernel heap (see
    /// `SmallMem::malloc_align`).
    pub fn allocate(&self, system: &mut System, size: usize, align: usize) -> (p: usize)
        requires
            old(system).heap_view() is Some,
            old(system).heap_view().unwrap().can_malloc_align(size, align),
        ensures
            final(system).heap_view() is Some,
            SmallMem::malloc_align_done(&old(system).heap_view().unwrap(), &final(system).heap_view().unwrap(), size, align, p),
            System::only_sched_changed(old(system), final(system)),
            final(system).sched() == old(system).sched(),
    {
        system.heap().malloc_align(size, align)
    }

    /// Gives back an allocation made by `allocate` (see `SmallMem::free_align`).
    pub fn deallocate(&self, system: &mut System, ptr: usize)
        requires
            old(system).heap_view() is Some,
            old(system).heap_view().unwrap().wf(),
            old(system).heap_view().unwrap().stashed().contains_key(ptr),
            exists|j: int| #[trigger] old(system).heap_view().unwrap().allocation(old(system).heap_view().unwrap().stashed()[ptr], j),
        ensures
            final(system).heap_view() is Some,
            final(system).heap_view().unwrap().wf(),
            final(system).heap_view().unwrap().same_frame(&old(system).heap_view().unwrap()),
            exists|j: int| {
                &&& #[trigger] old(system).heap_view().unwrap().allocation(old(system).heap_view().unwrap().stashed()[ptr], j)
                &&& final(system).heap_view().unwrap().chain() == old(system).heap_view().unwrap().freed_chain(j)
                &&& final(system).heap_view().unwrap().states() == old(system).heap_view().unwrap().freed_states(j)
            },
            System::only_sched_changed(old(system), final(system)),
            final(system).sched() == old(system).sched(),
    {
        system.heap().free_align(ptr);
    }
}

} // verus!
