use vstd::prelude::*;

verus! {

/// A double-ended list of values.
///
/// The list is observed through its view, the sequence of its values from
/// front to back.
pub struct List<T> {
    items: Vec<T>,
}

/// Iterator over the values a list held when it was turned into one.
pub struct Iter<T> {
    items: Vec<T>,
    pos: usize,
}

impl<T> View for List<T> {
    type V = Seq<T>;

    closed spec fn view(&self) -> Seq<T> {
        self.items@
    }
}

/// `i` is where `insert_with_cmp` puts `value` into `s`: every value before
/// `i` was compared with `value` and the comparison answered `false`, and the
/// value at `i` (if any) answered `true`.
pub open spec fn insert_position<T, F: Fn(&T, &T) -> bool>(
    s: Seq<T>,
    value: T,
    compare: F,
    i: int,
) -> bool {
    &&& 0 <= i <= s.len()
    &&& forall|j: int| 0 <= j < i ==> #[trigger] compare.ensures((&value, &s[j]), false)
    &&& i < s.len() ==> compare.ensures((&value, &s[i]), true)
}

/// `k` is how many values `pop_with_cmp` takes off the front of `s`: the
/// comparison answered `true` for each of the first `k` values and `false`
/// for the next one (if any).
pub open spec fn pop_count<V, T, C: Fn(&V, &T) -> bool>(
    s: Seq<T>,
    value: V,
    compare: C,
    k: int,
) -> bool {
    &&& 0 <= k <= s.len()
    &&& forall|j: int| 0 <= j < k ==> #[trigger] compare.ensures((&value, &s[j]), true)
    &&& k < s.len() ==> compare.ensures((&value, &s[k]), false)
}

/// A length as an integer.
pub open spec fn len_int(n: nat) -> int {
    n as int
}

/// An index as an integer.
pub open spec fn index_int(i: usize) -> int {
    i as int
}

impl<T> List<T> {
    /// An empty list.
    pub fn new() -> (list: Self)
        ensures
            list@ == Seq::<T>::empty(),
    {
        List { items: Vec::new() }
    }

    /// Puts `value` in front of all others.
    pub fn push_front(&mut self, value: T)
        ensures
            final(self)@ == seq![value] + old(self)@,
    {
        self.items.insert(0, value);
        assert(self.items@ =~= seq![value] + old(self)@);
    }

    /// Puts `value` behind all others.
    pub fn push_back(&mut self, value: T)
        ensures
            final(self)@ == old(self)@.push(value),
    {
        self.items.push(value);
    }

    /// Walks the list from the front and puts `value` before the first
    /// value `v` for which `compare(&value, v)` holds; at the back if there
    /// is none.
    pub fn insert_with_cmp<F: Fn(&T, &T) -> bool>(&mut self, value: T, compare: F)
        requires
            forall|a: &T, b: &T| #[trigger] compare.requires((a, b)),
        ensures
            exists|i: int|
                insert_position(old(self)@, value, compare, i) && final(self)@ == old(self)@.insert(i, value),
    {
        let mut i: usize = 0;
        while i < self.items.len()
            invariant
                0 <= i <= self.items@.len(),
                self.items@ == old(self)@,
                forall|a: &T, b: &T| #[trigger] compare.requires((a, b)),
                forall|j: int|
                    0 <= j < i ==> #[trigger] compare.ensures((&value, &old(self)@[j]), false),
            decreases self.items@.len() - i,
        {
            let found = compare(&value, &self.items[i]);
            if found {
                self.items.insert(i, value);
                assert(insert_position(old(self)@, value, compare, index_int(i)));
                return;
            }
            i += 1;
        }
        self.items.push(value);
        assert(insert_position(old(self)@, value, compare, index_int(i)));
        assert(self.items@ =~= old(self)@.insert(index_int(i), value));
    }

    /// Takes values off the front of the list as long as
    /// `compare(value, front)` holds, and gives them back in list order.
    pub fn pop_with_cmp<V, C: Fn(&V, &T) -> bool>(&mut self, value: &V, compare: C) -> (popped:
        Vec<T>)
        requires
            forall|a: &V, b: &T| #[trigger] compare.requires((a, b)),
        ensures
            pop_count(old(self)@, *value, compare, len_int(popped@.len())),
            popped@ == old(self)@.take(len_int(popped@.len())),
            final(self)@ == old(self)@.skip(len_int(popped@.len())),
    {
        let mut popped: Vec<T> = Vec::new();
        while self.items.len() > 0
            invariant
                forall|a: &V, b: &T| #[trigger] compare.requires((a, b)),
                len_int(popped@.len()) + self.items@.len() == old(self)@.len(),
                popped@ == old(self)@.take(len_int(popped@.len())),
                self.items@ == old(self)@.skip(len_int(popped@.len())),
                forall|j: int|
                    0 <= j < len_int(popped@.len()) ==> #[trigger] compare.ensures(
                        (value, &old(self)@[j]),
                        true,
                    ),
            decreases self.items@.len(),
        {
            let take = compare(value, &self.items[0]);
            if !take {
                assert(pop_count(old(self)@, *value, compare, len_int(popped@.len())));
                return popped;
            }
            let front = self.items.remove(0);
            popped.push(front);
            assert(popped@ =~= old(self)@.take(len_int(popped@.len())));
            assert(self.items@ =~= old(self)@.skip(len_int(popped@.len())));
        }
        assert(pop_count(old(self)@, *value, compare, len_int(popped@.len())));
        popped
    }

    /// Takes the front value off the list.
    pub fn pop_front(&mut self) -> (front: Option<T>)
        ensures
            old(self)@.len() == 0 ==> front is None && final(self)@ == old(self)@,
            old(self)@.len() > 0 ==> front == Some(old(self)@[0]) && final(self)@ == old(self)@.drop_first(),
    {
        if self.items.len() == 0 {
            None
        } else {
            let front = self.items.remove(0);
            assert(self.items@ =~= old(self)@.drop_first());
            Some(front)
        }
    }

    /// Takes the back value off the list.
    pub fn pop_back(&mut self) -> (back: Option<T>)
        ensures
            old(self)@.len() == 0 ==> back is None && final(self)@ == old(self)@,
            old(self)@.len() > 0 ==> back == Some(old(self)@.last()) && final(self)@ == old(self)@.drop_last(),
    {
        self.items.pop()
    }

    /// The value at position `i`, to be changed in place.
    pub fn get_mut(&mut self, i: usize) -> (v: &mut T)
        requires
            i < old(self)@.len(),
        ensures
            *v == old(self)@[index_int(i)],
            final(self)@ == old(self)@.update(index_int(i), *final(v)),
    {
        &mut self.items[i]
    }

    /// The value at position `i`.
    pub fn get(&self, i: usize) -> (v: &T)
        requires
            i < self@.len(),
        ensures
            *v == self@[index_int(i)],
    {
        &self.items[i]
    }

    /// Number of values in the list.
    pub fn len(&self) -> (n: usize)
        ensures
            n == self@.len(),
    {
        self.items.len()
    }

    /// Whether the list holds no value.
    pub fn is_empty(&self) -> (b: bool)
        ensures
            b == (self@.len() == 0),
    {
        self.items.len() == 0
    }

    /// An iterator over the values of the list, front first.
    pub fn into_iter(self) -> (it: Iter<T>)
        ensures
            it.wf(),
            it.remaining() == self@,
    {
        Iter { items: self.items, pos: 0 }
    }
}

impl<T: Copy> List<T> {
    /// The values of the list, front first.
    pub fn to_vec(&self) -> (v: Vec<T>)
        ensures
            v@ == self@,
    {
        let mut v: Vec<T> = Vec::new();
        let mut i: usize = 0;
        while i < self.items.len()
            invariant
                0 <= i <= self.items@.len(),
                v@ == self.items@.take(i as int),
            decreases self.items@.len() - i,
        {
            v.push(self.items[i]);
            i += 1;
            assert(v@ =~= self.items@.take(i as int));
        }
        assert(self.items@.take(i as int) =~= self.items@);
        v
    }
}

impl<T> Iter<T> {
    /// The values the iterator has yet to give.
    pub closed spec fn remaining(&self) -> Seq<T> {
        self.items@.skip(self.pos as int)
    }

    /// The position is within the values.
    pub closed spec fn wf(&self) -> bool {
        self.pos <= self.items@.len()
    }
}

impl<T: Copy> Iter<T> {
    /// The next value, if any.
    pub fn next(&mut self) -> (v: Option<T>)
        requires
            old(self).wf(),
        ensures
            final(self).wf(),
            old(self).remaining().len() == 0 ==> v is None && final(self).remaining() == old(self).remaining(),
            old(self).remaining().len() > 0 ==> v == Some(old(self).remaining()[0]) && final(self).remaining() == old(self).remaining().drop_first(),
    {
        if self.pos < self.items.len() {
            let v = self.items[self.pos];
            self.pos += 1;
            assert(self.remaining() =~= old(self).remaining().drop_first());
            Some(v)
        } else {
            None
        }
    }
}

} // verus!
