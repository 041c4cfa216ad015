//! A vector indexed by a newtyped index, so that indexes of different
//! domains cannot be mixed.

use vstd::prelude::*;
use vstd::pervasive::cloned;
use core::marker::PhantomData;

verus! {

broadcast use vstd::std_specs::vec::group_vec_axioms;

/// Represents some newtyped `usize` wrapper.
pub trait Idx: Copy + Eq {
    /// The position this index stands for.
    spec fn idx_spec(self) -> int;

    /// The positions this index type can represent.
    spec fn in_range(i: int) -> bool;

    /// The index standing for position `idx`.
    fn new(idx: usize) -> (r: Self)
        requires
            Self::in_range(idx as int),
        ensures
            r.idx_spec() == idx as int,
    ;

    /// The position this index stands for.
    fn index(self) -> (r: usize)
        ensures
            r as int == self.idx_spec(),
    ;
}

impl Idx for usize {
    open spec fn idx_spec(self) -> int {
        self as int
    }

    open spec fn in_range(i: int) -> bool {
        0 <= i <= usize::MAX
    }

    fn new(idx: usize) -> Self {
        idx
    }

    fn index(self) -> usize {
        self
    }
}

impl Idx for u32 {
    open spec fn idx_spec(self) -> int {
        self as int
    }

    open spec fn in_range(i: int) -> bool {
        0 <= i <= u32::MAX
    }

    fn new(idx: usize) -> Self {
        idx as u32
    }

    fn index(self) -> usize {
        self as usize
    }
}

/// A vector that can only be indexed by `I`.
#[derive(Debug)]
pub struct IndexVec<I: Idx, T> {
    pub raw: Vec<T>,
    pub _marker: PhantomData<I>,
}

impl<I: Idx, T> View for IndexVec<I, T> {
    type V = Seq<T>;

    open spec fn view(&self) -> Seq<T> {
        self.raw@
    }
}

impl<I: Idx, T> IndexVec<I, T> {
    /// An empty vector.
    pub fn new() -> (r: Self)
        ensures
            r@.len() == 0,
    {
        IndexVec { raw: Vec::new(), _marker: PhantomData }
    }

    /// An empty vector with room reserved for `capacity` elements.
    pub fn with_capacity(capacity: usize) -> (r: Self)
        ensures
            r@.len() == 0,
    {
        IndexVec { raw: Vec::with_capacity(capacity), _marker: PhantomData }
    }

    /// One copy of `elem` for every element of `universe`.
    pub fn from_elem<S>(elem: T, universe: &IndexVec<I, S>) -> (r: Self) where T: Clone
        ensures
            r@.len() == universe@.len(),
            forall|i: int| #![all_triggers] 0 <= i < r@.len() ==> cloned::<T>(elem, r@[i]),
    {
        IndexVec { raw: vec![elem; universe.len()], _marker: PhantomData }
    }

    /// `n` copies of `elem`.
    pub fn from_elem_n(elem: T, n: usize) -> (r: Self) where T: Clone
        ensures
            r@.len() == n,
            forall|i: int| #![all_triggers] 0 <= i < r@.len() ==> cloned::<T>(elem, r@[i]),
    {
        IndexVec { raw: vec![elem; n], _marker: PhantomData }
    }

    /// Appends an element, returning the index it lives at.
    pub fn push(&mut self, d: T) -> (r: I)
        requires
            I::in_range(old(self)@.len() as int),
        ensures
            final(self)@ == old(self)@.push(d),
            r.idx_spec() == old(self)@.len() as int,
    {
        let idx = I::new(self.raw.len());
        self.raw.push(d);
        idx
    }

    /// How many elements are stored.
    pub fn len(&self) -> (r: usize)
        ensures
            r == self@.len(),
    {
        self.raw.len()
    }

    /// Whether nothing is stored.
    pub fn is_empty(&self) -> (r: bool)
        ensures
            r == (self@.len() == 0),
    {
        self.raw.is_empty()
    }

    /// Consumes the vector into an iterator over its elements.
    pub fn into_iter(self) -> (r: std::vec::IntoIter<T>)
        ensures
            r == vstd::std_specs::vec::spec_into_iter(self.raw),
    {
        self.raw.into_iter()
    }

    /// An iterator over the stored elements.
    pub fn iter(&self) -> (r: std::slice::Iter<'_, T>)
        ensures
            vstd::std_specs::iter::IteratorSpec::remaining(&r) == self@.as_ref(),
    {
        broadcast use vstd::std_specs::slice::axiom_spec_slice_iter;

        self.raw.as_slice().iter()
    }

    /// The index of the last element, if one is stored.
    pub fn last(&self) -> (r: Option<I>)
        requires
            self@.len() > 0 ==> I::in_range(self@.len() - 1),
        ensures
            match r {
                Option::Some(i) => self@.len() > 0 && i.idx_spec() == self@.len() - 1,
                Option::None => self@.len() == 0,
            },
    {
        if self.raw.len() == 0 {
            Option::None
        } else {
            Option::Some(I::new(self.raw.len() - 1))
        }
    }

    /// Gives unused room back to the allocator; what is stored stays as it
    /// is. Relies on `Vec::shrink_to_fit`, which only lowers the capacity.
    #[verifier::external_body]
    pub fn shrink_to_fit(&mut self)
        ensures
            final(self)@ == old(self)@,
    {
        self.raw.shrink_to_fit()
    }

    /// Exchanges the elements at two positions. Relies on `slice::swap`,
    /// which swaps exactly the two named elements.
    #[verifier::external_body]
    pub fn swap(&mut self, a: usize, b: usize)
        requires
            a < old(self)@.len(),
            b < old(self)@.len(),
        ensures
            final(self)@ == old(self)@.update(a as int, old(self)@[b as int]).update(
                b as int,
                old(self)@[a as int],
            ),
    {
        self.raw.swap(a, b)
    }

    /// Keeps only the first `a` elements.
    pub fn truncate(&mut self, a: usize)
        ensures
            a <= old(self)@.len() ==> final(self)@ == old(self)@.subrange(0, a as int),
            a > old(self)@.len() ==> final(self)@ == old(self)@,
    {
        self.raw.truncate(a)
    }

    /// The element at `index`, if the position is filled.
    pub fn get(&self, index: I) -> (r: Option<&T>)
        ensures
            match r {
                Option::Some(v) => 0 <= index.idx_spec() < self@.len() && *v == self@[index.idx_spec()],
                Option::None => !(0 <= index.idx_spec() < self@.len()),
            },
    {
        let i = index.index();
        if i < self.raw.len() {
            Option::Some(&self.raw[i])
        } else {
            Option::None
        }
    }

    /// Exclusive access to the element at `index`, if the position is
    /// filled.
    pub fn get_mut(&mut self, index: I) -> (r: Option<&mut T>)
        ensures
            match r {
                Option::Some(v) => {
                    &&& 0 <= index.idx_spec() < old(self)@.len()
                    &&& *v == old(self)@[index.idx_spec()]
                    &&& final(self)@ == old(self)@.update(index.idx_spec(), *final(v))
                },
                Option::None => !(0 <= index.idx_spec() < old(self)@.len()) && final(self)@ == old(
                    self,
                )@,
            },
    {
        let i = index.index();
        if i < self.raw.len() {
            Option::Some(vstd::std_specs::vec::vec_index_mut(&mut self.raw, i))
        } else {
            Option::None
        }
    }
}

impl<I: Idx, T: Clone> IndexVec<I, T> {
    /// Grows or shrinks the vector to `new_len` elements, filling new room
    /// with copies of `value`.
    pub fn resize(&mut self, new_len: usize, value: T)
        ensures
            new_len <= old(self)@.len() ==> final(self)@ == old(self)@.subrange(0, new_len as int),
            new_len > old(self)@.len() ==> {
                &&& final(self)@.len() == new_len
                &&& final(self)@.subrange(0, old(self)@.len() as int) == old(self)@
                &&& forall|i: int|
                    #![all_triggers]
                    old(self)@.len() <= i < new_len ==> cloned::<T>(value, final(self)@[i])
            },
    {
        self.raw.resize(new_len, value)
    }
}

impl<I: Idx, T> Default for IndexVec<I, T> {
    /// An empty vector.
    fn default() -> (r: Self)
        ensures
            r@.len() == 0,
    {
        IndexVec::new()
    }
}

} // verus!
