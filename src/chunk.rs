use vstd::prelude::*;

verus! {

/// One immutable, contiguous segment of a column: a value slot and a
/// validity flag for each position. Slots whose flag is `false` hold an
/// unspecified value that is never read.
#[derive(Debug)]
pub struct Chunk<T> {
    values: Vec<T>,
    validity: Vec<bool>,
}

/// The item at position `i` of a chunk with the given slots and flags.
pub open spec fn slot_item<T>(values: Seq<T>, validity: Seq<bool>, i: int) -> Option<T> {
    if validity[i] {
        Some(values[i])
    } else {
        None
    }
}

impl<T> Chunk<T> {
    pub open spec fn wf(&self) -> bool {
        self.spec_values().len() == self.spec_validity().len()
    }

    pub closed spec fn spec_values(&self) -> Seq<T> {
        self.values@
    }

    pub closed spec fn spec_validity(&self) -> Seq<bool> {
        self.validity@
    }

    /// The chunk as a sequence of present-or-absent items.
    pub open spec fn view(&self) -> Seq<Option<T>> {
        Seq::new(
            self.spec_validity().len(),
            |i: int| slot_item(self.spec_values(), self.spec_validity(), i),
        )
    }

    /// Every position holds a value.
    pub open spec fn spec_dense(&self) -> bool {
        forall|i: int| 0 <= i < self.spec_validity().len() ==> #[trigger] self.spec_validity()[i]
    }

    /// Builds a chunk from value slots and validity flags of equal length.
    pub fn from_parts(values: Vec<T>, validity: Vec<bool>) -> (r: Chunk<T>)
        requires
            values@.len() == validity@.len(),
        ensures
            r.wf(),
            r.spec_values() == values@,
            r.spec_validity() == validity@,
    {
        Chunk { values, validity }
    }

    /// Builds a chunk in which every position holds its value.
    pub fn from_values(values: Vec<T>) -> (r: Chunk<T>)
        ensures
            r.wf(),
            r.spec_values() == values@,
            r.spec_dense(),
            r@ == values@.map_values(|v: T| Some(v)),
    {
        let n = values.len();
        let validity = vec![true; n];
        let r = Chunk { values, validity };
        assert(r@ =~= values@.map_values(|v: T| Some(v)));
        r
    }

    pub fn len(&self) -> (r: usize)
        requires
            self.wf(),
        ensures
            r == self@.len(),
    {
        self.validity.len()
    }

    /// Whether position `i` holds no value.
    pub fn is_null(&self, i: usize) -> (r: bool)
        requires
            self.wf(),
            i < self@.len(),
        ensures
            r == (self@[i as int] is None),
    {
        !self.validity[i]
    }

    /// The contiguous value slots of the chunk.
    pub fn values(&self) -> (r: &Vec<T>)
        ensures
            r@ == self.spec_values(),
    {
        &self.values
    }

    /// A reference to the value slot at position `i`.
    pub fn value_ref(&self, i: usize) -> (r: &T)
        requires
            self.wf(),
            i < self@.len(),
        ensures
            *r == self.spec_values()[i as int],
            self@[i as int] is Some ==> self@[i as int] == Some(*r),
    {
        &self.values[i]
    }

    /// Whether every position of the chunk holds a value.
    pub fn is_dense(&self) -> (r: bool)
        requires
            self.wf(),
        ensures
            r == self.spec_dense(),
    {
        let n = self.validity.len();
        let mut i: usize = 0;
        while i < n
            invariant
                n == self.validity@.len(),
                i <= n,
                forall|j: int| 0 <= j < i ==> #[trigger] self.validity@[j],
            decreases n - i,
        {
            if !self.validity[i] {
                assert(!self.spec_validity()[i as int]);
                return false;
            }
            i = i + 1;
        }
        true
    }

    /// Number of positions that hold no value.
    pub fn null_count(&self) -> (r: usize)
        requires
            self.wf(),
        ensures
            r == self@.filter(|o: Option<T>| o is None).len(),
    {
        let n = self.validity.len();
        let mut i: usize = 0;
        let mut c: usize = 0;
        while i < n
            invariant
                n == self.validity@.len(),
                i <= n,
                c <= i,
                c == self@.take(i as int).filter(|o: Option<T>| o is None).len(),
            decreases n - i,
        {
            proof {
                reveal(Seq::filter);
                assert(self@.take(i + 1).drop_last() =~= self@.take(i as int));
            }
            if !self.validity[i] {
                c = c + 1;
            }
            i = i + 1;
        }
        assert(self@.take(n as int) =~= self@);
        c
    }
}

impl<T: Copy> Chunk<T> {
    /// The item at position `i`.
    pub fn get(&self, i: usize) -> (r: Option<T>)
        requires
            self.wf(),
            i < self@.len(),
        ensures
            r == self@[i as int],
    {
        if self.validity[i] {
            Some(self.values[i])
        } else {
            None
        }
    }

    /// The value slot at position `i`, read without looking at validity.
    pub fn value(&self, i: usize) -> (r: T)
        requires
            self.wf(),
            i < self@.len(),
        ensures
            r == self.spec_values()[i as int],
            self@[i as int] is Some ==> self@[i as int] == Some(r),
    {
        self.values[i]
    }
}

impl<T: Copy + Default> Chunk<T> {
    /// Builds a chunk holding exactly the given items.
    pub fn from_options(items: &Vec<Option<T>>) -> (r: Chunk<T>)
        ensures
            r.wf(),
            r@ == items@,
    {
        let n = items.len();
        let mut values: Vec<T> = Vec::with_capacity(n);
        let mut validity: Vec<bool> = Vec::with_capacity(n);
        let mut i: usize = 0;
        while i < n
            invariant
                n == items@.len(),
                i <= n,
                values@.len() == i,
                validity@.len() == i,
                forall|j: int|
                    0 <= j < i ==> slot_item(values@, validity@, j) == #[trigger] items@[j],
            decreases n - i,
        {
            match items[i] {
                Some(v) => {
                    values.push(v);
                    validity.push(true);
                },
                None => {
                    values.push(T::default());
                    validity.push(false);
                },
            }
            i = i + 1;
        }
        let r = Chunk { values, validity };
        assert(r@ =~= items@);
        r
    }
}

} // verus!
