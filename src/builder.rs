use vstd::prelude::*;
use crate::chunk::{slot_item, Chunk};
use crate::chunked_array::{chunk_views, concat, ChunkedArray};

verus! {

/// Accumulates present-or-absent values of a fixed-width kind. Finishing
/// freezes everything appended into exactly one chunk of a new column.
pub struct PrimitiveChunkedBuilder<T> {
    name: String,
    values: Vec<T>,
    validity: Vec<bool>,
}

impl<T> PrimitiveChunkedBuilder<T> {
    pub closed spec fn spec_name(&self) -> Seq<char> {
        self.name@
    }

    pub closed spec fn wf(&self) -> bool {
        self.values@.len() == self.validity@.len()
    }

    /// The items appended so far.
    pub closed spec fn view(&self) -> Seq<Option<T>> {
        Seq::new(self.validity@.len(), |i: int| slot_item(self.values@, self.validity@, i))
    }

    /// An empty builder for a column labelled `name`, with room reserved for
    /// `capacity` items.
    pub fn new(name: &str, capacity: usize) -> (r: PrimitiveChunkedBuilder<T>)
        ensures
            r.wf(),
            r@ == Seq::<Option<T>>::empty(),
            r.spec_name() == name@,
    {
        let r = PrimitiveChunkedBuilder {
            name: name.to_owned(),
            values: Vec::with_capacity(capacity),
            validity: Vec::with_capacity(capacity),
        };
        assert(r@ =~= Seq::<Option<T>>::empty());
        r
    }

    /// Appends a present value.
    pub fn append_value(&mut self, v: T)
        requires
            old(self).wf(),
        ensures
            final(self).wf(),
            final(self)@ == old(self)@.push(Some(v)),
            final(self).spec_name() == old(self).spec_name(),
    {
        self.values.push(v);
        self.validity.push(true);
        assert(self@ =~= old(self)@.push(Some(v)));
    }

    /// Builds the column: one chunk that holds every appended item, in order.
    pub fn finish(self) -> (r: ChunkedArray<T>)
        requires
            self.wf(),
        ensures
            r.wf(),
            r@ == self@,
            r.spec_chunks().len() == 1,
            r.spec_name() == self.spec_name(),
    {
        let ghost items = self@;
        let PrimitiveChunkedBuilder { name, values, validity } = self;
        let n: usize = validity.len();
        let c = Chunk::from_parts(values, validity);
        assert(c@ =~= items);
        assert(c@.len() == n);
        let mut chunks: Vec<Chunk<T>> = Vec::new();
        chunks.push(c);
        proof {
            let views = chunk_views(chunks@);
            assert(views.drop_last() =~= Seq::<Seq<Option<T>>>::empty());
            assert(concat(views.drop_last()) =~= Seq::<Option<T>>::empty());
            assert(concat(views) =~= c@);
        }
        ChunkedArray::new_from_chunks(name, chunks)
    }
}

impl<T: Default> PrimitiveChunkedBuilder<T> {
    /// Appends an absent value.
    pub fn append_null(&mut self)
        requires
            old(self).wf(),
        ensures
            final(self).wf(),
            final(self)@ == old(self)@.push(None),
            final(self).spec_name() == old(self).spec_name(),
    {
        self.values.push(T::default());
        self.validity.push(false);
        assert(self@ =~= old(self)@.push(None));
    }

    /// Appends a present or an absent value.
    pub fn append_option(&mut self, v: Option<T>)
        requires
            old(self).wf(),
        ensures
            final(self).wf(),
            final(self)@ == old(self)@.push(v),
            final(self).spec_name() == old(self).spec_name(),
    {
        match v {
            Some(x) => self.append_value(x),
            None => self.append_null(),
        }
    }
}

impl<T: Copy + Default> ChunkedArray<T> {
    /// Collects a sequence of present-or-absent values into a new, unlabelled
    /// column of one chunk; iterating it gives the sequence back.
    pub fn from_iter(items: Vec<Option<T>>) -> (r: ChunkedArray<T>)
        ensures
            r.wf(),
            r@ == items@,
            r.spec_name() == Seq::<char>::empty(),
    {
        proof {
            reveal_strlit("");
        }
        let mut builder = PrimitiveChunkedBuilder::new("", 1024);
        let n = items.len();
        let mut i: usize = 0;
        while i < n
            invariant
                builder.wf(),
                n == items@.len(),
                i <= n,
                builder@ == items@.take(i as int),
                builder.spec_name() == Seq::<char>::empty(),
            decreases n - i,
        {
            builder.append_option(items[i]);
            i = i + 1;
            assert(builder@ =~= items@.take(i as int));
        }
        assert(items@.take(n as int) =~= items@);
        builder.finish()
    }
}

} // verus!
