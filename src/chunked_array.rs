use vstd::prelude::*;
use crate::chunk::Chunk;

verus! {

/// The items of a list of chunks, chunk after chunk.
pub open spec fn concat<T>(chunks: Seq<Seq<Option<T>>>) -> Seq<Option<T>>
    decreases chunks.len(),
{
    if chunks.len() == 0 {
        Seq::empty()
    } else {
        concat(chunks.drop_last()) + chunks.last()
    }
}

/// Taking one more chunk appends that chunk's items.
pub proof fn lemma_concat_step<T>(chunks: Seq<Seq<Option<T>>>, k: int)
    requires
        0 <= k < chunks.len(),
    ensures
        concat(chunks.take(k + 1)) == concat(chunks.take(k)) + chunks[k],
{
    assert(chunks.take(k + 1).drop_last() =~= chunks.take(k));
}

/// The items of the first `k` chunks are a prefix of the items of all chunks.
pub proof fn lemma_concat_prefix<T>(chunks: Seq<Seq<Option<T>>>, k: int)
    requires
        0 <= k <= chunks.len(),
    ensures
        concat(chunks.take(k)).len() <= concat(chunks).len(),
        forall|i: int|
            0 <= i < concat(chunks.take(k)).len() ==> #[trigger] concat(chunks)[i] == concat(
                chunks.take(k),
            )[i],
    decreases chunks.len(),
{
    if k == chunks.len() {
        assert(chunks.take(k) =~= chunks);
    } else {
        let d = chunks.drop_last();
        lemma_concat_prefix(d, k);
        assert(d.take(k) =~= chunks.take(k));
    }
}

/// Chunk boundaries do not show in the items: splitting a list of chunks at
/// any index, or merging all of them into one chunk, leaves the items as
/// they were.
pub proof fn lemma_chunk_boundaries_invisible<T>(chunks: Seq<Seq<Option<T>>>, k: int)
    requires
        0 <= k <= chunks.len(),
    ensures
        concat(chunks) == concat(chunks.take(k)) + concat(chunks.skip(k)),
        concat(seq![concat(chunks)]) == concat(chunks),
    decreases chunks.len(),
{
    let one = seq![concat(chunks)];
    assert(one.drop_last() =~= Seq::<Seq<Option<T>>>::empty());
    assert(concat(one.drop_last()) =~= Seq::<Option<T>>::empty());
    assert(one.last() == concat(chunks));
    assert(concat(one) =~= concat(chunks));
    if k == chunks.len() {
        assert(chunks.take(k) =~= chunks);
        assert(chunks.skip(k) =~= Seq::<Seq<Option<T>>>::empty());
        assert(concat(chunks) =~= concat(chunks.take(k)) + concat(chunks.skip(k)));
    } else {
        let d = chunks.drop_last();
        lemma_chunk_boundaries_invisible(d, k);
        assert(d.take(k) =~= chunks.take(k));
        assert(chunks.skip(k).drop_last() =~= d.skip(k));
        assert(chunks.skip(k).last() == chunks.last());
        assert(concat(chunks) =~= concat(chunks.take(k)) + concat(chunks.skip(k)));
    }
}

/// A named column made of an ordered list of chunks, with its total length
/// kept beside them.
#[derive(Debug)]
pub struct ChunkedArray<T> {
    name: String,
    chunks: Vec<Chunk<T>>,
    length: usize,
}

pub type UInt32Chunked = ChunkedArray<u32>;

/// The items of each chunk of a list.
pub open spec fn chunk_views<T>(chunks: Seq<Chunk<T>>) -> Seq<Seq<Option<T>>> {
    chunks.map_values(|c: Chunk<T>| c@)
}

impl<T> ChunkedArray<T> {
    pub closed spec fn spec_chunks(&self) -> Seq<Chunk<T>> {
        self.chunks@
    }

    pub closed spec fn spec_len(&self) -> nat {
        self.length as nat
    }

    pub closed spec fn spec_name(&self) -> Seq<char> {
        self.name@
    }

    /// The items of each chunk, in chunk order.
    pub open spec fn chunk_views(&self) -> Seq<Seq<Option<T>>> {
        chunk_views(self.spec_chunks())
    }

    /// The column as one sequence of present-or-absent items.
    pub open spec fn view(&self) -> Seq<Option<T>> {
        concat(self.chunk_views())
    }

    /// Every chunk is well formed and the recorded length is the sum of the
    /// chunk lengths.
    pub open spec fn wf(&self) -> bool {
        &&& forall|i: int| 0 <= i < self.spec_chunks().len() ==> #[trigger] self.spec_chunks()[i].wf()
        &&& self.spec_len() == self@.len()
    }

    /// A single chunk in which every position holds a value: the items can
    /// then be read from one contiguous run of values.
    pub open spec fn fast_path_eligible(&self) -> bool {
        &&& self.spec_chunks().len() == 1
        &&& self.spec_chunks()[0].spec_dense()
    }

    /// Builds a column from its chunks, computing the total length.
    pub fn new_from_chunks(name: String, chunks: Vec<Chunk<T>>) -> (r: ChunkedArray<T>)
        requires
            forall|i: int| 0 <= i < chunks@.len() ==> #[trigger] chunks@[i].wf(),
            concat(chunk_views(chunks@)).len() <= usize::MAX,
        ensures
            r.wf(),
            r.spec_chunks() == chunks@,
            r.spec_name() == name@,
    {
        let ghost views = chunk_views(chunks@);
        let n = chunks.len();
        let mut length: usize = 0;
        let mut i: usize = 0;
        while i < n
            invariant
                n == chunks@.len(),
                i <= n,
                views == chunk_views(chunks@),
                forall|j: int| 0 <= j < chunks@.len() ==> #[trigger] chunks@[j].wf(),
                concat(views).len() <= usize::MAX,
                length == concat(views.take(i as int)).len(),
            decreases n - i,
        {
            proof {
                lemma_concat_step(views, i as int);
                lemma_concat_prefix(views, i + 1);
            }
            length = length + chunks[i].len();
            i = i + 1;
        }
        assert(views.take(n as int) =~= views);
        ChunkedArray { name, chunks, length }
    }

    /// The recorded total length.
    pub fn len(&self) -> (r: usize)
        requires
            self.wf(),
        ensures
            r == self@.len(),
    {
        self.length
    }

    pub fn is_empty(&self) -> (r: bool)
        requires
            self.wf(),
        ensures
            r == (self@.len() == 0),
    {
        self.length == 0
    }

    /// The number of chunks.
    pub fn n_chunks(&self) -> (r: usize)
        ensures
            r == self.spec_chunks().len(),
    {
        self.chunks.len()
    }

    /// The chunk at index `i`.
    pub fn chunk(&self, i: usize) -> (r: &Chunk<T>)
        requires
            i < self.spec_chunks().len(),
        ensures
            *r == self.spec_chunks()[i as int],
    {
        &self.chunks[i]
    }

    /// The column's label.
    pub fn name(&self) -> (r: &str)
        ensures
            r@ == self.spec_name(),
    {
        self.name.as_str()
    }

    /// The one contiguous run of values that holds every item, where the
    /// column has one. It does exactly when the column is eligible for the
    /// fast path.
    pub fn cont_slice(&self) -> (r: Option<&[T]>)
        requires
            self.wf(),
        ensures
            r is Some <==> self.fast_path_eligible(),
            r matches Some(s) ==> self@ == s@.map_values(|v: T| Some(v)),
    {
        if self.chunks.len() != 1 {
            return None;
        }
        let c = &self.chunks[0];
        if !c.is_dense() {
            return None;
        }
        let s = c.values().as_slice();
        proof {
            lemma_fast_path_equivalence(self);
        }
        Some(s)
    }
}

/// On a column eligible for the fast path, the contiguous run of values
/// that the fast path reads, each taken as present, is exactly the sequence
/// of items that a cursor over the chunks yields.
pub proof fn lemma_fast_path_equivalence<T>(a: &ChunkedArray<T>)
    requires
        a.wf(),
        a.fast_path_eligible(),
    ensures
        a.spec_chunks()[0].spec_values().map_values(|v: T| Some(v)) == a@,
{
    let views = a.chunk_views();
    let c = a.spec_chunks()[0];
    assert(views.drop_last() =~= Seq::<Seq<Option<T>>>::empty());
    assert(concat(views.drop_last()) =~= Seq::<Option<T>>::empty());
    assert(c.wf());
    assert(c@ =~= c.spec_values().map_values(|v: T| Some(v)));
    assert(views.last() == c@);
    assert(a@ =~= c.spec_values().map_values(|v: T| Some(v)));
}

impl<T: Copy> ChunkedArray<T> {
    /// Builds a column of one chunk holding every value of `v`.
    pub fn new_from_slice(name: &str, v: &[T]) -> (r: ChunkedArray<T>)
        ensures
            r.wf(),
            r@ == v@.map_values(|x: T| Some(x)),
            r.spec_name() == name@,
    {
        let n = v.len();
        let mut values: Vec<T> = Vec::with_capacity(n);
        let mut i: usize = 0;
        while i < n
            invariant
                n == v@.len(),
                i <= n,
                values@ == v@.take(i as int),
            decreases n - i,
        {
            values.push(v[i]);
            i = i + 1;
            assert(values@ =~= v@.take(i as int));
        }
        assert(v@.take(n as int) =~= v@);
        let c = Chunk::from_values(values);
        let mut chunks: Vec<Chunk<T>> = Vec::new();
        chunks.push(c);
        proof {
            let views = chunk_views(chunks@);
            assert(views.drop_last() =~= Seq::<Seq<Option<T>>>::empty());
            assert(concat(views.drop_last()) =~= Seq::<Option<T>>::empty());
            assert(concat(views) =~= c@);
        }
        ChunkedArray::new_from_chunks(name.to_owned(), chunks)
    }
}

} // verus!
