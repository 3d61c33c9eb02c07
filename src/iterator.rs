use vstd::prelude::*;
use crate::chunk::Chunk;
use crate::chunked_array::{concat, lemma_concat_prefix, lemma_concat_step, ChunkedArray};

verus! {

/// Chunk index `c` and offset `a` point at logical position `pos` of the
/// chunks' items: inside a chunk while items remain, and at `(n, 0)` once
/// they are all consumed.
pub open spec fn points_at<T>(views: Seq<Seq<Option<T>>>, c: int, a: int, pos: int) -> bool {
    &&& 0 <= c <= views.len()
    &&& 0 <= a
    &&& pos == concat(views.take(c)).len() + a
    &&& c < views.len() ==> a < views[c].len()
    &&& c == views.len() ==> a == 0
}

/// A cursor inside a chunk is before the end, and reads that chunk's item.
pub proof fn lemma_points_at<T>(views: Seq<Seq<Option<T>>>, c: int, a: int, pos: int)
    requires
        points_at(views, c, a, pos),
    ensures
        c < views.len() <==> pos < concat(views).len(),
        c == views.len() <==> pos == concat(views).len(),
        c < views.len() ==> concat(views)[pos] == views[c][a],
{
    if c < views.len() {
        lemma_concat_step(views, c);
        lemma_concat_prefix(views, c + 1);
    } else {
        assert(views.take(c) =~= views);
    }
}

/// Moves past chunks that hold no item, starting at chunk `c`.
fn skip_empty_chunks<T>(arr: &ChunkedArray<T>, c: usize) -> (r: usize)
    requires
        arr.wf(),
        c <= arr.chunk_views().len(),
    ensures
        points_at(arr.chunk_views(), r as int, 0, concat(arr.chunk_views().take(c as int)).len() as int),
{
    let ghost views = arr.chunk_views();
    let ghost base = concat(views.take(c as int)).len();
    let n = arr.n_chunks();
    let mut i: usize = c;
    while i < n && arr.chunk(i).len() == 0
        invariant
            arr.wf(),
            views == arr.chunk_views(),
            n == views.len(),
            c <= i <= n,
            concat(views.take(i as int)).len() == base,
        decreases n - i,
    {
        proof {
            lemma_concat_step(views, i as int);
        }
        i = i + 1;
    }
    i
}

/// Moves a cursor that points at an item to the next item, crossing into
/// the next non-empty chunk when the current one is done.
fn advance<T>(arr: &ChunkedArray<T>, c: usize, a: usize) -> (r: (usize, usize))
    requires
        arr.wf(),
        c < arr.chunk_views().len(),
        points_at(arr.chunk_views(), c as int, a as int, concat(arr.chunk_views().take(c as int)).len() + a),
    ensures
        points_at(
            arr.chunk_views(),
            r.0 as int,
            r.1 as int,
            concat(arr.chunk_views().take(c as int)).len() + a + 1,
        ),
{
    let ghost views = arr.chunk_views();
    let n = arr.n_chunks();
    let len = arr.chunk(c).len();
    if a + 1 < len {
        (c, a + 1)
    } else {
        proof {
            lemma_concat_step(views, c as int);
        }
        let next = skip_empty_chunks(arr, c + 1);
        (next, 0)
    }
}

/// A cursor over a column that yields each item in order, whether present
/// or absent, across chunk boundaries.
pub struct ChunkIterState<'a, T> {
    array: &'a ChunkedArray<T>,
    chunk_i: usize,
    array_i: usize,
}

impl<'a, T> ChunkIterState<'a, T> {
    /// The items of the column walked over.
    pub closed spec fn source(&self) -> Seq<Option<T>> {
        self.array@
    }

    /// How many items have been yielded.
    pub closed spec fn position(&self) -> int {
        concat(self.array.chunk_views().take(self.chunk_i as int)).len() + self.array_i
    }

    pub closed spec fn wf(&self) -> bool {
        &&& self.array.wf()
        &&& points_at(self.array.chunk_views(), self.chunk_i as int, self.array_i as int, self.position())
    }

    /// The items still to come.
    pub open spec fn remaining(&self) -> Seq<Option<T>> {
        self.source().skip(self.position())
    }

    /// Starts a cursor at the first item of the column.
    pub fn new(array: &'a ChunkedArray<T>) -> (r: ChunkIterState<'a, T>)
        requires
            array.wf(),
        ensures
            r.wf(),
            r.source() == array@,
            r.position() == 0,
            r.remaining() == array@,
    {
        proof {
            assert(array.chunk_views().take(0) =~= Seq::<Seq<Option<T>>>::empty());
        }
        let c = skip_empty_chunks(array, 0);
        let r = ChunkIterState { array, chunk_i: c, array_i: 0 };
        assert(r.remaining() =~= array@);
        r
    }

    /// Whether every item has been yielded.
    pub fn out_of_bounds(&self) -> (r: bool)
        requires
            self.wf(),
        ensures
            r == (self.position() >= self.source().len()),
            r == (self.remaining().len() == 0),
    {
        proof {
            lemma_points_at(self.array.chunk_views(), self.chunk_i as int, self.array_i as int, self.position());
        }
        self.chunk_i >= self.array.n_chunks()
    }
    /// The chunk and offset of the next item.
    pub(crate) fn current(&self) -> (r: (&'a Chunk<T>, usize))
        requires
            self.wf(),
            self.remaining().len() > 0,
        ensures
            r.0.wf(),
            r.1 < r.0@.len(),
            r.0@[r.1 as int] == self.remaining()[0],
    {
        proof {
            lemma_points_at(self.array.chunk_views(), self.chunk_i as int, self.array_i as int, self.position());
        }
        let arr: &'a ChunkedArray<T> = self.array;
        (arr.chunk(self.chunk_i), self.array_i)
    }

    /// Moves past the next item.
    pub(crate) fn step(&mut self)
        requires
            old(self).wf(),
            old(self).remaining().len() > 0,
        ensures
            final(self).wf(),
            final(self).source() == old(self).source(),
            final(self).position() == old(self).position() + 1,
            final(self).remaining() == old(self).remaining().skip(1),
    {
        proof {
            lemma_points_at(self.array.chunk_views(), self.chunk_i as int, self.array_i as int, self.position());
        }
        let ghost old_rem = self.remaining();
        let (c, a) = advance(self.array, self.chunk_i, self.array_i);
        self.chunk_i = c;
        self.array_i = a;
        assert(self.remaining() =~= old_rem.skip(1));
    }
}

impl<'a, T: Copy> ChunkIterState<'a, T> {
    /// Yields the next item, or `None` once every item has been yielded;
    /// after that every call returns `None` and changes nothing.
    pub fn next(&mut self) -> (r: Option<Option<T>>)
        requires
            old(self).wf(),
        ensures
            final(self).wf(),
            final(self).source() == old(self).source(),
            old(self).remaining().len() == 0 ==> r is None && *final(self) == *old(self),
            old(self).remaining().len() > 0 ==> {
                &&& r == Some(old(self).remaining()[0])
                &&& final(self).position() == old(self).position() + 1
                &&& final(self).remaining() == old(self).remaining().skip(1)
            },
    {
        if self.out_of_bounds() {
            return None;
        }
        let (chunk, i) = self.current();
        let ret = if chunk.is_null(i) {
            None
        } else {
            Some(chunk.value(i))
        };
        self.step();
        Some(ret)
    }

    /// Yields every item still to come, in order.
    pub fn collect_vec(&mut self) -> (r: Vec<Option<T>>)
        requires
            old(self).wf(),
        ensures
            final(self).wf(),
            final(self).source() == old(self).source(),
            r@ == old(self).remaining(),
            final(self).remaining().len() == 0,
    {
        let ghost start = self.remaining();
        let mut out: Vec<Option<T>> = Vec::new();
        loop
            invariant
                self.wf(),
                self.source() == old(self).source(),
                start == old(self).remaining(),
                start == out@ + self.remaining(),
            decreases self.remaining().len(),
        {
            match self.next() {
                None => {
                    assert(start =~= out@);
                    return out;
                },
                Some(item) => {
                    out.push(item);
                    assert(start =~= out@ + self.remaining());
                },
            }
        }
    }
}

/// A cursor started on a well-formed column has exactly as many items to
/// yield as the column's recorded length, whatever its chunk layout.
pub proof fn lemma_cursor_length<T>(a: &ChunkedArray<T>, it: ChunkIterState<T>)
    requires
        a.wf(),
        it.wf(),
        it.source() == a@,
        it.position() == 0,
    ensures
        it.remaining().len() == a.spec_len(),
{
    assert(it.remaining() =~= a@);
}

/// Iteration over a column from the first item.
pub trait ChunkIterator<T>: Sized {
    /// The column is well formed, so a cursor can walk it.
    spec fn iter_ready(&self) -> bool;

    /// The items a cursor yields.
    spec fn iter_items(&self) -> Seq<Option<T>>;

    fn iter(&self) -> (r: ChunkIterState<'_, T>)
        requires
            self.iter_ready(),
        ensures
            r.wf(),
            r.position() == 0,
            r.remaining() == self.iter_items(),
    ;
}

impl<T> ChunkIterator<T> for ChunkedArray<T> {
    open spec fn iter_ready(&self) -> bool {
        self.wf()
    }

    open spec fn iter_items(&self) -> Seq<Option<T>> {
        self@
    }

    fn iter(&self) -> (r: ChunkIterState<'_, T>) {
        ChunkIterState::new(self)
    }
}

/// An iterator that reads a column eligible for the fast path from its one
/// contiguous run of values, with a plain counter and no validity checks,
/// and otherwise walks the chunks as a cursor does.
pub struct ChunkNumIter<'a, T> {
    cursor: ChunkIterState<'a, T>,
    opt_slice: Option<&'a [T]>,
    slice_i: usize,
}

impl<'a, T> ChunkNumIter<'a, T> {
    /// The items of the column walked over.
    pub closed spec fn source(&self) -> Seq<Option<T>> {
        self.cursor.source()
    }

    /// Whether the contiguous run of values serves the items.
    pub closed spec fn on_fast_path(&self) -> bool {
        self.opt_slice is Some
    }

    /// How many items have been yielded.
    pub closed spec fn position(&self) -> int {
        if self.opt_slice is Some {
            self.slice_i as int
        } else {
            self.cursor.position()
        }
    }

    pub closed spec fn wf(&self) -> bool {
        &&& self.cursor.wf()
        &&& self.opt_slice matches Some(s) ==> {
            &&& self.cursor.source() == s@.map_values(|v: T| Some(v))
            &&& self.slice_i <= s@.len()
        }
    }

    /// The items still to come.
    pub open spec fn remaining(&self) -> Seq<Option<T>> {
        self.source().skip(self.position())
    }
}

impl<'a, T: Copy> ChunkNumIter<'a, T> {
    /// Yields the next item, or `None` once every item has been yielded;
    /// after that every call returns `None` and changes nothing.
    pub fn next(&mut self) -> (r: Option<Option<T>>)
        requires
            old(self).wf(),
        ensures
            final(self).wf(),
            final(self).source() == old(self).source(),
            final(self).on_fast_path() == old(self).on_fast_path(),
            old(self).remaining().len() == 0 ==> r is None && *final(self) == *old(self),
            old(self).remaining().len() > 0 ==> {
                &&& r == Some(old(self).remaining()[0])
                &&& final(self).position() == old(self).position() + 1
                &&& final(self).remaining() == old(self).remaining().skip(1)
            },
    {
        if let Some(s) = self.opt_slice {
            if self.slice_i < s.len() {
                let ghost old_rem = self.remaining();
                let v = s[self.slice_i];
                self.slice_i = self.slice_i + 1;
                assert(self.remaining() =~= old_rem.skip(1));
                return Some(Some(v));
            }
            return None;
        }
        self.cursor.next()
    }

    /// Yields every item still to come, in order.
    pub fn collect_vec(&mut self) -> (r: Vec<Option<T>>)
        requires
            old(self).wf(),
        ensures
            final(self).wf(),
            final(self).source() == old(self).source(),
            r@ == old(self).remaining(),
            final(self).remaining().len() == 0,
    {
        let ghost start = self.remaining();
        let mut out: Vec<Option<T>> = Vec::new();
        loop
            invariant
                self.wf(),
                self.source() == old(self).source(),
                start == old(self).remaining(),
                start == out@ + self.remaining(),
            decreases self.remaining().len(),
        {
            match self.next() {
                None => {
                    assert(start =~= out@);
                    return out;
                },
                Some(item) => {
                    out.push(item);
                    assert(start =~= out@ + self.remaining());
                },
            }
        }
    }
}

impl<T> ChunkedArray<T> {
    /// The most efficient iterator over the column: it reads the contiguous
    /// run of values when the column is eligible for the fast path, and
    /// walks the chunks otherwise. Either way it yields the column's items.
    pub fn into_iter(&self) -> (r: ChunkNumIter<'_, T>)
        requires
            self.wf(),
        ensures
            r.wf(),
            r.source() == self@,
            r.position() == 0,
            r.remaining() == self@,
            r.on_fast_path() == self.fast_path_eligible(),
    {
        let opt_slice = self.cont_slice();
        let cursor = ChunkIterState::new(self);
        ChunkNumIter { cursor, opt_slice, slice_i: 0 }
    }
}

} // verus!
