use vstd::prelude::*;
use crate::chunk::{slot_item, Chunk};
use crate::chunked_array::{chunk_views, concat, ChunkedArray};
use crate::iterator::ChunkIterState;
use vstd::string::StringSliceAdditionalSpecFns;

verus! {

/// A column of text values.
pub type Utf8Chunked = ChunkedArray<String>;

/// The largest byte offset that the text layout can encode.
pub const MAX_OFFSET: usize = 2147483647;

/// Why a text value could not be appended.
#[derive(Debug, PartialEq, Eq, Clone, Copy)]
pub enum AppendError {
    /// The values' bytes would run past the largest encodable offset.
    OffsetOverflow,
}

/// Text items seen as character sequences.
pub open spec fn text_items(items: Seq<Option<String>>) -> Seq<Option<Seq<char>>> {
    items.map_values(|o: Option<String>|
        match o {
            Some(s) => Some(s@),
            None => None,
        })
}

/// Accumulates present-or-absent text values. The bytes of all values
/// appended stay within `MAX_OFFSET`; an append that would pass it is
/// refused and changes nothing.
pub struct Utf8ChunkedBuilder {
    name: String,
    values: Vec<String>,
    validity: Vec<bool>,
    n_bytes: usize,
}

impl Utf8ChunkedBuilder {
    pub closed spec fn spec_name(&self) -> Seq<char> {
        self.name@
    }

    /// The number of bytes of the values appended so far.
    pub closed spec fn spec_n_bytes(&self) -> nat {
        self.n_bytes as nat
    }

    pub closed spec fn wf(&self) -> bool {
        &&& self.values@.len() == self.validity@.len()
        &&& self.n_bytes <= MAX_OFFSET
    }

    /// The items appended so far.
    pub closed spec fn view(&self) -> Seq<Option<Seq<char>>> {
        text_items(
            Seq::new(self.validity@.len(), |i: int| slot_item(self.values@, self.validity@, i)),
        )
    }

    /// An empty builder for a column labelled `name`, with room reserved for
    /// `capacity` items.
    pub fn new(name: &str, capacity: usize) -> (r: Utf8ChunkedBuilder)
        ensures
            r.wf(),
            r@ == Seq::<Option<Seq<char>>>::empty(),
            r.spec_n_bytes() == 0,
            r.spec_name() == name@,
    {
        let r = Utf8ChunkedBuilder {
            name: name.to_owned(),
            values: Vec::with_capacity(capacity),
            validity: Vec::with_capacity(capacity),
            n_bytes: 0,
        };
        assert(r@ =~= Seq::<Option<Seq<char>>>::empty());
        r
    }

    /// Appends a present value, unless its bytes would carry the offsets
    /// past `MAX_OFFSET`.
    pub fn append_value(&mut self, v: &str) -> (r: Result<(), AppendError>)
        requires
            old(self).wf(),
        ensures
            final(self).wf(),
            final(self).spec_name() == old(self).spec_name(),
            r is Err <==> old(self).spec_n_bytes() + v.spec_bytes().len() > MAX_OFFSET,
            r is Err ==> r == Err::<(), AppendError>(AppendError::OffsetOverflow) && *final(self) == *old(self),
            r is Ok ==> final(self)@ == old(self)@.push(Some(v@))
                && final(self).spec_n_bytes() == old(self).spec_n_bytes() + v.spec_bytes().len(),
    {
        let len = v.as_bytes().len();
        if len > MAX_OFFSET - self.n_bytes {
            return Err(AppendError::OffsetOverflow);
        }
        let ghost before = self@;
        self.values.push(v.to_owned());
        self.validity.push(true);
        self.n_bytes = self.n_bytes + len;
        assert(self@ =~= before.push(Some(v@)));
        Ok(())
    }

    /// Appends an absent value.
    pub fn append_null(&mut self)
        requires
            old(self).wf(),
        ensures
            final(self).wf(),
            final(self)@ == old(self)@.push(None),
            final(self).spec_n_bytes() == old(self).spec_n_bytes(),
            final(self).spec_name() == old(self).spec_name(),
    {
        let ghost before = self@;
        self.values.push(String::new());
        self.validity.push(false);
        assert(self@ =~= before.push(None));
    }

    /// Builds the column: one chunk that holds every appended item, in order.
    pub fn finish(self) -> (r: Utf8Chunked)
        requires
            self.wf(),
        ensures
            r.wf(),
            text_items(r@) == self@,
            r.spec_chunks().len() == 1,
            r.spec_name() == self.spec_name(),
    {
        let ghost items = self@;
        let Utf8ChunkedBuilder { name, values, validity, n_bytes } = self;
        let n: usize = validity.len();
        let c = Chunk::from_parts(values, validity);
        assert(text_items(c@) =~= items);
        assert(c@.len() == n);
        let mut chunks: Vec<Chunk<String>> = Vec::new();
        chunks.push(c);
        proof {
            let views = chunk_views(chunks@);
            assert(views.drop_last() =~= Seq::<Seq<Option<String>>>::empty());
            assert(concat(views.drop_last()) =~= Seq::<Option<String>>::empty());
            assert(concat(views) =~= c@);
        }
        ChunkedArray::new_from_chunks(name, chunks)
    }
}

/// The combined bytes of some text values.
pub open spec fn total_bytes(values: Seq<&str>) -> nat
    decreases values.len(),
{
    if values.len() == 0 {
        0
    } else {
        total_bytes(values.drop_last()) + values.last().spec_bytes().len()
    }
}

impl ChunkedArray<String> {
    /// Collects text values, all present, into a new, unlabelled column of
    /// one chunk. Fails when their bytes together pass `MAX_OFFSET`.
    pub fn from_str_values(values: &[&str]) -> (r: Result<Utf8Chunked, AppendError>)
        ensures
            r is Ok <==> total_bytes(values@) <= MAX_OFFSET,
            r matches Ok(a) ==> {
                &&& a.wf()
                &&& text_items(a@) == values@.map_values(|s: &str| Some(s@))
                &&& a.spec_name() == Seq::<char>::empty()
            },
            r is Err ==> r == Err::<Utf8Chunked, AppendError>(AppendError::OffsetOverflow),
    {
        proof {
            reveal_strlit("");
        }
        let mut builder = Utf8ChunkedBuilder::new("", 1024);
        let n = values.len();
        let mut i: usize = 0;
        while i < n
            invariant
                builder.wf(),
                n == values@.len(),
                i <= n,
                builder@ == values@.take(i as int).map_values(|s: &str| Some(s@)),
                builder.spec_n_bytes() == total_bytes(values@.take(i as int)),
                builder.spec_name() == Seq::<char>::empty(),
            decreases n - i,
        {
            proof {
                assert(values@.take(i + 1).drop_last() =~= values@.take(i as int));
            }
            let res = builder.append_value(values[i]);
            if res.is_err() {
                proof {
                    lemma_total_bytes_prefix(values@, i + 1);
                }
                return Err(AppendError::OffsetOverflow);
            }
            i = i + 1;
            assert(builder@ =~= values@.take(i as int).map_values(|s: &str| Some(s@)));
        }
        assert(values@.take(n as int) =~= values@);
        Ok(builder.finish())
    }
}

/// The bytes of a prefix of some text values are at most the bytes of all.
pub proof fn lemma_total_bytes_prefix(values: Seq<&str>, k: int)
    requires
        0 <= k <= values.len(),
    ensures
        total_bytes(values.take(k)) <= total_bytes(values),
    decreases values.len(),
{
    if k == values.len() {
        assert(values.take(k) =~= values);
    } else {
        lemma_total_bytes_prefix(values.drop_last(), k);
        assert(values.drop_last().take(k) =~= values.take(k));
    }
}

impl<'a> ChunkIterState<'a, String> {
    /// Yields the next text item, borrowed from the column, or `None` once
    /// every item has been yielded; after that every call returns `None`
    /// and changes nothing.
    pub fn next_str(&mut self) -> (r: Option<Option<&'a str>>)
        requires
            old(self).wf(),
        ensures
            final(self).wf(),
            final(self).source() == old(self).source(),
            old(self).remaining().len() == 0 ==> r is None && *final(self) == *old(self),
            old(self).remaining().len() > 0 ==> {
                &&& r is Some
                &&& text_items(old(self).remaining())[0] == match r {
                    Some(Some(t)) => Some(t@),
                    _ => None::<Seq<char>>,
                }
                &&& final(self).position() == old(self).position() + 1
                &&& final(self).remaining() == old(self).remaining().skip(1)
            },
    {
        if self.out_of_bounds() {
            return None;
        }
        let (chunk, i) = self.current();
        let ret = if chunk.is_null(i) {
            None
        } else {
            Some(chunk.value_ref(i).as_str())
        };
        self.step();
        Some(ret)
    }
}

} // verus!
