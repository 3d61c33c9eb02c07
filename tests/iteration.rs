use polars_chunked::{Chunk, ChunkIterator, ChunkedArray, PrimitiveChunkedBuilder, UInt32Chunked};

fn column(parts: Vec<Vec<Option<u32>>>) -> UInt32Chunked {
    let chunks: Vec<Chunk<u32>> = parts.iter().map(|p| Chunk::from_options(p)).collect();
    ChunkedArray::new_from_chunks("c".to_string(), chunks)
}

fn drain_cursor(a: &UInt32Chunked) -> Vec<Option<u32>> {
    let mut it = a.iter();
    let mut out = Vec::new();
    while let Some(v) = it.next() {
        out.push(v);
    }
    out
}

fn drain_fast(a: &UInt32Chunked) -> Vec<Option<u32>> {
    let mut it = a.into_iter();
    let mut out = Vec::new();
    while let Some(v) = it.next() {
        out.push(v);
    }
    out
}

#[test]
fn out_of_bounds() {
    let a = UInt32Chunked::new_from_slice("a", &[1, 2, 3]);
    let v = a.iter().collect_vec();
    assert_eq!(v, vec![Some(1), Some(2), Some(3)]);
}

#[test]
fn length_matches_for_many_layouts() {
    let layouts: Vec<Vec<usize>> = vec![
        vec![],
        vec![0],
        vec![0, 0, 0],
        vec![3],
        vec![1, 0, 2],
        vec![0, 4, 0, 0, 1, 0],
    ];
    for lens in layouts {
        let parts: Vec<Vec<Option<u32>>> = lens
            .iter()
            .map(|&n| (0..n as u32).map(|x| if x % 2 == 0 { Some(x) } else { None }).collect())
            .collect();
        let total: usize = lens.iter().sum();
        let a = column(parts);
        assert_eq!(a.len(), total);
        assert_eq!(drain_cursor(&a).len(), total);
        assert_eq!(drain_fast(&a).len(), total);
    }
}

#[test]
fn chunk_boundaries_are_invisible() {
    let split = column(vec![vec![Some(1), None], vec![], vec![Some(3)], vec![Some(4), None]]);
    let whole = column(vec![vec![Some(1), None, Some(3), Some(4), None]]);
    assert_eq!(drain_cursor(&split), drain_cursor(&whole));
    assert_eq!(drain_cursor(&split), vec![Some(1), None, Some(3), Some(4), None]);
    assert_eq!(split.n_chunks(), 4);
    assert_eq!(whole.n_chunks(), 1);
}

#[test]
fn nulls_are_preserved() {
    let a = UInt32Chunked::from_iter(vec![Some(1), None, Some(3)]);
    assert_eq!(a.iter().collect_vec(), vec![Some(1), None, Some(3)]);
    assert_eq!(a.chunk(0).null_count(), 1);
    assert!(a.chunk(0).is_null(1));
    assert!(!a.chunk(0).is_null(0));
}

#[test]
fn fast_path_matches_cursor() {
    let a = UInt32Chunked::new_from_slice("dense", &[7, 8, 9, 10]);
    assert!(a.cont_slice().is_some());
    assert_eq!(a.cont_slice().unwrap(), &[7, 8, 9, 10]);
    assert_eq!(drain_fast(&a), drain_cursor(&a));
    assert_eq!(drain_fast(&a), vec![Some(7), Some(8), Some(9), Some(10)]);

    let empty = UInt32Chunked::new_from_slice("empty", &[]);
    assert!(empty.cont_slice().is_some());
    assert_eq!(drain_fast(&empty), Vec::<Option<u32>>::new());
    assert_eq!(drain_cursor(&empty), Vec::<Option<u32>>::new());
}

#[test]
fn fast_path_not_taken_with_nulls_or_many_chunks() {
    let with_null = column(vec![vec![Some(1), None]]);
    assert!(with_null.cont_slice().is_none());
    assert_eq!(drain_fast(&with_null), vec![Some(1), None]);

    let two = column(vec![vec![Some(1)], vec![Some(2)]]);
    assert!(two.cont_slice().is_none());
    assert_eq!(drain_fast(&two), vec![Some(1), Some(2)]);

    let none = column(vec![]);
    assert!(none.cont_slice().is_none());
    assert_eq!(drain_fast(&none), Vec::<Option<u32>>::new());
}

#[test]
fn round_trip_all_present() {
    let a = UInt32Chunked::from_iter(vec![Some(1u32), Some(2u32), Some(3u32)]);
    assert_eq!(a.iter().collect_vec(), vec![Some(1), Some(2), Some(3)]);
    assert_eq!(a.into_iter().collect_vec(), vec![Some(1), Some(2), Some(3)]);
    assert_eq!(a.name(), "");
}

#[test]
fn round_trip_empty_input() {
    let a = UInt32Chunked::from_iter(Vec::new());
    assert_eq!(a.len(), 0);
    assert!(a.is_empty());
    assert_eq!(a.n_chunks(), 1);
    assert_eq!(a.iter().collect_vec(), Vec::<Option<u32>>::new());
}

#[test]
fn zero_length_chunks_are_skipped() {
    let a = column(vec![vec![], vec![Some(10), None], vec![], vec![Some(30)]]);
    assert_eq!(a.len(), 3);
    assert_eq!(drain_cursor(&a), vec![Some(10), None, Some(30)]);
    assert_eq!(drain_fast(&a), vec![Some(10), None, Some(30)]);
}

#[test]
fn runs_of_empty_chunks_are_crossed_in_one_step() {
    let a = column(vec![vec![Some(1)], vec![], vec![], vec![], vec![Some(2)], vec![], vec![]]);
    let mut it = a.iter();
    assert_eq!(it.next(), Some(Some(1)));
    assert_eq!(it.next(), Some(Some(2)));
    assert_eq!(it.next(), None);
}

#[test]
fn termination_is_idempotent() {
    let a = column(vec![vec![Some(5)], vec![]]);
    let mut it = a.iter();
    assert_eq!(it.next(), Some(Some(5)));
    for _ in 0..5 {
        assert_eq!(it.next(), None);
    }
    let mut f = a.into_iter();
    assert_eq!(f.next(), Some(Some(5)));
    for _ in 0..5 {
        assert_eq!(f.next(), None);
    }

    let empty = column(vec![]);
    let mut e = empty.iter();
    assert!(e.out_of_bounds());
    for _ in 0..5 {
        assert_eq!(e.next(), None);
    }
    let dense_empty = UInt32Chunked::new_from_slice("e", &[]);
    let mut d = dense_empty.into_iter();
    for _ in 0..5 {
        assert_eq!(d.next(), None);
    }
}

#[test]
fn builder_appends_in_order() {
    let mut b: PrimitiveChunkedBuilder<u32> = PrimitiveChunkedBuilder::new("col", 2);
    b.append_value(4);
    b.append_null();
    b.append_option(Some(6));
    b.append_option(None);
    let a = b.finish();
    assert_eq!(a.name(), "col");
    assert_eq!(a.len(), 4);
    assert_eq!(a.n_chunks(), 1);
    assert_eq!(a.iter().collect_vec(), vec![Some(4), None, Some(6), None]);
    assert!(a.cont_slice().is_none());
}

#[test]
fn chunk_accessors() {
    let c = Chunk::from_parts(vec![1u32, 0, 3], vec![true, false, true]);
    assert_eq!(c.len(), 3);
    assert_eq!(c.get(0), Some(1));
    assert_eq!(c.get(1), None);
    assert_eq!(c.value(2), 3);
    assert!(!c.is_dense());
    assert_eq!(c.null_count(), 1);
    let d = Chunk::from_values(vec![2u32, 4]);
    assert!(d.is_dense());
    assert_eq!(d.null_count(), 0);
    assert_eq!(d.values(), &vec![2, 4]);
}
