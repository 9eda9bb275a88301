use distributed_sort::chunking::{round_robin_assign, split_vec, ChunkError};

#[test]
fn split_even_input_into_two_chunks() {
    let chunks = split_vec(&vec![6, 5, 4, 3, 2, 1], 2).unwrap();
    assert_eq!(chunks, vec![vec![6, 5, 4], vec![3, 2, 1]]);
}

#[test]
fn split_folds_remainder_into_last_chunk() {
    let chunks = split_vec(&vec![1, 2, 3, 4, 5, 6, 7], 2).unwrap();
    assert_eq!(chunks, vec![vec![1, 2, 3], vec![4, 5, 6, 7]]);
    let chunks = split_vec(&vec![1, 2, 3, 4, 5, 6, 7, 8, 9, 10, 11], 4).unwrap();
    assert_eq!(chunks, vec![vec![1, 2], vec![3, 4], vec![5, 6], vec![7, 8, 9, 10, 11]]);
}

#[test]
fn split_into_one_chunk_is_whole_input() {
    assert_eq!(split_vec(&vec![3, 1, 2], 1).unwrap(), vec![vec![3, 1, 2]]);
}

#[test]
fn split_into_as_many_chunks_as_values() {
    assert_eq!(split_vec(&vec![3, 1, 2], 3).unwrap(), vec![vec![3], vec![1], vec![2]]);
}

#[test]
fn split_chunks_concatenate_to_input() {
    let v: Vec<i64> = (0..103).map(|x| (x * 37) % 11).collect();
    for k in 1..=103usize {
        let chunks = split_vec(&v, k).unwrap();
        assert_eq!(chunks.len(), k);
        let size = v.len() / k;
        for c in chunks.iter().take(k - 1) {
            assert_eq!(c.len(), size);
        }
        assert!(chunks[k - 1].len() >= size);
        let joined: Vec<i64> = chunks.concat();
        assert_eq!(joined, v);
    }
}

#[test]
fn split_rejects_zero_chunks() {
    assert_eq!(split_vec(&vec![1, 2, 3], 0), Err(ChunkError::NoChunks));
    assert_eq!(split_vec(&vec![], 0), Err(ChunkError::NoChunks));
}

#[test]
fn split_rejects_more_chunks_than_values() {
    assert_eq!(split_vec(&vec![1, 2, 3], 4), Err(ChunkError::EmptyChunk));
    assert_eq!(split_vec(&vec![], 1), Err(ChunkError::EmptyChunk));
}

#[test]
fn round_robin_wraps_around() {
    let chunks = vec![vec![1], vec![2], vec![3], vec![4], vec![5]];
    let assigned = round_robin_assign(vec![0, 1], chunks);
    assert_eq!(
        assigned,
        vec![(0, vec![1]), (1, vec![2]), (0, vec![3]), (1, vec![4]), (0, vec![5])]
    );
}

#[test]
fn round_robin_uses_given_actor_order() {
    let chunks = vec![vec![9, 9], vec![], vec![7], vec![1]];
    let assigned = round_robin_assign(vec![30, 10, 20], chunks);
    assert_eq!(
        assigned,
        vec![(30, vec![9, 9]), (10, vec![]), (20, vec![7]), (30, vec![1])]
    );
}

#[test]
fn round_robin_ignores_chunk_contents() {
    let a = round_robin_assign(vec![0, 1, 2], vec![vec![1], vec![2], vec![3], vec![4]]);
    let b = round_robin_assign(vec![0, 1, 2], vec![vec![], vec![8, 8], vec![-1], vec![0]]);
    let wa: Vec<usize> = a.iter().map(|p| p.0).collect();
    let wb: Vec<usize> = b.iter().map(|p| p.0).collect();
    assert_eq!(wa, vec![0, 1, 2, 0]);
    assert_eq!(wa, wb);
}

#[test]
fn round_robin_with_more_actors_than_chunks() {
    let assigned = round_robin_assign(vec![0, 1, 2, 3], vec![vec![1], vec![2]]);
    assert_eq!(assigned, vec![(0, vec![1]), (1, vec![2])]);
}

#[test]
fn round_robin_without_actors_assigns_nothing() {
    let assigned = round_robin_assign(vec![], vec![vec![1], vec![2]]);
    assert!(assigned.is_empty());
}
