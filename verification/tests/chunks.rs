use aobscan::Pattern;

#[test]
fn chunks_divide_the_buffer_and_reach_into_their_neighbours() {
    assert_eq!(Pattern::get_chunk_range(100, 4, 3, 0), (0, 28));
    assert_eq!(Pattern::get_chunk_range(100, 4, 3, 1), (22, 53));
    assert_eq!(Pattern::get_chunk_range(100, 4, 3, 2), (47, 78));
    assert_eq!(Pattern::get_chunk_range(100, 4, 3, 3), (72, 100));
}

#[test]
fn the_last_chunk_takes_the_remainder() {
    assert_eq!(Pattern::get_chunk_range(10, 3, 0, 0), (0, 3));
    assert_eq!(Pattern::get_chunk_range(10, 3, 0, 1), (3, 6));
    assert_eq!(Pattern::get_chunk_range(10, 3, 0, 2), (6, 10));
}

#[test]
fn chunks_are_clamped_to_the_buffer() {
    assert_eq!(Pattern::get_chunk_range(10, 2, 7, 0), (0, 10));
    assert_eq!(Pattern::get_chunk_range(10, 2, 7, 1), (0, 10));
    assert_eq!(Pattern::get_chunk_range(10, 2, 2, 0), (0, 7));
    assert_eq!(Pattern::get_chunk_range(10, 2, 2, 1), (3, 10));
    assert_eq!(Pattern::get_chunk_range(10, 2, usize::MAX, 1), (0, 10));
}

#[test]
fn one_chunk_is_the_whole_buffer() {
    assert_eq!(Pattern::get_chunk_range(10, 1, 4, 0), (0, 10));
    assert_eq!(Pattern::get_chunk_range(0, 1, 4, 0), (0, 0));
    assert_eq!(Pattern::get_chunk_range(usize::MAX, 1, usize::MAX, 0), (0, usize::MAX));
}

#[test]
fn more_chunks_than_bytes_give_empty_segments_and_one_last_chunk() {
    assert_eq!(Pattern::get_chunk_range(3, 5, 0, 0), (0, 0));
    assert_eq!(Pattern::get_chunk_range(3, 5, 0, 3), (0, 0));
    assert_eq!(Pattern::get_chunk_range(3, 5, 0, 4), (0, 3));
    assert_eq!(Pattern::get_chunk_range(3, 5, 2, 0), (0, 2));
    assert_eq!(Pattern::get_chunk_range(3, 5, 2, 4), (0, 3));
}
