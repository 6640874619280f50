use asteria::buffer_pool::{aligned_capacity, build_aligned_payload, Acquired, BufferPool};

#[test]
fn aligned_capacity_rounds_up_to_four() {
    assert_eq!(aligned_capacity(0), 4);
    assert_eq!(aligned_capacity(1), 4);
    assert_eq!(aligned_capacity(4), 4);
    assert_eq!(aligned_capacity(5), 8);
    assert_eq!(aligned_capacity(13), 16);
}

#[test]
fn payload_is_zero_padded() {
    assert_eq!(build_aligned_payload(&[1, 2, 3], 8), vec![1, 2, 3, 0, 0, 0, 0, 0]);
    assert_eq!(build_aligned_payload(&[1, 2, 3], 2), vec![1, 2, 3]);
}

#[test]
fn pool_reuses_first_fitting_buffer() {
    let mut pool: BufferPool<&str> = BufferPool::new();
    match pool.acquire_vertex_buffer(&[9; 5]) {
        (Acquired::Create(size), payload) => {
            assert_eq!(size, 8);
            assert_eq!(payload, vec![9, 9, 9, 9, 9, 0, 0, 0]);
        }
        _ => panic!("nothing to reuse yet"),
    }
    pool.release_vertex_buffer("small", 4);
    pool.release_vertex_buffer("big", 64);
    pool.release_vertex_buffer("bigger", 128);
    match pool.acquire_vertex_buffer(&[1; 10]) {
        (Acquired::Reused(b), _) => assert_eq!(b, "big"),
        _ => panic!("a free buffer fits"),
    }
    assert_eq!(pool.free_vertex_buffers.len(), 2);
    assert!(pool.free_index_buffers.is_empty());
}

#[test]
fn pool_keeps_at_most_eight() {
    let mut pool: BufferPool<u32> = BufferPool::new();
    for i in 0..10 {
        pool.release_index_buffer(i, 16);
    }
    assert_eq!(pool.free_index_buffers.len(), 8);
    match pool.acquire_index_buffer(&[0; 3]) {
        (Acquired::Reused(b), payload) => {
            assert_eq!(b, 0);
            assert_eq!(payload, vec![0, 0, 0, 0]);
        }
        _ => panic!("a free buffer fits"),
    }
}
