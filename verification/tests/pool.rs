use multi_read::extent::FileExtent;
use multi_read::pool::allocate;

#[test]
fn pool_holds_one_zeroed_buffer_per_chunk() {
    let extent = FileExtent::new(5 * 4096, 4096).unwrap();
    let pool = allocate(&extent);
    assert_eq!(pool.len(), 5);
    for buffer in &pool {
        assert_eq!(buffer.len(), 4096);
        assert!(buffer.iter().all(|byte| *byte == 0));
    }
}

#[test]
fn buffers_of_a_pool_are_owned_apart() {
    let extent = FileExtent::new(3 * 16, 16).unwrap();
    let mut pool = allocate(&extent);
    pool[1][0] = 0xAA;
    assert_eq!(pool[0], vec![0u8; 16]);
    assert_eq!(pool[2], vec![0u8; 16]);
    assert_eq!(pool[1][0], 0xAA);
}

#[test]
fn pool_of_an_empty_file_is_empty() {
    let extent = FileExtent::new(0, 4096).unwrap();
    assert!(allocate(&extent).is_empty());
}
