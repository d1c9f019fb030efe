use iobuf::io_iterator_consumer::IoIteratorConsumer;
use iobuf::iobuf::IoBuf;

/// Pseudo-random byte sequences standing in for an external test-input
/// generator; deterministic so failures reproduce.
fn generate_u8_values(size: usize, seed: u32) -> Vec<u8> {
    let mut state = seed;
    let mut array = Vec::with_capacity(size);
    for _ in 0..size {
        state = state.wrapping_mul(1103515245).wrapping_add(12345);
        array.push(((state >> 16) % 101) as u8);
    }
    array
}

#[test]
fn test_consume_to_arr() {
    let mut iobuf = IoBuf::new();
    let values1 = generate_u8_values(1000, 11);
    iobuf.append(values1.as_slice(), values1.len()).unwrap();

    let values2 = generate_u8_values(3000, 23);
    iobuf.append(values2.as_slice(), values2.len()).unwrap();

    let mut consumer = IoIteratorConsumer::new(&iobuf);
    let arr = consumer.consume_to_arr(1000);
    assert_eq!(values1, arr);

    let arr2 = consumer.consume_to_arr(3000);
    assert_eq!(values2, arr2);
}
