use iobuf::iobuf::IoBuf;

/// Pseudo-random byte sequences standing in for an external test-input
/// generator; deterministic so failures reproduce.
fn generate_u8_vec(size: usize, seed: u32) -> Vec<u8> {
    let mut state = seed;
    let mut array = Vec::with_capacity(size);
    for _ in 0..size {
        state = state.wrapping_mul(1103515245).wrapping_add(12345);
        array.push(((state >> 16) % 101) as u8);
    }
    array
}

#[test]
fn test() {
    let mut iobuf = IoBuf::new();
    let values = generate_u8_vec(1000, 7);
    let size = values.len();
    iobuf.append(values.as_slice(), size).unwrap();
    {
        iobuf.share(0, 50);
    }
    iobuf.share(0, 1000);
}
