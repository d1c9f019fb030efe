use iobuf::io_allocation_size::IoAllocationSize;
use iobuf::io_fragment::IoFragment;
use iobuf::io_iterator_consumer::IoIteratorConsumer;
use iobuf::iobuf::IoBuf;
use iobuf::temporary_buffer::TemporaryBuffer;
use iobuf::BufError;

/// Pseudo-random byte sequences standing in for an external test-input
/// generator; deterministic so failures reproduce.
fn generate_bytes(size: usize, seed: u32) -> Vec<u8> {
    let mut state = seed;
    let mut array = Vec::with_capacity(size);
    for _ in 0..size {
        state = state.wrapping_mul(1103515245).wrapping_add(12345);
        array.push(((state >> 16) % 101) as u8);
    }
    array
}

fn read_all(buf: &IoBuf) -> Vec<u8> {
    let mut consumer = IoIteratorConsumer::new(buf);
    consumer.consume_to_arr(buf.size())
}

#[test]
fn next_size_picks_minimal_bucket() {
    assert_eq!(IoAllocationSize::next_allocation_size(0), 512);
    assert_eq!(IoAllocationSize::next_allocation_size(1), 512);
    assert_eq!(IoAllocationSize::next_allocation_size(512), 512);
    assert_eq!(IoAllocationSize::next_allocation_size(513), 768);
    assert_eq!(IoAllocationSize::next_allocation_size(8748), 8748);
    assert_eq!(IoAllocationSize::next_allocation_size(8749), 13122);
    assert_eq!(IoAllocationSize::next_allocation_size(99649), 131072);
    assert_eq!(IoAllocationSize::next_allocation_size(131072), 131072);
}

#[test]
fn next_size_keeps_largest_bucket_for_oversized_requests() {
    assert_eq!(IoAllocationSize::next_allocation_size(131073), 131072);
    assert_eq!(IoAllocationSize::next_allocation_size(1_000_000), 131072);
    assert_eq!(IoAllocationSize::next_allocation_size(usize::MAX), 131072);
}

#[test]
fn ref_count_conservation() {
    let buffer = TemporaryBuffer::new(12);
    assert_eq!(buffer.get_ref_count(), 1);
    let share = buffer.share();
    let slice = buffer.share_slice(0, 3).unwrap();
    assert_eq!(buffer.get_ref_count(), 3);
    drop(slice);
    assert_eq!(buffer.get_ref_count(), 2);
    drop(share);
    assert_eq!(buffer.get_ref_count(), 1);
}

#[test]
fn share_slice_window_and_bounds() {
    let data: Vec<u8> = vec![10, 11, 12, 13, 14, 15, 16, 17, 18, 19, 20, 21];
    let buffer = TemporaryBuffer::new_and_copy_data(data.as_slice());
    assert_eq!(buffer.as_slice(), data.as_slice());
    assert_eq!(buffer.begin(), 0);
    assert!(!buffer.is_empty());

    let slice = buffer.share_slice(3, 4).unwrap();
    assert_eq!(slice.as_slice(), &[13, 14, 15, 16]);
    assert_eq!(slice.begin(), 3);
    assert_eq!(slice.size(), 4);

    let nested = slice.share_slice(1, 2).unwrap();
    assert_eq!(nested.as_slice(), &[14, 15]);
    assert_eq!(nested.begin(), 4);

    match buffer.share_slice(10, 5) {
        Err(e) => assert_eq!(e, BufError::OutOfBounds),
        Ok(_) => panic!("expected an out-of-bounds error"),
    }
    match buffer.share_slice(13, 0) {
        Err(e) => assert_eq!(e, BufError::OutOfBounds),
        Ok(_) => panic!("expected an out-of-bounds error"),
    }
}

#[test]
fn write_requires_exclusivity() {
    let mut buffer = TemporaryBuffer::new(8);
    let held = buffer.share();
    assert!(!buffer.get_write());
    let data: Vec<u8> = vec![1, 2, 3];
    assert_eq!(
        buffer.write_from(0, data.as_slice()).unwrap_err(),
        BufError::ExclusivityViolation
    );
    drop(held);
    assert!(buffer.get_write());
    buffer.write_from(0, data.as_slice()).unwrap();
    assert_eq!(&buffer.as_slice()[0..3], &[1, 2, 3]);
}

#[test]
fn fragment_append_and_share() {
    let mut frag = IoFragment::new(16);
    assert!(frag.is_empty());
    assert_eq!(frag.capacity(), 16);
    assert_eq!(frag.available_bytes(), 16);

    let data: Vec<u8> = vec![1, 2, 3, 4, 5, 6, 7, 8, 9, 10];
    assert_eq!(frag.append(data.as_slice(), 10).unwrap(), 10);
    assert_eq!(frag.used_bytes(), 10);
    assert_eq!(frag.size(), 10);
    assert_eq!(frag.available_bytes(), 6);

    // only the free capacity is taken on a short write
    assert_eq!(frag.append(data.as_slice(), 10).unwrap(), 6);
    assert_eq!(frag.used_bytes(), 16);
    assert_eq!(frag.available_bytes(), 0);

    let whole = frag.share_whole();
    assert_eq!(whole.as_slice(), &[1, 2, 3, 4, 5, 6, 7, 8, 9, 10, 1, 2, 3, 4, 5, 6]);
    let part = frag.share(2, 3).unwrap();
    assert_eq!(part.as_slice(), &[3, 4, 5]);
    match frag.share(10, 7) {
        Err(e) => assert_eq!(e, BufError::OutOfBounds),
        Ok(_) => panic!("expected an out-of-bounds error"),
    }
}

#[test]
fn fragment_from_buffer_keeps_supplied_fill() {
    let data: Vec<u8> = vec![5, 6, 7, 8];
    let buffer = TemporaryBuffer::new_and_copy_data(data.as_slice());
    let frag = IoFragment::from_temporary_buffer(buffer, 4);
    assert_eq!(frag.used_bytes(), 4);
    assert_eq!(frag.available_bytes(), 0);
    assert_eq!(frag.share_whole().as_slice(), &[5, 6, 7, 8]);

    let empty_start = TemporaryBuffer::new(4);
    let frag2 = IoFragment::from_temporary_buffer(empty_start, 0);
    assert_eq!(frag2.used_bytes(), 0);
    assert_eq!(frag2.available_bytes(), 4);
}

#[test]
fn append_concatenation_reads_back() {
    let mut buf = IoBuf::new();
    let mut expected: Vec<u8> = Vec::new();
    let parts = [
        generate_bytes(300, 1),
        generate_bytes(900, 2),
        generate_bytes(2500, 3),
        generate_bytes(40, 4),
    ];
    for part in parts.iter() {
        buf.append(part.as_slice(), part.len()).unwrap();
        expected.extend_from_slice(part.as_slice());
    }
    assert_eq!(buf.size(), expected.len());
    assert_eq!(read_all(&buf), expected);
}

#[test]
fn append_oversized_request_spans_fragments() {
    let mut buf = IoBuf::new();
    let big = generate_bytes(200_000, 9);
    buf.append(big.as_slice(), big.len()).unwrap();
    assert_eq!(buf.size(), 200_000);
    assert_eq!(read_all(&buf), big);
}

#[test]
fn share_round_trip() {
    let mut buf = IoBuf::new();
    let values = generate_bytes(1000, 31);
    buf.append(values.as_slice(), values.len()).unwrap();

    let first = buf.share(0, 50);
    assert_eq!(first.size(), 50);
    assert_eq!(read_all(&first), &values[0..50]);

    let all = buf.share(0, 1000);
    assert_eq!(read_all(&all), values);

    let middle = buf.share(200, 300);
    assert_eq!(read_all(&middle), &values[200..500]);
}

#[test]
fn share_crosses_fragment_boundaries() {
    let mut buf = IoBuf::new();
    let a = generate_bytes(1000, 41);
    let b = generate_bytes(3000, 43);
    buf.append(a.as_slice(), a.len()).unwrap();
    buf.append(b.as_slice(), b.len()).unwrap();
    let mut expected: Vec<u8> = a.clone();
    expected.extend_from_slice(b.as_slice());

    let shared = buf.share(900, 2000);
    assert_eq!(read_all(&shared), &expected[900..2900]);
}

#[test]
fn append_external_buffer_is_zero_copy_ingestion() {
    let mut buf = IoBuf::new();
    let data = generate_bytes(100, 51);
    let region = TemporaryBuffer::new_and_copy_data(data.as_slice());
    buf.append_temporary_buffer(region);
    assert_eq!(buf.size(), 100);
    assert_eq!(buf.available_bytes(), 0);
    assert_eq!(read_all(&buf), data);
}

#[test]
fn append_blocked_while_tail_is_shared() {
    let mut buf = IoBuf::new();
    let data = generate_bytes(10, 61);
    buf.append(data.as_slice(), data.len()).unwrap();
    // a zero-copy share aliases the tail fragment's region
    let held = buf.share(0, 10);
    assert_eq!(
        buf.append(data.as_slice(), data.len()).unwrap_err(),
        BufError::ExclusivityViolation
    );
    assert_eq!(buf.size(), 10);
    drop(held);
    buf.append(data.as_slice(), data.len()).unwrap();
    assert_eq!(buf.size(), 20);
}

#[test]
fn boundary_append_of_nothing_is_a_no_op() {
    let mut buf = IoBuf::new();
    let data = generate_bytes(8, 71);
    buf.append(data.as_slice(), 0).unwrap();
    assert_eq!(buf.size(), 0);
    assert_eq!(buf.available_bytes(), 0);
    buf.append(data.as_slice(), 8).unwrap();
    buf.append(data.as_slice(), 0).unwrap();
    assert_eq!(buf.size(), 8);
}

#[test]
fn boundary_share_of_nothing_is_empty() {
    let mut buf = IoBuf::new();
    let data = generate_bytes(8, 73);
    buf.append(data.as_slice(), 8).unwrap();
    let empty = buf.share(3, 0);
    assert_eq!(empty.size(), 0);
    assert_eq!(read_all(&empty), Vec::<u8>::new());
    // a zero-length share is empty even past the end of the stream
    let past_end = buf.share(100, 0);
    assert_eq!(past_end.size(), 0);
    assert_eq!(past_end.available_bytes(), 0);
}

#[test]
fn boundary_consume_on_empty_buffer() {
    let buf = IoBuf::new();
    let mut consumer = IoIteratorConsumer::new(&buf);
    let spans = consumer.consume(5);
    assert_eq!(spans.len(), 0);
    let mut consumer2 = IoIteratorConsumer::new(&buf);
    assert_eq!(consumer2.consume_to_arr(5), Vec::<u8>::new());
    let mut consumer3 = IoIteratorConsumer::new(&buf);
    assert_eq!(consumer3.skip(5), 0);
}

#[test]
fn consume_surfaces_one_span_per_fragment() {
    let mut buf = IoBuf::new();
    let a = generate_bytes(1000, 81);
    let b = generate_bytes(3000, 83);
    buf.append(a.as_slice(), a.len()).unwrap();
    buf.append(b.as_slice(), b.len()).unwrap();

    let mut consumer = IoIteratorConsumer::new(&buf);
    let spans = consumer.consume(4000);
    let total: usize = spans.iter().map(|s| s.size()).sum();
    assert_eq!(total, 4000);
    let mut gathered: Vec<u8> = Vec::new();
    for span in spans.iter() {
        gathered.extend_from_slice(span.as_slice());
    }
    let mut expected = a.clone();
    expected.extend_from_slice(b.as_slice());
    assert_eq!(gathered, expected);
}

#[test]
fn consume_reports_short_reads() {
    let mut buf = IoBuf::new();
    let data = generate_bytes(100, 91);
    buf.append(data.as_slice(), 100).unwrap();
    let mut consumer = IoIteratorConsumer::new(&buf);
    let arr = consumer.consume_to_arr(250);
    assert_eq!(arr.len(), 100);
    assert_eq!(arr, data);
    assert_eq!(consumer.consume_to_arr(10), Vec::<u8>::new());
}

#[test]
fn skip_advances_like_consume() {
    let mut buf = IoBuf::new();
    let a = generate_bytes(1000, 95);
    let b = generate_bytes(3000, 97);
    buf.append(a.as_slice(), a.len()).unwrap();
    buf.append(b.as_slice(), b.len()).unwrap();
    let mut expected = a.clone();
    expected.extend_from_slice(b.as_slice());

    let mut consumer = IoIteratorConsumer::new(&buf);
    assert_eq!(consumer.skip(1500), 1500);
    assert_eq!(consumer.consume_to_arr(500), &expected[1500..2000]);
    assert_eq!(consumer.skip(5000), 2000);
    assert_eq!(consumer.skip(1), 0);
}
