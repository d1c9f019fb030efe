use iobuf::temporary_buffer::TemporaryBuffer;

#[test]
#[allow(unused_variables)]
fn test_share_ref_count() {
    let buffer = TemporaryBuffer::new(12);
    {
        let second = buffer.share();
        assert_eq!(buffer.get_ref_count(), 2);

        {
            let slice = buffer.share_slice(0, 3).unwrap();
            assert_eq!(buffer.get_ref_count(), 3);
        }
    }
    assert_eq!(buffer.get_ref_count(), 1);
}

#[test]
fn write() {
    let mut buffer = TemporaryBuffer::new(12);
    let data: Vec<u8> = vec![1, 2, 3];
    assert!(buffer.get_write());
    buffer.write_from(0, data.as_slice()).unwrap();
    assert_eq!(&buffer.as_slice()[0..3], &[1, 2, 3]);
}
