use audio_io::buffer::{AudioBuffer, BufferError};
use audio_io::pool::BufferPool;

#[test]
fn init_sets_the_shape_and_zero_fills() {
    let mut pool = BufferPool::new();
    let buffer = AudioBuffer::init(&mut pool, 2, 16, 4);
    assert_eq!(buffer.channels(), 2);
    assert_eq!(buffer.bit_depth(), 16);
    assert_eq!(buffer.size(), 4);
    assert_eq!(buffer.real_size(), 8);
    assert_eq!(buffer.bytes(&pool), vec![0u8; 8]);
    for index in 0..4 {
        assert_eq!(buffer.read(&pool, index), 0);
    }
}

#[test]
fn real_size_is_width_times_count() {
    let mut pool = BufferPool::new();
    assert_eq!(AudioBuffer::init(&mut pool, 1, 8, 5).real_size(), 5);
    assert_eq!(AudioBuffer::init(&mut pool, 1, 24, 5).real_size(), 15);
    assert_eq!(AudioBuffer::init(&mut pool, 1, 32, 5).real_size(), 20);
    assert_eq!(AudioBuffer::init(&mut pool, 1, 12, 5).real_size(), 5);
    assert_eq!(AudioBuffer::init(&mut pool, 1, 7, 5).real_size(), 0);
}

#[test]
fn default_is_blank() {
    let mut pool = BufferPool::new();
    let buffer = AudioBuffer::default();
    assert_eq!(buffer.channels(), 0);
    assert_eq!(buffer.bit_depth(), 0);
    assert_eq!(buffer.size(), 0);
    assert_eq!(buffer.real_size(), 0);
    assert_eq!(buffer.read(&pool, 3), 0);
    buffer.write(&mut pool, 3, 5);
    assert_eq!(buffer.bytes(&pool), Vec::<u8>::new());
    assert!(!buffer.release(&mut pool));
}

#[test]
fn default_buffer_gets_a_region_when_resized() {
    let mut pool = BufferPool::new();
    let mut buffer = AudioBuffer::default();
    assert_eq!(buffer.set_bit_depth(&mut pool, 8), Ok(()));
    assert_eq!(buffer.resize(&mut pool, 3), Ok(()));
    buffer.write(&mut pool, 1, 9);
    assert_eq!(buffer.bytes(&pool), vec![0, 9, 0]);
    assert!(buffer.release(&mut pool));
}

#[test]
fn write_then_read() {
    let mut pool = BufferPool::new();
    for bit_depth in [8u32, 16, 24, 32] {
        let buffer = AudioBuffer::init(&mut pool, 1, bit_depth, 3);
        buffer.write(&mut pool, 0, 1);
        buffer.write(&mut pool, 1, 100);
        buffer.write(&mut pool, 2, 127);
        assert_eq!(buffer.read(&pool, 0), 1);
        assert_eq!(buffer.read(&pool, 1), 100);
        assert_eq!(buffer.read(&pool, 2), 127);
    }
}

#[test]
fn samples_are_stored_least_significant_byte_first() {
    let mut pool = BufferPool::new();
    let buffer = AudioBuffer::init(&mut pool, 1, 16, 2);
    buffer.write(&mut pool, 1, 0x1234);
    assert_eq!(buffer.bytes(&pool), vec![0, 0, 0x34, 0x12]);
    assert_eq!(buffer.read(&pool, 1), 0x1234);
}

#[test]
fn write_replaces_the_sample() {
    let mut pool = BufferPool::new();
    let buffer = AudioBuffer::init(&mut pool, 1, 8, 2);
    buffer.write(&mut pool, 0, 100);
    buffer.write(&mut pool, 0, 100);
    assert_eq!(buffer.read(&pool, 0), 100);
    buffer.write(&mut pool, 0, 3);
    assert_eq!(buffer.read(&pool, 0), 3);
}

#[test]
fn wrap_around_indexing() {
    let mut pool = BufferPool::new();
    let buffer = AudioBuffer::init(&mut pool, 1, 16, 4);
    buffer.write(&mut pool, 5, 77);
    assert_eq!(buffer.read(&pool, 1), 77);
    assert_eq!(buffer.read(&pool, 5), 77);
    assert_eq!(buffer.read(&pool, 9), 77);
    buffer.write(&mut pool, 4, 11);
    assert_eq!(buffer.read(&pool, 0), 11);
    assert_eq!(buffer.read(&pool, u32::MAX), buffer.read(&pool, u32::MAX % 4));
    buffer.write(&mut pool, u32::MAX, 21);
    assert_eq!(buffer.read(&pool, 3), 21);
}

#[test]
fn negative_levels_read_back_folded() {
    let mut pool = BufferPool::new();
    let buffer = AudioBuffer::init(&mut pool, 1, 8, 1);
    buffer.write(&mut pool, 0, -127);
    assert_eq!(buffer.bytes(&pool), vec![0x81]);
    assert_eq!(buffer.read(&pool, 0), -2);
}

#[test]
fn unhandled_depth_reads_zero_and_writes_nothing() {
    let mut pool = BufferPool::new();
    let buffer = AudioBuffer::init(&mut pool, 1, 12, 4);
    buffer.load(&mut pool, &[1, 2, 3, 4]);
    assert_eq!(buffer.read(&pool, 0), 0);
    buffer.write(&mut pool, 0, 9);
    assert_eq!(buffer.bytes(&pool), vec![1, 2, 3, 4]);
}

#[test]
fn empty_buffer_reads_zero() {
    let mut pool = BufferPool::new();
    let buffer = AudioBuffer::init(&mut pool, 1, 16, 0);
    assert_eq!(buffer.read(&pool, 0), 0);
    assert_eq!(buffer.read(&pool, 17), 0);
    buffer.write(&mut pool, 0, 9);
    assert_eq!(buffer.real_size(), 0);
}

#[test]
fn read_slice_reads_every_sample() {
    let mut pool = BufferPool::new();
    let buffer = AudioBuffer::init(&mut pool, 1, 16, 3);
    buffer.write(&mut pool, 0, 10);
    buffer.write(&mut pool, 1, 20);
    buffer.write(&mut pool, 2, 30);
    let mut levels = [0i32; 3];
    buffer.read_slice(&pool, &mut levels);
    assert_eq!(levels, [10, 20, 30]);
}

#[test]
fn read_slice_of_another_length_does_nothing() {
    let mut pool = BufferPool::new();
    let buffer = AudioBuffer::init(&mut pool, 1, 16, 3);
    buffer.write(&mut pool, 0, 10);
    let mut short = [-5i32; 2];
    buffer.read_slice(&pool, &mut short);
    assert_eq!(short, [-5, -5]);
    let mut long = [-5i32; 4];
    buffer.read_slice(&pool, &mut long);
    assert_eq!(long, [-5, -5, -5, -5]);
}

#[test]
fn write_slice_writes_every_sample() {
    let mut pool = BufferPool::new();
    let buffer = AudioBuffer::init(&mut pool, 1, 16, 3);
    buffer.write_slice(&mut pool, &[0x0102, 0x0304, -1]);
    assert_eq!(buffer.bytes(&pool), vec![0x02, 0x01, 0x04, 0x03, 0xff, 0xff]);
    assert_eq!(buffer.read(&pool, 0), 0x0102);
    assert_eq!(buffer.read(&pool, 1), 0x0304);
}

#[test]
fn write_slice_of_another_length_does_nothing() {
    let mut pool = BufferPool::new();
    let buffer = AudioBuffer::init(&mut pool, 1, 8, 3);
    buffer.write_slice(&mut pool, &[1, 2, 3]);
    buffer.write_slice(&mut pool, &[9, 9]);
    buffer.write_slice(&mut pool, &[9, 9, 9, 9]);
    buffer.write_slice(&mut pool, &[]);
    assert_eq!(buffer.bytes(&pool), vec![1, 2, 3]);
}

#[test]
fn resize_discards_content() {
    let mut pool = BufferPool::new();
    let mut buffer = AudioBuffer::init(&mut pool, 1, 16, 4);
    buffer.write_slice(&mut pool, &[1, 2, 3, 4]);
    assert_eq!(buffer.resize(&mut pool, 6), Ok(()));
    assert_eq!(buffer.size(), 6);
    assert_eq!(buffer.real_size(), 12);
    for index in 0..12 {
        assert_eq!(buffer.read(&pool, index), 0);
    }
    buffer.write_slice(&mut pool, &[1, 2, 3, 4, 5, 6]);
    assert_eq!(buffer.resize(&mut pool, 6), Ok(()));
    for index in 0..6 {
        assert_eq!(buffer.read(&pool, index), 0);
    }
    assert_eq!(buffer.resize(&mut pool, 0), Ok(()));
    assert_eq!(buffer.read(&pool, 0), 0);
}

#[test]
fn resize_of_a_shared_buffer_is_reported() {
    let mut pool = BufferPool::new();
    let mut a = AudioBuffer::init(&mut pool, 1, 8, 2);
    let b = a.share(&mut pool).unwrap();
    a.write_slice(&mut pool, &[5, 6]);
    assert_eq!(a.resize(&mut pool, 4), Err(BufferError::Shared));
    assert_eq!(a.size(), 2);
    assert_eq!(b.read(&pool, 1), 6);
    assert!(!b.release(&mut pool));
    assert_eq!(a.resize(&mut pool, 4), Ok(()));
}

#[test]
fn resize_beyond_32_bits_is_reported() {
    let mut pool = BufferPool::new();
    let mut buffer = AudioBuffer::init(&mut pool, 1, 32, 1);
    buffer.write(&mut pool, 0, 5);
    assert_eq!(buffer.resize(&mut pool, 0x4000_0000), Err(BufferError::TooLarge));
    assert_eq!(buffer.size(), 1);
    assert_eq!(buffer.read(&pool, 0), 5);
    let mut wide = AudioBuffer::init(&mut pool, 1, 8, 0);
    assert_eq!(wide.resize(&mut pool, 9), Ok(()));
    assert_eq!(wide.set_bit_depth(&mut pool, u32::MAX), Err(BufferError::TooLarge));
    assert_eq!(wide.bit_depth(), 8);
    assert_eq!(wide.real_size(), 9);
}

#[test]
fn clear_zero_fills() {
    let mut pool = BufferPool::new();
    let buffer = AudioBuffer::init(&mut pool, 1, 8, 3);
    buffer.write_slice(&mut pool, &[1, 2, 3]);
    buffer.clear(&mut pool);
    assert_eq!(buffer.bytes(&pool), vec![0, 0, 0]);
    assert_eq!(buffer.size(), 3);
}

#[test]
fn set_channels_clears() {
    let mut pool = BufferPool::new();
    let mut buffer = AudioBuffer::init(&mut pool, 1, 8, 3);
    buffer.write_slice(&mut pool, &[1, 2, 3]);
    buffer.set_channels(&mut pool, 2);
    assert_eq!(buffer.channels(), 2);
    assert_eq!(buffer.size(), 3);
    assert_eq!(buffer.bit_depth(), 8);
    assert_eq!(buffer.bytes(&pool), vec![0, 0, 0]);
}

#[test]
fn set_bit_depth_rederives_the_backing() {
    let mut pool = BufferPool::new();
    let mut buffer = AudioBuffer::init(&mut pool, 1, 8, 3);
    buffer.write_slice(&mut pool, &[1, 2, 3]);
    assert_eq!(buffer.set_bit_depth(&mut pool, 16), Ok(()));
    assert_eq!(buffer.bit_depth(), 16);
    assert_eq!(buffer.real_size(), 6);
    assert_eq!(buffer.bytes(&pool), vec![0u8; 6]);
    buffer.write_slice(&mut pool, &[1, 2, 3]);
    assert_eq!(buffer.set_bit_depth(&mut pool, 16), Ok(()));
    assert_eq!(buffer.bytes(&pool), vec![0u8; 6]);
}

#[test]
fn set_bit_depth_on_a_shared_buffer() {
    let mut pool = BufferPool::new();
    let mut a = AudioBuffer::init(&mut pool, 1, 8, 2);
    let b = a.share(&mut pool).unwrap();
    a.write_slice(&mut pool, &[5, 6]);
    assert_eq!(a.set_bit_depth(&mut pool, 16), Err(BufferError::Shared));
    assert_eq!(a.bit_depth(), 8);
    assert_eq!(b.read(&pool, 0), 5);
    assert_eq!(a.set_bit_depth(&mut pool, 9), Ok(()));
    assert_eq!(a.bit_depth(), 9);
    assert_eq!(b.read(&pool, 0), 0);
    assert_eq!(b.bit_depth(), 8);
}

#[test]
fn share_copies_the_shape_and_shares_the_bytes() {
    let mut pool = BufferPool::new();
    let a = AudioBuffer::init(&mut pool, 2, 16, 2);
    let b = a.share(&mut pool).unwrap();
    assert_eq!(b.channels(), 2);
    assert_eq!(b.bit_depth(), 16);
    assert_eq!(b.size(), 2);
    a.write(&mut pool, 0, 300);
    assert_eq!(b.read(&pool, 0), 300);
    b.write(&mut pool, 1, 400);
    assert_eq!(a.read(&pool, 1), 400);
}

#[test]
fn freeing_a_buffer_does_not_invalidate_its_twin() {
    let mut pool = BufferPool::new();
    let a = AudioBuffer::init(&mut pool, 1, 16, 2);
    a.write_slice(&mut pool, &[7, 8]);
    let b = a.share(&mut pool).unwrap();
    assert!(!a.release(&mut pool));
    assert_eq!(b.read(&pool, 0), 7);
    assert_eq!(b.read(&pool, 1), 8);
    b.write(&mut pool, 0, 9);
    assert_eq!(b.read(&pool, 0), 9);
    assert!(b.release(&mut pool));
}

#[test]
fn freeing_in_the_other_order() {
    let mut pool = BufferPool::new();
    let a = AudioBuffer::init(&mut pool, 1, 8, 1);
    let b = a.share(&mut pool).unwrap();
    a.write(&mut pool, 0, 4);
    assert!(!b.release(&mut pool));
    assert_eq!(a.read(&pool, 0), 4);
    assert!(a.release(&mut pool));
}

#[test]
fn share_of_a_blank_buffer() {
    let mut pool = BufferPool::new();
    let a = AudioBuffer::default();
    let b = a.share(&mut pool).unwrap();
    assert_eq!(b.size(), 0);
    assert_eq!(b.real_size(), 0);
    assert!(!a.release(&mut pool));
    assert!(!b.release(&mut pool));
}

#[test]
fn load_copies_bytes_as_they_are() {
    let mut pool = BufferPool::new();
    let buffer = AudioBuffer::init(&mut pool, 1, 16, 2);
    buffer.load(&mut pool, &[0x34, 0x12, 0x78]);
    assert_eq!(buffer.bytes(&pool), vec![0x34, 0x12, 0x78, 0]);
    assert_eq!(buffer.read(&pool, 0), 0x1234);
    assert_eq!(buffer.read(&pool, 1), 0x78);
}
