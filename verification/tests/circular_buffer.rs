use labkit::circular_buffer::CircularBuffer;

#[derive(Clone, PartialEq, Debug)]
enum Shape {
    Square(u32),
    Point(u8, u8),
    Empty,
}

#[test]
fn test_insert_and_check_size() {
    let mut buffer = CircularBuffer::new(3);
    assert_eq!(buffer.size(), 0);

    buffer.write(1).unwrap();
    assert_eq!(buffer.size(), 1);

    buffer.write(2).unwrap();
    assert_eq!(buffer.size(), 2);

    buffer.write(3).unwrap();
    assert_eq!(buffer.size(), 3);
}

#[test]
fn test_insert_read() {
    let mut buffer = CircularBuffer::new(3);
    buffer.write(1).unwrap();
    buffer.write(2).unwrap();
    buffer.write(3).unwrap();

    assert_eq!(buffer.read(), Some(1));
    assert_eq!(buffer.read(), Some(2));
    assert_eq!(buffer.read(), Some(3));
}

#[test]
fn test_overflow() {
    let mut buffer = CircularBuffer::new(2);
    buffer.write(1).unwrap();
    buffer.write(2).unwrap();

    assert!(buffer.write(3).is_err());
}

#[test]
fn test_overwrite() {
    let mut buffer = CircularBuffer::new(2);
    buffer.write(1).unwrap();
    buffer.write(2).unwrap();

    buffer.overwrite(3);

    assert_eq!(buffer.read(), Some(2));
    assert_eq!(buffer.read(), Some(3));
}

#[test]
fn test_make_contiguous() {
    let mut buffer = CircularBuffer::new(3);
    buffer.write(1).unwrap();
    buffer.write(2).unwrap();
    buffer.read();

    buffer.make_contiguous();

    assert_eq!(buffer.size(), 1);
}

#[test]
fn test_error_read_write() {
    let mut empty_buffer: CircularBuffer<i32> = CircularBuffer::new(3);
    assert_eq!(empty_buffer.read(), None);

    let mut full_buffer = CircularBuffer::new(2);
    full_buffer.write(1).unwrap();
    full_buffer.write(2).unwrap();
    assert!(full_buffer.write(3).is_err());
}

#[test]
fn test_index_operator() {
    let mut buffer: CircularBuffer<i32> = CircularBuffer::new(5);
    buffer.write(1).unwrap();
    buffer.write(2).unwrap();
    assert_eq!(buffer[0], Some(1));
    assert_eq!(buffer[1], Some(2));
}

#[test]
fn test_index_mut_operator() {
    let mut buffer: CircularBuffer<i32> = CircularBuffer::new(5);
    buffer.write(1).unwrap();
    buffer.write(2).unwrap();
    buffer[0] = Some(5);
    assert_eq!(buffer[0], Some(5));
}

#[test]
fn test_deref_mut_trait() {
    let mut buffer: CircularBuffer<i32> = CircularBuffer::new(5);
    buffer.write(1).unwrap();
    buffer.write(2).unwrap();
    let deref_mut_slice: &mut [Option<i32>] = &mut buffer;
    deref_mut_slice[0] = Some(5);
    assert_eq!(deref_mut_slice, &[Some(5), Some(2)]);
}

#[test]
fn a_ring_that_goes_round_is_laid_out_anew_to_be_changed() {
    let mut buffer: CircularBuffer<i32> = CircularBuffer::new(3);
    buffer.write(1).unwrap();
    buffer.write(2).unwrap();
    buffer.write(3).unwrap();
    buffer.read();
    buffer.write(4).unwrap();
    {
        let slice: &mut [Option<i32>] = &mut buffer;
        assert_eq!(slice, &[Some(2), Some(3), Some(4)]);
        slice[1] = None;
    }
    assert_eq!(buffer.read(), Some(2));
    assert_eq!(buffer.read(), None);
    assert_eq!(buffer.read(), Some(4));
}

#[test]
fn test_deref_trait() {
    let mut buffer: CircularBuffer<i32> = CircularBuffer::new(5);
    buffer.write(1).unwrap();
    buffer.write(2).unwrap();
    let deref_slice: &[Option<i32>] = &buffer;
    assert_eq!(deref_slice, &[Some(1), Some(2)]);
}

#[test]
fn test_deref_panic_trait() {
    let mut buffer: CircularBuffer<i32> = CircularBuffer::new(3);
    buffer.write(1).unwrap();
    buffer.write(2).unwrap();
    buffer.write(3).unwrap();
    buffer.overwrite(4);
    buffer.read();

    let _deref_slice: &[Option<i32>] = &buffer;
    assert_eq!(_deref_slice, &[]);
}

#[test]
fn test_write_different_type() {
    let mut buffer: CircularBuffer<Shape> = CircularBuffer::new(5);
    buffer.write(Shape::Empty).unwrap();
    buffer.write(Shape::Point(1, 2)).unwrap();
    buffer.write(Shape::Square(55)).unwrap();

    let expected_values = vec![
        Some(Shape::Empty),
        Some(Shape::Point(1, 2)),
        Some(Shape::Square(55)),
    ];

    let deref_slice: &[Option<Shape>] = &buffer;

    assert_eq!(deref_slice, &expected_values);
}

#[test]
fn test_try_into_f64() {
    assert!(true);
}

#[test]
fn make_contiguous_leaves_the_items_alone_in_their_order() {
    let mut buffer: CircularBuffer<i32> = CircularBuffer::new(3);
    buffer.write(1).unwrap();
    buffer.write(2).unwrap();
    buffer.write(3).unwrap();
    buffer.read();
    buffer.write(4).unwrap();
    let before: &[Option<i32>] = &buffer;
    assert_eq!(before, &[]);
    buffer.make_contiguous();
    let after: &[Option<i32>] = &buffer;
    assert_eq!(after, &[Some(2), Some(3), Some(4)]);
    assert_eq!(buffer.read(), Some(2));
}

#[test]
fn clear_empties_and_keeps_the_room() {
    let mut buffer: CircularBuffer<i32> = CircularBuffer::new(2);
    buffer.write(1).unwrap();
    buffer.clear();
    assert_eq!(buffer.size(), 0);
    assert_eq!(buffer.read(), None);
    buffer.write(7).unwrap();
    buffer.write(8).unwrap();
    assert!(buffer.write(9).is_err());
    assert_eq!(buffer.read(), Some(7));
}

#[test]
fn overwrite_in_a_buffer_with_room_appends() {
    let mut buffer: CircularBuffer<i32> = CircularBuffer::new(3);
    buffer.overwrite(1);
    buffer.overwrite(2);
    assert_eq!(buffer.size(), 2);
    assert_eq!(buffer.read(), Some(1));
    assert_eq!(buffer.read(), Some(2));
}
