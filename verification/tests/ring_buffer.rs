use labkit::ring_buffer::{CircularBuffer, Error, TryDeref};

#[test]
fn ring_gives_items_back_in_their_order() {
    let mut b: CircularBuffer<i32> = CircularBuffer::new(3);
    assert_eq!(b.write(1), Ok(()));
    assert_eq!(b.write(2), Ok(()));
    assert_eq!(b.write(3), Ok(()));
    assert_eq!(b.read(), Ok(1));
    assert_eq!(b.write(4), Ok(()));
    assert_eq!(b.read(), Ok(2));
    assert_eq!(b.read(), Ok(3));
    assert_eq!(b.read(), Ok(4));
    assert_eq!(b.read(), Err(Error::EmptyBuffer));
}

#[test]
fn full_ring_hands_the_item_back() {
    let mut b: CircularBuffer<String> = CircularBuffer::new(1);
    assert_eq!(b.write("a".to_string()), Ok(()));
    assert_eq!(b.write("b".to_string()), Err(Error::FullBuffer("b".to_string())));
    assert_eq!(b.read(), Ok("a".to_string()));
}

#[test]
fn ring_without_room_takes_nothing() {
    let mut b: CircularBuffer<i32> = CircularBuffer::new(0);
    assert_eq!(b.write(1), Err(Error::FullBuffer(1)));
    b.overwrite(2);
    assert_eq!(b.read(), Err(Error::EmptyBuffer));
    b.make_contiguous();
    b.clear();
    assert_eq!(b.read(), Err(Error::EmptyBuffer));
}

#[test]
fn ring_overwrite_drops_the_oldest_of_a_full_ring() {
    let mut b: CircularBuffer<i32> = CircularBuffer::new(2);
    b.overwrite(1);
    b.overwrite(2);
    b.overwrite(3);
    assert_eq!(b.read(), Ok(2));
    assert_eq!(b.read(), Ok(3));
    assert_eq!(b.read(), Err(Error::EmptyBuffer));
}

#[test]
fn ring_clear_takes_all_out() {
    let mut b: CircularBuffer<i32> = CircularBuffer::new(3);
    b.write(1).unwrap();
    b.write(2).unwrap();
    b.clear();
    assert_eq!(b.read(), Err(Error::EmptyBuffer));
    b.write(3).unwrap();
    assert_eq!(b.read(), Ok(3));
}

#[test]
fn ring_index_counts_from_the_oldest() {
    let mut b: CircularBuffer<i32> = CircularBuffer::new(3);
    b.write(1).unwrap();
    b.write(2).unwrap();
    b.write(3).unwrap();
    b.read().unwrap();
    b.write(4).unwrap();
    assert_eq!(b[0], 2);
    assert_eq!(b[1], 3);
    assert_eq!(b[2], 4);
    assert_eq!(b.real_index(0), 1);
    assert_eq!(b.real_index(2), 0);
}

#[test]
fn ring_as_a_slice_where_head_lies_before_tail() {
    let mut b: CircularBuffer<i32> = CircularBuffer::new(4);
    b.write(1).unwrap();
    b.write(2).unwrap();
    b.write(3).unwrap();
    b.read().unwrap();
    assert_eq!(b.try_deref(), Ok(&[2, 3][..]));
}

#[test]
fn ring_as_a_slice_where_head_and_tail_meet() {
    let mut b: CircularBuffer<i32> = CircularBuffer::new(2);
    assert_eq!(b.try_deref(), Ok(&[][..]));
    b.write(1).unwrap();
    b.write(2).unwrap();
    // A full ring whose tail has come round to its head shows nothing.
    assert_eq!(b.try_deref(), Ok(&[][..]));
}

#[test]
fn ring_as_a_slice_where_head_lies_behind_tail() {
    let mut b: CircularBuffer<i32> = CircularBuffer::new(3);
    b.write(1).unwrap();
    b.write(2).unwrap();
    b.write(3).unwrap();
    b.read().unwrap();
    b.read().unwrap();
    b.write(4).unwrap();
    assert_eq!(b.try_deref(), Err("not contiguous".to_string()));
}

#[test]
fn ring_make_contiguous_of_a_ring_with_room_keeps_the_order_where_it_goes_round_evenly() {
    let mut b: CircularBuffer<i32> = CircularBuffer::new(5);
    for x in 0..5 {
        b.write(x).unwrap();
    }
    for _ in 0..3 {
        b.read().unwrap();
    }
    // Head in slot 3, two items, two slots to the end of the ring.
    b.make_contiguous();
    assert_eq!(b.try_deref(), Ok(&[3, 4][..]));
}

#[test]
fn ring_make_contiguous_moves_one_item_for_each_slot_to_the_end() {
    let mut b: CircularBuffer<i32> = CircularBuffer::new(5);
    for x in 0..5 {
        b.write(x).unwrap();
    }
    for _ in 0..4 {
        b.read().unwrap();
    }
    b.write(5).unwrap();
    // Head in slot 4, items 4 and 5, one slot to the end of the ring.
    b.make_contiguous();
    assert_eq!(b.read(), Ok(5));
    assert_eq!(b.read(), Ok(4));
}

#[test]
fn ring_items_are_changed_in_their_places() {
    let mut b: CircularBuffer<i32> = CircularBuffer::new(3);
    b.write(1).unwrap();
    b.write(2).unwrap();
    b.write(3).unwrap();
    b.read().unwrap();
    b.write(4).unwrap();
    b[2] = 40;
    b[0] += 1;
    assert_eq!(b.read(), Ok(3));
    assert_eq!(b.read(), Ok(3));
    assert_eq!(b.read(), Ok(40));
}
