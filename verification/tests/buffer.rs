use rupl::buffer::{Buffer, BufferError, CursorBuffer, Direction};

#[test]
fn buffer_basic() {
    let mut buf = Buffer::new();

    buf.insert(0, &['a', 'b', 'c']).unwrap();
    assert_eq!(buf.len(), 3);
    assert_eq!(buf.as_bytes(), vec![97, 98, 99]);

    buf.remove(2, 1).unwrap();
    assert_eq!(buf.len(), 2);
    assert_eq!(buf.as_bytes(), vec![97, 98]);

    buf.clear();
    assert!(buf.is_empty());
    assert_eq!(buf.as_bytes(), vec![]);
}

#[test]
fn buffer_remove() {
    let mut buf = Buffer::new();

    buf.insert(0, &['a', 'b', 'c']).unwrap();

    buf.remove(2, 1).unwrap();
    assert_eq!(buf.len(), 2);
    assert_eq!(buf.as_bytes(), vec![97, 98]);

    buf.remove_from_to(0, 2).unwrap();
    assert!(buf.is_empty());
}

#[test]
fn buffer_insert_invalid_index() {
    let mut buf = Buffer::new();

    let res = buf.insert(1, &['a', 'b', 'c']);
    assert_eq!(res, Err(BufferError::InvalidStartIndex))
}

#[test]
fn buffer_remove_invalid_count() {
    let mut buf = Buffer::new();

    buf.insert(0, &['a', 'b', 'c']).unwrap();
    assert_eq!(
        buf.remove(1, 3),
        Err(BufferError::DeleteCountOverflow { at: 1, count: 3 })
    )
}

#[test]
fn cursor_buffer_basic() {
    let mut buf = CursorBuffer::new();

    buf.insert(&['a', 'b', 'c']).unwrap();
    assert_eq!(buf.len(), 3);
    assert_eq!(buf.get_pos(), 3);

    buf.remove_one(Direction::Left).unwrap();
    assert_eq!(buf.len(), 2);
    assert_eq!(buf.get_pos(), 2);
    assert_eq!(buf.as_bytes(), vec![97, 98]);

    let moved = buf.move_left();
    assert_eq!(moved, true);

    buf.insert(&['x', 'y', 'z']).unwrap();
    assert_eq!(buf.len(), 5);
    assert_eq!(buf.get_pos(), 4);
    assert_eq!(buf.as_bytes(), vec![97, 120, 121, 122, 98]);
}

#[test]
fn buffer_insert_failure_leaves_buffer_unchanged() {
    let mut buf = Buffer::new();
    buf.insert(0, &['a', 'b']).unwrap();

    let res = buf.insert(3, &['x']);
    assert_eq!(res, Err(BufferError::InvalidStartIndex));
    assert_eq!(buf.as_bytes(), vec![97, 98]);
}

#[test]
fn buffer_remove_failure_leaves_buffer_unchanged() {
    let mut buf = Buffer::new();
    buf.insert(0, &['a', 'b', 'c']).unwrap();

    assert_eq!(
        buf.remove(2, 2),
        Err(BufferError::DeleteCountOverflow { at: 2, count: 2 })
    );
    assert_eq!(buf.as_bytes(), vec![97, 98, 99]);

    assert_eq!(buf.remove(4, 0), Err(BufferError::InvalidStartIndex));
    assert_eq!(buf.as_bytes(), vec![97, 98, 99]);
}

#[test]
fn insert_then_remove_left_restores_content() {
    let mut buf = CursorBuffer::new();
    buf.insert(&['a', 'b']).unwrap();
    buf.move_left();

    buf.insert(&['x', 'y']).unwrap();
    assert_eq!(buf.as_bytes(), vec![97, 120, 121, 98]);

    let removed = buf.remove_many(2, Direction::Left).unwrap();
    assert_eq!(removed, vec!['x', 'y']);
    assert_eq!(buf.as_bytes(), vec![97, 98]);
    assert_eq!(buf.get_pos(), 1);
}

#[test]
fn remove_one_left_at_start_fails() {
    let mut buf = CursorBuffer::new();
    buf.insert(&['a']).unwrap();
    buf.move_left();

    assert_eq!(
        buf.remove_one(Direction::Left),
        Err(BufferError::InvalidStartIndex)
    );
    assert_eq!(buf.as_bytes(), vec![97]);
    assert_eq!(buf.get_pos(), 0);
}

#[test]
fn remove_one_right_at_end_fails() {
    let mut buf = CursorBuffer::new();
    buf.insert(&['a']).unwrap();

    assert_eq!(
        buf.remove_one(Direction::Right),
        Err(BufferError::DeleteCountOverflow { at: 1, count: 1 })
    );
    assert_eq!(buf.as_bytes(), vec![97]);
}

#[test]
fn remove_many_right_removes_at_cursor() {
    let mut buf = CursorBuffer::new();
    buf.insert(&['a', 'b', 'c']).unwrap();
    buf.move_left();
    buf.move_left();

    let removed = buf.remove_many(2, Direction::Right).unwrap();
    assert_eq!(removed, vec!['b', 'c']);
    assert_eq!(buf.as_bytes(), vec![97]);
    assert_eq!(buf.get_pos(), 1);
}

#[test]
fn cursor_stays_within_bounds() {
    let mut buf = CursorBuffer::new();
    assert_eq!(buf.move_left(), false);
    assert_eq!(buf.get_pos(), 0);

    buf.insert(&['a', 'b']).unwrap();
    assert_eq!(buf.move_right(), false);
    assert_eq!(buf.get_pos(), 2);

    buf.move_left();
    buf.move_left();
    assert_eq!(buf.move_left(), false);
    assert_eq!(buf.get_pos(), 0);
    assert!(buf.get_pos() <= buf.len());

    buf.clear();
    assert_eq!(buf.get_pos(), 0);
    assert!(buf.is_empty());
}

#[test]
fn as_bytes_encodes_multibyte_characters() {
    let mut buf = Buffer::new();
    buf.insert(0, &['h', '\u{e9}', '\u{20ac}', '\u{1f600}']).unwrap();
    assert_eq!(
        buf.as_bytes(),
        vec![0x68, 0xC3, 0xA9, 0xE2, 0x82, 0xAC, 0xF0, 0x9F, 0x98, 0x80]
    );
}
