use bytes::{Bytes, BytesMut};
use in_situ::{Raw, RawMut};

#[test]
fn split_off_of_a_borrowed_slice() {
    let data = [1u8, 2, 3, 4, 5];
    let mut view: &[u8] = &data;
    let tail = Raw::split_off(&mut view, 2);
    assert_eq!(view, &[1, 2]);
    assert_eq!(tail, &[3, 4, 5]);
    assert_eq!(view.as_raw(), &[1, 2]);
}

#[test]
fn split_to_of_a_borrowed_slice() {
    let data = [1u8, 2, 3, 4, 5];
    let mut view: &[u8] = &data;
    let head = Raw::split_to(&mut view, 2);
    assert_eq!(head, &[1, 2]);
    assert_eq!(view, &[3, 4, 5]);
}

#[test]
fn split_off_of_a_mutable_slice() {
    let mut data = [1u8, 2, 3, 4, 5];
    {
        let mut view: &mut [u8] = &mut data;
        let tail = Raw::split_off(&mut view, 3);
        assert_eq!(view, &[1, 2, 3]);
        assert_eq!(tail, &[4, 5]);
        view.as_raw_mut()[0] = 9;
        tail[0] = 8;
        assert_eq!(view.as_raw(), &[9, 2, 3]);
    }
    assert_eq!(data, [9, 2, 3, 8, 5]);
}

#[test]
fn split_to_of_a_mutable_slice() {
    let mut data = [1u8, 2, 3, 4, 5];
    {
        let mut view: &mut [u8] = &mut data;
        let head = Raw::split_to(&mut view, 3);
        assert_eq!(head, &[1, 2, 3]);
        assert_eq!(view, &[4, 5]);
        head[2] = 7;
        view[1] = 6;
    }
    assert_eq!(data, [1, 2, 7, 4, 6]);
}

#[test]
fn split_off_of_a_shared_buffer() {
    let mut view = Bytes::from_static(b"hello world");
    let tail = Raw::split_off(&mut view, 5);
    assert_eq!(&view[..], b"hello");
    assert_eq!(&tail[..], b" world");
    assert_eq!(view.as_raw(), b"hello");
}

#[test]
fn split_to_of_a_shared_buffer() {
    let mut view = Bytes::from_static(b"hello world");
    let head = Raw::split_to(&mut view, 5);
    assert_eq!(&head[..], b"hello");
    assert_eq!(&view[..], b" world");
}

#[test]
fn split_off_of_a_unique_buffer() {
    let mut view = BytesMut::from(&b"hello world"[..]);
    let mut tail = Raw::split_off(&mut view, 5);
    view.as_raw_mut()[0] = b'j';
    tail.as_raw_mut()[0] = b'!';
    assert_eq!(view.as_raw(), b"jello");
    assert_eq!(tail.as_raw(), b"!world");
}

#[test]
fn split_to_of_a_unique_buffer() {
    let mut view = BytesMut::from(&b"hello world"[..]);
    let mut head = Raw::split_to(&mut view, 5);
    view.as_raw_mut()[0] = b'!';
    head.as_raw_mut()[0] = b'j';
    assert_eq!(view.as_raw(), b"!world");
    assert_eq!(head.as_raw(), b"jello");
}

#[test]
fn halves_put_together_are_the_whole() {
    let data: Vec<u8> = (0..32).collect();
    for mid in 0..=data.len() {
        let mut view: &[u8] = &data;
        let tail = Raw::split_off(&mut view, mid);
        assert_eq!(view.len(), mid);
        assert_eq!([view, tail].concat(), data);
        let mut view = Bytes::copy_from_slice(&data);
        let head = Raw::split_to(&mut view, mid);
        assert_eq!(head.len(), mid);
        assert_eq!([&head[..], &view[..]].concat(), data);
        let mut view = BytesMut::from(&data[..]);
        let tail = Raw::split_off(&mut view, mid);
        assert_eq!([view.as_raw(), tail.as_raw()].concat(), data);
    }
}

#[test]
fn split_at_the_ends_gives_an_empty_half() {
    let data = [1u8, 2, 3];
    let mut view: &[u8] = &data;
    let tail = Raw::split_off(&mut view, 3);
    assert_eq!(view, &[1, 2, 3]);
    assert!(tail.is_empty());
    let head = Raw::split_to(&mut view, 0);
    assert!(head.is_empty());
    assert_eq!(view, &[1, 2, 3]);
}
