use in_situ::{aligned, at, padding};

#[test]
fn padding_matches_the_remainder_formula() {
    for shift in 0..12 {
        let align = 1usize << shift;
        for offset in 0..300usize {
            assert_eq!(padding(offset, align), (align - offset % align) % align);
        }
    }
}

#[test]
fn padding_of_an_aligned_offset_is_zero() {
    assert_eq!(padding(0, 8), 0);
    assert_eq!(padding(16, 8), 0);
    assert_eq!(padding(17, 1), 0);
}

#[test]
fn padding_exact_values() {
    assert_eq!(padding(1, 8), 7);
    assert_eq!(padding(13, 4), 3);
    assert_eq!(padding(usize::MAX, 16), 1);
}

#[test]
fn aligned_is_offset_plus_padding() {
    for shift in 0..12 {
        let align = 1usize << shift;
        for offset in 0..300usize {
            assert_eq!(aligned(offset, align), offset + padding(offset, align));
        }
    }
}

#[test]
fn aligned_exact_values() {
    assert_eq!(aligned(0, 8), 0);
    assert_eq!(aligned(1, 8), 8);
    assert_eq!(aligned(8, 8), 8);
    assert_eq!(aligned(13, 4), 16);
    let top = usize::MAX - 15;
    assert_eq!(aligned(top, 16), top);
    assert_eq!(aligned(top - 3, 16), top);
}

#[test]
fn at_is_an_involution_in_little_endian_buffers() {
    for swap_size in [1usize, 2, 4, 8, 16] {
        for word_size in 1..=swap_size {
            for offset in 0..64usize {
                let there = at(offset, word_size, false, swap_size);
                assert_eq!(at(there, word_size, false, swap_size), offset);
            }
        }
    }
}

#[test]
fn at_keeps_big_endian_offsets() {
    for swap_size in 0..20usize {
        for word_size in 0..20usize {
            for offset in [0usize, 1, 7, 255, usize::MAX] {
                assert_eq!(at(offset, word_size, true, swap_size), offset);
            }
        }
    }
}

#[test]
fn at_keeps_offsets_of_words_wider_than_the_window() {
    assert_eq!(at(5, 8, false, 4), 5);
    assert_eq!(at(0, 16, false, 0), 0);
}

#[test]
fn at_reflects_inside_the_swap_window() {
    assert_eq!(at(4, 4, false, 4), 4);
    assert_eq!(at(0, 2, false, 4), 2);
    assert_eq!(at(2, 2, false, 4), 0);
    assert_eq!(at(0, 1, false, 4), 3);
    assert_eq!(at(5, 1, false, 4), 6);
}
