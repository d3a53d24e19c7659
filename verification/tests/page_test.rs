use simpledb_rust::page::Page;

#[test]
fn new_page_is_zero_filled() {
    let page = Page::new(400);
    assert_eq!(page.contents().len(), 400);
    assert!(page.contents().iter().all(|b| *b == 0));
    assert_eq!(Page::new(0).contents().len(), 0);
}

#[test]
fn from_bytes_keeps_the_buffer() {
    let page = Page::from_bytes(vec![9, 8, 7, 6, 5]);
    assert_eq!(page.contents(), &[9u8, 8, 7, 6, 5][..]);
}

#[test]
fn set_int_writes_big_endian() {
    let mut page = Page::new(8);
    page.set_int(2, 0x0102_0304);
    assert_eq!(page.contents(), &[0u8, 0, 1, 2, 3, 4, 0, 0][..]);
}

#[test]
fn set_int_writes_twos_complement() {
    let mut page = Page::new(4);
    page.set_int(0, -2);
    assert_eq!(page.contents(), &[0xffu8, 0xff, 0xff, 0xfe][..]);
    page.set_int(0, i32::MIN);
    assert_eq!(page.contents(), &[0x80u8, 0, 0, 0][..]);
    page.set_int(0, i32::MAX);
    assert_eq!(page.contents(), &[0x7fu8, 0xff, 0xff, 0xff][..]);
}

#[test]
fn get_int_reads_big_endian() {
    let page = Page::from_bytes(vec![0xaa, 0x00, 0x00, 0x01, 0x02, 0xbb]);
    assert_eq!(page.get_int(1), 258);
    let page = Page::from_bytes(vec![0xff, 0xff, 0xff, 0xfe]);
    assert_eq!(page.get_int(0), -2);
    let page = Page::from_bytes(vec![0x80, 0x00, 0x00, 0x00]);
    assert_eq!(page.get_int(0), i32::MIN);
}

#[test]
fn int_round_trip() {
    for v in [0, 1, -1, 345, -1_000_000, i32::MAX, i32::MIN] {
        for offset in [0usize, 1, 7, 396] {
            let mut page = Page::new(400);
            page.set_int(offset, v);
            assert_eq!(page.get_int(offset), v);
        }
    }
}

#[test]
fn set_int_leaves_the_rest_alone() {
    let mut page = Page::from_bytes(vec![1, 2, 3, 4, 5, 6, 7, 8]);
    page.set_int(2, 0);
    assert_eq!(page.contents(), &[1u8, 2, 0, 0, 0, 0, 7, 8][..]);
}

#[test]
fn set_bytes_writes_length_then_payload() {
    let mut page = Page::from_bytes(vec![0xee; 10]);
    page.set_bytes(1, &[10, 20, 30]);
    assert_eq!(page.contents(), &[0xeeu8, 0, 0, 0, 3, 10, 20, 30, 0xee, 0xee][..]);
}

#[test]
fn get_bytes_reads_length_then_payload() {
    let page = Page::from_bytes(vec![7, 0, 0, 0, 2, 0xab, 0xcd, 9]);
    assert_eq!(page.get_bytes(1), vec![0xab, 0xcd]);
}

#[test]
fn bytes_round_trip() {
    let mut page = Page::new(400);
    let payload: Vec<u8> = (0u8..=255).collect();
    page.set_bytes(12, &payload);
    assert_eq!(page.get_bytes(12), payload);
}

#[test]
fn empty_bytes_round_trip() {
    let mut page = Page::from_bytes(vec![0xee; 6]);
    page.set_bytes(1, &[]);
    assert_eq!(page.get_bytes(1), Vec::<u8>::new());
    assert_eq!(page.contents(), &[0xeeu8, 0, 0, 0, 0, 0xee][..]);
}

#[test]
fn bytes_may_end_at_the_end_of_the_page() {
    let mut page = Page::new(8);
    page.set_bytes(0, &[1, 2, 3, 4]);
    assert_eq!(page.get_bytes(0), vec![1, 2, 3, 4]);
}

#[test]
fn set_string_writes_length_then_utf8() {
    let mut page = Page::new(8);
    page.set_string(0, "abc");
    assert_eq!(page.contents(), &[0u8, 0, 0, 3, b'a', b'b', b'c', 0][..]);
}

#[test]
fn get_string_decodes_utf8() {
    let page = Page::from_bytes(vec![0, 0, 0, 2, 0xc3, 0xa9]);
    assert_eq!(page.get_string(0), "\u{e9}");
}

#[test]
fn string_round_trip() {
    for text in ["", "a", "abcdefghijklm", "gr\u{fc}n", "\u{65e5}\u{672c}\u{8a9e}", "\u{1f600}"] {
        let mut page = Page::new(64);
        page.set_string(5, text);
        assert_eq!(page.get_string(5), text);
    }
}

#[test]
fn max_length_is_prefix_plus_one_byte_per_char() {
    assert_eq!(Page::max_length(0), 4);
    assert_eq!(Page::max_length(13), 17);
    assert_eq!(Page::max_length(usize::MAX - 4), usize::MAX);
}

#[test]
fn max_length_covers_ascii_text() {
    let text = "abcdefghijklm";
    let mut page = Page::new(64);
    page.set_string(0, text);
    let used = 4 + page.get_bytes(0).len();
    assert_eq!(used, 17);
    assert!(used <= Page::max_length(text.chars().count()));
}

#[test]
fn field_behind_reserved_space_does_not_overlap() {
    let mut page = Page::new(64);
    let next = 3 + Page::max_length(10);
    page.set_string(3, "0123456789");
    page.set_int(next, -7);
    assert_eq!(page.get_string(3), "0123456789");
    assert_eq!(page.get_int(next), -7);
    page.set_string(3, "short");
    assert_eq!(page.get_string(3), "short");
    assert_eq!(page.get_int(next), -7);
}

#[test]
fn contents_mut_fills_the_page_in_place() {
    let mut page = Page::new(4);
    page.contents_mut().copy_from_slice(&[0, 0, 1, 0]);
    assert_eq!(page.get_int(0), 256);
    assert_eq!(page.contents().len(), 4);
}

#[test]
fn page_survives_store_and_reload() {
    let block_size = 400;
    let mut page1 = Page::new(block_size);
    let pos1 = 88;

    let input_string = "abcdefghijklm";
    let input_int = 345;

    page1.set_string(pos1, input_string);
    let size = Page::max_length(input_string.len());
    let pos2 = pos1 + size;
    assert_eq!(pos2, 105);

    page1.set_int(pos2, input_int);
    let stored: Vec<u8> = page1.contents().to_vec();

    let mut page2 = Page::new(block_size);
    page2.contents_mut().copy_from_slice(&stored);

    let read_string = page2.get_string(pos1);
    let read_int = page2.get_int(pos2);

    assert_eq!(read_string, input_string);
    assert_eq!(read_int, input_int);
}
