use client::renderer::builtin::text_area::{padded_chars, TextArea as FixedTextArea};
use client::renderer::text_area::{gen_indices, TextArea};

#[test]
fn indices_of_two_quads() {
    assert_eq!(gen_indices(2), vec![0, 1, 2, 2, 3, 0, 4, 5, 6, 6, 7, 4]);
    assert!(gen_indices(0).is_empty());
}

#[test]
fn text_area_with_room_accepts_text_up_to_its_room() {
    let mut t = TextArea::with_max_len(1, 4);
    assert_eq!(t.max_len(), 4);
    assert!(t.is_empty());
    assert_eq!(t.indices().len(), 24);
    assert!(t.set_content("abcd".to_string()).is_ok());
    assert_eq!(t.content(), "abcd");
    assert_eq!(t.len(), 4);
    let e = t.set_content("abcde".to_string());
    assert_eq!(e, Err("string exceeded max length of 4 (had length of 5]".to_string()));
    assert_eq!(t.content(), "abcd");
}

#[test]
fn text_area_room_counts_bytes() {
    let t = TextArea::with_string(0, "é".to_string());
    assert_eq!(t.max_len(), 2);
    assert_eq!(t.len(), 2);
    let u = TextArea::with_string_and_max_len(0, 5, "abc".to_string());
    assert_eq!(u.max_len(), 5);
    let v = TextArea::with_string_and_max_len(0, 1, "abc".to_string());
    assert_eq!(v.max_len(), 3);
    assert_eq!(v.z_index(), 0);
}

#[test]
fn fixed_text_is_cut_or_filled_with_spaces() {
    assert_eq!(padded_chars("ab", 4), vec!['a', 'b', ' ', ' ']);
    assert_eq!(padded_chars("hello", 3), vec!['h', 'e', 'l']);
    let mut t = FixedTextArea::<3>::with_string(2, 11, "ab").unwrap();
    assert_eq!(t.string(), "ab ");
    assert_eq!(t.len(), 3);
    assert_eq!(t.texture_id(), Some(11));
    assert_eq!(t.indices().len(), 18);
    t.set_string("hello");
    assert_eq!(t.string(), "hel");
    assert!(!t.has_location());
}

#[test]
fn fixed_text_area_that_overflows_a_batch_is_refused() {
    assert!(FixedTextArea::<1000>::with_string(0, 1, "").is_ok());
    match FixedTextArea::<1002>::with_string(0, 1, "") {
        Err(e) => assert_eq!(e, "TextArea string is too long. 3 excessive characters."),
        Ok(_) => panic!("accepted a text area too long for a batch"),
    }
}

#[test]
fn fixed_text_area_is_dirty_until_computed() {
    let mut t = FixedTextArea::<2>::with_string(0, 1, "ab").unwrap();
    assert!(t.is_dirty());
    t.set_computed();
    assert!(!t.is_dirty());
    t.set_string("cd");
    assert!(t.is_dirty());
}
