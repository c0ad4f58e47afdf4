use imgui::string::{ImStr, ImString, UiBuffer};

#[test]
fn test_imstring_constructors() {
    let s = ImString::new("test".to_string());
    assert_eq!(s.0, b"test\0");

    let s = ImString::with_capacity(100);
    assert_eq!(s.0, b"\0");

    let s = ImString::from_utf8_unchecked(vec![b't', b'e', b's', b't']);
    assert_eq!(s.0, b"test\0");

    let s = ImString::from_utf8_with_nul_unchecked(vec![b't', b'e', b's', b't', b'\0']);
    assert_eq!(s.0, b"test\0");
}

#[test]
fn test_imstring_operations() {
    let mut s = ImString::new("test".to_string());
    s.clear();
    assert_eq!(s.0, b"\0");
    s.push('z');
    assert_eq!(s.0, b"z\0");
    s.push('\u{e4}');
    assert_eq!(s.0, b"z\xc3\xa4\0");
    s.clear();
    s.push_str("imgui-rs");
    assert_eq!(s.0, b"imgui-rs\0");
    s.push_str("\u{f6}\u{e4}");
    assert_eq!(s.0, b"imgui-rs\xc3\xb6\xc3\xa4\0");
}

#[test]
fn test_imstring_fmt_write() {
    let mut s = ImString::default();
    s.push_str(&format!("format {:02x}", 0x42));
    assert_eq!(s.0, b"format 42\0");
}

#[test]
fn test_imstring_refresh_len() {
    let mut s = ImString::new("testing".to_string());
    s.write_byte(2, b'z');
    s.write_byte(3, b'\0');
    assert_eq!(s.0, b"tez\0ing\0");
    s.refresh_len();
    assert_eq!(s.0, b"tez\0");
}

#[test]
fn test_imstring_interior_nul() {
    let s = ImString::new("test\0ohno".to_string());
    assert_eq!(s.0, b"test\0");
    assert_eq!(s.to_str(), "test");
    assert!(!s.is_empty());

    let s = ImString::new("\0ohno".to_string());
    assert_eq!(s.to_str(), "");
    assert!(s.is_empty());
}

#[test]
fn test_imstring_round_trip() {
    let s = ImString::new("grid label".to_string());
    assert_eq!(s.to_str(), "grid label");

    let s = ImString::new(String::new());
    assert_eq!(s.to_str(), "");
    assert!(s.is_empty());
}

#[test]
fn test_imstring_terminator_after_pushes() {
    let mut s = ImString::new("a".to_string());
    s.push_str("bc");
    s.push('d');
    s.push_str("e\0dropped");
    assert_eq!(s.0, b"abcde\0");
    assert_eq!(*s.0.last().unwrap(), 0u8);
    assert!(!s.0[..s.0.len() - 1].contains(&0u8));
}

#[test]
fn test_imstring_push_nul_char_is_noop() {
    let mut s = ImString::new("ab".to_string());
    s.push('\0');
    assert_eq!(s.0, b"ab\0");
    assert_eq!(s.to_str(), "ab");
}

#[test]
fn test_imstring_capacity_and_reserve() {
    let s = ImString::with_capacity(100);
    assert!(s.capacity() >= 100);
    assert!(s.capacity_with_nul() >= 101);

    let mut s = ImString::new("ab".to_string());
    s.reserve(64);
    assert!(s.capacity_with_nul() >= 67);
    assert_eq!(s.0, b"ab\0");

    s.reserve_exact(128);
    assert!(s.capacity_with_nul() >= 131);
    assert_eq!(s.0, b"ab\0");
}

#[test]
fn test_imstring_default() {
    let s = ImString::default();
    assert_eq!(s.0, b"\0");
    assert!(s.is_empty());
}

#[test]
fn test_imstring_as_im_str_scans_first_nul() {
    let mut s = ImString::new("testing".to_string());
    s.write_byte(3, b'\0');
    let v = s.as_im_str();
    assert_eq!(v.as_bytes(), b"tes\0");
    assert_eq!(v.to_str(), "tes");
}

#[test]
fn test_imstr_from_bytes() {
    let s = ImStr::from_utf8_with_nul_unchecked(b"hello\0");
    assert_eq!(s.to_str(), "hello");
    assert!(!s.is_empty());
    assert!(s.sanity_check());
    assert_eq!(s.as_bytes(), b"hello\0");

    let e = ImStr::from_utf8_with_nul_unchecked(b"\0");
    assert!(e.is_empty());
    assert!(e.sanity_check());
}

#[test]
fn test_imstr_to_im_string() {
    let s = ImStr::from_utf8_with_nul_unchecked(b"copy me\0");
    let owned = s.to_im_string();
    assert_eq!(owned.0, b"copy me\0");
    assert_eq!(owned.to_str(), "copy me");
}

#[test]
fn test_imstr_sanity_check_rejects_bad_bytes() {
    let interior = ImStr::from_utf8_with_nul_unchecked(b"he\0llo\0");
    assert!(!interior.sanity_check());

    let unterminated = ImStr::from_utf8_with_nul_unchecked(b"hello");
    assert!(!unterminated.sanity_check());

    let invalid_utf8 = ImStr::from_utf8_with_nul_unchecked(b"\xff\xfe\0");
    assert!(!invalid_utf8.sanity_check());

    let empty = ImStr::from_utf8_with_nul_unchecked(b"");
    assert!(!empty.sanity_check());
}

#[test]
fn test_uibuffer_push_offsets() {
    let mut b = UiBuffer::new(1024);
    let o1 = b.push("alpha");
    let o2 = b.push("beta");
    assert_eq!(o1, 0);
    assert_eq!(o2, 6);
    assert_eq!(b.buffer, b"alpha\0beta\0");
    assert_eq!(b.max_len, 1024);
}

#[test]
fn test_uibuffer_scratch_clears_over_threshold() {
    let mut b = UiBuffer::new(8);
    let o1 = b.scratch_txt("0123456789");
    assert_eq!(o1, 0);
    assert_eq!(b.buffer.len(), 11);
    let o2 = b.scratch_txt("ab");
    assert_eq!(o2, 0);
    assert_eq!(b.buffer, b"ab\0");
}

#[test]
fn test_uibuffer_scratch_keeps_under_threshold() {
    let mut b = UiBuffer::new(1024);
    let o1 = b.scratch_txt("one");
    let o2 = b.scratch_txt("two");
    assert_eq!(o1, 0);
    assert_eq!(o2, 4);
    assert_eq!(b.buffer, b"one\0two\0");
}

#[test]
fn test_uibuffer_refresh_buffer_bounding() {
    let mut b = UiBuffer::new(4);
    b.push("abcdef");
    assert!(b.buffer.len() > 4);
    b.refresh_buffer();
    assert_eq!(b.buffer.len(), 0);
    b.push("xy");
    b.refresh_buffer();
    assert_eq!(b.buffer, b"xy\0");
}

#[test]
fn test_uibuffer_scratch_txt_two() {
    let mut b = UiBuffer::new(64);
    let (o1, o2) = b.scratch_txt_two("one", "two");
    assert_eq!(o1, 0);
    assert_eq!(o2, 4);
    assert_eq!(b.buffer, b"one\0two\0");
}

#[test]
fn test_uibuffer_scratch_txt_opt() {
    let mut b = UiBuffer::new(64);
    assert_eq!(b.scratch_txt_opt(None::<&str>), None);
    assert_eq!(b.buffer.len(), 0);
    assert_eq!(b.scratch_txt_opt(Some("hi")), Some(0));
    assert_eq!(b.buffer, b"hi\0");
}

#[test]
fn test_uibuffer_scratch_txt_with_opt() {
    let mut b = UiBuffer::new(64);
    let (o1, o2) = b.scratch_txt_with_opt("label", Some("tip"));
    assert_eq!(o1, 0);
    assert_eq!(o2, Some(6));
    assert_eq!(b.buffer, b"label\0tip\0");

    let mut b2 = UiBuffer::new(64);
    let (p1, p2) = b2.scratch_txt_with_opt("label", None::<&str>);
    assert_eq!(p1, 0);
    assert_eq!(p2, None);
    assert_eq!(b2.buffer, b"label\0");
}
