use imgui::internal::ImVector;

#[test]
fn test_imvector_from_vec() {
    let v = ImVector::from_vec(vec![1u32, 2, 3]);
    assert_eq!(v.len(), 3);
    assert_eq!(v.capacity(), 3);
    assert_eq!(v.as_slice(), &[1, 2, 3]);
}

#[test]
fn test_imvector_get_bounds() {
    let mut v = ImVector::from_vec(vec![10u8, 20]);
    assert_eq!(v.get(0), Some(&10));
    assert_eq!(v.get(1), Some(&20));
    assert_eq!(v.get(2), None);
    assert_eq!(v.get(100), None);
    assert!(v.get_mut(2).is_none());
    if let Some(e) = v.get_mut(1) {
        *e = 21;
    }
    assert_eq!(v.as_slice(), &[10, 21]);
}

#[test]
fn test_imvector_index() {
    let mut v = ImVector::from_vec(vec![5i32, 6]);
    assert_eq!(*v.index(0), 5);
    *v.index_mut(1) = 7;
    assert_eq!(*v.index(1), 7);
}

#[test]
fn test_imvector_replace_exact() {
    let mut v = ImVector::from_vec(vec![1u16, 2, 3, 4, 5]);
    v.replace_from_slice(&[9u16, 8]);
    assert_eq!(v.len(), 2);
    assert_eq!(v.capacity(), 2);
    assert_eq!(v.as_slice(), &[9, 8]);

    v.replace_from_slice(&[]);
    assert_eq!(v.len(), 0);
    assert_eq!(v.capacity(), 0);
    assert_eq!(v.as_slice(), &[] as &[u16]);
}

#[test]
fn test_imvector_as_slice_mut() {
    let mut v = ImVector::from_vec(vec![1u8, 2, 3]);
    let s = v.as_slice_mut();
    s[0] = 9;
    assert_eq!(v.as_slice(), &[9, 2, 3]);
    assert_eq!(v.len(), 3);
    assert_eq!(v.capacity(), 3);
}
