use epw::{window, window_bytes};

#[test]
fn window_one_and_one() {
    let v: Vec<i32> = vec![1, 2, 3, 4, 5];
    assert_eq!(window(&v, 1, 1), vec![1, 5]);
}

#[test]
fn window_two_and_two() {
    let v: Vec<i32> = vec![1, 2, 3, 4, 5];
    assert_eq!(window(&v, 2, 2), vec![1, 2, 4, 5]);
}

#[test]
fn window_five_and_five() {
    let v: Vec<i32> = vec![1, 2, 3, 4, 5];
    assert_eq!(window(&v, 5, 5), vec![1, 2, 3, 4, 5]);
}

#[test]
fn window_six_and_six_saturates() {
    let v: Vec<i32> = vec![1, 2, 3, 4, 5];
    assert_eq!(window(&v, 6, 6), vec![1, 2, 3, 4, 5]);
}

#[test]
fn window_zero_and_zero_is_empty() {
    let v: Vec<i32> = vec![1, 2, 3, 4, 5];
    assert_eq!(window(&v, 0, 0), Vec::<i32>::new());
}

#[test]
fn window_overlap_never_duplicates() {
    let v: Vec<i32> = vec![1, 2, 3, 4, 5];
    assert_eq!(window(&v, 3, 4), vec![1, 2, 3, 4, 5]);
    assert_eq!(window(&v, 4, 3), vec![1, 2, 3, 4, 5]);
}

#[test]
fn window_on_empty_input() {
    let v: Vec<i32> = Vec::new();
    assert_eq!(window(&v, 3, 3), Vec::<i32>::new());
}

#[test]
fn window_head_only_and_tail_only() {
    let v: Vec<i32> = vec![1, 2, 3, 4, 5];
    assert_eq!(window(&v, 2, 0), vec![1, 2]);
    assert_eq!(window(&v, 0, 2), vec![4, 5]);
}

#[test]
fn window_bytes_matches_window() {
    let v: Vec<Vec<u8>> = vec![
        b"a".to_vec(),
        b"bb".to_vec(),
        b"ccc".to_vec(),
        b"dddd".to_vec(),
        b"e".to_vec(),
    ];
    let r = window_bytes(&v, 2, 2);
    assert_eq!(
        r,
        vec![b"a".to_vec(), b"bb".to_vec(), b"dddd".to_vec(), b"e".to_vec()]
    );
    assert_eq!(window_bytes(&v, 0, 0), Vec::<Vec<u8>>::new());
}
