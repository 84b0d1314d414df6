use norm::tiny_vec::TinyVec;

#[test]
fn tiny_vec_spill_over() {
    let mut vec = TinyVec::<4, usize>::default();

    vec.push(0);
    vec.push(1);
    vec.push(2);
    vec.push(3);
    assert_eq!(vec.len(), 4);
    assert!(vec.is_inline());

    vec.push(4);
    assert_eq!(vec.len(), 5);
    assert!(!vec.is_inline());
}

#[test]
fn tiny_vec_spill_over_non_copy() {
    let mut vec = TinyVec::<4, String>::default();

    vec.push(String::from("0"));
    vec.push(String::from("1"));
    vec.push(String::from("2"));
    vec.push(String::from("3"));
    assert_eq!(vec.len(), 4);
    assert!(vec.is_inline());

    vec.push(String::from("4"));
    assert_eq!(vec.len(), 5);
    assert!(!vec.is_inline());

    drop(vec);
}

#[test]
fn tiny_vec_remove() {
    let mut vec = TinyVec::<4, String>::default();

    vec.push(String::from("0"));
    vec.push(String::from("1"));
    vec.push(String::from("2"));
    vec.push(String::from("3"));
    vec.push(String::from("4"));

    assert_eq!(vec.len(), 5);
    assert!(!vec.is_inline());

    for _ in 0..5 {
        vec.remove(vec.len() - 1);
    }

    assert_eq!(vec.len(), 0);
}
