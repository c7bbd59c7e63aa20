use higher::{Extendable, Functor, Lift};
use std::collections::VecDeque;

#[test]
fn option_functor() {
    let a = Option::Some(31337);
    let b = a.fmap(|x| x + 2);
    assert_eq!(b, Option::Some(31339));
}

#[test]
fn array_endofunctor() {
    let a: [usize; 5] = [1, 2, 3, 4, 5];
    let b = a.fmap(|x| x * 2);
    assert_eq!(b, [2, 4, 6, 8, 10]);
}

#[test]
fn array_exofunctor() {
    let a: [u64; 5] = [1, 2, 3, 4, 5];
    let b = a.fmap(|x| ((x * 2) as u16));
    assert_eq!(b, [2, 4, 6, 8, 10]);
}

#[test]
fn vec_endofunctor() {
    let a = vec![1, 2, 3, 4, 5];
    let b = a.fmap(|x| x * 2);
    assert_eq!(b, vec![2, 4, 6, 8, 10]);
}

#[test]
fn vec_exofunctor() {
    let a = vec![1, 2, 3];
    let b = a.fmap(|x| (x as usize) * 2);
    assert_eq!(b, vec![2usize, 4usize, 6usize]);
}

#[test]
fn unzip() {
    let a = vec![(1usize, 2i32), (2usize, 4i32), (3usize, 6i32)];
    let (l, r) = a.funzip(std::convert::identity);
    assert_eq!(l, vec![1usize, 2usize, 3usize]);
    assert_eq!(r, vec![2i32, 4i32, 6i32]);
}

#[test]
fn option_none_stays_none() {
    let a: Option<i32> = None;
    let b = a.fmap(|x| x.to_string());
    assert_eq!(b, None);
}

#[test]
fn result_maps_success_only() {
    let ok: Result<i32, String> = Ok(20);
    assert_eq!(ok.fmap(|x| x + 1), Ok(21));
    let err: Result<i32, String> = Err("broken".to_string());
    assert_eq!(err.fmap(|x| x + 1), Err("broken".to_string()));
}

#[test]
fn result_error_is_not_handed_to_the_function() {
    let err: Result<i32, u8> = Err(3);
    let out = err.fmap(|_x| -> i32 { panic!("called on an error") });
    assert_eq!(out, Err(3));
}

#[test]
fn empty_vec_maps_to_empty_vec() {
    let a: Vec<u8> = Vec::new();
    let b = a.fmap(|x| u32::from(x) + 1);
    assert_eq!(b, Vec::<u32>::new());
}

#[test]
fn empty_array_maps_to_empty_array() {
    let a: [u8; 0] = [];
    let b: [String; 0] = a.fmap(|x| x.to_string());
    assert_eq!(b.len(), 0);
}

#[test]
fn array_of_owned_values_moves_each_element_once() {
    let a = ["a".to_string(), "bc".to_string(), "def".to_string()];
    let b = a.fmap(|s| s.len());
    assert_eq!(b, [1usize, 2, 3]);
}

#[test]
fn vec_keeps_length_and_order() {
    let a = vec![30, 10, 20, 10];
    let b = a.fmap(|x| x / 10);
    assert_eq!(b.len(), 4);
    assert_eq!(b, vec![3, 1, 2, 1]);
}

#[test]
fn vec_deque_keeps_order() {
    let mut a = VecDeque::new();
    a.push_back(2);
    a.push_back(3);
    a.push_front(1);
    let b = a.fmap(|x| x * 10);
    assert_eq!(b, VecDeque::from(vec![10, 20, 30]));
}

#[test]
fn map_vec_applies_front_to_back() {
    let out = higher::functor::map_vec(vec!["x", "yy", "zzz"], |s| s.len());
    assert_eq!(out, vec![1, 2, 3]);
}

#[test]
fn fconst_replaces_every_element() {
    let a = vec![1, 2, 3];
    assert_eq!(a.fconst("k".to_string()), vec!["k".to_string(); 3]);
    assert_eq!(Some(9).fconst('c'), Some('c'));
    let none: Option<u8> = None;
    assert_eq!(none.fconst('c'), None);
    assert_eq!([7u8, 8, 9].fconst(0i64), [0i64, 0, 0]);
}

#[test]
fn fconst_keeps_an_error() {
    let err: Result<u8, &str> = Err("no");
    assert_eq!(err.fconst(1u32), Err("no"));
    let ok: Result<u8, &str> = Ok(5);
    assert_eq!(ok.fconst(1u32), Ok(1u32));
}

#[test]
fn void_leaves_the_shape() {
    assert_eq!(vec![1, 2, 3].void(), vec![(), (), ()]);
    assert_eq!(Some("x").void(), Some(()));
    let none: Option<u8> = None;
    assert_eq!(none.void(), None);
    let err: Result<u8, i32> = Err(-1);
    assert_eq!(err.void(), Err(-1));
    assert_eq!([1u8, 2].void(), [(), ()]);
}

#[test]
fn f_into_iter_drains_in_order() {
    let my_functor = vec![1, 2, 3];
    let drained = my_functor.f_into_iter();
    let my_vec: Vec<i32> = drained.into_iter().collect();
    assert_eq!(my_vec, vec![1, 2, 3]);
}

#[test]
fn f_into_iter_of_each_container() {
    assert_eq!(Some(4).f_into_iter(), vec![4]);
    let none: Option<u8> = None;
    assert_eq!(none.f_into_iter(), Vec::<u8>::new());
    let ok: Result<u8, ()> = Ok(6);
    assert_eq!(ok.f_into_iter(), vec![6]);
    let err: Result<u8, ()> = Err(());
    assert_eq!(err.f_into_iter(), Vec::<u8>::new());
    assert_eq!([3u8, 1, 2].f_into_iter(), vec![3, 1, 2]);
    let deque: VecDeque<u8> = VecDeque::from(vec![9, 8, 7]);
    assert_eq!(deque.f_into_iter(), vec![9, 8, 7]);
}

#[test]
fn funzip_with_a_splitting_function() {
    let a = vec![12u32, 34, 56];
    let (tens, ones) = a.funzip(|x| (x / 10, (x % 10).to_string()));
    assert_eq!(tens, vec![1, 3, 5]);
    assert_eq!(ones, vec!["2".to_string(), "4".to_string(), "6".to_string()]);
}

#[test]
fn funzip_of_a_deque() {
    let a: VecDeque<(u8, char)> = VecDeque::from(vec![(1, 'a'), (2, 'b')]);
    let (l, r) = a.funzip(std::convert::identity);
    assert_eq!(l, VecDeque::from(vec![1u8, 2]));
    assert_eq!(r, VecDeque::from(vec!['a', 'b']));
}

#[test]
fn funzip_of_nothing() {
    let a: Vec<(u8, u8)> = Vec::new();
    let (l, r) = a.funzip(std::convert::identity);
    assert_eq!(l, Vec::<u8>::new());
    assert_eq!(r, Vec::<u8>::new());
}

#[test]
fn extendable_grows_at_the_back() {
    let mut v: Vec<u8> = Extendable::empty();
    assert!(v.is_empty());
    v.extend_one(1);
    v.extend_one(2);
    assert_eq!(v, vec![1, 2]);
    let mut d: VecDeque<u8> = Extendable::empty();
    assert!(d.is_empty());
    d.extend_one(1);
    d.extend_one(2);
    assert_eq!(d, VecDeque::from(vec![1, 2]));
}

#[test]
fn lift_is_what_fmap_does() {
    assert_eq!(vec![1, 2].lift(|x| x + 1), vec![1, 2].fmap(|x| x + 1));
    assert_eq!(Some(1).lift(|x| x + 1), Some(2));
}
