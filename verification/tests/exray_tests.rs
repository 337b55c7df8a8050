use exray::exray::{Exray, ExrayError};
use exray::functions::{fill_functions_i64, Func, FuncKind};
use exray::treap::{get_cnt, make_treap, merge, split};

fn exray_to_vec(e: &Exray) -> Vec<i64> {
    let mut res = Vec::<i64>::new();
    let len = e.len();
    for i in 0..len {
        res.push(e.get(i));
    }
    res
}

fn sum_func() -> Func {
    Func { kind: FuncKind::Sum, id: 0 }
}

fn min_func() -> Func {
    Func { kind: FuncKind::Min, id: 0 }
}

fn max_func() -> Func {
    Func { kind: FuncKind::Max, id: 0 }
}

#[test]
fn exray_it_works() {
    assert_eq!(2 + 2, 4);
}

#[test]
fn main_it_works() {
    assert_eq!(2 + 2, 4);
}

#[test]
fn exray_test_insert() {
    let mut e = Exray::new(
        vec![],
        vec![Func { kind: FuncKind::DoubleSum, id: 0 }, min_func()],
    );
    assert!(matches!(e.insert(0, 2).err(), None));
    assert!(matches!(e.insert(0, 1).err(), None));
    assert!(matches!(e.insert(2, 3).err(), None));
    assert!(matches!(e.insert(3, 4).err(), None));

    assert_eq!(exray_to_vec(&e), vec![1, 2, 3, 4]);
    assert_eq!(e.functions_values(), vec![20, 1]);

    assert!(matches!(e.insert(5, 1).err(), Some(ExrayError::IndexError(_))));
}

#[test]
fn exray_test_erase() {
    let mut e = Exray::new(vec![], vec![sum_func()]);
    assert!(matches!(e.insert(0, 2).err(), None));
    assert!(matches!(e.insert(0, 1).err(), None));
    assert!(matches!(e.insert(2, 3).err(), None));
    assert!(matches!(e.insert(3, 4).err(), None));

    assert!(matches!(e.erase(0).err(), None));
    assert_eq!(exray_to_vec(&e), vec![2, 3, 4]);
    assert_eq!(e.functions_values(), vec![9]);

    assert!(matches!(e.erase(1).err(), None));
    assert_eq!(exray_to_vec(&e), vec![2, 4]);
    assert_eq!(e.functions_values(), vec![6]);

    assert!(matches!(e.erase(1).err(), None));
    assert_eq!(exray_to_vec(&e), vec![2]);
    assert_eq!(e.functions_values(), vec![2]);

    assert!(matches!(e.erase(0).err(), None));
    assert_eq!(exray_to_vec(&e), Vec::<i64>::new());

    assert!(matches!(e.insert(0, 2).err(), None));
    assert!(matches!(e.insert(0, 1).err(), None));
    assert!(matches!(e.insert(2, 3).err(), None));
    assert!(matches!(e.insert(3, 4).err(), None));

    assert_eq!(exray_to_vec(&e), vec![1, 2, 3, 4]);
    assert_eq!(e.functions_values(), vec![10]);
    assert!(matches!(e.erase(4).err(), Some(ExrayError::IndexError(_))));

    assert!(matches!(e.erase_segment(1, 2).err(), None));
    assert_eq!(exray_to_vec(&e), vec![1, 4]);
    assert_eq!(e.functions_values(), vec![5]);

    assert!(matches!(e.erase_segment(1, 1).err(), None)); // array should be: [1]
    assert_eq!(exray_to_vec(&e), vec![1]);
    assert_eq!(e.functions_values(), vec![1]);

    assert!(matches!(e.erase_segment(1, 1).err(), Some(ExrayError::IndexError(_))));
    assert!(matches!(e.erase_segment(1, 0).err(), Some(ExrayError::IndexError(_))));

    assert!(matches!(e.erase_segment(0, 0).err(), None));
    assert_eq!(exray_to_vec(&e), Vec::<i64>::new());
}

#[test]
fn test_other_segment_fns() {
    let mut e = Exray::new(vec![], vec![sum_func()]);
    assert!(matches!(e.insert(0, 2).err(), None));
    assert!(matches!(e.insert(0, 1).err(), None));
    assert!(matches!(e.insert(2, 9).err(), None));
    assert!(matches!(e.insert(2, 4).err(), None));

    let r = e.extract_segment(1, 2);
    assert!(matches!(r.as_ref().err(), None));
    let mut new_e = r.unwrap();
    assert_eq!(exray_to_vec(&new_e), vec![2, 4]);
    assert_eq!(new_e.functions_values(), vec![6]);
    assert_eq!(new_e.functions().len(), 1);
    assert_eq!(exray_to_vec(&e), vec![1, 9]);
    assert_eq!(e.functions_values(), vec![10]);

    assert!(matches!(new_e.erase(0).err(), None));
    assert!(matches!(new_e.erase(0).err(), None));
    assert_eq!(exray_to_vec(&e), vec![1, 9]);
    assert_eq!(e.functions_values(), vec![10]);

    assert!(matches!(new_e.insert(0, 2).err(), None));
    assert!(matches!(new_e.insert(1, 3).err(), None));

    let err = e.insert_exray(&mut new_e, 1);
    assert!(matches!(err.as_ref().err(), None));

    assert_eq!(exray_to_vec(&e), vec![1, 2, 3, 9]);
    assert_eq!(e.functions_values(), vec![15]);
    let r = e.segment_functions_values(1, 3);
    assert!(matches!(r.as_ref().err(), None));
    assert_eq!(r.unwrap(), vec![14]);

    assert!(matches!(
        e.segment_functions_values(1, 4).err(),
        Some(ExrayError::IndexError(_))
    ));
    assert!(matches!(
        e.segment_functions_values(2, 1).err(),
        Some(ExrayError::IndexError(_))
    ));

    // A separately registered combiner of the same behaviour: not the same
    // function, so the exrays are incompatible.
    let mut fail_e = Exray::new(vec![], vec![Func { kind: FuncKind::Sum, id: 1 }]);
    let err2 = e.insert_exray(&mut fail_e, 0);
    assert!(matches!(
        err2.as_ref().err(),
        Some(ExrayError::IncompatibleExrayError(_))
    ));

    let mut last_e = Exray::new(vec![], vec![sum_func()]);
    assert!(matches!(last_e.insert(0, 42).err(), None));
    let err3 = e.insert_exray(&mut last_e, 0); // array should be: [42, 1, 2, 3, 9]
    assert!(matches!(err3.as_ref().err(), None));
    assert_eq!(e.functions_values(), vec![57]);
    assert_eq!(exray_to_vec(&e), vec![42, 1, 2, 3, 9]);
}

#[test]
fn test_clone_segment() {
    let mut e = Exray::new(vec![], vec![sum_func()]);
    assert!(matches!(e.insert(0, 2).err(), None));
    assert!(matches!(e.insert(0, 1).err(), None));
    assert!(matches!(e.insert(2, 4).err(), None));
    assert!(matches!(e.insert(3, 9).err(), None));

    let r = e.clone_segment(1, 3);
    assert!(matches!(r.as_ref().err(), None));
    let mut cloned = r.unwrap();
    assert_eq!(exray_to_vec(&cloned), vec![2, 4, 9]);
    assert_eq!(cloned.functions_values(), vec![15]);
    assert_eq!(cloned.functions().len(), 1);
    assert_eq!(exray_to_vec(&e), vec![1, 2, 4, 9]);
    assert_eq!(e.functions_values(), vec![16]);

    assert!(matches!(cloned.erase(2).err(), None));
    assert_eq!(exray_to_vec(&cloned), vec![2, 4]);
    assert_eq!(cloned.functions_values(), vec![6]);
    assert_eq!(exray_to_vec(&e), vec![1, 2, 4, 9]);
    assert_eq!(e.functions_values(), vec![16]);

    assert!(matches!(e.clone_segment(2, 1).err(), Some(ExrayError::IndexError(_))));
    assert!(matches!(e.clone_segment(2, 4).err(), Some(ExrayError::IndexError(_))));

    let err = e.insert_exray(&mut cloned, 1);
    assert!(matches!(err.as_ref().err(), None));
    assert_eq!(exray_to_vec(&e), vec![1, 2, 4, 2, 4, 9]);
}

#[test]
fn test_build_with_sum_min_max() {
    // Build [2, 9, -5, 10, 1024, 0] by inserting at positions 0 through 5.
    let mut e = Exray::new(vec![], vec![sum_func(), min_func(), max_func()]);
    let values = [2i64, 9, -5, 10, 1024, 0];
    for (i, v) in values.iter().enumerate() {
        assert!(matches!(e.insert(i, *v).err(), None));
    }
    assert_eq!(e.to_vec(), vec![2, 9, -5, 10, 1024, 0]);
    assert_eq!(e.functions_values(), vec![1040, -5, 1024]);
}

#[test]
fn test_insert_at_front() {
    let mut e = Exray::new(vec![], vec![sum_func(), min_func(), max_func()]);
    assert!(matches!(e.insert(0, 2).err(), None));
    assert!(matches!(e.insert(0, 9).err(), None));
    assert_eq!(e.to_vec(), vec![9, 2]);
    assert_eq!(e.functions_values(), vec![11, 2, 9]);
}

#[test]
fn test_segment_move_between_exrays() {
    let mut a = Exray::new(vec![0, 1, 2, 3, 8, 9], vec![]);
    let mut b = Exray::new(vec![4, 5, 6, 7], vec![]);
    assert!(matches!(a.insert_exray(&mut b, 4).err(), None));
    assert_eq!(a.to_vec(), vec![0, 1, 2, 3, 4, 5, 6, 7, 8, 9]);
    assert_eq!(b.len(), 0);
    assert_eq!(b.to_vec(), Vec::<i64>::new());
    assert_eq!(b.functions().len(), 0);
}

#[test]
fn test_clone_isolation() {
    let mut a = Exray::new(vec![0, 1, 2, 3], vec![sum_func()]);
    let r = a.clone_segment(1, 3);
    assert!(matches!(r.as_ref().err(), None));
    let mut c = r.unwrap();
    assert_eq!(c.to_vec(), vec![1, 2, 3]);
    assert!(matches!(c.set(0, 100).err(), None));
    assert!(matches!(c.set(2, -1).err(), None));
    assert_eq!(c.to_vec(), vec![100, 2, -1]);
    assert_eq!(a.to_vec(), vec![0, 1, 2, 3]);
    assert_eq!(a.functions_values(), vec![6]);
}

#[test]
fn test_bounds_leave_exray_unchanged() {
    let mut e = Exray::new(vec![5, 6, 7], vec![sum_func()]);
    let before = e.to_vec();

    assert!(matches!(e.insert(4, 1).err(), Some(ExrayError::IndexError(_))));
    assert_eq!(e.to_vec(), before);

    assert!(matches!(e.erase(3).err(), Some(ExrayError::IndexError(_))));
    assert_eq!(e.to_vec(), before);

    assert!(matches!(e.erase_segment(2, 1).err(), Some(ExrayError::IndexError(_))));
    assert!(matches!(e.erase_segment(1, 3).err(), Some(ExrayError::IndexError(_))));
    assert_eq!(e.to_vec(), before);

    assert!(matches!(e.extract_segment(2, 1).err(), Some(ExrayError::IndexError(_))));
    assert!(matches!(e.extract_segment(0, 3).err(), Some(ExrayError::IndexError(_))));
    assert_eq!(e.to_vec(), before);

    assert!(matches!(
        e.segment_functions_values(2, 1).err(),
        Some(ExrayError::IndexError(_))
    ));
    assert!(matches!(
        e.segment_functions_values(0, 3).err(),
        Some(ExrayError::IndexError(_))
    ));
    assert_eq!(e.to_vec(), before);

    assert!(matches!(e.recover_fvalues(3).err(), Some(ExrayError::IndexError(_))));
    assert!(matches!(e.set(3, 0).err(), Some(ExrayError::IndexError(_))));
    assert_eq!(e.to_vec(), before);
    assert_eq!(e.functions_values(), vec![18]);
}

#[test]
fn test_incompatible_function_sets() {
    let mut a = Exray::new(vec![1, 2], vec![sum_func()]);
    let a_before = a.to_vec();

    // Different arity.
    let mut b = Exray::new(vec![3], vec![sum_func(), min_func()]);
    assert!(matches!(
        a.insert_exray(&mut b, 0).err(),
        Some(ExrayError::IncompatibleExrayError(_))
    ));
    assert_eq!(a.to_vec(), a_before);
    assert_eq!(b.to_vec(), vec![3]);
    assert_eq!(b.functions().len(), 2);

    // Same arity, different function.
    let mut c = Exray::new(vec![4], vec![min_func()]);
    assert!(matches!(
        a.insert_exray(&mut c, 1).err(),
        Some(ExrayError::IncompatibleExrayError(_))
    ));
    assert_eq!(a.to_vec(), a_before);
    assert_eq!(c.to_vec(), vec![4]);
}

#[test]
fn test_len_matches_to_vec_after_operations() {
    let mut e = Exray::new(vec![10, 20, 30], vec![max_func()]);
    assert_eq!(e.len(), e.to_vec().len());
    assert!(matches!(e.insert(1, 15).err(), None));
    assert_eq!(e.len(), e.to_vec().len());
    assert!(matches!(e.erase(0).err(), None));
    assert_eq!(e.len(), e.to_vec().len());
    assert!(matches!(e.erase_segment(0, 1).err(), None));
    assert_eq!(e.len(), e.to_vec().len());
    assert_eq!(e.to_vec(), vec![30]);
}

#[test]
fn test_set_updates_aggregates() {
    let mut e = Exray::new(vec![1, 2, 3], vec![sum_func(), min_func(), max_func()]);
    assert_eq!(e.functions_values(), vec![6, 1, 3]);
    let prev = e.set(1, 50).unwrap();
    assert_eq!(prev, 2);
    assert_eq!(e.to_vec(), vec![1, 50, 3]);
    assert_eq!(e.functions_values(), vec![54, 1, 50]);
    assert_eq!(e.get(1), 50);
    assert!(matches!(e.recover_fvalues(1).err(), None));
    assert_eq!(e.functions_values(), vec![54, 1, 50]);
}

#[test]
fn test_segment_values_with_min_max() {
    let e_values = vec![20i64, 15, 18, 19, 50, 10];
    let mut e = Exray::new(e_values, vec![sum_func(), max_func(), min_func()]);
    let r = e.segment_functions_values(1, 3);
    assert_eq!(r.unwrap(), vec![52, 19, 15]);
    assert_eq!(e.functions_values(), vec![132, 50, 10]);
    assert_eq!(e.to_vec(), vec![20, 15, 18, 19, 50, 10]);
}

#[test]
fn test_exray_clone_is_independent() {
    let e = Exray::new(vec![7, 8], vec![sum_func()]);
    let mut c = e.clone();
    assert_eq!(c.to_vec(), vec![7, 8]);
    assert_eq!(c.functions_values(), vec![15]);
    assert!(matches!(c.insert(0, 1).err(), None));
    assert_eq!(c.to_vec(), vec![1, 7, 8]);
    assert_eq!(e.to_vec(), vec![7, 8]);
}

#[test]
fn test_wrapping_sum_aggregate() {
    // The maintained sum wraps around like two's-complement addition does.
    let mut e = Exray::new(vec![i64::MAX, 1], vec![sum_func()]);
    assert_eq!(e.functions_values(), vec![i64::MIN]);
    assert!(matches!(e.insert(2, -1).err(), None));
    assert_eq!(e.functions_values(), vec![i64::MAX]);
}

#[test]
fn test_fill_functions_i64() {
    let mut functions: Vec<(String, Func)> = Vec::new();
    fill_functions_i64(&mut functions);
    assert_eq!(functions.len(), 3);
    assert_eq!(functions[0].0, "sum");
    assert_eq!(functions[0].1, Func { kind: FuncKind::Sum, id: 0 });
    assert_eq!(functions[1].0, "max");
    assert_eq!(functions[1].1, Func { kind: FuncKind::Max, id: 0 });
    assert_eq!(functions[2].0, "min");
    assert_eq!(functions[2].1, Func { kind: FuncKind::Min, id: 0 });
}

#[test]
fn test_split_past_end_takes_everything() {
    let functions: Vec<Func> = Vec::new();
    let t = make_treap(5, Vec::new());
    let (a, b) = split(t, 7, &functions);
    assert_eq!(get_cnt(&a), 1);
    assert_eq!(get_cnt(&b), 0);
    let back = merge(a, b, &functions);
    assert_eq!(get_cnt(&back), 1);
}
