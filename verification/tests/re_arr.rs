use combo_vec::ReArr;

fn default_test_rearr() -> ReArr<i32, 5> {
    ReArr::from_arr_and_len(&[Some(1), Some(2), Some(3), None, None])
}

#[test]
fn copy_string_re_arr() {
    let mut x: ReArr<String, 3> = ReArr::new();
    x.push(String::from("hello"));
    x.push(String::from("world"));
    assert_eq!(x.join(" "), "hello world");
}

#[test]
fn re_arr_make_new() {
    let mut cv = default_test_rearr();
    cv.push(4);
    cv.push(5);
    assert_eq!(cv.get(0), Some(&1));
    assert_eq!(cv.get(1), Some(&2));
    assert_eq!(cv.get(2), Some(&3));
    assert_eq!(cv.get(3), Some(&4));
    assert_eq!(cv.last(), Some(&5));
    assert_eq!(cv.get(4), Some(&5));
    assert_eq!(cv.get(5), None);
    assert_eq!(cv.get_mut(0), Some(&mut 1));
}

#[test]
fn re_arr_iter() {
    let mut cv = default_test_rearr();
    cv.push(4);
    assert_eq!(cv.iter(), vec![&1, &2, &3, &4]);
    assert_eq!(cv.into_vec(), vec![1, 2, 3, 4]);
}

#[test]
fn re_arr_lengths() {
    let mut cv = default_test_rearr();
    cv.push(4);
    assert_eq!(cv.len(), 4);
    assert_eq!(cv.capacity(), 5);
}

#[test]
fn re_arr_extend() {
    let mut cv = default_test_rearr();
    cv.extend(vec![4]);
    assert_eq!(cv.len(), 4);
    assert_eq!(cv.to_vec(), vec![1, 2, 3, 4]);
}

#[test]
fn truncate_push() {
    let mut cv = default_test_rearr();
    cv.truncate(2);
    cv.push(3);
    assert_eq!(cv.len(), 3);
    assert_eq!(cv.to_vec(), vec![1, 2, 3]);
}

#[test]
fn truncate() {
    let mut cv = default_test_rearr();
    cv.truncate(2);
    assert_eq!(cv.len(), 2);
    assert_eq!(cv.to_vec(), vec![1, 2]);
}

#[test]
fn re_arr_truncate_invalids() {
    let mut cv = default_test_rearr();
    cv.truncate(4);
    cv.truncate(3);
    assert_eq!(cv.len(), 3);
    assert_eq!(cv.to_vec(), vec![1, 2, 3]);
}

#[test]
fn re_arr_exarr_macro() {
    let item1 = ReArr::from_arr([Some(1), Some(2), Some(3)]);
    assert_eq!(item1.len(), 3);

    let item2 = ReArr::from_arr([Some(5); 3]);
    assert_eq!(item2.len(), 3);
}

#[test]
fn rearr_new_is_empty() {
    let cv: ReArr<i32, 4> = ReArr::new();
    assert_eq!(cv.len(), 0);
    assert!(cv.is_empty());
    assert_eq!(cv.capacity(), 4);
    assert_eq!(cv.first(), None);
    assert_eq!(cv.last(), None);
    assert_eq!(cv.get(0), None);
}

#[test]
fn rearr_pop_order() {
    let mut cv = default_test_rearr();
    assert_eq!(cv.pop(), Some(3));
    assert_eq!(cv.pop(), Some(2));
    assert_eq!(cv.pop(), Some(1));
    assert_eq!(cv.pop(), None);
}

#[test]
fn rearr_remove_shifts_left() {
    let mut cv = default_test_rearr();
    assert_eq!(cv.remove(1), 2);
    assert_eq!(cv.len(), 2);
    assert_eq!(cv.to_vec(), vec![1, 3]);
}

#[test]
fn rearr_swap_remove_moves_last() {
    let mut cv = default_test_rearr();
    assert_eq!(cv.swap_remove(0), 1);
    assert_eq!(cv.len(), 2);
    assert_eq!(cv.to_vec(), vec![3, 2]);
}

#[test]
fn rearr_swap_remove_last_index() {
    let mut cv = default_test_rearr();
    assert_eq!(cv.swap_remove(2), 3);
    assert_eq!(cv.to_vec(), vec![1, 2]);
}

#[test]
fn rearr_resize_grows_and_shrinks() {
    let mut cv = default_test_rearr();
    cv.resize(5, 4);
    assert_eq!(cv.len(), 5);
    assert_eq!(cv.to_vec(), vec![1, 2, 3, 4, 4]);
    cv.resize(2, 4);
    assert_eq!(cv.len(), 2);
    assert_eq!(cv.to_vec(), vec![1, 2]);
}

#[test]
fn rearr_resize_with_producer() {
    let mut cv = default_test_rearr();
    cv.resize_with(5, || 7);
    assert_eq!(cv.to_vec(), vec![1, 2, 3, 7, 7]);
    cv.resize_with(2, || 7);
    assert_eq!(cv.to_vec(), vec![1, 2]);
}

#[test]
fn rearr_first_last_mut() {
    let mut cv = default_test_rearr();
    assert_eq!(cv.first(), Some(&1));
    assert_eq!(cv.last(), Some(&3));
    if let Some(x) = cv.first_mut() {
        *x = 10;
    }
    if let Some(x) = cv.last_mut() {
        *x = 30;
    }
    assert_eq!(cv.to_vec(), vec![10, 2, 30]);
}

#[test]
fn rearr_get_mut_writes_in_place() {
    let mut cv = default_test_rearr();
    if let Some(x) = cv.get_mut(1) {
        *x = 20;
    }
    assert_eq!(cv.to_vec(), vec![1, 20, 3]);
    assert_eq!(cv.get_mut(3), None);
}

#[test]
fn rearr_clear_is_idempotent() {
    let mut cv = default_test_rearr();
    cv.clear();
    assert_eq!(cv.len(), 0);
    assert_eq!(cv.to_vec(), Vec::<i32>::new());
    cv.clear();
    assert_eq!(cv.len(), 0);
    assert_eq!(cv.to_vec(), Vec::<i32>::new());
}

#[test]
fn rearr_truncate_to_own_length_is_noop() {
    let mut cv = default_test_rearr();
    cv.truncate(cv.len());
    assert_eq!(cv.len(), 3);
    assert_eq!(cv.to_vec(), vec![1, 2, 3]);
}

#[test]
fn rearr_ref_vec_borrows() {
    let cv = default_test_rearr();
    assert_eq!(cv.ref_vec(), vec![&1, &2, &3]);
}

#[test]
fn rearr_extend_to_full() {
    let mut cv = default_test_rearr();
    cv.extend(vec![4, 5]);
    assert_eq!(cv.len(), 5);
    assert_eq!(cv.to_vec(), vec![1, 2, 3, 4, 5]);
}

#[test]
fn rearr_from_arr_and_len_takes_prefix() {
    let cv: ReArr<i32, 4> = ReArr::from_arr_and_len(&[Some(9), None, None, None]);
    assert_eq!(cv.len(), 1);
    assert_eq!(cv.to_vec(), vec![9]);
    let empty: ReArr<i32, 4> = ReArr::from_arr_and_len(&[None, None, None, None]);
    assert_eq!(empty.len(), 0);
}

#[test]
fn rearr_join_edge_cases() {
    let empty: ReArr<String, 3> = ReArr::new();
    assert_eq!(empty.join(", "), "");
    let mut one: ReArr<String, 3> = ReArr::new();
    one.push(String::from("solo"));
    assert_eq!(one.join(", "), "solo");
    let mut three: ReArr<String, 3> = ReArr::new();
    three.push(String::from("1"));
    three.push(String::from("2"));
    three.push(String::from("3"));
    assert_eq!(three.join(", "), "1, 2, 3");
}

#[test]
fn rearr_default_is_empty() {
    let cv: ReArr<i32, 3> = Default::default();
    assert_eq!(cv.len(), 0);
    assert!(cv.is_empty());
}
