use std::collections::VecDeque;

use item_views::{MutItemView, TrAsSlice, TrItemsMutView, TrItemsRefView};

#[test]
fn array_views_match_slice_elements() {
    let a: [u8; 3] = [10, 20, 30];
    let views = a.items_ref_view();
    let s = a.as_slice();
    assert_eq!(views.len(), s.len());
    for (i, view) in views.iter().enumerate() {
        assert_eq!(**view, s[i]);
    }
}

#[test]
fn vec_views_match_slice_elements() {
    let v = vec![7i64, -3, 0];
    let views = v.items_ref_view();
    assert_eq!(views.len(), 3);
    assert_eq!(*views[0], 7);
    assert_eq!(*views[1], -3);
    assert_eq!(*views[2], 0);
}

#[test]
fn empty_vec_produces_no_views() {
    let v: Vec<u8> = Vec::new();
    assert_eq!(v.items_ref_view().len(), 0);
}

#[test]
fn borrowed_slice_views() {
    let backing = [1u8, 2];
    let s: &[u8] = &backing;
    let views = s.items_ref_view();
    assert_eq!(views.len(), 2);
    assert_eq!(*views[0], 1);
    assert_eq!(*views[1], 2);
}

#[test]
fn option_present_yields_one_view() {
    let o: Option<u32> = Some(11);
    let views = o.items_ref_view();
    assert_eq!(views.len(), 1);
    assert_eq!(*views[0], 11);
}

#[test]
fn option_absent_yields_no_view() {
    let o: Option<u32> = None;
    assert_eq!(o.items_ref_view().len(), 0);
}

#[test]
fn result_success_yields_one_view() {
    let r: Result<u32, String> = Ok(8);
    let views = r.items_ref_view();
    assert_eq!(views.len(), 1);
    assert_eq!(*views[0], 8);
}

#[test]
fn result_error_yields_no_view() {
    let r: Result<u32, String> = Err(String::from("broken"));
    assert_eq!(r.items_ref_view().len(), 0);
}

#[test]
fn vecdeque_views_follow_queue_order() {
    let mut q: VecDeque<u8> = VecDeque::new();
    q.push_back(2);
    q.push_back(3);
    q.push_front(1);
    let views = q.items_ref_view();
    assert_eq!(views.len(), 3);
    assert_eq!(*views[0], 1);
    assert_eq!(*views[1], 2);
    assert_eq!(*views[2], 3);
}

#[test]
fn restartable_two_calls_agree() {
    let v = vec![4u8, 5, 6];
    let first: Vec<u8> = v.items_ref_view().into_iter().copied().collect();
    let second: Vec<u8> = v.items_ref_view().into_iter().copied().collect();
    assert_eq!(first, second);
    assert_eq!(first, vec![4, 5, 6]);

    let o: Option<i8> = Some(-2);
    let a: Vec<i8> = o.items_ref_view().into_iter().copied().collect();
    let b: Vec<i8> = o.items_ref_view().into_iter().copied().collect();
    assert_eq!(a, b);
}

#[test]
fn mut_views_are_position_handles_in_order() {
    let mut v = vec![9u8, 8, 7];
    let handles = v.items_mut_view();
    assert_eq!(handles.len(), 3);
    for (i, h) in handles.iter().enumerate() {
        assert_eq!(h.position, i);
    }
    assert_eq!(v, vec![9, 8, 7]);
}

#[test]
fn vec_write_through_is_observed() {
    let mut v = vec![1u8, 2, 3];
    let handles = v.items_mut_view();
    v.write_through(&handles[1], 20);
    assert_eq!(v, vec![1, 20, 3]);
    let views = v.items_ref_view();
    assert_eq!(*views[1], 20);
}

#[test]
fn array_write_through_is_observed() {
    let mut a: [u8; 2] = [5, 6];
    a.write_through(&MutItemView { position: 0 }, 50);
    assert_eq!(a, [50, 6]);
}

#[test]
fn mut_borrowed_slice_write_through() {
    let mut backing = [5u8, 6];
    let mut s: &mut [u8] = &mut backing;
    let handles = s.items_mut_view();
    s.write_through(&handles[0], 55);
    let views = s.items_ref_view();
    assert_eq!(*views[0], 55);
    assert_eq!(*views[1], 6);
}

#[test]
fn option_write_through_is_observed() {
    let mut o: Option<u8> = Some(1);
    let handles = o.items_mut_view();
    assert_eq!(handles.len(), 1);
    o.write_through(&handles[0], 9);
    assert_eq!(o, Some(9));
}

#[test]
fn result_write_through_keeps_success_state() {
    let mut r: Result<u8, bool> = Ok(1);
    r.write_through(&MutItemView { position: 0 }, 4);
    assert_eq!(r, Ok(4));
}

#[test]
fn result_error_produces_no_mut_view() {
    let mut r: Result<u8, bool> = Err(true);
    assert_eq!(r.items_mut_view().len(), 0);
    assert_eq!(r, Err(true));
}

#[test]
fn vecdeque_write_through_is_observed() {
    let mut q: VecDeque<u16> = VecDeque::new();
    q.push_back(100);
    q.push_back(200);
    q.push_back(300);
    let handles = q.items_mut_view();
    q.write_through(&handles[2], 333);
    let views = q.items_ref_view();
    assert_eq!(*views[0], 100);
    assert_eq!(*views[1], 200);
    assert_eq!(*views[2], 333);
}
