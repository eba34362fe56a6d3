use item_views::{TrArray, TrAsSlice, TrAsSliceMut};

#[test]
fn array_slice_view_matches_contents() {
    let a: [u8; 3] = [10, 20, 30];
    let s = a.as_slice();
    assert_eq!(s.len(), 3);
    assert_eq!(s, &[10, 20, 30]);
}

#[test]
fn array_length_constant_equals_slice_len() {
    let a: [u16; 4] = [1, 2, 3, 4];
    assert_eq!(<[u16; 4] as TrArray>::LENGTH, 4);
    assert_eq!(<[u16; 4] as TrArray>::LENGTH, a.as_slice().len());
    let b: [u16; 4] = [9, 9, 9, 9];
    assert_eq!(<[u16; 4] as TrArray>::LENGTH, b.as_slice().len());
}

#[test]
fn zero_length_array() {
    let a: [u32; 0] = [];
    assert_eq!(<[u32; 0] as TrArray>::LENGTH, 0);
    assert_eq!(a.as_slice().len(), 0);
}

#[test]
fn vec_slice_view_matches_contents() {
    let mut v: Vec<i32> = Vec::new();
    v.push(-1);
    v.push(7);
    assert_eq!(v.as_slice().len(), 2);
    assert_eq!(TrAsSlice::as_slice(&v), &[-1, 7]);
}

#[test]
fn empty_vec_slice_view() {
    let v: Vec<i32> = Vec::new();
    assert_eq!(TrAsSlice::as_slice(&v).len(), 0);
}

#[test]
fn borrowed_slice_view_is_itself() {
    let backing = [4u8, 5, 6];
    let s: &[u8] = &backing;
    assert_eq!(s.as_slice(), &[4, 5, 6]);
    assert_eq!(s.as_slice().len(), 3);
}

#[test]
fn unsized_slice_views_itself() {
    let mut backing = [7u8, 8];
    let s: &mut [u8] = &mut backing;
    assert_eq!(<[u8] as TrAsSlice>::as_slice(s), &[7, 8]);
    {
        let m = <[u8] as TrAsSliceMut>::as_slice_mut(s);
        m[0] = 70;
    }
    assert_eq!(<[u8] as TrAsSlice>::as_slice(s), &[70, 8]);
}

#[test]
fn mut_borrowed_slice_capabilities() {
    let mut backing = [1u8, 2, 3];
    let mut s: &mut [u8] = &mut backing;
    assert_eq!(TrAsSlice::as_slice(&s), &[1, 2, 3]);
    {
        let m = TrAsSliceMut::as_slice_mut(&mut s);
        m[2] = 30;
    }
    assert_eq!(TrAsSlice::as_slice(&s), &[1, 2, 30]);
}

#[test]
fn array_mut_slice_write_is_observed() {
    let mut a: [u8; 3] = [1, 2, 3];
    {
        let m = a.as_slice_mut();
        assert_eq!(m.len(), 3);
        m[1] = 42;
    }
    assert_eq!(a.as_slice(), &[1, 42, 3]);
}

#[test]
fn vec_mut_slice_write_is_observed() {
    let mut v = vec![5u64, 6, 7];
    {
        let m = TrAsSliceMut::as_slice_mut(&mut v);
        m[0] = 50;
        m[2] = 70;
    }
    assert_eq!(TrAsSlice::as_slice(&v), &[50, 6, 70]);
}
