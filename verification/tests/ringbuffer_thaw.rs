use meter_core::ringbuffer::{freeze, new};

#[test]
fn ringbuffer_fresh_ringbuffer_len_is_0() {
    assert_eq!(new::<&str>(5).len(), 0);
}

#[test]
fn ringbuffer_ringbuffer_capacity_is_correct() {
    assert_eq!(new::<&str>(5).get_capacity(), 5);
}

fn value_of(x: &i32) -> i32 {
    *x
}

fn length_of(x: &&str) -> usize {
    x.len()
}

#[test]
fn ringbuffer_fresh_ringbuffer_peek_is_none() {
    assert_eq!(new::<&str>(23).peek_first(length_of), None);
    assert_eq!(new::<i32>(3).peek_last(value_of), None);
}

#[test]
fn ringbuffer_fresh_ringbuffer_peek_when_filling() {
    let mut rb = new::<i32>(3);
    rb.push(3);
    assert_eq!(rb.peek_first(value_of), Some(3));
    assert_eq!(rb.peek_last(value_of), Some(3));
    rb.push(4);
    assert_eq!(rb.peek_first(value_of), Some(3));
    assert_eq!(rb.peek_last(value_of), Some(4));
    rb.push(5);
    assert_eq!(rb.peek_first(value_of), Some(3));
    assert_eq!(rb.peek_last(value_of), Some(5));
    rb.push(6);
    assert_eq!(rb.peek_first(value_of), Some(4));
    assert_eq!(rb.peek_last(value_of), Some(6));
    rb.push(7);
    assert_eq!(rb.peek_first(value_of), Some(5));
    assert_eq!(rb.peek_last(value_of), Some(7));
    rb.push(8);
    assert_eq!(rb.peek_first(value_of), Some(6));
    assert_eq!(rb.peek_last(value_of), Some(8));
    rb.push(9);
    assert_eq!(rb.peek_first(value_of), Some(7));
    assert_eq!(rb.peek_last(value_of), Some(9));
}

#[test]
fn ringbuffer_ringbuffer_overwrites_when_pushing_enough() {
    let mut rb = new::<i32>(3);
    assert_eq!(rb.push(3), None);
    assert_eq!(rb.push(4), None);
    assert_eq!(rb.push(5), None);
    assert_eq!(rb.push(6), Some(3));
    assert_eq!(rb.push(7), Some(4));
}

#[test]
fn ringbuffer_ringbuffer_len_keeps_working_even_when_pushing_enough() {
    let mut rb = new::<i32>(3);
    assert_eq!(rb.len(), 0);
    assert_eq!(rb.push(3), None);
    assert_eq!(rb.len(), 1);
    assert_eq!(rb.push(4), None);
    assert_eq!(rb.len(), 2);
    assert_eq!(rb.push(5), None);
    assert_eq!(rb.len(), 3);
    assert_eq!(rb.push(6), Some(3));
    assert_eq!(rb.len(), 3);
    assert_eq!(rb.push(7), Some(4));
    assert_eq!(rb.len(), 3);
}

#[test]
fn ringbuffer_ringbuffer_halve_data_even_length() {
    let mut rb = new::<i32>(7);
    assert_eq!(rb.len(), 0);
    assert_eq!(rb.push(3), None);
    assert_eq!(rb.len(), 1);
    assert_eq!(rb.push(4), None);
    assert_eq!(rb.len(), 2);
    assert_eq!(rb.push(5), None);
    assert_eq!(rb.len(), 3);
    assert_eq!(rb.push(6), None);
    assert_eq!(rb.len(), 4);
    rb.halve_data();
    assert_eq!(rb.len(), 2);
    assert_eq!(rb.get_capacity(), 7);
    let rbv = freeze(&rb);
    assert_eq!(rbv.at(0), Some(4).as_ref());
    assert_eq!(rbv.at(1), Some(6).as_ref());
    assert_eq!(rbv.at(2), None);
    assert_eq!(rbv.at(3), None);
    assert!(std::ptr::eq(rbv.thaw(), &rb));
    rb.halve_data();
    assert_eq!(rb.len(), 1);
    assert_eq!(rb.get_capacity(), 7);
    let rbv = freeze(&rb);
    assert_eq!(rbv.at(0), Some(6).as_ref());
    assert_eq!(rbv.at(1), None);
    assert_eq!(rbv.at(2), None);
    assert_eq!(rbv.at(3), None);

    let mut rb = new::<i32>(4);
    assert_eq!(rb.len(), 0);
    assert_eq!(rb.push(3), None);
    assert_eq!(rb.len(), 1);
    assert_eq!(rb.push(4), None);
    assert_eq!(rb.len(), 2);
    assert_eq!(rb.push(5), None);
    assert_eq!(rb.len(), 3);
    assert_eq!(rb.push(6), None);
    assert_eq!(rb.len(), 4);
    rb.halve_data();
    assert_eq!(rb.len(), 2);
    assert_eq!(rb.get_capacity(), 4);
    let rbv = freeze(&rb);
    assert_eq!(rbv.at(0), Some(4).as_ref());
    assert_eq!(rbv.at(1), Some(6).as_ref());
    assert_eq!(rbv.at(2), None);
    assert_eq!(rbv.at(3), None);
    assert!(std::ptr::eq(rbv.thaw(), &rb));
    rb.halve_data();
    assert_eq!(rb.len(), 1);
    assert_eq!(rb.get_capacity(), 4);
    let rbv = freeze(&rb);
    assert_eq!(rbv.at(0), Some(6).as_ref());
    assert_eq!(rbv.at(1), None);
    assert_eq!(rbv.at(2), None);
    assert_eq!(rbv.at(3), None);
}

#[test]
fn ringbuffer_ringbuffer_halve_data_odd_length() {
    let mut rb = new::<i32>(7);
    assert_eq!(rb.len(), 0);
    assert_eq!(rb.push(3), None);
    assert_eq!(rb.len(), 1);
    assert_eq!(rb.push(4), None);
    assert_eq!(rb.len(), 2);
    assert_eq!(rb.push(5), None);
    assert_eq!(rb.len(), 3);
    assert_eq!(rb.push(6), None);
    assert_eq!(rb.len(), 4);
    assert_eq!(rb.push(7), None);
    assert_eq!(rb.len(), 5);
    rb.halve_data();
    assert_eq!(rb.len(), 2);
    assert_eq!(rb.get_capacity(), 7);
    let rbv = freeze(&rb);
    assert_eq!(rbv.at(0), Some(4).as_ref());
    assert_eq!(rbv.at(1), Some(6).as_ref());
    assert_eq!(rbv.at(2), None);
    assert_eq!(rbv.at(3), None);

    let mut rb = new::<i32>(7);
    assert_eq!(rb.len(), 0);
    assert_eq!(rb.push(3), None);
    assert_eq!(rb.len(), 1);
    assert_eq!(rb.push(4), None);
    assert_eq!(rb.len(), 2);
    assert_eq!(rb.push(5), None);
    assert_eq!(rb.len(), 3);
    assert_eq!(rb.push(6), None);
    assert_eq!(rb.len(), 4);
    assert_eq!(rb.push(7), None);
    assert_eq!(rb.len(), 5);
    assert_eq!(rb.push(8), None);
    assert_eq!(rb.len(), 6);
    assert_eq!(rb.push(9), None);
    assert_eq!(rb.len(), 7);
    rb.halve_data();
    assert_eq!(rb.len(), 3);
    assert_eq!(rb.get_capacity(), 7);
    let rbv = freeze(&rb);
    assert_eq!(rbv.at(0), Some(4).as_ref());
    assert_eq!(rbv.at(1), Some(6).as_ref());
    assert_eq!(rbv.at(2), Some(8).as_ref());
    assert_eq!(rbv.at(3), None);
    assert_eq!(rbv.at(4), None);
    assert_eq!(rbv.at(5), None);
    assert_eq!(rbv.at(6), None);
    assert!(std::ptr::eq(rbv.thaw(), &rb));
    rb.halve_data();
    assert_eq!(rb.len(), 1);
    assert_eq!(rb.get_capacity(), 7);
    let rbv = freeze(&rb);
    assert_eq!(rbv.at(0), Some(6).as_ref());
    assert_eq!(rbv.at(1), None);
    assert_eq!(rbv.at(2), None);
    assert_eq!(rbv.at(3), None);
}

#[test]
fn ringbuffer_ringbuffer_halve_data_after_wrap_around() {
    let mut rb = new::<usize>(7);
    for i in 0..8 {
        rb.push(i);
    }
    let rbv = freeze(&rb);
    for i in 0..7 { // proof that rb = 1 2 3 4 5 6 7
        assert_eq!(rbv.at(i), Some(i + 1).as_ref());
    }
    assert!(std::ptr::eq(rbv.thaw(), &rb));
    rb.halve_data(); // should be 2 4 6
    assert_eq!(rb.len(), 3);
    assert_eq!(rb.get_capacity(), 7);
    let rbv = freeze(&rb);
    assert_eq!(rbv.at(0), Some(2).as_ref());
    assert_eq!(rbv.at(1), Some(4).as_ref());
    assert_eq!(rbv.at(2), Some(6).as_ref());
    assert_eq!(rbv.at(3), None);
    assert_eq!(rbv.at(4), None);

    let mut rb = new::<usize>(8);
    for i in 0..15 {
        rb.push(i);
    }
    let rbv = freeze(&rb);
    for i in 0..8 { // proof that rb = 7 8 9 10 11 12 13 14
        assert_eq!(rbv.at(i), Some(i + 7).as_ref());
    }
    assert!(std::ptr::eq(rbv.thaw(), &rb));
    rb.halve_data(); // should be 8 10 12 14
    assert_eq!(rb.len(), 4);
    assert_eq!(rb.get_capacity(), 8);
    let rbv = freeze(&rb);
    assert_eq!(rbv.at(0), Some(8).as_ref());
    assert_eq!(rbv.at(1), Some(10).as_ref());
    assert_eq!(rbv.at(2), Some(12).as_ref());
    assert_eq!(rbv.at(3), Some(14).as_ref());
    assert_eq!(rbv.at(4), None);
}

#[test]
fn ringbuffer_ringbuffer_freeze_and_thaw_overwrites_when_pushing_enough() {
    let mut rb = new::<i32>(3);
    let rbv = freeze(&rb);
    assert_eq!(rbv.at(0), None);
    assert_eq!(rbv.at(1), None);
    assert_eq!(rbv.at(2), None);
    assert_eq!(rbv.at(3), None);
    assert_eq!(rbv.at(4), None);
    assert_eq!(rbv.at(5), None);
    assert!(std::ptr::eq(rbv.thaw(), &rb));
    assert_eq!(rb.push(3), None);
    let rbv = freeze(&rb);
    assert_eq!(rbv.at(0), Some(3).as_ref());
    assert_eq!(rbv.at(1), None);
    assert_eq!(rbv.at(2), None);
    assert_eq!(rbv.at(3), None);
    assert_eq!(rbv.at(4), None);
    assert_eq!(rbv.at(5), None);
    assert!(std::ptr::eq(rbv.thaw(), &rb));
    assert_eq!(rb.push(4), None);
    let rbv = freeze(&rb);
    assert_eq!(rbv.at(0), Some(3).as_ref());
    assert_eq!(rbv.at(1), Some(4).as_ref());
    assert_eq!(rbv.at(2), None);
    assert_eq!(rbv.at(3), None);
    assert!(std::ptr::eq(rbv.thaw(), &rb));
    assert_eq!(rb.push(5), None);
    let rbv = freeze(&rb);
    assert_eq!(rbv.at(0), Some(3).as_ref());
    assert_eq!(rbv.at(1), Some(4).as_ref());
    assert_eq!(rbv.at(2), Some(5).as_ref());
    assert_eq!(rbv.at(3), None);
    assert_eq!(rbv.at(4), None);
    assert!(std::ptr::eq(rbv.thaw(), &rb));
    assert_eq!(rb.push(6), Some(3));
    let rbv = freeze(&rb);
    assert_eq!(rbv.at(0), Some(4).as_ref());
    assert_eq!(rbv.at(1), Some(5).as_ref());
    assert_eq!(rbv.at(2), Some(6).as_ref());
    assert_eq!(rbv.at(3), None);
    assert_eq!(rbv.at(4), None);
    assert!(std::ptr::eq(rbv.thaw(), &rb));
    assert_eq!(rb.push(7), Some(4));
    let rbv = freeze(&rb);
    assert_eq!(rbv.at(0), Some(5).as_ref());
    assert_eq!(rbv.at(1), Some(6).as_ref());
    assert_eq!(rbv.at(2), Some(7).as_ref());
    assert_eq!(rbv.at(3), None);
}
