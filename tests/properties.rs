use ring_buffer::RingBuffer;

#[test]
fn fresh_buffer_is_empty_and_peeks_nothing() {
    let buf = RingBuffer::<u32, 4>::new();
    assert!(buf.is_empty());
    assert!(!buf.is_full());
    assert_eq!(buf.get_front(), None);
    assert_eq!(buf.get_back(), None);
    assert_eq!(buf.get_back_ref(), &None);
}

#[test]
fn capacity_one_is_empty_and_full_at_once() {
    let mut buf = RingBuffer::<u32, 1>::new();
    assert!(buf.is_empty());
    assert!(buf.is_full());
    assert!(!buf.push(1));
    assert!(!buf.push_front(2));
    assert_eq!(buf.pop(), None);
    assert_eq!(buf.pop_front(), None);
    assert_eq!(buf.get_front(), None);
}

#[test]
fn capacity_two_holds_one_element() {
    let mut buf = RingBuffer::<u32, 2>::new();
    assert!(buf.push(7));
    assert!(buf.is_full());
    assert!(!buf.push(8));
    assert!(!buf.push_front(9));
    assert_eq!(buf.pop(), Some(7));
    assert!(buf.is_empty());
}

#[test]
fn capacity_boundary_reports_full() {
    let mut buf = RingBuffer::<u64, 10>::new();
    for i in 1..10u64 {
        assert!(buf.push(i));
        assert!(!buf.is_empty());
    }
    assert!(buf.is_full());
    assert!(!buf.push(10));
    assert!(buf.is_full());
    assert_eq!(buf.get_back(), Some(9));
}

#[test]
fn rejected_push_front_leaves_contents() {
    let mut buf = RingBuffer::<u64, 4>::new();
    assert!(buf.push_front(1));
    assert!(buf.push_front(2));
    assert!(buf.push_front(3));
    assert!(!buf.push_front(4));
    assert!(!buf.push(5));
    assert_eq!(buf.get_front(), Some(3));
    assert_eq!(buf.pop_front(), Some(3));
    assert_eq!(buf.pop_front(), Some(2));
    assert_eq!(buf.pop_front(), Some(1));
    assert!(buf.is_empty());
}

#[test]
fn push_then_pop_returns_item() {
    let mut buf = RingBuffer::<String, 3>::new();
    assert!(buf.push("a".to_string()));
    assert_eq!(buf.get_back_ref(), &Some("a".to_string()));
    assert_eq!(buf.pop(), Some("a".to_string()));
    assert!(buf.is_empty());
}

#[test]
fn push_front_then_pop_front_returns_item() {
    let mut buf = RingBuffer::<String, 3>::new();
    assert!(buf.push_front("b".to_string()));
    assert_eq!(buf.get_front_ref(), &Some("b".to_string()));
    assert_eq!(buf.pop_front(), Some("b".to_string()));
    assert!(buf.is_empty());
}

#[test]
fn back_pops_come_out_last_in_first_out() {
    let mut buf = RingBuffer::<u32, 6>::new();
    for x in [10u32, 20, 30, 40, 50] {
        assert!(buf.push(x));
    }
    assert_eq!(buf.pop(), Some(50));
    assert_eq!(buf.pop(), Some(40));
    assert_eq!(buf.pop(), Some(30));
    assert_eq!(buf.pop(), Some(20));
    assert_eq!(buf.pop(), Some(10));
    assert_eq!(buf.pop(), None);
    assert!(buf.is_empty());
}

#[test]
fn back_pushes_come_out_first_in_first_out() {
    let mut buf = RingBuffer::<u32, 5>::new();
    assert!(buf.push(1));
    assert!(buf.push(2));
    assert!(buf.push(3));
    assert_eq!(buf.get_front(), Some(1));
    assert_eq!(buf.pop_front(), Some(1));
    assert_eq!(buf.pop_front(), Some(2));
    assert_eq!(buf.pop_front(), Some(3));
    assert_eq!(buf.pop_front(), None);
    assert!(buf.is_empty());
    assert_eq!(buf.get_front(), None);
    assert_eq!(buf.get_back(), None);
}

#[test]
fn front_pushes_come_out_first_in_first_out_at_the_back() {
    let mut buf = RingBuffer::<u32, 5>::new();
    assert!(buf.push_front(1));
    assert!(buf.push_front(2));
    assert!(buf.push_front(3));
    assert_eq!(buf.get_back(), Some(1));
    assert_eq!(buf.pop(), Some(1));
    assert_eq!(buf.pop(), Some(2));
    assert_eq!(buf.pop(), Some(3));
    assert!(buf.is_empty());
}

#[test]
fn empty_pops_change_nothing() {
    let mut buf = RingBuffer::<u32, 3>::new();
    assert_eq!(buf.pop(), None);
    assert_eq!(buf.pop_front(), None);
    assert!(buf.is_empty());
    assert!(!buf.is_full());
    assert_eq!(buf.get_front(), None);
    assert_eq!(buf.get_back(), None);
    assert!(buf.push(1));
    assert!(buf.push(2));
    assert_eq!(buf.pop(), Some(2));
}

#[test]
fn push_front_then_pop_returns_item() {
    let mut buf = RingBuffer::<u32, 10>::new();
    assert!(buf.push_front(1));
    assert_eq!(buf.get_front(), Some(1));
    assert_eq!(buf.get_back(), Some(1));
    assert_eq!(buf.pop(), Some(1));
    assert!(buf.is_empty());
    assert!(!buf.is_full());
    assert_eq!(buf.get_front(), None);
    assert_eq!(buf.get_back(), None);
}

#[test]
fn push_then_pop_front_returns_item() {
    let mut buf = RingBuffer::<u32, 10>::new();
    assert!(buf.push(5));
    assert_eq!(buf.get_front(), Some(5));
    assert_eq!(buf.pop_front(), Some(5));
    assert!(buf.is_empty());
    assert_eq!(buf.get_front(), None);
    assert_eq!(buf.get_back(), None);
}

#[test]
fn contents_slide_round_the_top() {
    let mut buf = RingBuffer::<u32, 4>::new();
    for i in 0..10u32 {
        assert!(buf.push(i));
        assert!(!buf.is_empty());
        assert!(!buf.is_full());
        assert_eq!(buf.get_front(), Some(i));
        assert_eq!(buf.get_back(), Some(i));
        assert_eq!(buf.pop_front(), Some(i));
        assert!(buf.is_empty());
        assert_eq!(buf.get_front(), None);
    }
}

#[test]
fn cursors_wrap_round_at_the_bottom() {
    let mut buf = RingBuffer::<u32, 3>::new();
    for i in 0..7u32 {
        assert!(buf.push_front(i));
        assert!(buf.push_front(i + 100));
        assert!(buf.is_full());
        assert_eq!(buf.pop_front(), Some(i + 100));
        assert_eq!(buf.pop_front(), Some(i));
        assert!(buf.is_empty());
    }
}

#[test]
fn both_ends_together() {
    let mut buf = RingBuffer::<u32, 5>::new();
    assert!(buf.push(2));
    assert!(buf.push_front(1));
    assert!(buf.push(3));
    assert_eq!(buf.get_front(), Some(1));
    assert_eq!(buf.get_back(), Some(3));
    assert_eq!(buf.pop(), Some(3));
    assert_eq!(buf.pop(), Some(2));
    assert!(!buf.is_empty());
    assert_eq!(buf.pop(), Some(1));
    assert!(buf.is_empty());
    assert_eq!(buf.pop(), None);
}

#[test]
fn mixed_ends_lose_nothing() {
    let mut buf = RingBuffer::<u32, 4>::new();
    assert!(buf.push(10));
    assert!(buf.push_front(30));
    assert_eq!(buf.pop_front(), Some(30));
    assert_eq!(buf.pop_front(), Some(10));
    assert!(buf.is_empty());
    assert!(buf.push_front(5));
    assert!(buf.push(6));
    assert!(buf.is_full() == false);
    assert!(buf.push(7));
    assert!(buf.is_full());
    assert!(!buf.push_front(8));
    assert_eq!(buf.pop(), Some(7));
    assert_eq!(buf.pop_front(), Some(5));
    assert_eq!(buf.pop(), Some(6));
    assert!(buf.is_empty());
}
