use deskctrl::ringbuf::RingBuf;

fn held(buf: &RingBuf<u32>) -> Vec<u32> {
    buf.iter().into_iter().copied().collect()
}

#[test]
fn ring_fills_up_in_order() {
    let mut buf = RingBuf::new(3);
    assert_eq!(held(&buf), Vec::<u32>::new());
    assert_eq!(buf.push(1), None);
    assert_eq!(buf.push(2), None);
    assert_eq!(held(&buf), vec![1, 2]);
    assert_eq!(buf.push(3), None);
    assert_eq!(held(&buf), vec![1, 2, 3]);
}

#[test]
fn ring_gives_up_the_oldest() {
    let mut buf = RingBuf::new(3);
    let evicted: Vec<Option<u32>> = (1..=8).map(|elem| buf.push(elem)).collect();
    assert_eq!(
        evicted,
        vec![None, None, None, Some(1), Some(2), Some(3), Some(4), Some(5)]
    );
}

#[test]
fn ring_is_read_in_the_order_of_the_slots() {
    let mut buf = RingBuf::new(3);
    for elem in 1..=4 {
        buf.push(elem);
    }
    assert_eq!(held(&buf), vec![4, 2, 3]);
    buf.push(5);
    assert_eq!(held(&buf), vec![4, 5, 3]);
    buf.push(6);
    assert_eq!(held(&buf), vec![4, 5, 6]);
}

#[test]
fn ring_of_one_keeps_the_last() {
    let mut buf = RingBuf::new(1);
    assert_eq!(buf.push(1), None);
    assert_eq!(buf.push(2), Some(1));
    assert_eq!(held(&buf), vec![2]);
}

#[test]
fn ring_without_room_is_empty() {
    let buf: RingBuf<u32> = RingBuf::new(0);
    assert_eq!(held(&buf), Vec::<u32>::new());
}
