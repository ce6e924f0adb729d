use organelle::channel::Channel;

#[test]
fn bounded_channel_delivers_in_send_order() {
    let mut ch: Channel<u32> = Channel::new(4);
    for i in 0..4u32 {
        ch.send(i);
    }
    for i in 0..4u32 {
        assert_eq!(ch.recv(), Some(i));
    }
    assert_eq!(ch.recv(), None);
}

#[test]
fn sends_beyond_capacity_are_suspended_without_loss_or_reorder() {
    // capacity two: the third and later sends are suspended
    let mut ch: Channel<u32> = Channel::new(2);
    for i in 0..7u32 {
        ch.send(i);
    }
    assert!(!ch.is_empty());
    // draining resumes the suspended sends in their original order
    for i in 0..7u32 {
        assert_eq!(ch.recv(), Some(i));
    }
    assert!(ch.is_empty());
    assert_eq!(ch.recv(), None);
}

#[test]
fn draining_interleaved_with_sending_keeps_order() {
    let mut ch: Channel<u32> = Channel::new(1);
    ch.send(1);
    ch.send(2);
    assert_eq!(ch.recv(), Some(1));
    ch.send(3);
    assert_eq!(ch.recv(), Some(2));
    assert_eq!(ch.recv(), Some(3));
    assert_eq!(ch.recv(), None);
}
