use atomics_and_locks::naive_channel;
use atomics_and_locks::oneshot;
use atomics_and_locks::oneshot_borrowed;

#[test]
fn test_channel() {
    let mut channel = naive_channel::Channel::new();
    // The receiving thread finds the queue empty and blocks.
    assert_eq!(channel.receive(), None);
    channel.send("hello");
    channel.send("world");
    channel.send("skata");
    // Woken by the notification, it takes the oldest message.
    let received = channel.receive();
    assert_eq!(received, Some("hello"));
    let last_received = channel.receive();
    assert_eq!(last_received, Some("world"));
    assert_eq!(channel.receive(), Some("skata"));
    assert_eq!(channel.receive(), None);
}

#[test]
fn naive_channel_interleaved_fifo() {
    let mut channel = naive_channel::Channel::new();
    channel.send(1);
    channel.send(2);
    assert_eq!(channel.receive(), Some(1));
    channel.send(3);
    assert_eq!(channel.receive(), Some(2));
    assert_eq!(channel.receive(), Some(3));
    assert_eq!(channel.receive(), None);
}

#[test]
fn oneshot_test_first() {
    let mut channel = oneshot::Channel::new();
    assert!(!channel.is_ready());
    channel.send("ssasa");
    assert!(channel.is_ready());
    let received = channel.receive();
    assert_eq!(received, "ssasa");
    assert!(!channel.is_ready());
}

#[should_panic]
#[test]
fn test_receive_should_panic_empty_channel() {
    let mut channel: oneshot::Channel<&str> = oneshot::Channel::new();
    channel.receive();
}

#[test]
fn oneshot_drops_unreceived_message() {
    let message = std::rc::Rc::new(String::from("never read"));
    let mut channel = oneshot::Channel::new();
    channel.send(message.clone());
    assert!(channel.is_ready());
    assert_eq!(std::rc::Rc::strong_count(&message), 2);
    drop(channel);
    // The channel dropped the message it still held, exactly once.
    assert_eq!(std::rc::Rc::strong_count(&message), 1);
}

#[test]
fn oneshot_received_message_is_not_dropped_again() {
    let message = std::rc::Rc::new(7);
    let mut channel = oneshot::Channel::new();
    channel.send(message.clone());
    let got = channel.receive();
    drop(channel);
    assert_eq!(std::rc::Rc::strong_count(&message), 2);
    drop(got);
    assert_eq!(std::rc::Rc::strong_count(&message), 1);
}

#[test]
fn oneshot_in_use_after_send_and_receive() {
    let mut channel = oneshot::Channel::new();
    assert!(!channel.is_in_use());
    channel.send(1);
    assert!(channel.is_in_use());
    assert_eq!(channel.receive(), 1);
    // Still claimed: a second send would panic.
    assert!(channel.is_in_use());
    assert!(!channel.is_ready());
}

#[test]
fn oneshot_borrowed_test_first() {
    let mut channel = oneshot_borrowed::Channel::new();
    let (sender, receiver) = channel.split();
    assert!(!receiver.is_ready(&channel));
    sender.send(&mut channel, "hello world");
    assert!(receiver.is_ready(&channel));
    assert_eq!(receiver.receive(&mut channel), "hello world");
}

#[test]
fn oneshot_borrowed_split_resets() {
    let mut channel = oneshot_borrowed::Channel::new();
    let (sender, _receiver) = channel.split();
    sender.send(&mut channel, 5);
    // A new split starts over with an empty channel.
    let (sender, receiver) = channel.split();
    assert!(!receiver.is_ready(&channel));
    sender.send(&mut channel, 6);
    assert_eq!(receiver.receive(&mut channel), 6);
}

#[test]
fn oneshot_second_receive_finds_nothing_ready() {
    let mut channel = oneshot::Channel::new();
    channel.send(1);
    assert_eq!(channel.receive(), 1);
    assert!(!channel.is_ready());
}
