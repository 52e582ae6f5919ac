use candy::channels::{Completion, FiberId, InternalChannel, Packet};
use candy::object::{Heap, Pointer};

fn packet(value: usize) -> Packet {
    Packet { heap: Heap { objects: vec![] }, value: Pointer(value) }
}

fn described(completions: &[Completion]) -> Vec<String> {
    completions
        .iter()
        .map(|c| match c {
            Completion::Sent(f) => format!("sent {:?}", f.map(|f| f.0)),
            Completion::Received(f, p) => format!("received {:?} {}", f.map(|f| f.0), p.value.0),
        })
        .collect()
}

#[test]
fn a_channel_without_capacity_hands_packets_over() {
    let mut channel = InternalChannel::new(0);
    assert!(channel.send(Some(FiberId(1)), packet(10)).is_empty());
    assert!(channel.send(Some(FiberId(2)), packet(20)).is_empty());
    let done = channel.receive(Some(FiberId(3)));
    assert_eq!(described(&done), vec!["sent Some(1)", "received Some(3) 10"]);
    assert_eq!(channel.pending_sends.len(), 1);
    let done = channel.receive(None);
    assert_eq!(described(&done), vec!["sent Some(2)", "received None 20"]);
    assert!(channel.pending_sends.is_empty() && channel.pending_receives.is_empty());
    assert!(channel.buffer.packets.is_empty());
}

#[test]
fn a_channel_with_capacity_buffers_packets() {
    let mut channel = InternalChannel::new(1);
    assert_eq!(described(&channel.send(Some(FiberId(1)), packet(10))), vec!["sent Some(1)"]);
    assert!(channel.send(Some(FiberId(2)), packet(20)).is_empty());
    assert_eq!(channel.buffer.packets.len(), 1);
    assert_eq!(channel.pending_sends.len(), 1);
    let done = channel.receive(Some(FiberId(3)));
    assert_eq!(
        described(&done),
        vec!["received Some(3) 10", "sent Some(2)"]
    );
    assert_eq!(channel.buffer.packets.len(), 1);
    assert_eq!(channel.buffer.packets[0].value, Pointer(20));
    let done = channel.receive(Some(FiberId(4)));
    assert_eq!(described(&done), vec!["received Some(4) 20"]);
    assert!(channel.receive(Some(FiberId(5))).is_empty());
    assert_eq!(channel.pending_receives, vec![Some(FiberId(5))]);
}
