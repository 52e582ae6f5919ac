use candy::channels::FiberId;
use candy::channels::Completion;
use candy::fibers::{Channel, Child, FiberStatus, FiberTree, OperationKind, Status, Vm};
use candy::object::ChannelId;

fn single(status: FiberStatus) -> FiberTree {
    FiberTree::SingleFiber { status, parent_nursery: Some(ChannelId(0)) }
}

fn section(children: Vec<FiberStatus>) -> Vm {
    let n = children.len();
    let mut fibers = vec![FiberTree::ParallelSection {
        paused_tree: Box::new(FiberTree::SingleFiber { status: FiberStatus::Running, parent_nursery: None }),
        nursery: ChannelId(0),
    }];
    fibers.extend(children.into_iter().map(single));
    let children = (1..=n).map(|i| Child { fiber: FiberId(i), return_channel: ChannelId(1) }).collect();
    Vm {
        fibers,
        channels: vec![Channel::Nursery { parent: FiberId(0), children }],
        root_fiber: FiberId(0),
        external_operations: vec![],
    }
}

#[test]
fn the_status_of_a_single_fiber() {
    let vm = Vm {
        fibers: vec![FiberTree::SingleFiber { status: FiberStatus::Done, parent_nursery: None }],
        channels: vec![],
        root_fiber: FiberId(0),
        external_operations: vec![],
    };
    assert!(matches!(vm.status(), Status::Done));
    let vm = Vm {
        fibers: vec![FiberTree::SingleFiber {
            status: FiberStatus::Receiving { channel: ChannelId(3) },
            parent_nursery: None,
        }],
        channels: vec![],
        root_fiber: FiberId(0),
        external_operations: vec![],
    };
    assert!(matches!(vm.status(), Status::WaitingForOperations));
}

#[test]
fn the_status_of_a_parallel_section() {
    assert!(matches!(section(vec![]).status(), Status::Done));
    assert!(matches!(
        section(vec![FiberStatus::Done, FiberStatus::Running]).status(),
        Status::Running
    ));
    assert!(matches!(
        section(vec![
            FiberStatus::Receiving { channel: ChannelId(2) },
            FiberStatus::Panicked { reason: "oops".to_string() },
            FiberStatus::Running,
        ])
        .status(),
        Status::Panicked { reason } if reason == "oops"
    ));
    // Children that are all done leave the section waiting for the nursery
    // to be closed.
    assert!(matches!(section(vec![FiberStatus::Done]).status(), Status::WaitingForOperations));
}

#[test]
fn choosing_the_fiber_to_run() {
    let vm = section(vec![FiberStatus::Running, FiberStatus::Running, FiberStatus::Done]);
    assert_eq!(vm.choose_fiber(&vec![0]), FiberId(1));
    assert_eq!(vm.choose_fiber(&vec![4]), FiberId(2));
    assert_eq!(vm.choose_fiber(&vec![]), FiberId(1));
}

#[test]
fn receiving_from_channels() {
    let mut vm = section(vec![FiberStatus::Running]);
    let channel = vm.create_channel(0);
    assert_eq!(channel, ChannelId(1));
    let done = vm.receive_from_channel(Some(FiberId(1)), channel);
    assert!(done.is_empty());
    match &vm.channels[1] {
        Channel::Internal(c) => assert_eq!(c.pending_receives, vec![Some(FiberId(1))]),
        other => panic!("expected an internal channel: {other:?}"),
    }
    vm.channels.push(Channel::External(ChannelId(7)));
    let done = vm.receive_from_channel(None, ChannelId(2));
    assert!(done.iter().all(|c| !matches!(c, Completion::Sent(_))) && done.is_empty());
    assert_eq!(vm.external_operations.len(), 1);
    assert_eq!(vm.external_operations[0].0, ChannelId(7));
    assert!(matches!(vm.external_operations[0].1.kind, OperationKind::Receive));
}
