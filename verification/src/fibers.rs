//! A VM of several fibers.
//!
//! Each fiber runs on its own. A fiber that enters a parallel scope pauses;
//! the scope's nursery, a channel, collects the children spawned in it, and
//! the paused fiber's tree stands for all of them until they are done. The
//! status of the VM is that of its root fiber's tree.
//!
//! Fibers are numbered in the order they were created, so children come
//! after the fiber that spawned them; fibers and channels are kept at the
//! index of their number.

use crate::channels::{channel_wf, worked, Completion, FiberId, InternalChannel, Packet, SpecChannel};
use crate::object::{ChannelId, Pointer};
use vstd::prelude::*;

verus! {

/// What a fiber is doing.
#[derive(Debug)]
pub enum FiberStatus {
    Running,
    Sending { channel: ChannelId, packet: Packet },
    Receiving { channel: ChannelId },
    CreatingChannel { capacity: usize },
    InParallelScope { body: Pointer, return_channel: ChannelId },
    Done,
    Panicked { reason: String },
}

/// A fiber, or a fiber paused in a parallel scope whose nursery holds the
/// children.
#[derive(Debug)]
pub enum FiberTree {
    SingleFiber { status: FiberStatus, parent_nursery: Option<ChannelId> },
    ParallelSection { paused_tree: Box<FiberTree>, nursery: ChannelId },
}

/// A child of a nursery and the channel it returns its result to.
#[derive(Clone, Copy, Debug, PartialEq, Eq, Structural)]
pub struct Child {
    pub fiber: FiberId,
    pub return_channel: ChannelId,
}

/// A channel: one inside the VM, one to the outside, or a nursery.
#[derive(Debug)]
pub enum Channel {
    Internal(InternalChannel),
    External(ChannelId),
    Nursery { parent: FiberId, children: Vec<Child> },
}

/// The status of a fiber tree, and of the VM.
#[derive(Debug)]
pub enum Status {
    Running,
    WaitingForOperations,
    Done,
    Panicked { reason: String },
}

/// What an operation on a channel to the outside does.
#[derive(Debug)]
pub enum OperationKind {
    Send { packet: Packet },
    Receive,
}

/// An operation on a channel to the outside, and the fiber that performs it
/// (or none, for an operation from outside the VM).
#[derive(Debug)]
pub struct Operation {
    pub performing_fiber: Option<FiberId>,
    pub kind: OperationKind,
}

/// The fibers and channels of a VM, its root fiber, and the operations on
/// channels to the outside, in the order they were made, each with its
/// channel.
#[derive(Debug)]
pub struct Vm {
    pub fibers: Vec<FiberTree>,
    pub channels: Vec<Channel>,
    pub root_fiber: FiberId,
    pub external_operations: Vec<(ChannelId, Operation)>,
}

// ----------------------------------------------------------------------------
// The model.

/// The children of the nursery.
pub open spec fn nursery_children(channels: Seq<Channel>, nursery: ChannelId) -> Seq<Child> {
    if nursery.0 < channels.len() {
        match channels[nursery.0 as int] {
            Channel::Nursery { children, .. } => children@,
            _ => Seq::empty(),
        }
    } else {
        Seq::empty()
    }
}

/// Every fiber is at rest (it neither creates a channel nor enters a parallel
/// scope: the VM handles those requests right away), and every paused
/// fiber's nursery is a nursery whose children are fibers that came after
/// it.
pub open spec fn fibers_wf(fibers: Seq<FiberTree>, channels: Seq<Channel>) -> bool {
    forall|id: int|
        0 <= id < fibers.len() ==> match #[trigger] fibers[id] {
            FiberTree::SingleFiber { status, .. } => !(status is CreatingChannel)
                && !(status is InParallelScope),
            FiberTree::ParallelSection { nursery, .. } => {
                &&& nursery.0 < channels.len()
                &&& channels[nursery.0 as int] is Nursery
                &&& forall|i: int|
                    0 <= i < nursery_children(channels, nursery).len() ==> id < (
                    #[trigger] nursery_children(channels, nursery)[i]).fiber.0 < fibers.len()
            },
        }
}

/// A status as values.
pub open spec fn status_view(s: Status) -> (int, Seq<char>) {
    match s {
        Status::Running => (0, Seq::empty()),
        Status::WaitingForOperations => (1, Seq::empty()),
        Status::Done => (2, Seq::empty()),
        Status::Panicked { reason } => (3, reason@),
    }
}

/// The status of the fiber's tree: a single fiber's from what it does; a
/// parallel section is done when its nursery has no children, runs when the
/// first child that is neither waiting nor done runs, panics when that child
/// panics, and waits otherwise.
pub open spec fn status_of(fibers: Seq<FiberTree>, channels: Seq<Channel>, id: int) -> (int, Seq<
    char,
>)
    decreases fibers.len() - id, 1int, 0int,
{
    if 0 <= id < fibers.len() {
        match fibers[id] {
            FiberTree::SingleFiber { status, .. } => match status {
                FiberStatus::Running => (0, Seq::empty()),
                FiberStatus::Done => (2, Seq::empty()),
                FiberStatus::Panicked { reason } => (3, reason@),
                _ => (1, Seq::empty()),
            },
            FiberTree::ParallelSection { nursery, .. } => {
                let children = nursery_children(channels, nursery);
                if children.len() == 0 {
                    (2, Seq::empty())
                } else {
                    children_status(fibers, channels, children, 0, id)
                }
            },
        }
    } else {
        (1, Seq::empty())
    }
}

/// The status of the children from the `i`-th on, of the fiber `parent`.
pub open spec fn children_status(
    fibers: Seq<FiberTree>,
    channels: Seq<Channel>,
    children: Seq<Child>,
    i: int,
    parent: int,
) -> (int, Seq<char>)
    decreases fibers.len() - parent, 0int, children.len() - i,
{
    if 0 <= i < children.len() && parent < children[i].fiber.0 < fibers.len() && 0 <= parent {
        let s = status_of(fibers, channels, children[i].fiber.0 as int);
        if s.0 == 0 || s.0 == 3 {
            s
        } else {
            children_status(fibers, channels, children, i + 1, parent)
        }
    } else {
        (1, Seq::empty())
    }
}

// ----------------------------------------------------------------------------
// The status.

impl Vm {
    /// The status of the fiber's tree.
    pub fn status_of(&self, fiber: FiberId) -> (res: Status)
        requires
            fibers_wf(self.fibers@, self.channels@),
            fiber.0 < self.fibers@.len(),
        ensures
            status_view(res) == status_of(self.fibers@, self.channels@, fiber.0 as int),
        decreases self.fibers@.len() - fiber.0, 1int, 0int,
    {
        match &self.fibers[fiber.0] {
            FiberTree::SingleFiber { status, .. } => match status {
                FiberStatus::Running => Status::Running,
                FiberStatus::Sending { .. } | FiberStatus::Receiving { .. } =>
                    Status::WaitingForOperations,
                FiberStatus::Done => Status::Done,
                FiberStatus::Panicked { reason } => Status::Panicked { reason: reason.clone() },
                FiberStatus::CreatingChannel { .. } | FiberStatus::InParallelScope { .. } => {
                    proof {
                        let t = self.fibers@[fiber.0 as int];
                        assert(t is SingleFiber);
                        assert(false);
                    }
                    Status::WaitingForOperations
                },
            },
            FiberTree::ParallelSection { nursery, .. } => {
                let ghost id = fiber.0 as int;
                proof {
                    assert(fibers_wf(self.fibers@, self.channels@));
                    let t = self.fibers@[id];
                    assert(t is ParallelSection);
                }
                let children = match &self.channels[nursery.0] {
                    Channel::Nursery { children, .. } => children,
                    _ => {
                        proof {
                            assert(false);
                        }
                        return Status::Done;
                    },
                };
                proof {
                    assert(children@ == nursery_children(self.channels@, *nursery));
                }
                if children.len() == 0 {
                    return Status::Done;
                }
                self.children_status(children, fiber)
            },
        }
    }

    /// The status of the children of the fiber.
    fn children_status(&self, children: &Vec<Child>, parent: FiberId) -> (res: Status)
        requires
            fibers_wf(self.fibers@, self.channels@),
            parent.0 < self.fibers@.len(),
            forall|i: int|
                0 <= i < children@.len() ==> parent.0 < (#[trigger] children@[i]).fiber.0
                    < self.fibers@.len(),
        ensures
            status_view(res) == children_status(
                self.fibers@,
                self.channels@,
                children@,
                0,
                parent.0 as int,
            ),
        decreases self.fibers@.len() - parent.0, 0int, children@.len(),
    {
        let mut i: usize = 0;
        while i < children.len()
            invariant
                fibers_wf(self.fibers@, self.channels@),
                parent.0 < self.fibers@.len(),
                forall|j: int|
                    0 <= j < children@.len() ==> parent.0 < (#[trigger] children@[j]).fiber.0
                        < self.fibers@.len(),
                i <= children@.len(),
                children_status(self.fibers@, self.channels@, children@, 0, parent.0 as int)
                    == children_status(
                    self.fibers@,
                    self.channels@,
                    children@,
                    i as int,
                    parent.0 as int,
                ),
            decreases children@.len() - i,
        {
            let child = children[i];
            let status = self.status_of(child.fiber);
            match status {
                Status::Running => return Status::Running,
                Status::Panicked { reason } => return Status::Panicked { reason },
                _ => {},
            }
            i = i + 1;
        }
        Status::WaitingForOperations
    }

    /// The status of the VM: that of its root fiber's tree.
    pub fn status(&self) -> (res: Status)
        requires
            fibers_wf(self.fibers@, self.channels@),
            self.root_fiber.0 < self.fibers@.len(),
        ensures
            status_view(res) == status_of(self.fibers@, self.channels@, self.root_fiber.0 as int),
    {
        self.status_of(self.root_fiber)
    }
}

// ----------------------------------------------------------------------------
// Choosing the fiber to run.

/// Every paused fiber's nursery has children left (a parallel scope ends as
/// soon as its last child is done).
pub open spec fn sections_have_children(fibers: Seq<FiberTree>, channels: Seq<Channel>) -> bool {
    forall|id: int|
        0 <= id < fibers.len() ==> (#[trigger] fibers[id] matches FiberTree::ParallelSection {
            nursery,
            ..
        } ==> nursery_children(channels, nursery).len() > 0)
}

/// The draw for the `level`-th choice: the given one, or 0 once they run out.
pub open spec fn draw(picks: Seq<usize>, level: int) -> usize {
    if 0 <= level < picks.len() {
        picks[level]
    } else {
        0
    }
}

/// The fiber that runs next, going down from the fiber `id`: a single fiber
/// runs itself; a paused one passes on to the child its nursery holds at the
/// place that the draw gives (the draw taken modulo the number of children).
pub open spec fn chosen_fiber(
    fibers: Seq<FiberTree>,
    channels: Seq<Channel>,
    id: int,
    picks: Seq<usize>,
    level: int,
) -> int
    decreases fibers.len() - id,
{
    if 0 <= id < fibers.len() {
        match fibers[id] {
            FiberTree::SingleFiber { .. } => id,
            FiberTree::ParallelSection { nursery, .. } => {
                let children = nursery_children(channels, nursery);
                if children.len() > 0 {
                    let child = children[(draw(picks, level) as int) % (children.len() as int)].fiber.0 as int;
                    if id < child < fibers.len() {
                        chosen_fiber(fibers, channels, child, picks, level + 1)
                    } else {
                        id
                    }
                } else {
                    id
                }
            },
        }
    } else {
        id
    }
}

impl Vm {
    /// The fiber to run next: from the root, at each paused fiber one of its
    /// nursery's children, chosen by the next of the draws (which the caller
    /// makes at random).
    pub fn choose_fiber(&self, picks: &Vec<usize>) -> (res: FiberId)
        requires
            fibers_wf(self.fibers@, self.channels@),
            sections_have_children(self.fibers@, self.channels@),
            self.root_fiber.0 < self.fibers@.len(),
        ensures
            res.0 == chosen_fiber(self.fibers@, self.channels@, self.root_fiber.0 as int, picks@, 0),
            res.0 < self.fibers@.len(),
            self.fibers@[res.0 as int] is SingleFiber,
    {
        let mut fiber_id = self.root_fiber;
        let mut level: usize = 0;
        loop
            invariant
                fibers_wf(self.fibers@, self.channels@),
                sections_have_children(self.fibers@, self.channels@),
                fiber_id.0 < self.fibers@.len(),
                chosen_fiber(self.fibers@, self.channels@, self.root_fiber.0 as int, picks@, 0)
                    == chosen_fiber(
                    self.fibers@,
                    self.channels@,
                    fiber_id.0 as int,
                    picks@,
                    level as int,
                ),
                level <= fiber_id.0,
            decreases self.fibers@.len() - fiber_id.0,
        {
            let ghost id = fiber_id.0 as int;
            match &self.fibers[fiber_id.0] {
                FiberTree::SingleFiber { .. } => {
                    return fiber_id;
                },
                FiberTree::ParallelSection { nursery, .. } => {
                    proof {
                        let t = self.fibers@[id];
                        assert(t is ParallelSection);
                    }
                    let children = match &self.channels[nursery.0] {
                        Channel::Nursery { children, .. } => children,
                        _ => {
                            proof {
                                assert(false);
                            }
                            return fiber_id;
                        },
                    };
                    proof {
                        assert(children@ == nursery_children(self.channels@, *nursery));
                    }
                    let pick = if level < picks.len() {
                        picks[level]
                    } else {
                        0
                    };
                    let child = children[pick % children.len()];
                    proof {
                        assert(id < child.fiber.0 < self.fibers@.len());
                    }
                    fiber_id = child.fiber;
                    level = level + 1;
                },
            }
        }
    }
}

// ----------------------------------------------------------------------------
// Operations on channels.

/// Every channel inside the VM holds no more than its capacity.
pub open spec fn channels_wf(channels: Seq<Channel>) -> bool {
    forall|i: int|
        0 <= i < channels.len() ==> (#[trigger] channels[i] matches Channel::Internal(c) ==> channel_wf(
            c@,
        ))
}

impl Vm {
    /// Creates a channel inside the VM with the capacity, under the next
    /// number.
    pub fn create_channel(&mut self, capacity: usize) -> (res: ChannelId)
        requires
            channels_wf(old(self).channels@),
        ensures
            res.0 == old(self).channels@.len(),
            final(self).channels@.len() == old(self).channels@.len() + 1,
            final(self).channels@.take(res.0 as int) == old(self).channels@,
            final(self).channels@[res.0 as int] matches Channel::Internal(c) && c@.capacity
                == capacity && c@.buffer.len() == 0 && c@.sends.len() == 0 && c@.receives.len() == 0,
            final(self).fibers == old(self).fibers,
            final(self).root_fiber == old(self).root_fiber,
            final(self).external_operations == old(self).external_operations,
            channels_wf(final(self).channels@),
    {
        let id = ChannelId(self.channels.len());
        self.channels.push(Channel::Internal(InternalChannel::new(capacity)));
        proof {
            assert(self.channels@.take(id.0 as int) =~= old(self).channels@);
            assert forall|i: int| 0 <= i < self.channels@.len() implies (
            #[trigger] self.channels@[i] matches Channel::Internal(c) ==> channel_wf(c@)) by {
                if i < id.0 {
                    assert(self.channels@[i] == old(self).channels@[i]);
                }
            }
        }
        id
    }

    /// Receives from the channel: a channel inside the VM queues the receive
    /// and completes what it can; one to the outside records the operation.
    /// (Nurseries are only sent to.)
    pub fn receive_from_channel(&mut self, performing_fiber: Option<FiberId>, channel: ChannelId) -> (res: Vec<
        Completion,
    >)
        requires
            channels_wf(old(self).channels@),
            channel.0 < old(self).channels@.len(),
            !(old(self).channels@[channel.0 as int] is Nursery),
        ensures
            final(self).fibers == old(self).fibers,
            final(self).root_fiber == old(self).root_fiber,
            final(self).channels@.len() == old(self).channels@.len(),
            channels_wf(final(self).channels@),
            forall|i: int|
                0 <= i < old(self).channels@.len() && i != channel.0 ==> final(self).channels@[i]
                    == old(self).channels@[i],
            match old(self).channels@[channel.0 as int] {
                Channel::Internal(c) => {
                    let queued = SpecChannel { receives: c@.receives.push(performing_fiber), ..c@ };
                    &&& final(self).channels@[channel.0 as int] matches Channel::Internal(d) && d@
                        == worked(queued).0
                    &&& res@ == worked(queued).1
                    &&& final(self).external_operations == old(self).external_operations
                },
                Channel::External(id) => {
                    &&& final(self).channels@[channel.0 as int] == old(self).channels@[channel.0 as int]
                    &&& res@.len() == 0
                    &&& final(self).external_operations@ == old(self).external_operations@.push(
                        (id, Operation { performing_fiber, kind: OperationKind::Receive }),
                    )
                },
                _ => false,
            },
    {
        let i = channel.0;
        let mut taken = self.channels.remove(i);
        proof {
            assert(old(self).channels@[i as int] == taken);
        }
        let res = match &mut taken {
            Channel::Internal(c) => {
                proof {
                    assert(channel_wf(c@));
                }
                c.receive(performing_fiber)
            },
            Channel::External(id) => {
                self.external_operations.push(
                    (*id, Operation { performing_fiber, kind: OperationKind::Receive }),
                );
                Vec::new()
            },
            Channel::Nursery { .. } => {
                proof {
                    assert(false);
                }
                Vec::new()
            },
        };
        self.channels.insert(i, taken);
        proof {
            assert forall|j: int| 0 <= j < old(self).channels@.len() && j != i implies self.channels@[j]
                == old(self).channels@[j] by {
                if j < i {
                    assert(self.channels@[j] == old(self).channels@.remove(i as int)[j]);
                } else {
                    assert(self.channels@[j] == old(self).channels@.remove(i as int)[j - 1]);
                }
            }
            assert forall|j: int| 0 <= j < self.channels@.len() implies (
            #[trigger] self.channels@[j] matches Channel::Internal(c) ==> channel_wf(c@)) by {
                if j != i {
                    assert(self.channels@[j] == old(self).channels@[j]);
                }
            }
        }
        res
    }
}

// ----------------------------------------------------------------------------
// Laws of the status.

/// The tree is a single fiber that runs.
pub open spec fn runs_itself(t: FiberTree) -> bool {
    t matches FiberTree::SingleFiber { status: FiberStatus::Running, .. }
}

/// The tree is a single fiber that panicked with the reason.
pub open spec fn panicked_itself(t: FiberTree, reason: Seq<char>) -> bool {
    t matches FiberTree::SingleFiber { status: FiberStatus::Panicked { reason: r }, .. } && r@
        == reason
}

/// A tree is reported done exactly when it is a fiber that is done, or a
/// paused fiber whose nursery has no children left.
pub proof fn lemma_done_status(fibers: Seq<FiberTree>, channels: Seq<Channel>, id: int)
    requires
        0 <= id < fibers.len(),
    ensures
        status_of(fibers, channels, id).0 == 2 <==> (fibers[id] matches FiberTree::SingleFiber {
            status: FiberStatus::Done,
            ..
        } || (fibers[id] matches FiberTree::ParallelSection { nursery, .. }
            && nursery_children(channels, nursery).len() == 0)),
{
    if let FiberTree::ParallelSection { nursery, .. } = fibers[id] {
        let children = nursery_children(channels, nursery);
        if children.len() > 0 {
            lemma_children_status_never_done(fibers, channels, children, 0, id);
        }
    }
}

/// The children of a paused fiber never make it done: they make it run,
/// panic or wait.
proof fn lemma_children_status_never_done(
    fibers: Seq<FiberTree>,
    channels: Seq<Channel>,
    children: Seq<Child>,
    i: int,
    parent: int,
)
    ensures
        children_status(fibers, channels, children, i, parent).0 != 2,
    decreases children.len() - i,
{
    if 0 <= i < children.len() && parent < children[i].fiber.0 < fibers.len() && 0 <= parent {
        let s = status_of(fibers, channels, children[i].fiber.0 as int);
        if !(s.0 == 0 || s.0 == 3) {
            lemma_children_status_never_done(fibers, channels, children, i + 1, parent);
        }
    }
}

/// A fiber that sends or receives waits for the channel operation: its tree
/// is reported waiting.
pub proof fn lemma_blocked_fiber_waits(fibers: Seq<FiberTree>, channels: Seq<Channel>, id: int)
    requires
        0 <= id < fibers.len(),
        fibers[id] matches FiberTree::SingleFiber { status, .. } && (status is Sending
            || status is Receiving),
    ensures
        status_of(fibers, channels, id).0 == 1,
{
}

/// A tree is reported running only if one of its fibers itself runs, and
/// reported panicked only if one of its fibers itself panicked with that
/// reason; both fibers come no earlier than the tree's own.
pub proof fn lemma_status_comes_from_a_fiber(
    fibers: Seq<FiberTree>,
    channels: Seq<Channel>,
    id: int,
)
    ensures
        status_of(fibers, channels, id).0 == 0 ==> exists|j: int|
            id <= j < fibers.len() && runs_itself(#[trigger] fibers[j]),
        status_of(fibers, channels, id).0 == 3 ==> exists|j: int|
            id <= j < fibers.len() && panicked_itself(
                #[trigger] fibers[j],
                status_of(fibers, channels, id).1,
            ),
    decreases fibers.len() - id, 1int, 0int,
{
    if 0 <= id < fibers.len() {
        match fibers[id] {
            FiberTree::SingleFiber { .. } => {
                assert(fibers[id] == fibers[id]);
            },
            FiberTree::ParallelSection { nursery, .. } => {
                let children = nursery_children(channels, nursery);
                if children.len() > 0 {
                    lemma_children_status_comes_from_a_fiber(fibers, channels, children, 0, id);
                }
            },
        }
    }
}

proof fn lemma_children_status_comes_from_a_fiber(
    fibers: Seq<FiberTree>,
    channels: Seq<Channel>,
    children: Seq<Child>,
    i: int,
    parent: int,
)
    ensures
        children_status(fibers, channels, children, i, parent).0 == 0 ==> exists|j: int|
            parent <= j < fibers.len() && runs_itself(#[trigger] fibers[j]),
        children_status(fibers, channels, children, i, parent).0 == 3 ==> exists|j: int|
            parent <= j < fibers.len() && panicked_itself(
                #[trigger] fibers[j],
                children_status(fibers, channels, children, i, parent).1,
            ),
    decreases fibers.len() - parent, 0int, children.len() - i,
{
    if 0 <= i < children.len() && parent < children[i].fiber.0 < fibers.len() && 0 <= parent {
        let c = children[i].fiber.0 as int;
        lemma_status_comes_from_a_fiber(fibers, channels, c);
        let s = status_of(fibers, channels, c);
        if !(s.0 == 0 || s.0 == 3) {
            lemma_children_status_comes_from_a_fiber(fibers, channels, children, i + 1, parent);
        }
    }
}

} // verus!
