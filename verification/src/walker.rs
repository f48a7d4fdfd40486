//! The walk along the chain of saved base pointers.
//!
//! The walker does not read guest memory itself. It says which address it
//! needs next, takes the frame that was read there, and stops when the chain
//! ends or has grown deeper than the bound allows.

use crate::monitor::Frame;
use vstd::prelude::*;

verus! {

/// What a walk has reached: the base pointer it stands at, the return
/// addresses it has gathered, innermost first, and the bound on their number.
pub struct WalkState {
    pub base_pointer: u64,
    pub addresses: Seq<u64>,
    pub max_depth: nat,
}

/// What a walk needs next.
#[derive(Clone, Copy, Debug, PartialEq, Eq, Structural)]
pub enum WalkStep {
    /// The frame at this address is to be read.
    Read(u64),
    /// The chain has ended: the base pointer is zero.
    Complete,
    /// The chain goes on beyond the bound.
    TooDeep,
}

/// The state in which a walk begins.
pub open spec fn started(base_pointer: u64, max_depth: nat) -> WalkState {
    WalkState { base_pointer, addresses: Seq::empty(), max_depth }
}

/// What the walk in state `s` needs next.
pub open spec fn pending(s: WalkState) -> WalkStep {
    if s.base_pointer == 0 {
        WalkStep::Complete
    } else if s.addresses.len() >= s.max_depth {
        WalkStep::TooDeep
    } else {
        WalkStep::Read(s.base_pointer)
    }
}

/// The state after `frame` was read for a walk in state `s`. A walk that
/// waits for no frame stays as it is.
pub open spec fn accepted(s: WalkState, frame: Frame) -> WalkState {
    if pending(s) is Read {
        WalkState {
            base_pointer: frame.saved_base_pointer,
            addresses: s.addresses.push(frame.return_address),
            max_depth: s.max_depth,
        }
    } else {
        s
    }
}

/// The state after the frames of `frames` were read one after the other.
pub open spec fn fed(s: WalkState, frames: Seq<Frame>) -> WalkState
    decreases frames.len(),
{
    if frames.len() == 0 {
        s
    } else {
        accepted(fed(s, frames.drop_last()), frames.last())
    }
}

/// Whether `frames` is the chain that begins at `first`: each frame but the
/// last points on, and the last one holds the zero that ends the chain. The
/// empty chain begins at zero.
pub open spec fn is_chain(first: u64, frames: Seq<Frame>) -> bool {
    if frames.len() == 0 {
        first == 0
    } else {
        &&& first != 0
        &&& frames.last().saved_base_pointer == 0
        &&& forall|i: int| 0 <= i < frames.len() - 1 ==> (#[trigger] frames[i]).saved_base_pointer != 0
    }
}

/// Whether `frames` never ends a walk from `first`: no base pointer is zero.
pub open spec fn is_endless(first: u64, frames: Seq<Frame>) -> bool {
    first != 0 && forall|i: int| 0 <= i < frames.len() ==> (#[trigger] frames[i]).saved_base_pointer != 0
}

/// The address at which the frame of index `i` is read, in a walk from `first`
/// along `frames`.
pub open spec fn address_of(first: u64, frames: Seq<Frame>, i: int) -> u64 {
    if i <= 0 {
        first
    } else {
        frames[i - 1].saved_base_pointer
    }
}

/// The return addresses of `frames`, in their order.
pub open spec fn return_addresses(frames: Seq<Frame>) -> Seq<u64> {
    Seq::new(frames.len(), |i: int| frames[i].return_address)
}

/// While the base pointers are not zero and the bound is not reached, a walk
/// takes every frame it is given and asks for the next one.
pub proof fn lemma_fed_prefix(first: u64, max_depth: nat, frames: Seq<Frame>, n: int)
    requires
        first != 0,
        0 <= n <= frames.len(),
        n <= max_depth,
        forall|i: int| 0 <= i < n - 1 ==> (#[trigger] frames[i]).saved_base_pointer != 0,
    ensures
        fed(started(first, max_depth), frames.take(n)).addresses == return_addresses(frames.take(n)),
        fed(started(first, max_depth), frames.take(n)).base_pointer == address_of(first, frames, n),
        fed(started(first, max_depth), frames.take(n)).max_depth == max_depth,
    decreases n,
{
    let start = started(first, max_depth);
    if n == 0 {
        assert(fed(start, frames.take(0)).addresses =~= return_addresses(frames.take(0)));
    } else {
        lemma_fed_prefix(first, max_depth, frames, n - 1);
        assert(frames.take(n).drop_last() =~= frames.take(n - 1));
        assert(frames.take(n).last() == frames[n - 1]);
        let before = fed(start, frames.take(n - 1));
        assert(before.base_pointer != 0) by {
            if n - 1 > 0 {
                assert(frames[n - 2].saved_base_pointer != 0);
            }
        }
        assert(pending(before) is Read);
        assert(return_addresses(frames.take(n - 1)).push(frames[n - 1].return_address)
            =~= return_addresses(frames.take(n)));
    }
}

/// A chain of `N` frames that ends in zero is walked with exactly `N` reads:
/// the walk asks for each frame of the chain in turn, then is complete, and
/// holds the `N` return addresses, innermost first.
pub proof fn lemma_chain_walked(first: u64, max_depth: nat, frames: Seq<Frame>)
    requires
        is_chain(first, frames),
        frames.len() <= max_depth,
    ensures
        forall|i: int|
            0 <= i < frames.len() ==> pending(
                #[trigger] fed(started(first, max_depth), frames.take(i)),
            ) == WalkStep::Read(address_of(first, frames, i)),
        pending(fed(started(first, max_depth), frames)) == WalkStep::Complete,
        fed(started(first, max_depth), frames).addresses == return_addresses(frames),
        fed(started(first, max_depth), frames).addresses.len() == frames.len(),
{
    let start = started(first, max_depth);
    assert(frames.take(frames.len() as int) =~= frames);
    if frames.len() > 0 {
        lemma_fed_prefix(first, max_depth, frames, frames.len() as int);
        assert forall|i: int| 0 <= i < frames.len() implies pending(
            #[trigger] fed(start, frames.take(i)),
        ) == WalkStep::Read(address_of(first, frames, i)) by {
            lemma_fed_prefix(first, max_depth, frames, i);
            if i > 0 {
                assert(frames[i - 1].saved_base_pointer != 0);
            }
        }
    }
}

/// A walk never holds more addresses than its bound, whatever it is fed.
pub proof fn lemma_depth_bounded(s: WalkState, frames: Seq<Frame>)
    requires
        s.addresses.len() <= s.max_depth,
    ensures
        fed(s, frames).addresses.len() <= s.max_depth,
        fed(s, frames).max_depth == s.max_depth,
    decreases frames.len(),
{
    if frames.len() > 0 {
        lemma_depth_bounded(s, frames.drop_last());
    }
}

/// A chain that never reaches zero is stopped at the bound: the walk reads
/// `max_depth` frames, then reports that the chain is too deep, and no frame
/// that it is given after that changes it.
pub proof fn lemma_endless_stopped(first: u64, max_depth: nat, frames: Seq<Frame>)
    requires
        is_endless(first, frames),
        frames.len() >= max_depth,
    ensures
        forall|i: int|
            0 <= i < max_depth ==> pending(
                #[trigger] fed(started(first, max_depth), frames.take(i)),
            ) == WalkStep::Read(address_of(first, frames, i)),
        pending(fed(started(first, max_depth), frames)) == WalkStep::TooDeep,
        fed(started(first, max_depth), frames) == fed(
            started(first, max_depth),
            frames.take(max_depth as int),
        ),
{
    let start = started(first, max_depth);
    let bound = max_depth as int;
    assert forall|i: int| 0 <= i <= max_depth implies {
        &&& (#[trigger] fed(start, frames.take(i))).base_pointer != 0
        &&& fed(start, frames.take(i)).addresses.len() == i
        &&& fed(start, frames.take(i)).base_pointer == address_of(first, frames, i)
        &&& fed(start, frames.take(i)).max_depth == max_depth
    } by {
        lemma_fed_prefix(first, max_depth, frames, i);
        if i > 0 {
            assert(frames[i - 1].saved_base_pointer != 0);
        }
    }
    lemma_stays_stopped(start, frames, bound);
    assert(frames.take(frames.len() as int) =~= frames);
}

/// Once a walk waits for no frame, further frames leave it as it is.
proof fn lemma_stays_stopped(s: WalkState, frames: Seq<Frame>, n: int)
    requires
        0 <= n <= frames.len(),
        !(pending(fed(s, frames.take(n))) is Read),
    ensures
        fed(s, frames) == fed(s, frames.take(n)),
    decreases frames.len() - n,
{
    if n < frames.len() {
        assert(frames.take(n + 1).drop_last() =~= frames.take(n));
        lemma_stays_stopped(s, frames, n + 1);
    } else {
        assert(frames.take(n) =~= frames);
    }
}

/// A walk in progress.
pub struct Walker {
    base_pointer: u64,
    addresses: Vec<u64>,
    max_depth: usize,
}

impl View for Walker {
    type V = WalkState;

    closed spec fn view(&self) -> WalkState {
        WalkState {
            base_pointer: self.base_pointer,
            addresses: self.addresses@,
            max_depth: self.max_depth as nat,
        }
    }
}

impl Walker {
    /// Begins a walk at the sampled base pointer, with a bound on its depth.
    pub fn begin(base_pointer: u64, max_depth: usize) -> (walker: Walker)
        ensures
            walker@ == started(base_pointer, max_depth as nat),
    {
        Walker { base_pointer, addresses: Vec::new(), max_depth }
    }

    /// What the walk needs next: a frame, nothing more, or a deeper bound.
    pub fn pending(&self) -> (step: WalkStep)
        ensures
            step == pending(self@),
    {
        if self.base_pointer == 0 {
            WalkStep::Complete
        } else if self.addresses.len() >= self.max_depth {
            WalkStep::TooDeep
        } else {
            WalkStep::Read(self.base_pointer)
        }
    }

    /// Takes the frame that was read at the pending address: its return
    /// address joins the stack, and the walk goes on at its saved base
    /// pointer. A walk that waits for no frame ignores it.
    pub fn accept(&mut self, frame: Frame)
        ensures
            final(self)@ == accepted(old(self)@, frame),
    {
        if self.base_pointer != 0 && self.addresses.len() < self.max_depth {
            self.addresses.push(frame.return_address);
            self.base_pointer = frame.saved_base_pointer;
        }
    }

    /// How many frames have been read.
    pub fn depth(&self) -> (depth: usize)
        ensures
            depth == self@.addresses.len(),
    {
        self.addresses.len()
    }

    /// A copy of the return addresses gathered so far, innermost first.
    pub fn stack(&self) -> (stack: Vec<u64>)
        ensures
            stack@ == self@.addresses,
    {
        let stack = self.addresses.clone();
        assert(stack@ =~= self.addresses@);
        stack
    }

    /// The return addresses gathered so far, innermost first.
    pub fn into_stack(self) -> (stack: Vec<u64>)
        ensures
            stack@ == self@.addresses,
    {
        self.addresses
    }
}

} // verus!
