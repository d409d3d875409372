//! The protocol that patches a value in the game's memory.
//!
//! A patch finds a byte signature, derives the address of the patched
//! value from the match, looks up the page that holds it, makes the page
//! writable, writes the value and then restores the page's protection. The
//! process access is done by the caller: `PatchState::start` and
//! `PatchState::step` say which access comes next (a `PatchAction`), and the
//! caller answers each with what it observed (a `PatchEvent`).

use vstd::prelude::*;

use crate::vm::{page_contains, Page, Prot};

verus! {

/// Where the patched value lies relative to a signature's match.
#[derive(Clone, Copy, Debug, PartialEq, Eq, Structural)]
pub enum Locate {
    /// `offset` bytes past the match.
    At(usize),
    /// At the address named by the 32-bit displacement that lies `offset`
    /// bytes past the match: the displacement's own address, plus 4, plus
    /// the displacement read as an unsigned number.
    Displacement(usize),
    /// At the address that the RIP-relative operand named by the 32-bit
    /// displacement `offset` bytes past the match points to: the
    /// displacement's own address, plus 4 (the end of the instruction), plus
    /// the displacement read as a signed (two's complement) number.
    RipRelative(usize),
}

/// The value of a 32-bit displacement read as a signed number.
pub open spec fn signed_displacement(displacement: u32) -> int {
    if displacement < 0x8000_0000 {
        displacement as int
    } else {
        displacement as int - 0x1_0000_0000
    }
}

/// The patched address named by the displacement `displacement` stored at
/// `field`, for the two kinds of displacement.
pub open spec fn displaced_address(locate: Locate, field: int, displacement: u32) -> int {
    match locate {
        Locate::RipRelative(_) => field + 4 + signed_displacement(displacement),
        _ => field + 4 + displacement,
    }
}

/// The patched value lies where a displacement points.
pub open spec fn reads_displacement(locate: Locate) -> bool {
    locate is Displacement || locate is RipRelative
}

/// The offset from the signature's match that a plan uses.
pub open spec fn locate_offset(locate: Locate) -> usize {
    match locate {
        Locate::At(offset) => offset,
        Locate::Displacement(offset) => offset,
        Locate::RipRelative(offset) => offset,
    }
}

/// Computes `displaced_address`, or `None` when it is not a `usize`.
fn displaced(locate: Locate, field: usize, displacement: u32) -> (address: Option<usize>)
    ensures
        match address {
            Some(a) => a == displaced_address(locate, field as int, displacement),
            None => !(0 <= displaced_address(locate, field as int, displacement) <= usize::MAX),
        },
{
    if field > usize::MAX - 4 {
        // Only a negative displacement can bring the address back in range.
        match locate {
            Locate::RipRelative(_) => {
                if displacement >= 0x8000_0000 {
                    let back: usize = (u32::MAX - displacement) as usize + 1;
                    if field - back <= usize::MAX - 4 {
                        return Some(field - back + 4);
                    }
                }
                None
            },
            _ => None,
        }
    } else {
        let end = field + 4;
        match locate {
            Locate::RipRelative(_) => {
                if displacement < 0x8000_0000 {
                    if (displacement as usize) <= usize::MAX - end {
                        Some(end + displacement as usize)
                    } else {
                        None
                    }
                } else {
                    let back: usize = (u32::MAX - displacement) as usize + 1;
                    if back <= end {
                        Some(end - back)
                    } else {
                        None
                    }
                }
            },
            _ => {
                if (displacement as usize) <= usize::MAX - end {
                    Some(end + displacement as usize)
                } else {
                    None
                }
            },
        }
    }
}

/// The protection a page gets back once the value is written.
#[derive(Clone, Copy, Debug, PartialEq, Eq, Structural)]
pub enum Restore {
    /// The protection the page had before it was made writable.
    Previous,
    /// A fixed protection.
    To(Prot),
}

/// What one patch does.
#[derive(Clone, Copy, Debug)]
pub struct PatchPlan {
    /// The byte signature that locates the patched instruction.
    pub pattern: &'static str,
    /// Where the value lies relative to the signature's match.
    pub locate: Locate,
    /// The protection that makes the page writable.
    pub unlock: Prot,
    /// The protection the page gets back after the write.
    pub restore: Restore,
    /// The error returned when the page cannot be made writable; `None` when
    /// that failure is not recoverable and the caller gives up.
    pub unlock_failure: Option<&'static str>,
    /// The value is inspected as soon as its address is known (before its
    /// page is looked up), instead of right before the write.
    pub inspect_early: bool,
    /// The page is looked up once more after its protection is restored.
    pub recheck: bool,
    /// The 4 bytes written, as the bits of a `u32`.
    pub value: u32,
}

/// Where the protocol stands.
#[derive(Clone, Copy, Debug)]
pub enum PatchState {
    /// Waiting for the signature's match.
    Searching,
    /// Waiting for the displacement stored at `field`.
    ReadingDisplacement { field: usize },
    /// Waiting for the value at `target` to be inspected, before its page is
    /// looked up.
    InspectingEarly { target: usize },
    /// Waiting for the page that holds `target`.
    Locating { target: usize },
    /// Waiting for `page` to be made writable.
    Unlocking { target: usize, page: Page },
    /// Waiting for the value at `target` to be inspected before the write;
    /// `page` is writable and had the protection `previous`.
    InspectingBefore { target: usize, page: Page, previous: Prot },
    /// Waiting for the write at `target`.
    Writing { target: usize, page: Page, previous: Prot },
    /// Waiting for the value at `target` to be inspected after the write.
    InspectingAfter { target: usize, page: Page, previous: Prot },
    /// Waiting for the page's protection to be restored.
    Restoring { target: usize },
    /// Waiting for the page that holds `target` to be looked up again.
    Rechecking { target: usize },
    /// The patch is over.
    Finished { outcome: Result<(), &'static str> },
}

/// What the caller observed while carrying out the last action.
#[derive(Clone, Copy, Debug)]
pub enum PatchEvent {
    /// The signature matched at this address.
    SignatureFound(usize),
    /// The displacement read.
    DisplacementRead(u32),
    /// The page that holds the requested address.
    PageFound(Page),
    /// The protection was changed and the page had the given protection
    /// before; `None` when the change failed.
    ProtectionChanged(Option<Prot>),
    /// The value was read and reported.
    Inspected,
    /// The value was written.
    Written,
}

/// What the caller is to do next.
#[derive(Clone, Copy, Debug)]
pub enum PatchAction {
    /// Search the game's executable pages for this signature until it matches.
    FindSignature(&'static str),
    /// Read the 32-bit displacement at this address.
    ReadDisplacement(usize),
    /// Read and report the 4-byte value at this address.
    Inspect(usize),
    /// Look up the page that holds this address until it is found.
    FindPage(usize),
    /// Change the protection of `page` to `prot`.
    Protect { page: Page, prot: Prot },
    /// Write the bits `value` as 4 bytes at `address`.
    Write { address: usize, value: u32 },
    /// The patch is over with this outcome.
    Finish(Result<(), &'static str>),
}

/// The protection that a page gets back when it had `previous`.
pub open spec fn restore_prot(plan: PatchPlan, previous: Prot) -> Prot {
    match plan.restore {
        Restore::Previous => previous,
        Restore::To(prot) => prot,
    }
}

/// The state and action once the address of the value is known.
pub open spec fn target_known(plan: PatchPlan, target: usize) -> (PatchState, PatchAction) {
    if plan.inspect_early {
        (PatchState::InspectingEarly { target }, PatchAction::Inspect(target))
    } else {
        (PatchState::Locating { target }, PatchAction::FindPage(target))
    }
}

/// The events that the protocol accepts in each state: each state accepts
/// the answer to the action it asked for, when the addresses it derives
/// from it fit in a `usize`, a page found holds the address that was asked
/// for, and a failed protection change has an error to report.
pub open spec fn patch_accepts(plan: PatchPlan, state: PatchState, event: PatchEvent) -> bool {
    match (state, event) {
        (PatchState::Searching, PatchEvent::SignatureFound(found)) => match plan.locate {
            Locate::At(offset) => found + offset <= usize::MAX,
            Locate::Displacement(offset) => found + offset <= usize::MAX,
            Locate::RipRelative(offset) => found + offset <= usize::MAX,
        },
        (PatchState::ReadingDisplacement { field }, PatchEvent::DisplacementRead(displacement)) =>
            0 <= displaced_address(plan.locate, field as int, displacement) <= usize::MAX,
        (PatchState::InspectingEarly { .. }, PatchEvent::Inspected) => true,
        (PatchState::Locating { target }, PatchEvent::PageFound(page)) => page_contains(page, target),
        (PatchState::Unlocking { .. }, PatchEvent::ProtectionChanged(previous)) =>
            previous is Some || plan.unlock_failure is Some,
        (PatchState::InspectingBefore { .. }, PatchEvent::Inspected) => true,
        (PatchState::Writing { .. }, PatchEvent::Written) => true,
        (PatchState::InspectingAfter { .. }, PatchEvent::Inspected) => true,
        (PatchState::Restoring { .. }, PatchEvent::ProtectionChanged(_)) => true,
        (PatchState::Rechecking { target }, PatchEvent::PageFound(page)) => page_contains(page, target),
        _ => false,
    }
}

/// One step of the protocol: the next state and the next action.
pub open spec fn next_patch_step(plan: PatchPlan, state: PatchState, event: PatchEvent) -> (PatchState, PatchAction) {
    match (state, event) {
        (PatchState::Searching, PatchEvent::SignatureFound(found)) => match plan.locate {
            Locate::At(offset) => target_known(plan, (found + offset) as usize),
            Locate::Displacement(offset) => {
                let field = (found + offset) as usize;
                (PatchState::ReadingDisplacement { field }, PatchAction::ReadDisplacement(field))
            },
            Locate::RipRelative(offset) => {
                let field = (found + offset) as usize;
                (PatchState::ReadingDisplacement { field }, PatchAction::ReadDisplacement(field))
            },
        },
        (PatchState::ReadingDisplacement { field }, PatchEvent::DisplacementRead(displacement)) =>
            target_known(plan, displaced_address(plan.locate, field as int, displacement) as usize),
        (PatchState::InspectingEarly { target }, PatchEvent::Inspected) =>
            (PatchState::Locating { target }, PatchAction::FindPage(target)),
        (PatchState::Locating { target }, PatchEvent::PageFound(page)) =>
            (PatchState::Unlocking { target, page }, PatchAction::Protect { page, prot: plan.unlock }),
        (PatchState::Unlocking { target, page }, PatchEvent::ProtectionChanged(previous)) => match previous {
            Some(previous) => if plan.inspect_early {
                (PatchState::Writing { target, page, previous }, PatchAction::Write { address: target, value: plan.value })
            } else {
                (PatchState::InspectingBefore { target, page, previous }, PatchAction::Inspect(target))
            },
            None => (
                PatchState::Finished { outcome: Err(plan.unlock_failure.unwrap()) },
                PatchAction::Finish(Err(plan.unlock_failure.unwrap())),
            ),
        },
        (PatchState::InspectingBefore { target, page, previous }, PatchEvent::Inspected) =>
            (PatchState::Writing { target, page, previous }, PatchAction::Write { address: target, value: plan.value }),
        (PatchState::Writing { target, page, previous }, PatchEvent::Written) =>
            (PatchState::InspectingAfter { target, page, previous }, PatchAction::Inspect(target)),
        (PatchState::InspectingAfter { target, page, previous }, PatchEvent::Inspected) =>
            (PatchState::Restoring { target }, PatchAction::Protect { page, prot: restore_prot(plan, previous) }),
        (PatchState::Restoring { target }, PatchEvent::ProtectionChanged(_)) => if plan.recheck {
            (PatchState::Rechecking { target }, PatchAction::FindPage(target))
        } else {
            (PatchState::Finished { outcome: Ok(()) }, PatchAction::Finish(Ok(())))
        },
        (PatchState::Rechecking { .. }, PatchEvent::PageFound(_)) =>
            (PatchState::Finished { outcome: Ok(()) }, PatchAction::Finish(Ok(()))),
        // An event that the state does not accept (see `patch_accepts`)
        // changes nothing.
        _ => (state, PatchAction::Finish(Err("unexpected event"))),
    }
}

impl PatchState {
    /// The protocol starts by searching for the plan's signature.
    pub fn start(plan: &PatchPlan) -> (started: (PatchState, PatchAction))
        ensures
            started == (PatchState::Searching, PatchAction::FindSignature(plan.pattern)),
    {
        (PatchState::Searching, PatchAction::FindSignature(plan.pattern))
    }

    /// Tells whether the protocol accepts `event` in this state.
    pub fn accepts(&self, plan: &PatchPlan, event: &PatchEvent) -> (accepted: bool)
        ensures
            accepted == patch_accepts(*plan, *self, *event),
    {
        match (*self, *event) {
            (PatchState::Searching, PatchEvent::SignatureFound(found)) => match plan.locate {
                Locate::At(offset) => found <= usize::MAX - offset,
                Locate::Displacement(offset) => found <= usize::MAX - offset,
                Locate::RipRelative(offset) => found <= usize::MAX - offset,
            },
            (PatchState::ReadingDisplacement { field }, PatchEvent::DisplacementRead(displacement)) =>
                displaced(plan.locate, field, displacement).is_some(),
            (PatchState::InspectingEarly { .. }, PatchEvent::Inspected) => true,
            (PatchState::Locating { target }, PatchEvent::PageFound(page)) => page.base <= target && target <= page.end,
            (PatchState::Unlocking { .. }, PatchEvent::ProtectionChanged(previous)) =>
                previous.is_some() || plan.unlock_failure.is_some(),
            (PatchState::InspectingBefore { .. }, PatchEvent::Inspected) => true,
            (PatchState::Writing { .. }, PatchEvent::Written) => true,
            (PatchState::InspectingAfter { .. }, PatchEvent::Inspected) => true,
            (PatchState::Restoring { .. }, PatchEvent::ProtectionChanged(_)) => true,
            (PatchState::Rechecking { target }, PatchEvent::PageFound(page)) => page.base <= target && target <= page.end,
            _ => false,
        }
    }

    /// Takes the answer to the last action and says what comes next.
    pub fn step(self, plan: &PatchPlan, event: PatchEvent) -> (next: (PatchState, PatchAction))
        requires
            patch_accepts(*plan, self, event),
        ensures
            next == next_patch_step(*plan, self, event),
    {
        match (self, event) {
            (PatchState::Searching, PatchEvent::SignatureFound(found)) => match plan.locate {
                Locate::At(offset) => known_target(plan, found + offset),
                Locate::Displacement(offset) => {
                    let field = found + offset;
                    (PatchState::ReadingDisplacement { field }, PatchAction::ReadDisplacement(field))
                },
                Locate::RipRelative(offset) => {
                    let field = found + offset;
                    (PatchState::ReadingDisplacement { field }, PatchAction::ReadDisplacement(field))
                },
            },
            (PatchState::ReadingDisplacement { field }, PatchEvent::DisplacementRead(displacement)) =>
                match displaced(plan.locate, field, displacement) {
                    Some(target) => known_target(plan, target),
                    None => (self, PatchAction::Finish(Err("unexpected event"))),
                },
            (PatchState::InspectingEarly { target }, PatchEvent::Inspected) =>
                (PatchState::Locating { target }, PatchAction::FindPage(target)),
            (PatchState::Locating { target }, PatchEvent::PageFound(page)) =>
                (PatchState::Unlocking { target, page }, PatchAction::Protect { page, prot: plan.unlock }),
            (PatchState::Unlocking { target, page }, PatchEvent::ProtectionChanged(previous)) => match previous {
                Some(previous) => if plan.inspect_early {
                    (PatchState::Writing { target, page, previous }, PatchAction::Write { address: target, value: plan.value })
                } else {
                    (PatchState::InspectingBefore { target, page, previous }, PatchAction::Inspect(target))
                },
                None => {
                    let failure = plan.unlock_failure.unwrap();
                    (PatchState::Finished { outcome: Err(failure) }, PatchAction::Finish(Err(failure)))
                },
            },
            (PatchState::InspectingBefore { target, page, previous }, PatchEvent::Inspected) =>
                (PatchState::Writing { target, page, previous }, PatchAction::Write { address: target, value: plan.value }),
            (PatchState::Writing { target, page, previous }, PatchEvent::Written) =>
                (PatchState::InspectingAfter { target, page, previous }, PatchAction::Inspect(target)),
            (PatchState::InspectingAfter { target, page, previous }, PatchEvent::Inspected) => {
                let prot = match plan.restore {
                    Restore::Previous => previous,
                    Restore::To(prot) => prot,
                };
                (PatchState::Restoring { target }, PatchAction::Protect { page, prot })
            },
            (PatchState::Restoring { target }, PatchEvent::ProtectionChanged(_)) => if plan.recheck {
                (PatchState::Rechecking { target }, PatchAction::FindPage(target))
            } else {
                (PatchState::Finished { outcome: Ok(()) }, PatchAction::Finish(Ok(())))
            },
            (PatchState::Rechecking { .. }, PatchEvent::PageFound(_)) =>
                (PatchState::Finished { outcome: Ok(()) }, PatchAction::Finish(Ok(()))),
            _ => (self, PatchAction::Finish(Err("unexpected event"))),
        }
    }
}

fn known_target(plan: &PatchPlan, target: usize) -> (known: (PatchState, PatchAction))
    ensures
        known == target_known(*plan, target),
{
    if plan.inspect_early {
        (PatchState::InspectingEarly { target }, PatchAction::Inspect(target))
    } else {
        (PatchState::Locating { target }, PatchAction::FindPage(target))
    }
}

/// The state reached and the actions asked for when the protocol is started
/// and then given `events` in order: the action at index `i` is the one
/// that `events[i]` answers.
pub open spec fn patch_run(plan: PatchPlan, events: Seq<PatchEvent>) -> (PatchState, Seq<PatchAction>)
    decreases events.len(),
{
    if events.len() == 0 {
        (PatchState::Searching, seq![PatchAction::FindSignature(plan.pattern)])
    } else {
        let (state, actions) = patch_run(plan, events.drop_last());
        let (next, action) = next_patch_step(plan, state, events.last());
        (next, actions.push(action))
    }
}

/// Every event of `events` is accepted in the state it reaches.
pub open spec fn patch_run_accepted(plan: PatchPlan, events: Seq<PatchEvent>) -> bool
    decreases events.len(),
{
    events.len() == 0 || (patch_run_accepted(plan, events.drop_last()) && patch_accepts(
        plan,
        patch_run(plan, events.drop_last()).0,
        events.last(),
    ))
}

/// The address of the patched value, from the signature's match (the first
/// event) and, for a displacement, the displacement read (the second event).
pub open spec fn patch_target(plan: PatchPlan, events: Seq<PatchEvent>) -> int {
    match plan.locate {
        Locate::At(offset) => signature_match(events) + offset,
        _ => {
            let displacement = match events[1] {
                PatchEvent::DisplacementRead(displacement) => displacement,
                _ => 0,
            };
            displaced_address(plan.locate, signature_match(events) + locate_offset(plan.locate), displacement)
        },
    }
}

/// The signature's match, as the first event reported it.
pub open spec fn signature_match(events: Seq<PatchEvent>) -> int {
    match events[0] {
        PatchEvent::SignatureFound(found) => found as int,
        _ => 0,
    }
}

pub open spec fn no_write(actions: Seq<PatchAction>) -> bool {
    forall|i: int| 0 <= i < actions.len() ==> !(#[trigger] actions[i] is Write)
}

/// The only write among `actions` is at `k`.
pub open spec fn only_write_at(actions: Seq<PatchAction>, k: int) -> bool {
    forall|i: int| 0 <= i < actions.len() && #[trigger] actions[i] is Write ==> i == k
}

/// The only protection changes among `actions` are at `j` and `l`.
pub open spec fn only_protect_at(actions: Seq<PatchAction>, j: int, l: int) -> bool {
    forall|i: int| 0 <= i < actions.len() && #[trigger] actions[i] is Protect ==> i == j || i == l
}

/// At `j` the page was made writable, and it had the protection `previous`.
pub open spec fn unlocked_at(
    plan: PatchPlan,
    actions: Seq<PatchAction>,
    events: Seq<PatchEvent>,
    j: int,
    page: Page,
    previous: Prot,
) -> bool {
    &&& 0 <= j < events.len()
    &&& j < actions.len()
    &&& actions[j] == PatchAction::Protect { page, prot: plan.unlock }
    &&& events[j] == PatchEvent::ProtectionChanged(Some(previous))
}

/// The events hold what the target is derived from.
pub open spec fn target_read(plan: PatchPlan, events: Seq<PatchEvent>) -> bool {
    events.len() >= if reads_displacement(plan.locate) { 2int } else { 1int }
}

/// What the actions asked for and the events answered so far look like in
/// each state of the protocol.
pub open spec fn patch_history(
    plan: PatchPlan,
    state: PatchState,
    actions: Seq<PatchAction>,
    events: Seq<PatchEvent>,
) -> bool {
    let n = actions.len() as int;
    &&& actions.len() == events.len() + 1
    &&& match state {
        PatchState::Searching => events.len() == 0 && actions == seq![PatchAction::FindSignature(plan.pattern)],
        PatchState::ReadingDisplacement { field } => {
            &&& events.len() == 1
            &&& reads_displacement(plan.locate)
            &&& field == signature_match(events) + locate_offset(plan.locate)
            &&& no_write(actions)
            &&& only_protect_at(actions, -1, -1)
        },
        PatchState::InspectingEarly { target } => {
            &&& target_read(plan, events)
            &&& target == patch_target(plan, events)
            &&& no_write(actions)
            &&& only_protect_at(actions, -1, -1)
        },
        PatchState::Locating { target } => {
            &&& target_read(plan, events)
            &&& target == patch_target(plan, events)
            &&& no_write(actions)
            &&& only_protect_at(actions, -1, -1)
        },
        PatchState::Unlocking { target, page } => {
            &&& target_read(plan, events)
            &&& target == patch_target(plan, events)
            &&& page_contains(page, target)
            &&& no_write(actions)
            &&& actions[n - 1] == PatchAction::Protect { page, prot: plan.unlock }
            &&& only_protect_at(actions, n - 1, n - 1)
        },
        PatchState::InspectingBefore { target, page, previous } => {
            &&& target_read(plan, events)
            &&& target == patch_target(plan, events)
            &&& page_contains(page, target)
            &&& no_write(actions)
            &&& exists|j: int| unlocked_at(plan, actions, events, j, page, previous) && only_protect_at(actions, j, j)
        },
        PatchState::Writing { target, page, previous } => {
            &&& target_read(plan, events)
            &&& target == patch_target(plan, events)
            &&& page_contains(page, target)
            &&& actions[n - 1] == PatchAction::Write { address: target, value: plan.value }
            &&& only_write_at(actions, n - 1)
            &&& exists|j: int|
                unlocked_at(plan, actions, events, j, page, previous) && only_protect_at(actions, j, j)
        },
        PatchState::InspectingAfter { target, page, previous } => {
            &&& target_read(plan, events)
            &&& target == patch_target(plan, events)
            &&& page_contains(page, target)
            &&& exists|j: int, k: int|
                j < k && unlocked_at(plan, actions, events, j, page, previous) && only_protect_at(actions, j, j)
                    && 0 <= k < n && actions[k] == PatchAction::Write { address: target, value: plan.value }
                    && only_write_at(actions, k)
        },
        PatchState::Restoring { target } => {
            &&& target_read(plan, events)
            &&& target == patch_target(plan, events)
            &&& exists|j: int, k: int, page: Page, previous: Prot|
                j < k < n - 1 && unlocked_at(plan, actions, events, j, page, previous)
                    && page_contains(page, target)
                    && actions[k] == PatchAction::Write { address: target, value: plan.value }
                    && only_write_at(actions, k)
                    && actions[n - 1] == PatchAction::Protect { page, prot: restore_prot(plan, previous) }
                    && only_protect_at(actions, j, n - 1)
        },
        PatchState::Rechecking { target } => {
            &&& target_read(plan, events)
            &&& target == patch_target(plan, events)
            &&& exists|j: int, k: int, l: int, page: Page, previous: Prot|
                j < k < l < n && unlocked_at(plan, actions, events, j, page, previous)
                    && page_contains(page, target)
                    && actions[k] == PatchAction::Write { address: target, value: plan.value }
                    && only_write_at(actions, k)
                    && actions[l] == PatchAction::Protect { page, prot: restore_prot(plan, previous) }
                    && only_protect_at(actions, j, l)
        },
        PatchState::Finished { outcome } => match outcome {
            Ok(()) => {
                &&& target_read(plan, events)
                &&& exists|j: int, k: int, l: int, page: Page, previous: Prot|
                    j < k < l < n && unlocked_at(plan, actions, events, j, page, previous)
                        && page_contains(page, patch_target(plan, events) as usize)
                        && patch_target(plan, events) <= usize::MAX
                        && actions[k] == PatchAction::Write {
                        address: patch_target(plan, events) as usize,
                        value: plan.value,
                    } && only_write_at(actions, k)
                        && actions[l] == PatchAction::Protect { page, prot: restore_prot(plan, previous) }
                        && only_protect_at(actions, j, l)
            },
            Err(failure) => {
                &&& plan.unlock_failure == Some(failure)
                &&& no_write(actions)
                &&& n >= 2
                &&& actions[n - 2] is Protect
                &&& actions[n - 2]->Protect_prot == plan.unlock
                &&& events[n - 2] == PatchEvent::ProtectionChanged(None)
                &&& only_protect_at(actions, n - 2, n - 2)
            },
        },
    }
}

/// Each step keeps `patch_history`.
proof fn lemma_patch_step_history(
    plan: PatchPlan,
    state: PatchState,
    actions: Seq<PatchAction>,
    events: Seq<PatchEvent>,
    event: PatchEvent,
)
    requires
        patch_history(plan, state, actions, events),
        patch_accepts(plan, state, event),
    ensures
        patch_history(
            plan,
            next_patch_step(plan, state, event).0,
            actions.push(next_patch_step(plan, state, event).1),
            events.push(event),
        ),
{
    let (next, action) = next_patch_step(plan, state, event);
    let acts = actions.push(action);
    let evs = events.push(event);
    let n = acts.len() as int;
    assert(forall|i: int| 0 <= i < actions.len() ==> acts[i] == actions[i]);
    assert(forall|i: int| 0 <= i < events.len() ==> evs[i] == events[i]);
    if events.len() >= 1 {
        assert(evs[0] == events[0]);
        assert(signature_match(evs) == signature_match(events));
        if plan.locate is At {
            assert(patch_target(plan, evs) == patch_target(plan, events));
        }
    }
    if events.len() >= 2 {
        assert(evs[1] == events[1]);
        assert(patch_target(plan, evs) == patch_target(plan, events));
    }
    match state {
        PatchState::Searching => {
            assert(evs[0] == event);
        },
        PatchState::ReadingDisplacement { field } => {
            assert(evs[1] == event);
        },
        PatchState::InspectingEarly { target } => {},
        PatchState::Locating { target } => {},
        PatchState::Unlocking { target, page } => {
            match event {
                PatchEvent::ProtectionChanged(Some(previous)) => {
                    assert(unlocked_at(plan, acts, evs, n - 2, page, previous));
                    assert(only_protect_at(acts, n - 2, n - 2));
                },
                _ => {},
            }
        },
        PatchState::InspectingBefore { target, page, previous } => {
            let j = choose|j: int| unlocked_at(plan, actions, events, j, page, previous) && only_protect_at(actions, j, j);
            assert(unlocked_at(plan, acts, evs, j, page, previous));
            assert(only_protect_at(acts, j, j));
        },
        PatchState::Writing { target, page, previous } => {
            let j = choose|j: int| unlocked_at(plan, actions, events, j, page, previous) && only_protect_at(actions, j, j);
            assert(unlocked_at(plan, acts, evs, j, page, previous));
            assert(only_protect_at(acts, j, j));
            assert(only_write_at(acts, n - 2));
        },
        PatchState::InspectingAfter { target, page, previous } => {
            let (j, k) = choose|j: int, k: int|
                j < k && unlocked_at(plan, actions, events, j, page, previous) && only_protect_at(actions, j, j)
                    && 0 <= k < actions.len() && actions[k] == PatchAction::Write { address: target, value: plan.value }
                    && only_write_at(actions, k);
            assert(unlocked_at(plan, acts, evs, j, page, previous));
            assert(only_write_at(acts, k));
            assert(only_protect_at(acts, j, n - 1));
        },
        PatchState::Restoring { target } => {
            let (j, k, page, previous) = choose|j: int, k: int, page: Page, previous: Prot|
                j < k < actions.len() - 1 && unlocked_at(plan, actions, events, j, page, previous)
                    && page_contains(page, target)
                    && actions[k] == PatchAction::Write { address: target, value: plan.value }
                    && only_write_at(actions, k)
                    && actions[actions.len() - 1] == PatchAction::Protect { page, prot: restore_prot(plan, previous) }
                    && only_protect_at(actions, j, actions.len() - 1);
            let l = actions.len() - 1;
            assert(unlocked_at(plan, acts, evs, j, page, previous));
            assert(only_write_at(acts, k));
            assert(only_protect_at(acts, j, l));
        },
        PatchState::Rechecking { target } => {
            let (j, k, l, page, previous) = choose|j: int, k: int, l: int, page: Page, previous: Prot|
                j < k < l < actions.len() && unlocked_at(plan, actions, events, j, page, previous)
                    && page_contains(page, target)
                    && actions[k] == PatchAction::Write { address: target, value: plan.value }
                    && only_write_at(actions, k)
                    && actions[l] == PatchAction::Protect { page, prot: restore_prot(plan, previous) }
                    && only_protect_at(actions, j, l);
            assert(unlocked_at(plan, acts, evs, j, page, previous));
            assert(only_write_at(acts, k));
            assert(only_protect_at(acts, j, l));
        },
        PatchState::Finished { .. } => {},
    }
}

/// `patch_history` holds of every run whose events were accepted.
proof fn lemma_patch_run_history(plan: PatchPlan, events: Seq<PatchEvent>)
    requires
        patch_run_accepted(plan, events),
    ensures
        patch_history(plan, patch_run(plan, events).0, patch_run(plan, events).1, events),
    decreases events.len(),
{
    if events.len() > 0 {
        let before = events.drop_last();
        lemma_patch_run_history(plan, before);
        let (state, actions) = patch_run(plan, before);
        lemma_patch_step_history(plan, state, actions, before, events.last());
        assert(before.push(events.last()) =~= events);
    }
}

/// Every write of a patch goes to the patched value's address, writes the
/// plan's value, and lands in a page that the patch made writable earlier
/// (the protection change succeeded) and that holds that address; no other
/// protection change comes between the two.
pub proof fn lemma_patch_writes_into_unlocked_page(plan: PatchPlan, events: Seq<PatchEvent>)
    requires
        patch_run_accepted(plan, events),
    ensures
        ({
            let actions = patch_run(plan, events).1;
            forall|k: int|
                0 <= k < actions.len() && #[trigger] actions[k] is Write ==> {
                    &&& patch_target(plan, events) <= usize::MAX
                    &&& actions[k] == PatchAction::Write {
                        address: patch_target(plan, events) as usize,
                        value: plan.value,
                    }
                    &&& exists|j: int, page: Page, previous: Prot|
                        j < k && unlocked_at(plan, actions, events, j, page, previous) && page_contains(
                            page,
                            patch_target(plan, events) as usize,
                        ) && forall|i: int| j < i < k ==> !(#[trigger] actions[i] is Protect)
                }
        }),
{
    lemma_patch_run_history(plan, events);
    let (state, actions) = patch_run(plan, events);
    let n = actions.len() as int;
    assert forall|k: int| 0 <= k < actions.len() && #[trigger] actions[k] is Write implies {
        &&& patch_target(plan, events) <= usize::MAX
        &&& actions[k] == PatchAction::Write { address: patch_target(plan, events) as usize, value: plan.value }
        &&& exists|j: int, page: Page, previous: Prot|
            j < k && unlocked_at(plan, actions, events, j, page, previous) && page_contains(
                page,
                patch_target(plan, events) as usize,
            ) && forall|i: int| j < i < k ==> !(#[trigger] actions[i] is Protect)
    } by {
        match state {
            PatchState::Writing { target, page, previous } => {
                let j = choose|j: int| unlocked_at(plan, actions, events, j, page, previous) && only_protect_at(actions, j, j);
                assert(k == n - 1);
                assert(j < k);
            },
            PatchState::InspectingAfter { target, page, previous } => {
                let (j, kk) = choose|j: int, k: int|
                    j < k && unlocked_at(plan, actions, events, j, page, previous) && only_protect_at(actions, j, j)
                        && 0 <= k < n && actions[k] == PatchAction::Write { address: target, value: plan.value }
                        && only_write_at(actions, k);
                assert(k == kk);
            },
            PatchState::Restoring { target } => {
                let (j, kk, page, previous) = choose|j: int, k: int, page: Page, previous: Prot|
                    j < k < n - 1 && unlocked_at(plan, actions, events, j, page, previous)
                        && page_contains(page, target)
                        && actions[k] == PatchAction::Write { address: target, value: plan.value }
                        && only_write_at(actions, k)
                        && actions[n - 1] == PatchAction::Protect { page, prot: restore_prot(plan, previous) }
                        && only_protect_at(actions, j, n - 1);
                assert(k == kk);
            },
            PatchState::Rechecking { target } => {
                let (j, kk, l, page, previous) = choose|j: int, k: int, l: int, page: Page, previous: Prot|
                    j < k < l < n && unlocked_at(plan, actions, events, j, page, previous)
                        && page_contains(page, target)
                        && actions[k] == PatchAction::Write { address: target, value: plan.value }
                        && only_write_at(actions, k)
                        && actions[l] == PatchAction::Protect { page, prot: restore_prot(plan, previous) }
                        && only_protect_at(actions, j, l);
                assert(k == kk);
            },
            PatchState::Finished { outcome } => {
                if outcome is Ok {
                    let (j, kk, l, page, previous) = choose|j: int, k: int, l: int, page: Page, previous: Prot|
                        j < k < l < n && unlocked_at(plan, actions, events, j, page, previous)
                            && page_contains(page, patch_target(plan, events) as usize)
                            && patch_target(plan, events) <= usize::MAX
                            && actions[k] == PatchAction::Write {
                            address: patch_target(plan, events) as usize,
                            value: plan.value,
                        } && only_write_at(actions, k)
                            && actions[l] == PatchAction::Protect { page, prot: restore_prot(plan, previous) }
                            && only_protect_at(actions, j, l);
                    assert(k == kk);
                }
            },
            _ => {},
        }
    }
}

/// A patch that finishes successfully wrote exactly once, and afterwards
/// gave the page it had made writable the protection that the plan
/// restores (for `Restore::Previous`, the one the page had before).
pub proof fn lemma_patch_restores_protection(plan: PatchPlan, events: Seq<PatchEvent>)
    requires
        patch_run_accepted(plan, events),
        patch_run(plan, events).0 matches PatchState::Finished { outcome: Ok(()) },
    ensures
        ({
            let actions = patch_run(plan, events).1;
            exists|j: int, k: int, l: int, page: Page, previous: Prot|
                j < k < l < actions.len() && unlocked_at(plan, actions, events, j, page, previous)
                    && actions[k] is Write && only_write_at(actions, k)
                    && actions[l] == PatchAction::Protect { page, prot: restore_prot(plan, previous) }
                    && only_protect_at(actions, j, l)
        }),
{
    lemma_patch_run_history(plan, events);
}

/// A patch that finishes with an error reports the plan's error, wrote
/// nothing, and failed to make the page writable.
pub proof fn lemma_patch_failure_writes_nothing(plan: PatchPlan, events: Seq<PatchEvent>)
    requires
        patch_run_accepted(plan, events),
        patch_run(plan, events).0 matches PatchState::Finished { outcome: Err(_) },
    ensures
        ({
            let actions = patch_run(plan, events).1;
            let n = actions.len() as int;
            &&& plan.unlock_failure == Some(patch_run(plan, events).0->outcome->Err_0)
            &&& no_write(actions)
            &&& n >= 2
            &&& actions[n - 2] is Protect && actions[n - 2]->Protect_prot == plan.unlock
            &&& events[n - 2] == PatchEvent::ProtectionChanged(None)
        }),
{
    lemma_patch_run_history(plan, events);
}

/// How many more events a state can accept at most.
pub open spec fn patch_rank(state: PatchState) -> int {
    match state {
        PatchState::Searching => 10,
        PatchState::ReadingDisplacement { .. } => 9,
        PatchState::InspectingEarly { .. } => 8,
        PatchState::Locating { .. } => 7,
        PatchState::Unlocking { .. } => 6,
        PatchState::InspectingBefore { .. } => 5,
        PatchState::Writing { .. } => 4,
        PatchState::InspectingAfter { .. } => 3,
        PatchState::Restoring { .. } => 2,
        PatchState::Rechecking { .. } => 1,
        PatchState::Finished { .. } => 0,
    }
}

/// A patch always ends: every accepted event brings the protocol closer to
/// its end, so a run accepts at most 10 events, and the finished state
/// accepts none.
pub proof fn lemma_patch_run_ends(plan: PatchPlan, events: Seq<PatchEvent>)
    requires
        patch_run_accepted(plan, events),
    ensures
        events.len() + patch_rank(patch_run(plan, events).0) <= 10,
        events.len() <= 10,
        forall|event: PatchEvent|
            patch_run(plan, events).0 is Finished ==> !patch_accepts(plan, patch_run(plan, events).0, event),
    decreases events.len(),
{
    if events.len() > 0 {
        lemma_patch_run_ends(plan, events.drop_last());
    }
}

/// The page reported for the target is taken whole: it is accepted exactly
/// when `base <= target <= end`, whatever its protection and size, and the
/// protection change that follows names that very page (base, end, size and
/// protection) with the plan's unlocking protection. A page reported again
/// after the restore is accepted on the same terms.
pub proof fn lemma_found_page_is_unlocked_whole(plan: PatchPlan, target: usize, page: Page)
    ensures
        ({
            let locating = PatchState::Locating { target };
            let rechecking = PatchState::Rechecking { target };
            let found = PatchEvent::PageFound(page);
            let holds = page.base <= target && target <= page.end;
            &&& patch_accepts(plan, locating, found) <==> holds
            &&& patch_accepts(plan, rechecking, found) <==> holds
            &&& next_patch_step(plan, locating, found).0 == PatchState::Unlocking { target, page }
            &&& next_patch_step(plan, locating, found).1 == PatchAction::Protect { page, prot: plan.unlock }
        }),
{
}

/// The page made writable is the one whose protection is restored: the
/// unlocked page is carried unchanged up to the restore, which names it with
/// the previous protection (`Restore::Previous`) or the plan's fixed one.
pub proof fn lemma_restore_covers_unlocked_page(plan: PatchPlan, target: usize, page: Page, previous: Prot)
    ensures
        ({
            let unlocked = next_patch_step(
                plan,
                PatchState::Unlocking { target, page },
                PatchEvent::ProtectionChanged(Some(previous)),
            );
            let writing = PatchState::Writing { target, page, previous };
            let before = PatchState::InspectingBefore { target, page, previous };
            let after = PatchState::InspectingAfter { target, page, previous };
            let restored = next_patch_step(plan, after, PatchEvent::Inspected);
            let restore = match plan.restore {
                Restore::Previous => previous,
                Restore::To(prot) => prot,
            };
            &&& plan.inspect_early ==> unlocked.0 == writing
            &&& plan.inspect_early ==> unlocked.1 == PatchAction::Write { address: target, value: plan.value }
            &&& !plan.inspect_early ==> unlocked.0 == before
            &&& !plan.inspect_early ==> unlocked.1 == PatchAction::Inspect(target)
            &&& next_patch_step(plan, before, PatchEvent::Inspected).0 == writing
            &&& next_patch_step(plan, writing, PatchEvent::Written).0 == after
            &&& restored.0 == PatchState::Restoring { target }
            &&& restored.1 == PatchAction::Protect { page, prot: restore }
        }),
{
}

/// The address that a displacement leads to. For a RIP-relative plan the
/// 32-bit displacement is two's complement: below 0x8000_0000 it is added
/// as is, from 0x8000_0000 on it counts 2^32 less. For a plain displacement
/// it is always added as is. The displacement is accepted exactly when the
/// address is a `usize`, and the next action asks about that address.
pub proof fn lemma_displacement_target(plan: PatchPlan, field: usize, displacement: u32)
    requires
        reads_displacement(plan.locate),
    ensures
        ({
            let address: int = if plan.locate is RipRelative && displacement >= 0x8000_0000 {
                field + 4 + displacement - 0x1_0000_0000
            } else {
                field + 4 + displacement
            };
            let reading = PatchState::ReadingDisplacement { field };
            let read = PatchEvent::DisplacementRead(displacement);
            let next = next_patch_step(plan, reading, read).1;
            &&& patch_accepts(plan, reading, read) <==> 0 <= address <= usize::MAX
            &&& (0 <= address <= usize::MAX && plan.inspect_early) ==> next == PatchAction::Inspect(address as usize)
            &&& (0 <= address <= usize::MAX && !plan.inspect_early) ==> next == PatchAction::FindPage(address as usize)
        }),
{
}

} // verus!
