//! The policy of fetching a routing table whose size may change between asking
//! for it and reading it.
//!
//! Reading takes two system calls: one for the size, one to fill a buffer. The
//! table can grow in between, and the second call then fails. [`next`] decides
//! what to do after each call; whoever makes the calls follows it.

use vstd::prelude::*;

verus! {

/// How many times the size is asked for at most.
pub const MAX_ATTEMPTS: u8 = 3;

/// What is added to the reported size, so that a table that grows a little
/// still fits.
pub const SIZE_PAD: usize = 2048;

/// The error codes of the system that say that the buffer was too small.
#[derive(Debug, Clone, Copy, PartialEq, Eq)]
pub struct SizeRaceCodes {
    pub enomem: i32,
    pub enobufs: i32,
}

/// Which call is under way.
#[derive(Debug, Clone, Copy, PartialEq, Eq)]
pub enum FetchPhase {
    /// Asking for the size.
    Sizing,
    /// Filling the buffer.
    Filling,
    /// None: the fetch is over.
    Over,
}

/// How far a fetch has come.
#[derive(Debug, Clone, Copy, PartialEq, Eq)]
pub struct FetchState {
    /// Which attempt this is, from 1 on.
    pub attempt: u8,
    pub phase: FetchPhase,
}

/// What a call came back with.
#[derive(Debug, Clone, Copy, PartialEq, Eq)]
pub enum FetchEvent {
    /// The size was reported.
    Sized(usize),
    /// The size could not be had.
    SizingFailed,
    /// The buffer was filled with so many bytes.
    Filled(usize),
    /// The buffer could not be filled. The code is that of the system, if there
    /// is one.
    FillingFailed(Option<i32>),
}

/// What to do next.
#[derive(Debug, Clone, Copy, PartialEq, Eq)]
pub enum FetchAction {
    /// Ask for the size.
    AskSize,
    /// Fill a buffer of this size.
    Fill(usize),
    /// Keep so many bytes of the buffer: they are the table.
    Keep(usize),
    /// Report the error that the call came back with.
    Report,
    /// Report that the table keeps changing its size.
    GiveUp,
}

/// The arguments of one `sysctl` call.
#[derive(Debug, Clone, Copy, PartialEq, Eq)]
pub struct SysctlCall {
    /// What is asked for, as a path in the tree of system values.
    pub name: [i32; 6],
    /// The size of the buffer to be filled, or none to be told the size only.
    pub buffer: Option<usize>,
    /// The length of the value to be set.
    pub new_len: usize,
}

impl FetchState {
    /// A state that a fetch can be in.
    pub open spec fn wf(self) -> bool {
        1 <= self.attempt <= MAX_ATTEMPTS
    }

    /// The event is what the call under way can come back with.
    pub open spec fn expects(self, event: FetchEvent) -> bool {
        match event {
            FetchEvent::Sized(_) => self.phase is Sizing,
            FetchEvent::SizingFailed => self.phase is Sizing,
            FetchEvent::Filled(_) => self.phase is Filling,
            FetchEvent::FillingFailed(_) => self.phase is Filling,
        }
    }

    /// How many more calls there can be.
    pub open spec fn calls_left(self) -> int {
        match self.phase {
            FetchPhase::Sizing => 2 * (MAX_ATTEMPTS - self.attempt) + 2,
            FetchPhase::Filling => 2 * (MAX_ATTEMPTS - self.attempt) + 1,
            FetchPhase::Over => 0,
        }
    }
}

/// The code says that the buffer was too small.
pub open spec fn is_size_race(code: Option<i32>, codes: SizeRaceCodes) -> bool {
    code == Some(codes.enomem) || code == Some(codes.enobufs)
}

/// The state that follows `state` on `event`.
pub open spec fn state_after(
    state: FetchState,
    event: FetchEvent,
    codes: SizeRaceCodes,
) -> FetchState {
    match event {
        FetchEvent::Sized(_) => FetchState { phase: FetchPhase::Filling, ..state },
        FetchEvent::FillingFailed(code) if is_size_race(code, codes) && state.attempt
            < MAX_ATTEMPTS => FetchState {
            attempt: (state.attempt + 1) as u8,
            phase: FetchPhase::Sizing,
        },
        _ => FetchState { phase: FetchPhase::Over, ..state },
    }
}

/// What is to be done in `state` on `event`.
pub open spec fn action_on(
    state: FetchState,
    event: FetchEvent,
    codes: SizeRaceCodes,
) -> FetchAction {
    match event {
        FetchEvent::Sized(size) => FetchAction::Fill((size + SIZE_PAD) as usize),
        FetchEvent::SizingFailed => FetchAction::Report,
        FetchEvent::Filled(len) => FetchAction::Keep(len),
        FetchEvent::FillingFailed(code) => if !is_size_race(code, codes) {
            FetchAction::Report
        } else if state.attempt < MAX_ATTEMPTS {
            FetchAction::AskSize
        } else {
            FetchAction::GiveUp
        },
    }
}

/// The call that an action asks for, or none where it asks for none. The name is
/// that of the routing dump of all address families: `CTL_NET`, `AF_ROUTE`, the
/// protocol, the family, `NET_RT_DUMP` and its flags.
pub open spec fn call_of(action: FetchAction) -> Option<SysctlCall> {
    match action {
        FetchAction::AskSize => Some(
            SysctlCall { name: [4, 17, 0, 0, 7, 0], buffer: None, new_len: 0 },
        ),
        FetchAction::Fill(size) => Some(
            SysctlCall { name: [4, 17, 0, 0, 7, 0], buffer: Some(size), new_len: 0 },
        ),
        _ => None,
    }
}

/// The `sysctl` call to be made for an action, if there is one.
pub fn sysctl_call(action: FetchAction) -> (call: Option<SysctlCall>)
    ensures
        call == call_of(action),
{
    let name: [i32; 6] = [4, 17, 0, 0, 7, 0];
    match action {
        FetchAction::AskSize => Some(SysctlCall { name, buffer: None, new_len: 0 }),
        FetchAction::Fill(size) => Some(SysctlCall { name, buffer: Some(size), new_len: 0 }),
        _ => None,
    }
}

/// Begins a fetch.
pub fn begin() -> (first: (FetchState, FetchAction))
    ensures
        first.0 == (FetchState { attempt: 1, phase: FetchPhase::Sizing }),
        first.1 == FetchAction::AskSize,
{
    (FetchState { attempt: 1, phase: FetchPhase::Sizing }, FetchAction::AskSize)
}

/// Decides what follows a call.
///
/// Only a table that outgrew the buffer is worth another attempt, and only so
/// many of them: any other failure is reported at once.
pub fn next(state: FetchState, event: FetchEvent, codes: SizeRaceCodes) -> (step: (
    FetchState,
    FetchAction,
))
    requires
        state.wf(),
        state.expects(event),
        event matches FetchEvent::Sized(size) ==> size + SIZE_PAD <= usize::MAX,
    ensures
        step.0 == state_after(state, event, codes),
        step.1 == action_on(state, event, codes),
        step.0.wf(),
        step.0.calls_left() < state.calls_left(),
{
    let over: FetchState = FetchState { attempt: state.attempt, phase: FetchPhase::Over };
    match event {
        FetchEvent::Sized(size) => (
            FetchState { attempt: state.attempt, phase: FetchPhase::Filling },
            FetchAction::Fill(size + SIZE_PAD),
        ),
        FetchEvent::SizingFailed => (over, FetchAction::Report),
        FetchEvent::Filled(len) => (over, FetchAction::Keep(len)),
        FetchEvent::FillingFailed(code) => {
            let size_race: bool = match code {
                Some(c) => c == codes.enomem || c == codes.enobufs,
                None => false,
            };
            if !size_race {
                (over, FetchAction::Report)
            } else if state.attempt < MAX_ATTEMPTS {
                (
                    FetchState { attempt: state.attempt + 1, phase: FetchPhase::Sizing },
                    FetchAction::AskSize,
                )
            } else {
                (over, FetchAction::GiveUp)
            }
        },
    }
}

} // verus!
