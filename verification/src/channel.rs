//! States and failures of the control channel to the producer.

use vstd::prelude::*;

verus! {

/// Where a control channel stands.
#[derive(Debug, Clone, Copy, PartialEq, Eq, Structural)]
pub enum ChannelState {
    /// Not opened.
    Disconnected,
    /// Open and usable.
    Connected,
    /// Failed after it was opened; nothing brings this channel back.
    Faulted,
}

/// A failure of the channel, with the host's error code.
#[derive(Debug, Clone, Copy, PartialEq, Eq, Structural)]
pub enum ChannelError {
    /// The endpoint is absent or may not be opened.
    OpenFailed { code: i32 },
    /// A request on the open channel failed.
    IoFailed { code: i32 },
}

/// The state after an attempt to open: only a disconnected channel that
/// opened becomes connected.
pub open spec fn spec_after_open(state: ChannelState, opened: bool) -> ChannelState {
    if state == ChannelState::Disconnected && opened {
        ChannelState::Connected
    } else {
        state
    }
}

/// The state after a request: a connected channel stays so while requests
/// and their responses are sound, and is faulted by the first that is not.
pub open spec fn spec_after_request(state: ChannelState, sound: bool) -> ChannelState {
    if state == ChannelState::Connected && !sound {
        ChannelState::Faulted
    } else {
        state
    }
}

impl ChannelState {
    /// The state after an attempt to open.
    pub fn after_open(self, opened: bool) -> (next: ChannelState)
        ensures
            next == spec_after_open(self, opened),
    {
        match self {
            ChannelState::Disconnected => if opened {
                ChannelState::Connected
            } else {
                ChannelState::Disconnected
            },
            ChannelState::Connected => ChannelState::Connected,
            ChannelState::Faulted => ChannelState::Faulted,
        }
    }

    /// The state after a request and the check of its response.
    pub fn after_request(self, sound: bool) -> (next: ChannelState)
        ensures
            next == spec_after_request(self, sound),
    {
        match self {
            ChannelState::Connected => if sound {
                ChannelState::Connected
            } else {
                ChannelState::Faulted
            },
            ChannelState::Disconnected => ChannelState::Disconnected,
            ChannelState::Faulted => ChannelState::Faulted,
        }
    }

    /// Whether requests may be made.
    pub fn is_connected(self) -> (connected: bool)
        ensures
            connected == (self == ChannelState::Connected),
    {
        matches!(self, ChannelState::Connected)
    }
}

impl ChannelError {
    /// The host's error code.
    pub fn code(&self) -> (code: i32)
        ensures
            code == match *self {
                ChannelError::OpenFailed { code } => code,
                ChannelError::IoFailed { code } => code,
            },
    {
        match self {
            ChannelError::OpenFailed { code } => *code,
            ChannelError::IoFailed { code } => *code,
        }
    }
}

/// A faulted channel stays faulted, whatever is tried on it.
pub proof fn lemma_faulted_is_terminal(opened: bool, sound: bool)
    ensures
        spec_after_open(ChannelState::Faulted, opened) == ChannelState::Faulted,
        spec_after_request(ChannelState::Faulted, sound) == ChannelState::Faulted,
{
}

} // verus!
