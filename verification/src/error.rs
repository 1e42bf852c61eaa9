//! Errors returned by the channel operations.

use vstd::prelude::*;

verus! {

/// An error returned from `send`: the channel is disconnected.
///
/// The error holds the message, so it can be recovered.
#[derive(PartialEq, Eq, Clone, Copy, Debug)]
pub struct SendError<T>(pub T);

/// An error returned from `try_send`; it holds the message being sent.
#[derive(PartialEq, Eq, Clone, Copy, Debug)]
pub enum TrySendError<T> {
    /// The message could not be sent because the channel is full.
    Full(T),
    /// The message could not be sent because the channel is disconnected.
    Disconnected(T),
}

/// An error returned from `recv`: the channel is empty and disconnected.
#[derive(PartialEq, Eq, Clone, Copy, Debug)]
pub struct RecvError;

/// An error returned from `try_recv`: no message was ready.
#[derive(PartialEq, Eq, Clone, Copy, Debug)]
pub struct TryRecvError;

impl<T> TrySendError<T> {
    /// The message that the error carries, whatever the variant.
    pub open spec fn message(self) -> T {
        match self {
            TrySendError::Full(v) => v,
            TrySendError::Disconnected(v) => v,
        }
    }

    /// Unwraps the message.
    pub fn into_inner(self) -> (v: T)
        ensures
            v == self.message(),
    {
        match self {
            TrySendError::Full(v) => v,
            TrySendError::Disconnected(v) => v,
        }
    }

    /// True when the channel was full.
    pub fn is_full(&self) -> (b: bool)
        ensures
            b == (*self is Full),
    {
        match self {
            TrySendError::Full(_) => true,
            TrySendError::Disconnected(_) => false,
        }
    }

    /// The text that describes the error.
    pub fn describe(&self) -> (s: &'static str)
        ensures
            *self is Full ==> s@ == "sending on a full channel"@,
            *self is Disconnected ==> s@ == "sending on a disconnected channel"@,
    {
        match self {
            TrySendError::Full(_) => "sending on a full channel",
            TrySendError::Disconnected(_) => "sending on a disconnected channel",
        }
    }
}

impl<T> SendError<T> {
    /// Unwraps the message.
    pub fn into_inner(self) -> (v: T)
        ensures
            v == self.0,
    {
        self.0
    }

    /// The text that describes the error.
    pub fn describe(&self) -> (s: &'static str)
        ensures
            s@ == "sending on a disconnected channel"@,
    {
        "sending on a disconnected channel"
    }
}

impl RecvError {
    /// The text that describes the error.
    pub fn describe(&self) -> (s: &'static str)
        ensures
            s@ == "receiving on an empty and disconnected channel"@,
    {
        "receiving on an empty and disconnected channel"
    }
}

impl TryRecvError {
    /// The text that describes the error.
    pub fn describe(&self) -> (s: &'static str)
        ensures
            s@ == "try receiving on an empty and disconnected channel"@,
    {
        "try receiving on an empty and disconnected channel"
    }
}

/// An error that carries a text, produced by the result collectors.
#[derive(PartialEq, Eq, Clone, Debug)]
pub struct WrapError(pub String);

} // verus!
