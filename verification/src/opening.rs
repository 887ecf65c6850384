//! How a binding becomes a live listener or stream.
//!
//! The work itself is done by the operating system. What is decided here is
//! which step a binding asks for, on a platform with or without descriptors,
//! and whether the switch of a fresh handle to non-blocking mode is tried
//! again.
use crate::address::SocketAddress;
use crate::error::Error;
use crate::service::{Binding, BindingView};
use vstd::prelude::*;

verus! {

/// The step that opens a binding.
#[derive(Debug, PartialEq, Eq, Clone)]
pub enum Opening {
    /// Take the descriptor over as a Unix domain handle, without looking at
    /// what it refers to.
    Adopt(i32),
    /// Remove the file at the path, whatever comes of that, then bind a Unix
    /// domain listener there.
    BindPath(String),
    /// Connect to the Unix domain socket at the path.
    ConnectPath(String),
    /// Bind a TCP listener to the first of the addresses that can be bound.
    BindSockets(Vec<SocketAddress>),
    /// Connect to the first of the addresses, in their order, that accepts.
    ConnectSockets(Vec<SocketAddress>),
    /// Carry the pipe path on, unopened.
    Pipe(String),
}

/// An opening as a mathematical value.
pub enum OpeningView {
    Adopt(i32),
    BindPath(Seq<char>),
    ConnectPath(Seq<char>),
    BindSockets(Seq<SocketAddress>),
    ConnectSockets(Seq<SocketAddress>),
    Pipe(Seq<char>),
}

impl View for Opening {
    type V = OpeningView;

    open spec fn view(&self) -> OpeningView {
        match self {
            Opening::Adopt(fd) => OpeningView::Adopt(*fd),
            Opening::BindPath(path) => OpeningView::BindPath(path@),
            Opening::ConnectPath(path) => OpeningView::ConnectPath(path@),
            Opening::BindSockets(addresses) => OpeningView::BindSockets(addresses@),
            Opening::ConnectSockets(addresses) => OpeningView::ConnectSockets(addresses@),
            Opening::Pipe(path) => OpeningView::Pipe(path@),
        }
    }
}

/// The step that makes a listener of `binding`. Descriptors and socket files
/// exist only where the platform has `descriptors`.
pub open spec fn listener_step(binding: BindingView, descriptors: bool) -> Result<
    OpeningView,
    Error,
> {
    match binding {
        BindingView::FileDescriptor(fd) => if descriptors {
            Ok(OpeningView::Adopt(fd))
        } else {
            Err(Error::UnsupportedScheme)
        },
        BindingView::FilePath(path) => if descriptors {
            Ok(OpeningView::BindPath(path))
        } else {
            Err(Error::UnsupportedScheme)
        },
        BindingView::Sockets(addresses) => Ok(OpeningView::BindSockets(addresses)),
        BindingView::NamedPipe(path) => Ok(OpeningView::Pipe(path)),
    }
}

/// The step that makes a stream of `binding`. Descriptors and socket files
/// exist only where the platform has `descriptors`.
pub open spec fn stream_step(binding: BindingView, descriptors: bool) -> Result<
    OpeningView,
    Error,
> {
    match binding {
        BindingView::FileDescriptor(fd) => if descriptors {
            Ok(OpeningView::Adopt(fd))
        } else {
            Err(Error::UnsupportedScheme)
        },
        BindingView::FilePath(path) => if descriptors {
            Ok(OpeningView::ConnectPath(path))
        } else {
            Err(Error::UnsupportedScheme)
        },
        BindingView::Sockets(addresses) => Ok(OpeningView::ConnectSockets(addresses)),
        BindingView::NamedPipe(path) => Ok(OpeningView::Pipe(path)),
    }
}

/// `res` is the outcome `expected`: the same error, or an opening with that
/// view.
pub open spec fn opens(res: Result<Opening, Error>, expected: Result<OpeningView, Error>) -> bool {
    match res {
        Ok(o) => expected == Ok::<OpeningView, Error>(o@),
        Err(e) => expected == Err::<OpeningView, Error>(e),
    }
}

impl Binding {
    /// Decides the step that makes a listener of this binding.
    pub fn listener_opening(self, descriptors: bool) -> (res: Result<Opening, Error>)
        ensures
            opens(res, listener_step(self@, descriptors)),
    {
        match self {
            Binding::FileDescriptor(fd) => if descriptors {
                Ok(Opening::Adopt(fd))
            } else {
                Err(Error::UnsupportedScheme)
            },
            Binding::FilePath(path) => if descriptors {
                Ok(Opening::BindPath(path))
            } else {
                Err(Error::UnsupportedScheme)
            },
            Binding::Sockets(addresses) => Ok(Opening::BindSockets(addresses)),
            Binding::NamedPipe(path) => Ok(Opening::Pipe(path)),
        }
    }

    /// Decides the step that makes a stream of this binding.
    pub fn stream_opening(self, descriptors: bool) -> (res: Result<Opening, Error>)
        ensures
            opens(res, stream_step(self@, descriptors)),
    {
        match self {
            Binding::FileDescriptor(fd) => if descriptors {
                Ok(Opening::Adopt(fd))
            } else {
                Err(Error::UnsupportedScheme)
            },
            Binding::FilePath(path) => if descriptors {
                Ok(Opening::ConnectPath(path))
            } else {
                Err(Error::UnsupportedScheme)
            },
            Binding::Sockets(addresses) => Ok(Opening::ConnectSockets(addresses)),
            Binding::NamedPipe(path) => Ok(Opening::Pipe(path)),
        }
    }
}

/// What came of one attempt to switch a handle to non-blocking mode.
#[derive(Clone, Copy, Debug, PartialEq, Eq)]
pub enum ModeChange {
    /// The handle is in non-blocking mode.
    Done,
    /// The attempt itself would have blocked.
    WouldBlock,
    /// The attempt failed for another reason.
    Failed,
}

/// Tells whether the switch to non-blocking mode is tried again: only after
/// an attempt that would have blocked. After any other failure the handle is
/// handed on as it is.
pub fn retry_mode_change(outcome: ModeChange) -> (again: bool)
    ensures
        again == (outcome is WouldBlock),
{
    match outcome {
        ModeChange::WouldBlock => true,
        _ => false,
    }
}

} // verus!
