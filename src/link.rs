//! The state of a device handle: its endpoint, its timeout setting, and the
//! one connection it may own.
//!
//! `Link` holds the transport value itself, so that a handle owns at most one
//! connection and nothing else can reach it. Opening and closing sockets is
//! left to the caller; the link decides when either is allowed.
use vstd::prelude::*;
use std::time::Duration;
use crate::reply::{FrameFault, Step};

verus! {

/// Why an operation on a device failed.
#[derive(PartialEq, Eq, Structural, Clone, Copy, Debug)]
pub enum LxiError {
    /// `connect` on a handle that already has a connection.
    AlreadyConnected,
    /// An operation that needs a connection on a handle without one.
    NotConnected,
    /// The endpoint did not resolve to an address.
    AddressResolution,
    /// The connection could not be opened.
    ConnectFailed,
    /// A timeout elapsed while waiting on the transport.
    Timeout,
    /// The peer closed the connection before a reply was complete.
    ConnectionClosed,
    /// The reply was not a well-formed frame.
    MalformedFrame(FrameFault),
    /// Any other failure of the transport.
    IOError,
}

/// The state of a handle, as a value.
pub struct LinkView<S> {
    /// The host name of the endpoint.
    pub host: Seq<char>,
    /// The port of the endpoint.
    pub port: u16,
    /// The connection, when there is one.
    pub stream: Option<S>,
    /// The timeout applied to both halves of a connection; none blocks.
    pub timeout: Option<Duration>,
}

/// A handle that has never connected.
pub open spec fn fresh_view<S>(host: Seq<char>, port: u16, timeout: Option<Duration>) -> LinkView<S> {
    LinkView { host, port, stream: None, timeout }
}

/// Whether a connection may be opened, and the bound on the attempt.
pub open spec fn connect_check<S>(v: LinkView<S>) -> Result<Option<Duration>, LxiError> {
    if v.stream is Some {
        Err(LxiError::AlreadyConnected)
    } else {
        Ok(v.timeout)
    }
}

/// Installing an opened connection: the outcome and the state after.
pub open spec fn put_spec<S>(v: LinkView<S>, s: S) -> (Result<(), LxiError>, LinkView<S>) {
    if v.stream is Some {
        (Err(LxiError::AlreadyConnected), v)
    } else {
        (Ok(()), LinkView { stream: Some(s), ..v })
    }
}

/// Taking the connection out: the outcome and the state after.
pub open spec fn take_spec<S>(v: LinkView<S>) -> (Result<S, LxiError>, LinkView<S>) {
    match v.stream {
        Some(s) => (Ok(s), LinkView { stream: None, ..v }),
        None => (Err(LxiError::NotConnected), v),
    }
}

/// The endpoint, timeout setting and connection of one device.
pub struct Link<S> {
    host: String,
    port: u16,
    stream: Option<S>,
    timeout: Option<Duration>,
}

impl<S> View for Link<S> {
    type V = LinkView<S>;

    closed spec fn view(&self) -> LinkView<S> {
        LinkView { host: self.host@, port: self.port, stream: self.stream, timeout: self.timeout }
    }
}

impl<S> Link<S> {
    /// A handle for `host` and `port`, not connected.
    pub fn new(host: String, port: u16, timeout: Option<Duration>) -> (r: Link<S>)
        ensures
            r@ == fresh_view::<S>(host@, port, timeout),
    {
        Link { host, port, stream: None, timeout }
    }

    /// The host name of the endpoint.
    pub fn host(&self) -> (r: &str)
        ensures
            r@ == self@.host,
    {
        self.host.as_str()
    }

    /// The port of the endpoint.
    pub fn port(&self) -> (r: u16)
        ensures
            r == self@.port,
    {
        self.port
    }

    /// The timeout setting.
    pub fn timeout(&self) -> (r: Option<Duration>)
        ensures
            r == self@.timeout,
    {
        self.timeout
    }

    /// Stores a new timeout setting; the connection, if any, is kept.
    pub fn set_timeout(&mut self, timeout: Option<Duration>)
        ensures
            final(self)@ == (LinkView { timeout, ..old(self)@ }),
    {
        self.timeout = timeout;
    }

    /// Whether the handle has a connection.
    pub fn is_connected(&self) -> (r: bool)
        ensures
            r == self@.stream is Some,
    {
        self.stream.is_some()
    }

    /// Decides whether a connection may be opened: fails when one exists,
    /// and otherwise gives the timeout that bounds the attempt (none: the
    /// attempt is unbounded).
    pub fn begin_connect(&self) -> (r: Result<Option<Duration>, LxiError>)
        ensures
            r == connect_check(self@),
    {
        if self.stream.is_some() {
            Err(LxiError::AlreadyConnected)
        } else {
            Ok(self.timeout)
        }
    }

    /// Installs an opened connection. When the handle already has one, it
    /// is kept and `s` is dropped.
    pub fn put_stream(&mut self, s: S) -> (r: Result<(), LxiError>)
        ensures
            (r, final(self)@) == put_spec(old(self)@, s),
    {
        if self.stream.is_some() {
            Err(LxiError::AlreadyConnected)
        } else {
            self.stream = Some(s);
            Ok(())
        }
    }

    /// Takes the connection out of the handle, which is then disconnected;
    /// fails, changing nothing, when there is none.
    pub fn take_stream(&mut self) -> (r: Result<S, LxiError>)
        ensures
            (r, final(self)@) == take_spec(old(self)@),
    {
        match self.stream.take() {
            Some(s) => Ok(s),
            None => Err(LxiError::NotConnected),
        }
    }
}

/// How an operation run under a temporary timeout failed.
#[derive(PartialEq, Eq, Structural, Clone, Copy, Debug)]
pub enum ScopedError {
    /// The operation failed; the previous timeout was restored.
    Operation(LxiError),
    /// The operation succeeded; restoring the previous timeout failed.
    Restore(LxiError),
    /// Both failed.
    Both(LxiError, LxiError),
}

impl ScopedError {
    /// The error that is reported first: the operation's, when it failed.
    pub open spec fn primary_spec(self) -> LxiError {
        match self {
            ScopedError::Operation(e) => e,
            ScopedError::Restore(e) => e,
            ScopedError::Both(e, _) => e,
        }
    }

    /// The error that is reported first: the operation's, when it failed.
    pub fn primary(&self) -> (r: LxiError)
        ensures
            r == self.primary_spec(),
    {
        match self {
            ScopedError::Operation(e) => *e,
            ScopedError::Restore(e) => *e,
            ScopedError::Both(e, _) => *e,
        }
    }
}

/// The outcome of an operation run under a temporary timeout, given the
/// operation's result and the result of restoring the previous timeout.
pub open spec fn scoped_spec<T>(op: Result<T, LxiError>, restore: Result<(), LxiError>) -> Result<
    T,
    ScopedError,
> {
    match (op, restore) {
        (Ok(v), Ok(())) => Ok(v),
        (Ok(_), Err(e)) => Err(ScopedError::Restore(e)),
        (Err(e), Ok(())) => Err(ScopedError::Operation(e)),
        (Err(e), Err(f)) => Err(ScopedError::Both(e, f)),
    }
}

/// Combines the result of an operation run under a temporary timeout with
/// the result of restoring the previous one. Neither failure is dropped; the
/// operation's comes first.
pub fn scoped_outcome<T>(op: Result<T, LxiError>, restore: Result<(), LxiError>) -> (r: Result<
    T,
    ScopedError,
>)
    ensures
        r == scoped_spec(op, restore),
{
    match op {
        Ok(v) => match restore {
            Ok(()) => Ok(v),
            Err(e) => Err(ScopedError::Restore(e)),
        },
        Err(e) => match restore {
            Ok(()) => Err(ScopedError::Operation(e)),
            Err(f) => Err(ScopedError::Both(e, f)),
        },
    }
}

/// What a read of one reply does after a decoder step: nothing yet
/// (`None`), or it ends with the decoded reply or with the fault.
pub open spec fn step_result_spec<T>(step: Step<T>) -> Option<Result<T, LxiError>> {
    match step {
        Step::Pending => None,
        Step::Done(v) => Some(Ok(v)),
        Step::Failed(f) => Some(Err(LxiError::MalformedFrame(f))),
    }
}

/// Turns a decoder step into the end of a read, if it is one.
pub fn step_result<T>(step: Step<T>) -> (r: Option<Result<T, LxiError>>)
    ensures
        r == step_result_spec(step),
{
    match step {
        Step::Pending => None,
        Step::Done(v) => Some(Ok(v)),
        Step::Failed(f) => Some(Err(LxiError::MalformedFrame(f))),
    }
}

} // verus!
