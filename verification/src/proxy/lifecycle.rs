//! Starting and stopping: which calls begin something, which wait for it, and which are refused.

use vstd::prelude::*;
use vstd::std_specs::convert::FromSpecImpl;
use vstd::string::*;

use crate::errors::{codes, generic_error, generic_failure, Failure, JsError};

verus! {

#[derive(Debug, Clone, Copy, PartialEq, Eq, Structural)]
pub enum ProxyState {
    Stopped,
    Starting,
    Running,
    Stopping,
}

/// An error with which a promise is rejected.
#[derive(Debug)]
pub struct DeferredJsError {
    pub code: &'static str,
    pub message: String,
}

/// The mathematical form of a [`DeferredJsError`].
#[verifier::ext_equal]
pub struct Rejection {
    pub code: Seq<char>,
    pub message: Seq<char>,
}

impl View for DeferredJsError {
    type V = Rejection;

    open spec fn view(&self) -> Rejection {
        Rejection { code: self.code@, message: self.message@ }
    }
}

impl Clone for DeferredJsError {
    fn clone(&self) -> (r: Self)
        ensures
            r == *self,
    {
        DeferredJsError { code: self.code, message: self.message.clone() }
    }
}

impl DeferredJsError {
    pub fn generic(code: &'static str, message: String) -> (r: Self)
        ensures
            r@ == (Rejection { code: code@, message: message@ }),
    {
        DeferredJsError { code, message }
    }

    pub fn type_error(code: &'static str, message: String) -> (r: Self)
        ensures
            r@ == (Rejection { code: code@, message: message@ }),
    {
        DeferredJsError { code, message }
    }
}

/// What those who wait for a start are told.
#[derive(Debug)]
pub enum StartStatus {
    Pending,
    Ready(Result<(), DeferredJsError>),
}

/// What those who wait for a stop are told.
#[derive(Debug, Clone, Copy, PartialEq, Eq, Structural)]
pub enum StopStatus {
    Pending,
    Ready,
}

/// The address that the listener is bound to.
#[derive(Debug)]
pub struct BoundListenAddress {
    pub hostname: String,
    pub port: u16,
}

/// The address as callers see it.
#[derive(Debug)]
pub struct ProxyAddress {
    pub hostname: String,
    pub port: u32,
}

impl<'a> From<&'a BoundListenAddress> for ProxyAddress {
    fn from(address: &'a BoundListenAddress) -> (r: Self) {
        ProxyAddress { hostname: address.hostname.clone(), port: address.port as u32 }
    }
}

impl<'a> FromSpecImpl<&'a BoundListenAddress> for ProxyAddress {
    open spec fn obeys_from_spec() -> bool {
        true
    }

    open spec fn from_spec(address: &'a BoundListenAddress) -> Self {
        ProxyAddress { hostname: address.hostname, port: address.port as u32 }
    }
}

/// What a caller of `start` does next.
#[derive(Debug, Clone, Copy, PartialEq, Eq, Structural)]
pub enum StartStep {
    /// Sets up the listener and the services.
    Begin,
    /// Waits for the start that is under way.
    Wait,
}

/// What a caller of `stop` does next.
#[derive(Debug, Clone, Copy, PartialEq, Eq, Structural)]
pub enum StopStep {
    /// Nothing: the proxy is stopped.
    Done,
    /// Ends the services, after the start that is under way has an outcome, if one is.
    Begin { start_under_way: bool },
    /// Waits for the stop that is under way.
    Wait,
}

/// Where a proxy is between being stopped and running.
pub struct Lifecycle {
    state: ProxyState,
    listen_address: Option<BoundListenAddress>,
    /// Whether an outcome of a start is owed to those who wait for it.
    start_awaited: bool,
    /// Whether the end of a stop is owed to those who wait for it.
    stop_awaited: bool,
}

/// The mathematical form of a [`Lifecycle`].
#[verifier::ext_equal]
pub struct Phase {
    pub state: ProxyState,
    pub address: Option<BoundListenAddress>,
    pub start_awaited: bool,
    pub stop_awaited: bool,
}

/// A failure that is about the proxy itself.
pub open spec fn internal(message: Seq<char>) -> Failure {
    generic_failure(codes::GENERIC_FAILURE@, message)
}

/// The rejection of a start that a stop got ahead of.
pub open spec fn start_was_cancelled() -> Rejection {
    Rejection {
        code: codes::GENERIC_FAILURE@,
        message: "Proxy start was cancelled while stopping"@,
    }
}

impl Phase {
    /// Where a proxy is at first.
    pub open spec fn initial() -> Phase {
        Phase {
            state: ProxyState::Stopped,
            address: None,
            start_awaited: false,
            stop_awaited: false,
        }
    }

    /// What holds in every phase: a start or stop that is under way can be waited for, and no
    /// outcome of an earlier one is owed to anyone while a start is under way or has succeeded.
    pub open spec fn valid(self) -> bool {
        match self.state {
            ProxyState::Starting => self.start_awaited && !self.stop_awaited,
            ProxyState::Running => !self.start_awaited && !self.stop_awaited,
            ProxyState::Stopping => self.stop_awaited,
            ProxyState::Stopped => self.start_awaited ==> self.stop_awaited,
        }
    }

    /// The refusal of a start while a stop is under way.
    pub open spec fn stopping() -> Failure {
        generic_failure(codes::ALREADY_STARTED@, "Proxy is stopping"@)
    }

    /// What a call of `start` comes to. A stop that has yet to end comes first.
    pub open spec fn start(self) -> Result<StartStep, Failure> {
        match self.state {
            ProxyState::Stopped => if self.stop_awaited {
                Err(Phase::stopping())
            } else {
                Ok(StartStep::Begin)
            },
            ProxyState::Starting => if self.start_awaited {
                Ok(StartStep::Wait)
            } else {
                Err(internal("Proxy internal error: missing start notifier"@))
            },
            ProxyState::Running => Err(
                generic_failure(codes::ALREADY_STARTED@, "Proxy is already started"@),
            ),
            ProxyState::Stopping => Err(Phase::stopping()),
        }
    }

    pub open spec fn after_start(self) -> Phase {
        if self.state is Stopped && !self.stop_awaited {
            Phase { state: ProxyState::Starting, address: None, start_awaited: true, ..self }
        } else {
            self
        }
    }

    /// After the listener could not be set up. A stop that is under way goes on.
    pub open spec fn after_start_failed(self) -> Phase {
        if self.start_awaited && self.state is Starting {
            Phase { state: ProxyState::Stopped, address: None, start_awaited: false, ..self }
        } else {
            Phase { start_awaited: false, ..self }
        }
    }

    /// Whether a start still counts when the services are up.
    pub open spec fn start_counts(self) -> bool {
        self.state is Starting || self.state is Running
    }

    /// After the services are up.
    pub open spec fn after_start_finished(self, address: BoundListenAddress) -> Phase {
        if self.start_counts() {
            Phase {
                state: ProxyState::Running,
                address: Some(address),
                start_awaited: false,
                ..self
            }
        } else {
            Phase { start_awaited: false, ..self }
        }
    }

    /// After the services of a start that does not count were ended. Where the stop that got ahead
    /// of it has ended too, there is nothing left to do.
    pub open spec fn after_start_cancelled(self) -> Phase {
        if self.state is Stopping {
            Phase { state: ProxyState::Stopped, address: None, ..self }
        } else {
            self
        }
    }

    /// What a call of `stop` comes to.
    pub open spec fn stop(self) -> Result<StopStep, Failure> {
        match self.state {
            ProxyState::Stopped => if self.stop_awaited {
                Ok(StopStep::Wait)
            } else {
                Ok(StopStep::Done)
            },
            ProxyState::Stopping => if self.stop_awaited {
                Ok(StopStep::Wait)
            } else {
                Err(internal("Proxy internal error: missing stop notifier"@))
            },
            _ => Ok(StopStep::Begin { start_under_way: self.start_awaited }),
        }
    }

    pub open spec fn after_stop(self) -> Phase {
        match self.state {
            ProxyState::Stopped => Phase { address: None, ..self },
            ProxyState::Stopping => self,
            _ => Phase { state: ProxyState::Stopping, stop_awaited: true, ..self },
        }
    }

    /// After all services were ended, which counts where a stop is under way.
    pub open spec fn after_stop_finished(self) -> Phase {
        if self.stop_awaited {
            Phase::initial()
        } else {
            self
        }
    }

    /// The address that callers see.
    pub open spec fn shown_address(self) -> Option<BoundListenAddress> {
        if self.state is Running {
            self.address
        } else {
            None
        }
    }
}

/// The mathematical form of a result whose error is thrown.
pub open spec fn thrown<T>(r: Result<T, JsError>) -> Result<T, Failure> {
    match r {
        Ok(v) => Ok(v),
        Err(e) => Err(e@),
    }
}

impl View for Lifecycle {
    type V = Phase;

    closed spec fn view(&self) -> Phase {
        Phase {
            state: self.state,
            address: self.listen_address,
            start_awaited: self.start_awaited,
            stop_awaited: self.stop_awaited,
        }
    }
}

impl Lifecycle {
    pub fn new() -> (r: Self)
        ensures
            r@ == Phase::initial(),
    {
        Lifecycle {
            state: ProxyState::Stopped,
            listen_address: None,
            start_awaited: false,
            stop_awaited: false,
        }
    }

    /// A caller asks for a start.
    pub fn start(&mut self) -> (r: Result<StartStep, JsError>)
        ensures
            thrown(r) == old(self)@.start(),
            final(self)@ == old(self)@.after_start(),
    {
        match self.state {
            ProxyState::Starting => {
                if self.start_awaited {
                    Ok(StartStep::Wait)
                } else {
                    Err(
                        generic_error(
                            codes::GENERIC_FAILURE,
                            "Proxy internal error: missing start notifier".to_owned(),
                        ),
                    )
                }
            },
            ProxyState::Running => Err(
                generic_error(codes::ALREADY_STARTED, "Proxy is already started".to_owned()),
            ),
            ProxyState::Stopping => Err(
                generic_error(codes::ALREADY_STARTED, "Proxy is stopping".to_owned()),
            ),
            ProxyState::Stopped => {
                if self.stop_awaited {
                    return Err(
                        generic_error(codes::ALREADY_STARTED, "Proxy is stopping".to_owned()),
                    );
                }
                self.state = ProxyState::Starting;
                self.listen_address = None;
                self.start_awaited = true;
                Ok(StartStep::Begin)
            },
        }
    }

    /// The listener could not be set up. The result is what those who wait are told.
    pub fn start_failed(&mut self, error: &DeferredJsError) -> (r: Option<StartStatus>)
        ensures
            final(self)@ == old(self)@.after_start_failed(),
            r == (if old(self)@.start_awaited {
                Some(StartStatus::Ready(Err(*error)))
            } else {
                None
            }),
    {
        let awaited = self.start_awaited;
        if awaited && self.state == ProxyState::Starting {
            self.state = ProxyState::Stopped;
            self.listen_address = None;
        }
        self.start_awaited = false;
        if awaited {
            Some(StartStatus::Ready(Err(error.clone())))
        } else {
            None
        }
    }

    /// The services are up. The result is what the start comes to, and what those who wait are
    /// told. A start that a stop got ahead of does not count.
    pub fn start_finished(&mut self, address: BoundListenAddress) -> (r: (
        Result<(), DeferredJsError>,
        Option<StartStatus>,
    ))
        ensures
            final(self)@ == old(self)@.after_start_finished(address),
            (match r.0 {
                Ok(()) => old(self)@.start_counts(),
                Err(e) => !old(self)@.start_counts() && e@ == start_was_cancelled(),
            }),
            r.1 == (if old(self)@.start_awaited {
                Some(StartStatus::Ready(r.0))
            } else {
                None
            }),
    {
        let result = match self.state {
            ProxyState::Starting | ProxyState::Running => {
                self.state = ProxyState::Running;
                self.listen_address = Some(address);
                Ok(())
            },
            ProxyState::Stopping | ProxyState::Stopped => Err(
                DeferredJsError::generic(
                    codes::GENERIC_FAILURE,
                    "Proxy start was cancelled while stopping".to_owned(),
                ),
            ),
        };
        let awaited = self.start_awaited;
        self.start_awaited = false;
        let told = if awaited {
            Some(
                StartStatus::Ready(
                    match &result {
                        Ok(()) => Ok(()),
                        Err(e) => Err(e.clone()),
                    },
                ),
            )
        } else {
            None
        };
        (result, told)
    }

    /// The services of a start that does not count were ended.
    pub fn start_cancelled(&mut self)
        ensures
            final(self)@ == old(self)@.after_start_cancelled(),
    {
        if self.state == ProxyState::Stopping {
            self.state = ProxyState::Stopped;
            self.listen_address = None;
        }
    }

    /// A caller asks for a stop.
    pub fn stop(&mut self) -> (r: Result<StopStep, JsError>)
        ensures
            thrown(r) == old(self)@.stop(),
            final(self)@ == old(self)@.after_stop(),
    {
        match self.state {
            ProxyState::Stopped => {
                self.listen_address = None;
                if self.stop_awaited {
                    Ok(StopStep::Wait)
                } else {
                    Ok(StopStep::Done)
                }
            },
            ProxyState::Stopping => {
                if self.stop_awaited {
                    Ok(StopStep::Wait)
                } else {
                    Err(
                        generic_error(
                            codes::GENERIC_FAILURE,
                            "Proxy internal error: missing stop notifier".to_owned(),
                        ),
                    )
                }
            },
            ProxyState::Starting | ProxyState::Running => {
                self.state = ProxyState::Stopping;
                self.stop_awaited = true;
                Ok(StopStep::Begin { start_under_way: self.start_awaited })
            },
        }
    }

    /// The stop that is under way has ended all services, after the start that it got ahead of had
    /// its outcome, if there was one. The result is what those who wait are told.
    pub fn stop_finished(&mut self) -> (r: Option<StopStatus>)
        ensures
            final(self)@ == old(self)@.after_stop_finished(),
            r == (if old(self)@.stop_awaited {
                Some(StopStatus::Ready)
            } else {
                None
            }),
    {
        if !self.stop_awaited {
            return None;
        }
        self.state = ProxyState::Stopped;
        self.listen_address = None;
        self.start_awaited = false;
        self.stop_awaited = false;
        Some(StopStatus::Ready)
    }

    /// Whether the proxy runs.
    pub fn is_running(&self) -> (r: bool)
        ensures
            r == (self@.state is Running),
    {
        self.state == ProxyState::Running
    }

    /// The address that the listener is bound to, while the proxy runs.
    pub fn address(&self) -> (r: Option<ProxyAddress>)
        ensures
            (match r {
                Some(address) => self@.shown_address() matches Some(bound) && address.hostname
                    == bound.hostname && address.port == bound.port,
                None => self@.shown_address() is None,
            }),
    {
        if self.state != ProxyState::Running {
            return None;
        }
        match &self.listen_address {
            Some(address) => Some(ProxyAddress::from(address)),
            None => None,
        }
    }
}

/// What one who waits for a start makes of a status: its outcome, or nothing yet.
pub fn start_outcome(status: &StartStatus) -> (r: Option<Result<(), DeferredJsError>>)
    ensures
        (match (*status, r) {
            (StartStatus::Pending, None) => true,
            (StartStatus::Ready(Ok(())), Some(Ok(()))) => true,
            (StartStatus::Ready(Err(e)), Some(Err(told))) => told == e,
            _ => false,
        }),
{
    match status {
        StartStatus::Pending => None,
        StartStatus::Ready(Ok(())) => Some(Ok(())),
        StartStatus::Ready(Err(e)) => Some(Err(e.clone())),
    }
}

/// What one who waits for a start is left with when no status will come.
pub fn start_channel_closed() -> (r: DeferredJsError)
    ensures
        r@ == (Rejection {
            code: codes::GENERIC_FAILURE@,
            message: "Proxy start channel closed unexpectedly"@,
        }),
{
    DeferredJsError::generic(
        codes::GENERIC_FAILURE,
        "Proxy start channel closed unexpectedly".to_owned(),
    )
}

/// Whether one who waits for a stop is done.
pub fn stop_outcome(status: StopStatus) -> (r: bool)
    ensures
        r == (status is Ready),
{
    status == StopStatus::Ready
}

/// What one who waits for a stop is left with when no status will come.
pub fn stop_channel_closed() -> (r: DeferredJsError)
    ensures
        r@ == (Rejection {
            code: codes::GENERIC_FAILURE@,
            message: "Proxy stop channel closed unexpectedly"@,
        }),
{
    DeferredJsError::generic(
        codes::GENERIC_FAILURE,
        "Proxy stop channel closed unexpectedly".to_owned(),
    )
}

} // verus!
