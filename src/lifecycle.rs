use vstd::prelude::*;

use crate::error::{Error, StatusCode};
use crate::selector::SelectorType;

verus! {

/// The configuration captured at startup.
pub struct MetaSrvOptions {
    pub bind_addr: String,
    pub server_addr: String,
    pub store_addr: String,
    pub http_addr: String,
    pub selector: SelectorType,
    pub use_memory_store: bool,
}

/// Where metadata is kept, and the lock that goes with it.
#[derive(Debug, Clone, Copy, PartialEq, Eq, Structural)]
pub enum Backend {
    /// One process: in-memory store, in-memory lock, no election (the
    /// process always leads).
    Memory,
    /// The external consistent store: its client is connected once, and a
    /// failure to connect aborts startup.
    External,
}

/// What startup builds.
#[derive(Debug, Clone, Copy, PartialEq, Eq, Structural)]
pub struct ComponentPlan {
    pub backend: Backend,
    pub with_election: bool,
    pub with_lock: bool,
    pub selector: SelectorType,
}

/// Chooses the components from the configuration.
pub fn plan_components(opts: &MetaSrvOptions) -> (r: ComponentPlan)
    ensures
        r.backend == (if opts.use_memory_store {
            Backend::Memory
        } else {
            Backend::External
        }),
        r.with_election == !opts.use_memory_store,
        r.with_lock,
        r.selector == opts.selector,
{
    if opts.use_memory_store {
        ComponentPlan { backend: Backend::Memory, with_election: false, with_lock: true, selector: opts.selector }
    } else {
        ComponentPlan { backend: Backend::External, with_election: true, with_lock: true, selector: opts.selector }
    }
}

/// Whether a node leads: without an election a single process always does.
pub fn leads(plan: &ComponentPlan, elected: bool) -> (r: bool)
    ensures
        r == (!plan.with_election || elected),
{
    !plan.with_election || elected
}

/// The first of the racing listeners to finish, and how.
pub enum ServeExit {
    /// The RPC listener stopped; `Err` holds its failure.
    Rpc(Result<(), String>),
    /// The HTTP listener stopped; `Err` holds its failure's status.
    Http(Result<(), StatusCode>),
}

/// The outcome of `start` once the first listener has finished: a failure
/// on either side fails startup.
pub fn start_result(first: ServeExit) -> (r: Result<(), Error>)
    ensures
        first matches ServeExit::Rpc(Ok(())) ==> r is Ok,
        first matches ServeExit::Http(Ok(())) ==> r is Ok,
        first matches ServeExit::Rpc(Err(reason)) ==> (r matches Err(Error::StartGrpc { reason: m })
            && m@ == reason@),
        first matches ServeExit::Http(Err(code)) ==> (r matches Err(Error::StartHttp { source_status })
            && source_status == code),
{
    match first {
        ServeExit::Rpc(Ok(())) => Ok(()),
        ServeExit::Rpc(Err(reason)) => Err(Error::StartGrpc { reason }),
        ServeExit::Http(Ok(())) => Ok(()),
        ServeExit::Http(Err(code)) => Err(Error::StartHttp { source_status: code }),
    }
}

/// One step of shutdown.
#[derive(Debug, Clone, Copy, PartialEq, Eq, Structural)]
pub enum ShutdownStep {
    /// Tell the RPC listener to stop.
    SendSignal,
    /// Stop the core's background tasks.
    StopCore,
    /// Stop the HTTP endpoint.
    StopHttp,
}

/// The steps of shutdown, in order: the signal only where `start` made a
/// channel for it; every step is attempted whatever the earlier ones gave.
pub fn shutdown_steps(has_signal: bool) -> (r: Vec<ShutdownStep>)
    ensures
        r@ == if has_signal {
            seq![ShutdownStep::SendSignal, ShutdownStep::StopCore, ShutdownStep::StopHttp]
        } else {
            seq![ShutdownStep::StopCore, ShutdownStep::StopHttp]
        },
{
    let mut r: Vec<ShutdownStep> = Vec::new();
    if has_signal {
        r.push(ShutdownStep::SendSignal);
    }
    r.push(ShutdownStep::StopCore);
    r.push(ShutdownStep::StopHttp);
    proof {
        if has_signal {
            assert(r@ =~= seq![ShutdownStep::SendSignal, ShutdownStep::StopCore, ShutdownStep::StopHttp]);
        } else {
            assert(r@ =~= seq![ShutdownStep::StopCore, ShutdownStep::StopHttp]);
        }
    }
    r
}

/// How sending the shutdown signal went.
#[derive(Debug, Clone, Copy, PartialEq, Eq, Structural)]
pub enum SignalOutcome {
    Delivered,
    /// The receiver is gone: the listener has already stopped.
    AlreadyClosed,
}

/// How stopping the HTTP endpoint went.
pub enum HttpStop {
    Stopped,
    Failed { server: String, source_status: StatusCode },
}

/// The outcome of shutdown. A closed signal channel means the listener is
/// already down and is no failure, so a second shutdown succeeds like the
/// first; the HTTP endpoint's failure is reported.
pub fn shutdown_result(signal: Option<SignalOutcome>, http: HttpStop) -> (r: Result<(), Error>)
    ensures
        http is Stopped ==> r is Ok,
        http matches HttpStop::Failed { server, source_status } ==> (r matches Err(
            Error::ShutdownServer { server: s, source_status: c },
        ) && s@ == server@ && c == source_status),
{
    match http {
        HttpStop::Stopped => Ok(()),
        HttpStop::Failed { server, source_status } => Err(Error::ShutdownServer { server, source_status }),
    }
}

} // verus!
