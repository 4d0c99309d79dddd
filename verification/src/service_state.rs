//! The life of the server as a Windows service: which state it reports to
//! the service control manager as registration, configuration, the runtime
//! and a stop request come in, and which controls it accepts.

use vstd::prelude::*;

verus! {

/// Where the service stands.
#[derive(Clone, Copy, Debug, PartialEq, Eq, Structural)]
pub enum ServicePhase {
    /// Not yet registered with the control manager.
    Registering,
    /// Registered; loading the configuration.
    StartPending,
    /// Serving.
    Running,
    /// A stop was asked for; the runtime is shutting down.
    StopPending,
    /// Done.
    Stopped,
}

/// What happened.
#[derive(Clone, Copy, Debug, PartialEq, Eq, Structural)]
pub enum ServiceEvent {
    /// The control handler was registered.
    Registered,
    /// The configuration was loaded (`true`) or could not be (`false`).
    ConfigLoaded(bool),
    /// The async runtime was created (`true`) or could not be (`false`).
    RuntimeStarted(bool),
    /// The control manager asked the service to stop or the system is
    /// shutting down.
    StopRequested,
    /// The runtime has shut down.
    RuntimeDown,
}

/// A status to report: the state, the exit code and the wait hint (ms).
#[derive(Clone, Copy, Debug, PartialEq, Eq, Structural)]
pub struct ServiceReport {
    pub phase: ServicePhase,
    pub exit_code: u32,
    pub wait_hint_ms: u32,
}

/// The status report for a phase.
pub open spec fn report(phase: ServicePhase, exit_code: u32, wait_hint_ms: u32) -> Option<ServiceReport> {
    Some(ServiceReport { phase, exit_code, wait_hint_ms })
}

/// The next phase and the status to report, if any: registering reports
/// START_PENDING (3 s hint); a loaded configuration reports RUNNING and a
/// failed one STOPPED with exit code 1; a runtime that cannot be created
/// reports STOPPED with exit code 1; a stop request while running reports
/// STOP_PENDING (3 s hint); the runtime's end reports STOPPED. Any other
/// event changes nothing.
pub open spec fn service_next(phase: ServicePhase, event: ServiceEvent) -> (ServicePhase, Option<ServiceReport>) {
    match (phase, event) {
        (ServicePhase::Registering, ServiceEvent::Registered) =>
            (ServicePhase::StartPending, report(ServicePhase::StartPending, 0, 3000)),
        (ServicePhase::StartPending, ServiceEvent::ConfigLoaded(true)) =>
            (ServicePhase::Running, report(ServicePhase::Running, 0, 0)),
        (ServicePhase::StartPending, ServiceEvent::ConfigLoaded(false)) =>
            (ServicePhase::Stopped, report(ServicePhase::Stopped, 1, 0)),
        (ServicePhase::Running, ServiceEvent::RuntimeStarted(false)) =>
            (ServicePhase::Stopped, report(ServicePhase::Stopped, 1, 0)),
        (ServicePhase::Running, ServiceEvent::StopRequested) =>
            (ServicePhase::StopPending, report(ServicePhase::StopPending, 0, 3000)),
        (ServicePhase::StopPending, ServiceEvent::RuntimeDown) =>
            (ServicePhase::Stopped, report(ServicePhase::Stopped, 0, 0)),
        _ => (phase, None),
    }
}

/// Computes [`service_next`].
pub fn service_step(phase: ServicePhase, event: ServiceEvent) -> (r: (ServicePhase, Option<ServiceReport>))
    ensures
        r == service_next(phase, event),
{
    match (phase, event) {
        (ServicePhase::Registering, ServiceEvent::Registered) =>
            (ServicePhase::StartPending, Some(ServiceReport { phase: ServicePhase::StartPending, exit_code: 0, wait_hint_ms: 3000 })),
        (ServicePhase::StartPending, ServiceEvent::ConfigLoaded(true)) =>
            (ServicePhase::Running, Some(ServiceReport { phase: ServicePhase::Running, exit_code: 0, wait_hint_ms: 0 })),
        (ServicePhase::StartPending, ServiceEvent::ConfigLoaded(false)) =>
            (ServicePhase::Stopped, Some(ServiceReport { phase: ServicePhase::Stopped, exit_code: 1, wait_hint_ms: 0 })),
        (ServicePhase::Running, ServiceEvent::RuntimeStarted(false)) =>
            (ServicePhase::Stopped, Some(ServiceReport { phase: ServicePhase::Stopped, exit_code: 1, wait_hint_ms: 0 })),
        (ServicePhase::Running, ServiceEvent::StopRequested) =>
            (ServicePhase::StopPending, Some(ServiceReport { phase: ServicePhase::StopPending, exit_code: 0, wait_hint_ms: 3000 })),
        (ServicePhase::StopPending, ServiceEvent::RuntimeDown) =>
            (ServicePhase::Stopped, Some(ServiceReport { phase: ServicePhase::Stopped, exit_code: 0, wait_hint_ms: 0 })),
        _ => (phase, None),
    }
}

/// Whether the service accepts STOP and SHUTDOWN controls in a phase: while
/// starting and while running.
pub fn accepts_stop(phase: ServicePhase) -> (r: bool)
    ensures
        r == (phase == ServicePhase::Running || phase == ServicePhase::StartPending),
{
    match phase {
        ServicePhase::Running | ServicePhase::StartPending => true,
        _ => false,
    }
}

/// Every status reported is the phase the service moves to, and once
/// stopped the service stays stopped and reports nothing more.
pub proof fn lemma_reports_follow_phase(phase: ServicePhase, event: ServiceEvent)
    ensures
        service_next(phase, event).1 matches Some(rep) ==> rep.phase == service_next(phase, event).0,
        phase == ServicePhase::Stopped ==> service_next(phase, event) == (ServicePhase::Stopped, None::<ServiceReport>),
{
}

} // verus!
