use rustnfssvc::service_state::{accepts_stop, service_step, ServiceEvent, ServicePhase, ServiceReport};

#[test]
fn service_normal_life() {
    let (p, r) = service_step(ServicePhase::Registering, ServiceEvent::Registered);
    assert_eq!(p, ServicePhase::StartPending);
    assert_eq!(r, Some(ServiceReport { phase: ServicePhase::StartPending, exit_code: 0, wait_hint_ms: 3000 }));
    let (p, r) = service_step(p, ServiceEvent::ConfigLoaded(true));
    assert_eq!(p, ServicePhase::Running);
    assert_eq!(r, Some(ServiceReport { phase: ServicePhase::Running, exit_code: 0, wait_hint_ms: 0 }));
    let (p, r) = service_step(p, ServiceEvent::RuntimeStarted(true));
    assert_eq!(p, ServicePhase::Running);
    assert_eq!(r, None);
    let (p, r) = service_step(p, ServiceEvent::StopRequested);
    assert_eq!(p, ServicePhase::StopPending);
    assert_eq!(r, Some(ServiceReport { phase: ServicePhase::StopPending, exit_code: 0, wait_hint_ms: 3000 }));
    let (p, r) = service_step(p, ServiceEvent::RuntimeDown);
    assert_eq!(p, ServicePhase::Stopped);
    assert_eq!(r, Some(ServiceReport { phase: ServicePhase::Stopped, exit_code: 0, wait_hint_ms: 0 }));
    // stopped stays stopped
    assert_eq!(service_step(p, ServiceEvent::Registered), (ServicePhase::Stopped, None));
}

#[test]
fn service_start_failures() {
    let (p, r) = service_step(ServicePhase::StartPending, ServiceEvent::ConfigLoaded(false));
    assert_eq!(p, ServicePhase::Stopped);
    assert_eq!(r.unwrap().exit_code, 1);
    let (p, r) = service_step(ServicePhase::Running, ServiceEvent::RuntimeStarted(false));
    assert_eq!(p, ServicePhase::Stopped);
    assert_eq!(r.unwrap().exit_code, 1);
    assert!(accepts_stop(ServicePhase::Running));
    assert!(accepts_stop(ServicePhase::StartPending));
    assert!(!accepts_stop(ServicePhase::StopPending));
    assert!(!accepts_stop(ServicePhase::Stopped));
}
