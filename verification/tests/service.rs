use peer_rpc::service::{Admission, Readiness, Service, ServiceError, TowerService};
use peer_rpc::tower_service::TimeService;

#[test]
fn echo_service_is_ready_and_echoes() {
    let mut s = TowerService;
    assert_eq!(s.poll_ready(), Readiness::Ready);
    assert_eq!(s.call(b"ping".to_vec()), Ok(b"ping".to_vec()));
    assert_eq!(s.call(Vec::new()), Ok(Vec::new()));
}

#[test]
fn time_service_marks_the_request() {
    let mut s = TimeService;
    assert_eq!(s.poll_ready(), Readiness::Ready);
    assert_eq!(s.call(b"now".to_vec()), Ok(b"Echo: now".to_vec()));
    assert_eq!(s.call(Vec::new()), Ok(b"Echo: ".to_vec()));
}

struct Scripted {
    reports: Vec<Readiness>,
    calls: Vec<Vec<u8>>,
}

impl Service for Scripted {
    fn poll_ready(&mut self) -> Readiness {
        if self.reports.is_empty() {
            Readiness::NotReady
        } else {
            self.reports.remove(0)
        }
    }

    fn call(&mut self, req: Vec<u8>) -> Result<Vec<u8>, ServiceError> {
        self.calls.push(req.clone());
        Ok(req)
    }
}

#[test]
fn nothing_is_admitted_before_a_readiness_check() {
    let gate = Admission::new(TowerService);
    assert!(!gate.is_admitted());
}

#[test]
fn only_a_ready_report_admits() {
    let mut gate = Admission::new(Scripted {
        reports: vec![
            Readiness::NotReady,
            Readiness::Failed(ServiceError { message: "down".to_string() }),
            Readiness::Ready,
        ],
        calls: Vec::new(),
    });
    assert_eq!(gate.poll_ready(), Readiness::NotReady);
    assert!(!gate.is_admitted());
    assert_eq!(
        gate.poll_ready(),
        Readiness::Failed(ServiceError { message: "down".to_string() })
    );
    assert!(!gate.is_admitted());
    assert_eq!(gate.poll_ready(), Readiness::Ready);
    assert!(gate.is_admitted());
}

#[test]
fn a_call_uses_the_admission_up() {
    let mut gate = Admission::new(TowerService);
    assert_eq!(gate.poll_ready(), Readiness::Ready);
    assert!(gate.is_admitted());
    assert_eq!(gate.call(vec![1, 2]), Ok(vec![1, 2]));
    assert!(!gate.is_admitted());
}

#[test]
fn a_later_not_ready_report_withdraws_the_admission() {
    let mut gate = Admission::new(Scripted {
        reports: vec![Readiness::Ready, Readiness::NotReady],
        calls: Vec::new(),
    });
    assert_eq!(gate.poll_ready(), Readiness::Ready);
    assert_eq!(gate.poll_ready(), Readiness::NotReady);
    assert!(!gate.is_admitted());
    assert!(gate.into_inner().calls.is_empty());
}
