use squish::error::SquishError;
use squish::spawn::{spawn_start, spawn_step, SpawnAction, SpawnEvent, SpawnState};

fn s(x: &str) -> String {
    x.to_string()
}

#[test]
fn happy_path_reaches_live() {
    let st = spawn_start();
    assert_eq!(st, SpawnState::CheckingPorts);
    let (st, a) = spawn_step(st, SpawnEvent::PortsChecked(None));
    assert!(matches!(a, SpawnAction::FetchImage));
    let (st, a) = spawn_step(st, SpawnEvent::ImageFetched(None));
    assert!(matches!(a, SpawnAction::RunExecutor));
    let (st, a) = spawn_step(st, SpawnEvent::ExecutorExited(s("4242\n"), s("")));
    assert_eq!(st, SpawnState::StartingHelper { pid: 4242 });
    assert!(matches!(a, SpawnAction::StartHelper(4242)));
    let (st, a) = spawn_step(st, SpawnEvent::HelperStarted(Some(4300)));
    assert_eq!(st, SpawnState::Connecting { pid: 4242, aux: 4300, failed: 0 });
    assert!(matches!(a, SpawnAction::Connect));
    let (st, a) = spawn_step(st, SpawnEvent::ConnectTried(false));
    assert!(matches!(a, SpawnAction::WaitAndConnect));
    let (st, a) = spawn_step(st, SpawnEvent::ConnectTried(true));
    assert_eq!(st, SpawnState::Forwarding { pid: 4242, aux: 4300 });
    assert!(matches!(a, SpawnAction::SendForwards));
    let (st, a) = spawn_step(st, SpawnEvent::ForwardsSent(vec![(8080, 80)], vec![]));
    assert!(matches!(a, SpawnAction::Register(4242, 4300)));
    let (st, a) = spawn_step(st, SpawnEvent::Registered(true));
    assert_eq!(st, SpawnState::Live { pid: 4242, aux: 4300 });
    assert!(matches!(a, SpawnAction::Done(4242, 4300)));
}

#[test]
fn port_in_use_fails_before_side_effects() {
    let (st, a) = spawn_step(spawn_start(), SpawnEvent::PortsChecked(Some(42069)));
    assert_eq!(st, SpawnState::Failed);
    assert!(matches!(a, SpawnAction::Abort(SquishError::PortInUse(42069), v) if v.is_empty()));
}

#[test]
fn image_and_executor_failures() {
    let (_, a) = spawn_step(SpawnState::FetchingImage, SpawnEvent::ImageFetched(Some(s("offline"))));
    assert!(matches!(a, SpawnAction::Abort(SquishError::ImageUnavailable(m), v) if m == "offline" && v.is_empty()));
    let (st, a) = spawn_step(SpawnState::RunningExecutor, SpawnEvent::ExecutorExited(s("oops"), s("mount failed")));
    assert_eq!(st, SpawnState::Failed);
    assert!(matches!(a, SpawnAction::Abort(SquishError::ExecutorFailed(m), v) if m == "mount failed" && v.is_empty()));
}

#[test]
fn helper_unreachable_after_bound_stops_executor() {
    let mut st = SpawnState::Connecting { pid: 10, aux: 11, failed: 0 };
    let mut attempts = 0;
    loop {
        attempts += 1;
        let (next, a) = spawn_step(st, SpawnEvent::ConnectTried(false));
        st = next;
        match a {
            SpawnAction::WaitAndConnect => continue,
            SpawnAction::Abort(SquishError::SlirpSocketCouldntBeFound, v) => {
                assert_eq!(v, vec![10, 11]);
                break;
            }
            _ => panic!("unexpected action"),
        }
    }
    assert_eq!(attempts, 100);
    assert_eq!(st, SpawnState::Failed);
}

#[test]
fn rejected_forward_and_conflict_tear_down() {
    let (_, a) = spawn_step(
        SpawnState::Forwarding { pid: 10, aux: 11 },
        SpawnEvent::ForwardsSent(vec![(1, 2)], vec![(3, 4)]),
    );
    assert!(matches!(a, SpawnAction::Abort(SquishError::PortForwardRejected(d, r), v)
        if d == vec![(1, 2)] && r == vec![(3, 4)] && v.is_empty()));
    let (st, a) = spawn_step(SpawnState::Committing { pid: 10, aux: 11 }, SpawnEvent::Registered(false));
    assert_eq!(st, SpawnState::Failed);
    assert!(matches!(a, SpawnAction::Abort(SquishError::RegistryConflict, v) if v == vec![10, 11]));
}

#[test]
fn out_of_order_event_fails() {
    let (st, a) = spawn_step(SpawnState::StartingHelper { pid: 10 }, SpawnEvent::Registered(true));
    assert_eq!(st, SpawnState::Failed);
    assert!(matches!(a, SpawnAction::Abort(SquishError::GenericError(_), v) if v == vec![10]));
    let (st, _) = spawn_step(SpawnState::Live { pid: 1, aux: 2 }, SpawnEvent::Registered(true));
    assert_eq!(st, SpawnState::Failed);
}
