use squish::error::SquishError;
use squish::identity::id_of;
use squish::registry::{terminate_all, Container, ContainerState};

// PIDs above the kernel's largest possible PID, so that signalling them
// reaches no process.
const PID_BASE: i32 = 2_000_000_000;

fn container(id: &str, name: &str, pid: i32) -> Container {
    Container {
        name: name.to_string(),
        pid,
        slirp_pid: pid + 1_000,
        id: id.to_string(),
        created_at: 0,
    }
}

#[test]
fn add_then_list() {
    let mut s = ContainerState::new();
    assert!(s.add_container(PID_BASE, PID_BASE + 1, "abcd", "brave-cat-0001".to_string()).is_ok());
    let list = s.running_containers();
    assert_eq!(list.len(), 1);
    assert_eq!(list[0].id, "abcd");
    assert_eq!(list[0].name, "brave-cat-0001");
    assert_eq!(list[0].pid, PID_BASE);
}

#[test]
fn duplicate_id_or_pid_is_refused() {
    let mut s = ContainerState::new();
    assert!(s.insert(container("abcd", "a", PID_BASE)).is_ok());
    assert!(matches!(s.insert(container("abcd", "b", PID_BASE + 5)), Err(SquishError::Duplicate)));
    assert!(matches!(s.insert(container("ffff", "c", PID_BASE)), Err(SquishError::Duplicate)));
    assert_eq!(s.running_containers().len(), 1);
}

#[test]
fn remove_twice_is_not_found() {
    let mut s = ContainerState::new();
    s.insert(container("abcd", "a", PID_BASE)).unwrap();
    s.insert(container("abef", "b", PID_BASE + 1)).unwrap();
    assert_eq!(s.remove_container("abcd").unwrap(), vec![PID_BASE, PID_BASE + 1_000]);
    assert!(matches!(s.remove_container("abcd"), Err(SquishError::NotFound)));
    let list = s.running_containers();
    assert_eq!(list.len(), 1);
    assert_eq!(list[0].id, "abef");
}

#[test]
fn fuzzy_remove_matches_prefixes_only() {
    let mut s = ContainerState::new();
    s.insert(container("abcd1234", "quiet-owl-1111", PID_BASE)).unwrap();
    s.insert(container("abef5678", "loud-fox-2222", PID_BASE + 1)).unwrap();
    s.insert(container("99ab0000", "abc-name-3333", PID_BASE + 2)).unwrap();
    let (removed, pids) = s.fuzzy_remove_container("abc");
    assert_eq!(removed, vec!["abcd1234".to_string(), "99ab0000".to_string()]);
    assert_eq!(pids, vec![PID_BASE, PID_BASE + 1_000, PID_BASE + 2, PID_BASE + 1_002]);
    let left = s.running_containers();
    assert_eq!(left.len(), 1);
    assert_eq!(left[0].id, "abef5678");
    assert_eq!(s.fuzzy_remove_container("zz"), (vec![], vec![]));
    assert_eq!(s.fuzzy_remove_container("ab").0, vec!["abef5678".to_string()]);
    assert!(s.running_containers().is_empty());
}

#[test]
fn fuzzy_stop_of_two_containers() {
    let mut s = ContainerState::new();
    s.insert(container("abcd", "one", PID_BASE)).unwrap();
    s.insert(container("abef", "two", PID_BASE + 1)).unwrap();
    assert_eq!(s.fuzzy_remove_container("abc").0, vec!["abcd".to_string()]);
    s.insert(container("abcd", "one", PID_BASE)).unwrap();
    let mut both = s.fuzzy_remove_container("ab").0;
    both.sort();
    assert_eq!(both, vec!["abcd".to_string(), "abef".to_string()]);
}

#[test]
fn reap_removes_dead_pids() {
    let mut s = ContainerState::new();
    s.insert(container("a1", "one", PID_BASE)).unwrap();
    s.insert(container("b2", "two", PID_BASE + 1)).unwrap();
    s.insert(container("c3", "three", PID_BASE + 2)).unwrap();
    let (gone, pids) = s.reap(&vec![PID_BASE + 2, PID_BASE, 7]);
    assert_eq!(gone, vec!["a1".to_string(), "c3".to_string()]);
    assert_eq!(pids, vec![PID_BASE, PID_BASE + 1_000, PID_BASE + 2, PID_BASE + 1_002]);
    let snap = s.pid_snapshot();
    assert_eq!(snap, vec![(PID_BASE + 1, "b2".to_string())]);
}

#[test]
fn remove_all_ignores_unknown_ids() {
    let mut s = ContainerState::new();
    s.insert(container("a1", "one", PID_BASE)).unwrap();
    s.insert(container("b2", "two", PID_BASE + 1)).unwrap();
    let pids = s.remove_all_containers(vec!["zz".to_string(), "b2".to_string()]);
    assert_eq!(pids, vec![PID_BASE + 1, PID_BASE + 1_001]);
    let snap = s.pid_snapshot();
    assert_eq!(snap, vec![(PID_BASE, "a1".to_string())]);
}

#[test]
fn id_is_sha256_hex_of_name() {
    assert_eq!(id_of(""), "e3b0c44298fc1c149afbf4c8996fb92427ae41e4649b934ca495991b7852b855");
    assert_eq!(id_of("abc"), "ba7816bf8f01cfea414140de5dae2223b00361a396177a9cb410ff61f20015ad");
}

#[test]
fn generated_id_matches_name() {
    let (id, name) = ContainerState::generate_id();
    assert_eq!(id.len(), 64);
    assert!(id.chars().all(|c| c.is_ascii_digit() || ('a'..='f').contains(&c)));
    assert_eq!(id, id_of(&name));
    let chars: Vec<char> = name.chars().collect();
    let n = chars.len();
    assert!(n > 5);
    assert_eq!(chars[n - 5], '-');
    assert!(chars[n - 4..].iter().all(|c| c.is_ascii_digit()));
}

#[test]
fn terminate_reports_unreachable_pids() {
    // PIDs of zero or below are skipped, never signalled.
    assert_eq!(terminate_all(&vec![PID_BASE, 0, -1, PID_BASE + 7]), vec![(PID_BASE, false), (PID_BASE + 7, false)]);
    assert!(terminate_all(&vec![]).is_empty());
}
