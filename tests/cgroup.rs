use squish::cgroup::{
    cgroup_from_proc, cgroup_fs_path, delegation_to_controller, detect_current_cgroup_cgroup_slice_recursive,
    parse_cgroup_controller_delegations, slice_name, Controller,
};
use squish::error::SquishError;

#[test]
fn parses_cgroup_delegations() {
    assert_eq!(
        vec![Controller::Memory, Controller::Pids],
        parse_cgroup_controller_delegations("memory pids").unwrap()
    );
}

#[test]
fn parses_delegations_with_extra_whitespace() {
    assert_eq!(
        parse_cgroup_controller_delegations("  cpuset cpu\tio memory hugetlb pids rdma perf_event freezer\n").unwrap(),
        vec![
            Controller::Cpuset,
            Controller::Cpu,
            Controller::Io,
            Controller::Memory,
            Controller::Hugetlb,
            Controller::Pids,
            Controller::Rdma,
            Controller::PerfEvent,
            Controller::Freezer,
        ]
    );
    assert!(parse_cgroup_controller_delegations("").unwrap().is_empty());
}

#[test]
fn unknown_delegation_is_invalid() {
    assert!(matches!(parse_cgroup_controller_delegations("memory bogus"), Err(SquishError::CgroupDelegationInvalid)));
    assert!(matches!(delegation_to_controller("Memory"), Err(SquishError::CgroupDelegationInvalid)));
    assert_eq!(delegation_to_controller("perf_event").unwrap(), Controller::PerfEvent);
}

#[test]
fn slice_of_session_scope() {
    let cg = "/user.slice/user-1000.slice/session-1.scope".to_string();
    let slice = detect_current_cgroup_cgroup_slice_recursive(&cg).unwrap();
    assert_eq!(slice, "/user.slice/user-1000.slice");
    assert_eq!(slice_name(&slice), "user-1000.slice");
}

#[test]
fn slice_of_slice_is_itself() {
    let cg = "/user.slice".to_string();
    assert_eq!(detect_current_cgroup_cgroup_slice_recursive(&cg).unwrap(), "/user.slice");
}

#[test]
fn no_slice_is_an_error() {
    let cg = "/init.scope".to_string();
    assert!(matches!(detect_current_cgroup_cgroup_slice_recursive(&cg), Err(SquishError::CgroupNoMoreSlices)));
    let empty = String::new();
    assert!(matches!(detect_current_cgroup_cgroup_slice_recursive(&empty), Err(SquishError::CgroupNoMoreSlices)));
}

#[test]
fn cgroup_path_from_proc_file() {
    assert_eq!(cgroup_from_proc("0::/user.slice/user-1000.slice/session-1.scope\n").unwrap(), "/user.slice/user-1000.slice/session-1.scope");
    assert_eq!(cgroup_from_proc("5:cpuacct,cpu,cpuset:/daemons").unwrap(), "/daemons");
    assert!(cgroup_from_proc("garbage").is_none());
    assert_eq!(cgroup_fs_path("/a.slice"), "/sys/fs/cgroup/a.slice");
}
