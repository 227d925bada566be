use squish::error::SquishError;
use squish::http::Method;
use squish::spawn::{
    add_hostfwd_command, base_arch, forward_rejected, base_image_version, default_base_version, executor_args, helper_args,
    helper_socket_path, helper_unreachable, host_ports, list_hostfwd_command, next_connect_step, parse_guest_pid,
    ConnectStep, MAX_CONNECT_ATTEMPTS,
};
use squish::squishfile::{LayerSpec, Port, PortProtocol, Run, Squishfile};
use squish::text::{decimal_string, parse_i32, trimmed};

fn s(x: &str) -> String {
    x.to_string()
}

#[test]
fn executor_arguments() {
    assert_eq!(
        executor_args("cache/base", "abc", "container/abc", 7),
        vec!["--rootfs", "cache/base", "--id", "abc", "--path", "container/abc", "--squishfile-memfd", "7"]
    );
}

#[test]
fn helper_arguments() {
    let sock = helper_socket_path("abc");
    assert_eq!(sock, "/tmp/slirp4netns-abc.sock");
    assert_eq!(
        helper_args(&sock, 4321),
        vec!["--configure", "--mtu=65520", "--disable-host-loopback", "--api-socket", "/tmp/slirp4netns-abc.sock", "4321", "tap0"]
    );
}

#[test]
fn guest_pid_is_parsed() {
    assert_eq!(parse_guest_pid("1234\n", "").unwrap(), 1234);
    assert_eq!(parse_guest_pid("  2147483647 ", "").unwrap(), i32::MAX);
    for bad in ["", "\n", "12a", "-5", "0", "2147483648", "1 2"] {
        match parse_guest_pid(bad, "clone failed") {
            Err(SquishError::ExecutorFailed(m)) => assert_eq!(m, "clone failed"),
            other => panic!("expected a failure for {:?}, got {:?}", bad, other),
        }
    }
}

#[test]
fn connect_retry_is_bounded() {
    assert!(matches!(next_connect_step(0, true), ConnectStep::Connected));
    assert!(matches!(next_connect_step(0, false), ConnectStep::Retry(1)));
    assert!(matches!(next_connect_step(98, false), ConnectStep::Retry(99)));
    assert!(matches!(next_connect_step(MAX_CONNECT_ATTEMPTS - 1, false), ConnectStep::GiveUp));
    assert!(matches!(helper_unreachable(), SquishError::SlirpSocketCouldntBeFound));
    let mut failed = 0;
    let mut tries = 0;
    loop {
        tries += 1;
        match next_connect_step(failed, false) {
            ConnectStep::Retry(n) => failed = n,
            ConnectStep::GiveUp => break,
            ConnectStep::Connected => unreachable!(),
        }
    }
    assert_eq!(tries, 100);
}

#[test]
fn port_forward_commands() {
    assert_eq!(
        add_hostfwd_command(PortProtocol::Tcp, 42069, 2000),
        r#"{"execute":"add_hostfwd","arguments":{"proto":"tcp","host_ip":"127.0.0.1","host_port":42069,"guest_port":2000}}"#
    );
    assert_eq!(
        add_hostfwd_command(PortProtocol::Udp, 0, 65535),
        r#"{"execute":"add_hostfwd","arguments":{"proto":"udp","host_ip":"127.0.0.1","host_port":0,"guest_port":65535}}"#
    );
    assert_eq!(list_hostfwd_command(), r#"{"execute":"list_hostfwd"}"#);
}

fn with_layers(layers: Vec<(String, LayerSpec)>) -> Squishfile {
    Squishfile::new(
        Run::new(s("/bin/true"), vec![]),
        layers,
        vec![],
        vec![Port::new(2000, 42069, PortProtocol::Tcp), Port::new(80, 8080, PortProtocol::Udp)],
    )
    .unwrap()
}

#[test]
fn base_version_choice() {
    assert_eq!(default_base_version(), "3.14");
    assert_eq!(base_arch(), "x86_64");
    let m = with_layers(vec![(s("alpine"), LayerSpec::new(Some(s("3.16")), None, None, None))]);
    assert_eq!(base_image_version(&m), Some(s("3.16")));
    assert_eq!(host_ports(&m), vec![42069, 8080]);
    let m = with_layers(vec![]);
    assert_eq!(base_image_version(&m), Some(s("3.14")));
    let m = with_layers(vec![(s("alpine"), LayerSpec::new(None, Some(s("/rootfs")), None, None))]);
    assert_eq!(base_image_version(&m), None);
}

#[test]
fn text_helpers() {
    assert_eq!(decimal_string(0), "0");
    assert_eq!(decimal_string(4294967295), "4294967295");
    assert_eq!(parse_i32("007"), Some(7));
    assert_eq!(parse_i32("+7"), None);
    assert_eq!(trimmed(" \t a b \r\n"), "a b");
    assert_eq!(trimmed("\u{a0}x\u{3000}\u{b}"), "x");
    assert_eq!(parse_guest_pid("\u{2003}77\u{85}", "").unwrap(), 77);
    assert_eq!(Method::Delete.as_str(), "DELETE");
    assert_eq!(Method::Get.as_str(), "GET");
}

#[test]
fn helper_replies() {
    assert!(!forward_rejected(r#"{"return": {"id": 1}}"#));
    assert!(forward_rejected(r#"{"error": {"desc": "bad request"}}"#));
    assert!(!forward_rejected(""));
}
