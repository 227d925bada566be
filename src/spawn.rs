//! The decisions of the spawn pipeline: what to run, with which arguments,
//! how to read the executor's answer, when to stop waiting for the network
//! helper, and what to tell it.

use vstd::prelude::*;
use vstd::string::StringExecFns;

use crate::error::SquishError;
use crate::squishfile::{opt_view, names_of, PortProtocol, Squishfile};
use crate::text::{contains_text, occurs, all_digits, decimal, decimal_string, digits_value, parse_i32, push_decimal, trim, trimmed};

verus! {

/// How many times the helper's control socket is tried before giving up.
pub const MAX_CONNECT_ATTEMPTS: u32 = 100;

/// The base-image version used when a manifest names none.
pub fn default_base_version() -> (r: &'static str)
    ensures
        r@ == "3.14"@,
{
    "3.14"
}

/// The base-image architecture.
pub fn base_arch() -> (r: &'static str)
    ensures
        r@ == "x86_64"@,
{
    "x86_64"
}

/// The helper's control socket for container `id`.
pub open spec fn helper_socket_spec(id: Seq<char>) -> Seq<char> {
    "/tmp/slirp4netns-"@ + id + ".sock"@
}

/// The helper's control socket for container `id`.
pub fn helper_socket_path(id: &str) -> (r: String)
    ensures
        r@ == helper_socket_spec(id@),
{
    let mut r = String::from_str("/tmp/slirp4netns-");
    r.append(id);
    r.append(".sock");
    r
}

/// The views of a list of strings.
pub open spec fn arg_views(v: Seq<String>) -> Seq<Seq<char>> {
    v.map_values(|s: String| s@)
}

/// The executor's arguments: the base root, the id, the work directory and
/// the number of the inherited descriptor that holds the manifest.
pub open spec fn executor_args_spec(rootfs: Seq<char>, id: Seq<char>, work: Seq<char>, fd: nat) -> Seq<Seq<char>> {
    seq!["--rootfs"@, rootfs, "--id"@, id, "--path"@, work, "--squishfile-memfd"@, decimal(fd)]
}

/// The executor's arguments.
pub fn executor_args(rootfs: &str, id: &str, work: &str, fd: u32) -> (r: Vec<String>)
    ensures
        arg_views(r@) == executor_args_spec(rootfs@, id@, work@, fd as nat),
{
    let r = vec![
        String::from_str("--rootfs"),
        String::from_str(rootfs),
        String::from_str("--id"),
        String::from_str(id),
        String::from_str("--path"),
        String::from_str(work),
        String::from_str("--squishfile-memfd"),
        decimal_string(fd),
    ];
    assert(arg_views(r@) =~= executor_args_spec(rootfs@, id@, work@, fd as nat));
    r
}

/// The network helper's arguments for the guest `pid`.
pub open spec fn helper_args_spec(socket: Seq<char>, pid: nat) -> Seq<Seq<char>> {
    seq![
        "--configure"@,
        "--mtu=65520"@,
        "--disable-host-loopback"@,
        "--api-socket"@,
        socket,
        decimal(pid),
        "tap0"@,
    ]
}

/// The network helper's arguments for the guest `pid`.
pub fn helper_args(socket: &str, pid: i32) -> (r: Vec<String>)
    requires
        pid > 0,
    ensures
        arg_views(r@) == helper_args_spec(socket@, pid as nat),
{
    let r = vec![
        String::from_str("--configure"),
        String::from_str("--mtu=65520"),
        String::from_str("--disable-host-loopback"),
        String::from_str("--api-socket"),
        String::from_str(socket),
        decimal_string(pid as u32),
        String::from_str("tap0"),
    ];
    assert(arg_views(r@) =~= helper_args_spec(socket@, pid as nat));
    r
}

/// Whether the executor's output, once trimmed, is a PID: a decimal number
/// from 1 up to `i32::MAX`.
pub open spec fn reports_pid(stdout: Seq<char>) -> bool {
    let t = trim(stdout);
    t.len() > 0 && all_digits(t) && 0 < digits_value(t) <= i32::MAX
}

/// The guest PID that the executor reported on its standard output;
/// `ExecutorFailed` with its standard error when it reported none.
pub fn parse_guest_pid(stdout: &str, stderr: &str) -> (r: Result<i32, SquishError>)
    ensures
        r is Ok <==> reports_pid(stdout@),
        r matches Ok(p) ==> p == digits_value(trim(stdout@)),
        r matches Err(e) ==> e matches SquishError::ExecutorFailed(m) && m@ == stderr@,
{
    let t = trimmed(stdout);
    match parse_i32(t.as_str()) {
        Some(p) => {
            if p > 0 {
                Ok(p)
            } else {
                Err(SquishError::ExecutorFailed(String::from_str(stderr)))
            }
        },
        None => Err(SquishError::ExecutorFailed(String::from_str(stderr))),
    }
}

/// What to do after an attempt to reach the helper's control socket.
pub enum ConnectStep {
    /// The socket accepted: go on.
    Connected,
    /// Wait a millisecond and try again; the number of failed attempts.
    Retry(u32),
    /// Give up.
    GiveUp,
}

/// The decision after attempt number `failed + 1`: go on when it connected,
/// retry while fewer than `MAX_CONNECT_ATTEMPTS` attempts have failed, else
/// give up.
pub fn next_connect_step(failed: u32, connected: bool) -> (r: ConnectStep)
    requires
        failed < MAX_CONNECT_ATTEMPTS,
    ensures
        connected ==> r is Connected,
        !connected && failed + 1 < MAX_CONNECT_ATTEMPTS ==> r == ConnectStep::Retry((failed + 1) as u32),
        !connected && failed + 1 >= MAX_CONNECT_ATTEMPTS ==> r is GiveUp,
{
    if connected {
        ConnectStep::Connected
    } else if failed + 1 < MAX_CONNECT_ATTEMPTS {
        ConnectStep::Retry(failed + 1)
    } else {
        ConnectStep::GiveUp
    }
}

/// The error when the helper never accepted a connection.
pub fn helper_unreachable() -> (r: SquishError)
    ensures
        r is SlirpSocketCouldntBeFound,
{
    SquishError::SlirpSocketCouldntBeFound
}

/// The wire name of a protocol.
pub open spec fn proto_name(p: PortProtocol) -> Seq<char> {
    match p {
        PortProtocol::Tcp => "tcp"@,
        PortProtocol::Udp => "udp"@,
    }
}

/// The helper command that forwards `host` on 127.0.0.1 to `guest` in the
/// container.
pub open spec fn hostfwd_spec(proto: PortProtocol, host: u16, guest: u16) -> Seq<char> {
    "{\"execute\":\"add_hostfwd\",\"arguments\":{\"proto\":\""@ + proto_name(proto)
        + "\",\"host_ip\":\"127.0.0.1\",\"host_port\":"@ + decimal(host as nat) + ",\"guest_port\":"@
        + decimal(guest as nat) + "}}"@
}

/// The helper command that forwards `host` to `guest`.
pub fn add_hostfwd_command(proto: PortProtocol, host: u16, guest: u16) -> (r: String)
    ensures
        r@ == hostfwd_spec(proto, host, guest),
{
    let mut r = String::from_str("{\"execute\":\"add_hostfwd\",\"arguments\":{\"proto\":\"");
    match proto {
        PortProtocol::Tcp => r.append("tcp"),
        PortProtocol::Udp => r.append("udp"),
    }
    r.append("\",\"host_ip\":\"127.0.0.1\",\"host_port\":");
    push_decimal(&mut r, host as u32);
    r.append(",\"guest_port\":");
    push_decimal(&mut r, guest as u32);
    r.append("}}");
    r
}

/// The helper command that lists the forwards.
pub fn list_hostfwd_command() -> (r: String)
    ensures
        r@ == "{\"execute\":\"list_hostfwd\"}"@,
{
    String::from_str("{\"execute\":\"list_hostfwd\"}")
}

/// The base-image version that a manifest asks for: the version of its
/// `alpine` layer, or `default_base_version()` when it has no such layer.
/// `None` when that layer names no version.
pub fn base_image_version(m: &Squishfile) -> (r: Option<String>)
    requires
        m.wf(),
    ensures
        !names_of(m.layers_spec()).contains("alpine"@) ==> (r matches Some(v) && v@ == "3.14"@),
        forall|i: int| 0 <= i < m.layers_spec().len() && (#[trigger] m.layers_spec()[i]).0 == "alpine"@
            ==> opt_view(r) == m.layers_spec()[i].1.version,
{
    match m.layer("alpine") {
        Some(l) => {
            let r = match l.version() {
                Some(v) => Some(v.clone()),
                None => None,
            };
            proof {
                let j = choose|j: int| 0 <= j < m.layers_spec().len() && #[trigger] m.layers_spec()[j] == ("alpine"@, l@);
                assert(names_of(m.layers_spec())[j] == m.layers_spec()[j].0);
                assert(names_of(m.layers_spec()).contains("alpine"@));
                assert forall|i: int| 0 <= i < m.layers_spec().len() && (#[trigger] m.layers_spec()[i]).0 == "alpine"@
                    implies opt_view(r) == m.layers_spec()[i].1.version by {
                    let j = choose|j: int| 0 <= j < m.layers_spec().len() && #[trigger] m.layers_spec()[j] == ("alpine"@, l@);
                    if i != j {
                        assert(names_of(m.layers_spec())[i] == m.layers_spec()[i].0);
                        assert(names_of(m.layers_spec())[j] == m.layers_spec()[j].0);
                    }
                }
            }
            r
        },
        None => {
            proof {
                assert forall|i: int| 0 <= i < m.layers_spec().len() implies (#[trigger] m.layers_spec()[i]).0 != "alpine"@ by {
                    assert(names_of(m.layers_spec())[i] == m.layers_spec()[i].0);
                }
            }
            Some(String::from_str(default_base_version()))
        },
    }
}

/// The host ports that a manifest forwards, in manifest order.
pub fn host_ports(m: &Squishfile) -> (r: Vec<u16>)
    ensures
        r@.len() == m.ports_spec().len(),
        forall|i: int| 0 <= i < r@.len() ==> r@[i] == (#[trigger] m.ports_spec()[i]).host_spec(),
{
    let ports = m.ports();
    let mut out: Vec<u16> = Vec::new();
    let mut i: usize = 0;
    while i < ports.len()
        invariant
            i <= ports@.len(),
            ports@ == m.ports_spec(),
            out@.len() == i,
            forall|j: int| 0 <= j < i ==> out@[j] == (#[trigger] m.ports_spec()[j]).host_spec(),
        decreases ports@.len() - i,
    {
        out.push(ports[i].host());
        i += 1;
    }
    out
}

/// Where one container's spawn stands.
#[derive(Clone, Copy, Debug, PartialEq, Eq, Structural)]
pub enum SpawnState {
    /// The host ports are being checked.
    CheckingPorts,
    /// The base image is being fetched.
    FetchingImage,
    /// The executor is running.
    RunningExecutor,
    /// The network helper is being started for the guest `pid`.
    StartingHelper { pid: i32 },
    /// The helper's control socket is being tried; `failed` attempts so far.
    Connecting { pid: i32, aux: i32, failed: u32 },
    /// The port forwards are being sent.
    Forwarding { pid: i32, aux: i32 },
    /// The container is being registered.
    Committing { pid: i32, aux: i32 },
    /// The container runs and is registered.
    Live { pid: i32, aux: i32 },
    /// The spawn failed.
    Failed,
}

/// What the outside world reports back to a spawn.
pub enum SpawnEvent {
    /// The port check ended; the first host port already bound, if any.
    PortsChecked(Option<u16>),
    /// The base-image fetch ended; its error, if any.
    ImageFetched(Option<String>),
    /// The executor exited with this standard output and standard error.
    ExecutorExited(String, String),
    /// The helper process started with this PID, or could not start.
    HelperStarted(Option<i32>),
    /// An attempt to connect to the helper's control socket ended.
    ConnectTried(bool),
    /// The port forwards were sent; the (host, container) pairs that were
    /// not applied.
    ForwardsSent(Vec<(u16, u16)>, Vec<(u16, u16)>),
    /// The registry insert ended; whether it succeeded.
    Registered(bool),
}

/// What a spawn asks the outside world to do next.
pub enum SpawnAction {
    FetchImage,
    RunExecutor,
    /// Start the helper for the guest with this PID.
    StartHelper(i32),
    /// Try to connect to the helper's control socket.
    Connect,
    /// Wait a millisecond, then try to connect again.
    WaitAndConnect,
    SendForwards,
    /// Register the container with this guest PID and helper PID.
    Register(i32, i32),
    /// The container is live.
    Done(i32, i32),
    /// Give up with this error after sending SIGTERM to these PIDs.
    Abort(SquishError, Vec<i32>),
}

/// The state a spawn starts in; its first action is the port check.
pub fn spawn_start() -> (r: SpawnState)
    ensures
        r == SpawnState::CheckingPorts,
{
    SpawnState::CheckingPorts
}

/// The PIDs of an `Abort` action, or none.
pub open spec fn abort_pids(a: SpawnAction) -> Seq<i32> {
    match a {
        SpawnAction::Abort(_, v) => v@,
        _ => Seq::empty(),
    }
}

/// One transition of the spawn pipeline. Ports, image, executor, helper,
/// socket, forwards and registration come strictly in that order; an event
/// that does not belong to the current state, and any failure, ends in
/// `Failed` with an `Abort` that stops the processes already started. The one
/// exception is a rejected port forward: the forwards already applied, and
/// the guest and helper they run through, are left in place, and the error
/// lists what did and did not apply.
pub fn spawn_step(state: SpawnState, event: SpawnEvent) -> (r: (SpawnState, SpawnAction))
    ensures
        (r.0 == SpawnState::Failed) <==> (r.1 is Abort),
        r.1 is Abort ==> (forall|i: int| 0 <= i < abort_pids(r.1).len() ==> abort_pids(r.1)[i] > 0),
        state is Live || state is Failed ==> r.0 == SpawnState::Failed && abort_pids(r.1).len() == 0,
        state == SpawnState::CheckingPorts ==> match event {
            SpawnEvent::PortsChecked(None) => r.0 == SpawnState::FetchingImage && r.1 is FetchImage,
            SpawnEvent::PortsChecked(Some(p)) => r.0 == SpawnState::Failed && (r.1 matches SpawnAction::Abort(
                SquishError::PortInUse(q),
                v,
            ) && q == p && v@.len() == 0),
            _ => r.0 == SpawnState::Failed,
        },
        state == SpawnState::FetchingImage ==> match event {
            SpawnEvent::ImageFetched(None) => r.0 == SpawnState::RunningExecutor && r.1 is RunExecutor,
            SpawnEvent::ImageFetched(Some(m)) => r.0 == SpawnState::Failed && (r.1 matches SpawnAction::Abort(
                SquishError::ImageUnavailable(n),
                v,
            ) && n@ == m@ && v@.len() == 0),
            _ => r.0 == SpawnState::Failed,
        },
        state == SpawnState::RunningExecutor ==> match event {
            SpawnEvent::ExecutorExited(out, err) => if reports_pid(out@) {
                r.0 == SpawnState::StartingHelper { pid: digits_value(trim(out@)) as i32 } && r.1
                    == SpawnAction::StartHelper(digits_value(trim(out@)) as i32)
            } else {
                r.0 == SpawnState::Failed && (r.1 matches SpawnAction::Abort(SquishError::ExecutorFailed(m), v)
                    && m@ == err@ && v@.len() == 0)
            },
            _ => r.0 == SpawnState::Failed,
        },
        state matches SpawnState::StartingHelper { pid } ==> pid > 0 ==> match event {
            SpawnEvent::HelperStarted(Some(aux)) => if aux > 0 {
                r.0 == (SpawnState::Connecting { pid, aux, failed: 0 }) && r.1 is Connect
            } else {
                r.0 == SpawnState::Failed && abort_pids(r.1) == seq![pid]
            },
            _ => r.0 == SpawnState::Failed && abort_pids(r.1) == seq![pid],
        },
        state matches SpawnState::Connecting { pid, aux, failed } ==> pid > 0 && aux > 0 && failed
            < MAX_CONNECT_ATTEMPTS ==> match event {
            SpawnEvent::ConnectTried(true) => r.0 == (SpawnState::Forwarding { pid, aux }) && r.1 is SendForwards,
            SpawnEvent::ConnectTried(false) => if failed + 1 < MAX_CONNECT_ATTEMPTS {
                r.0 == (SpawnState::Connecting { pid, aux, failed: (failed + 1) as u32 }) && r.1 is WaitAndConnect
            } else {
                r.0 == SpawnState::Failed && (r.1 matches SpawnAction::Abort(e, v) && e
                    is SlirpSocketCouldntBeFound && v@ == seq![pid, aux])
            },
            _ => r.0 == SpawnState::Failed && abort_pids(r.1) == seq![pid, aux],
        },
        state matches SpawnState::Forwarding { pid, aux } ==> pid > 0 && aux > 0 ==> match event {
            SpawnEvent::ForwardsSent(done, rejected) => if rejected@.len() == 0 {
                r.0 == (SpawnState::Committing { pid, aux }) && r.1 == SpawnAction::Register(pid, aux)
            } else {
                r.0 == SpawnState::Failed && (r.1 matches SpawnAction::Abort(
                    SquishError::PortForwardRejected(d, j),
                    v,
                ) && d@ == done@ && j@ == rejected@ && v@.len() == 0)
            },
            _ => r.0 == SpawnState::Failed && abort_pids(r.1) == seq![pid, aux],
        },
        state matches SpawnState::Committing { pid, aux } ==> pid > 0 && aux > 0 ==> match event {
            SpawnEvent::Registered(true) => r.0 == (SpawnState::Live { pid, aux }) && r.1 == SpawnAction::Done(
                pid,
                aux,
            ),
            SpawnEvent::Registered(false) => r.0 == SpawnState::Failed && (r.1 matches SpawnAction::Abort(e, v)
                && e is RegistryConflict && v@ == seq![pid, aux]),
            _ => r.0 == SpawnState::Failed && abort_pids(r.1) == seq![pid, aux],
        },
{
    match state {
        SpawnState::CheckingPorts => match event {
            SpawnEvent::PortsChecked(None) => (SpawnState::FetchingImage, SpawnAction::FetchImage),
            SpawnEvent::PortsChecked(Some(p)) => (
                SpawnState::Failed,
                SpawnAction::Abort(SquishError::PortInUse(p), Vec::new()),
            ),
            _ => unexpected(Vec::new()),
        },
        SpawnState::FetchingImage => match event {
            SpawnEvent::ImageFetched(None) => (SpawnState::RunningExecutor, SpawnAction::RunExecutor),
            SpawnEvent::ImageFetched(Some(m)) => (
                SpawnState::Failed,
                SpawnAction::Abort(SquishError::ImageUnavailable(m), Vec::new()),
            ),
            _ => unexpected(Vec::new()),
        },
        SpawnState::RunningExecutor => match event {
            SpawnEvent::ExecutorExited(out, err) => match parse_guest_pid(out.as_str(), err.as_str()) {
                Ok(pid) => (SpawnState::StartingHelper { pid }, SpawnAction::StartHelper(pid)),
                Err(e) => (SpawnState::Failed, SpawnAction::Abort(e, Vec::new())),
            },
            _ => unexpected(Vec::new()),
        },
        SpawnState::StartingHelper { pid } => match event {
            SpawnEvent::HelperStarted(Some(aux)) => {
                if aux > 0 {
                    (SpawnState::Connecting { pid, aux, failed: 0 }, SpawnAction::Connect)
                } else {
                    unexpected(live_pids(pid, 0))
                }
            },
            _ => unexpected(live_pids(pid, 0)),
        },
        SpawnState::Connecting { pid, aux, failed } => match event {
            SpawnEvent::ConnectTried(ok) => {
                if failed >= MAX_CONNECT_ATTEMPTS {
                    return unexpected(live_pids(pid, aux));
                }
                match next_connect_step(failed, ok) {
                    ConnectStep::Connected => (SpawnState::Forwarding { pid, aux }, SpawnAction::SendForwards),
                    ConnectStep::Retry(n) => (SpawnState::Connecting { pid, aux, failed: n }, SpawnAction::WaitAndConnect),
                    ConnectStep::GiveUp => (
                        SpawnState::Failed,
                        SpawnAction::Abort(helper_unreachable(), live_pids(pid, aux)),
                    ),
                }
            },
            _ => unexpected(live_pids(pid, aux)),
        },
        SpawnState::Forwarding { pid, aux } => match event {
            SpawnEvent::ForwardsSent(done, rejected) => {
                if rejected.len() == 0 {
                    (SpawnState::Committing { pid, aux }, SpawnAction::Register(pid, aux))
                } else {
                    (
                        SpawnState::Failed,
                        SpawnAction::Abort(SquishError::PortForwardRejected(done, rejected), Vec::new()),
                    )
                }
            },
            _ => unexpected(live_pids(pid, aux)),
        },
        SpawnState::Committing { pid, aux } => match event {
            SpawnEvent::Registered(true) => (SpawnState::Live { pid, aux }, SpawnAction::Done(pid, aux)),
            SpawnEvent::Registered(false) => (
                SpawnState::Failed,
                SpawnAction::Abort(SquishError::RegistryConflict, live_pids(pid, aux)),
            ),
            _ => unexpected(live_pids(pid, aux)),
        },
        SpawnState::Live { .. } => unexpected(Vec::new()),
        SpawnState::Failed => unexpected(Vec::new()),
    }
}

/// The positive PIDs among `pid` and `aux`, in that order.
fn live_pids(pid: i32, aux: i32) -> (r: Vec<i32>)
    ensures
        r@ == (if pid > 0 { seq![pid] } else { Seq::empty() }) + (if aux > 0 { seq![aux] } else { Seq::empty() }),
{
    let mut r: Vec<i32> = Vec::new();
    if pid > 0 {
        r.push(pid);
    }
    if aux > 0 {
        r.push(aux);
    }
    assert(r@ =~= (if pid > 0 { seq![pid] } else { Seq::empty() }) + (if aux > 0 { seq![aux] } else { Seq::empty() }));
    r
}

/// The failure for an event that does not belong to the current state.
fn unexpected(pids: Vec<i32>) -> (r: (SpawnState, SpawnAction))
    ensures
        r.0 == SpawnState::Failed,
        r.1 matches SpawnAction::Abort(e, v) && v@ == pids@ && e is GenericError,
{
    (SpawnState::Failed, SpawnAction::Abort(SquishError::GenericError(String::from_str("unexpected spawn event")), pids))
}

/// The helper refused a command: its reply holds the key `"error"`, which
/// it sends in place of `"return"` when a command fails.
pub open spec fn reply_rejects(reply: Seq<char>) -> bool {
    occurs("\"error\""@, reply)
}

/// Whether the helper's reply says that the command failed.
pub fn forward_rejected(reply: &str) -> (r: bool)
    ensures
        r == reply_rejects(reply@),
{
    contains_text(reply, "\"error\"")
}

} // verus!
