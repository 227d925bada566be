use squish::executor::{layer_target, mount_flags, Engine, MountFlags, SetupStep};
use squish::squishfile::{LayerSpec, Run, Squishfile};

fn s(x: &str) -> String {
    x.to_string()
}

#[test]
fn layer_targets() {
    let explicit = LayerSpec::new(None, Some(s("/host/x")), Some(s("/opt/x")), None);
    assert_eq!(layer_target("tool", &explicit), "/opt/x");
    let by_path = LayerSpec::new(None, Some(s("../../a/./b")), None, None);
    assert_eq!(layer_target("tool", &by_path), "/app/a/b");
    let by_version = LayerSpec::new(Some(s("16")), None, None, None);
    assert_eq!(layer_target("node", &by_version), "/sdk/node");
    let app = LayerSpec::new(None, Some(s("/home/u/payload")), None, None);
    assert_eq!(layer_target("app", &app), "/app/payload");
    let app_target = LayerSpec::new(None, Some(s("/home/u/payload")), Some(s("/x/y/bin")), None);
    assert_eq!(layer_target("app", &app_target), "/x/y/bin");
    let app_nested = LayerSpec::new(Some(s("1")), Some(s("../x/payload")), None, None);
    assert_eq!(layer_target("app", &app_nested), "/app/payload");
}

#[test]
fn layer_flags_follow_rw() {
    let ro = LayerSpec::new(None, Some(s("/a")), None, None);
    assert_eq!(mount_flags(&ro), MountFlags { read_only: true, no_atime: true, no_suid: true });
    let rw = LayerSpec::new(None, Some(s("/a")), None, Some(true));
    assert_eq!(mount_flags(&rw), MountFlags { read_only: false, no_atime: true, no_suid: true });
    let explicit_ro = LayerSpec::new(None, Some(s("/a")), None, Some(false));
    assert!(mount_flags(&explicit_ro).read_only);
}

#[test]
fn setup_plan_order() {
    let m = Squishfile::new(
        Run::new(s("/bin/true"), vec![]),
        vec![
            (s("alpine"), LayerSpec::new(Some(s("3.14")), None, None, None)),
            (s("app"), LayerSpec::new(None, Some(s("/home/u/payload")), None, Some(true))),
            (s("node"), LayerSpec::new(Some(s("16")), None, None, None)),
        ],
        vec![],
        vec![],
    )
    .unwrap();
    let e = Engine::new(&m, "cache/base", "container/abc", "abc");
    assert_eq!(e.container_rootfs_path(), "container/abc/rootfs");
    assert_eq!(e.container_id(), "abc");
    let plan = e.setup_plan();
    assert_eq!(plan.len(), 10);
    assert!(matches!(&plan[0], SetupStep::CreateDir(p) if p == "container/abc/rootfs"));
    assert!(matches!(&plan[1], SetupStep::RedirectOutput(o, e) if o == "container/abc/stdout.log" && e == "container/abc/stderr.log"));
    assert!(matches!(&plan[2], SetupStep::Bind(src, t, f) if src == "cache/base" && t == "container/abc/rootfs" && f.read_only && f.no_atime && f.no_suid));
    assert!(matches!(&plan[3], SetupStep::Bind(src, t, f) if src == "/dev/null" && t == "container/abc/rootfs/dev/null" && !f.read_only));
    assert!(matches!(&plan[6], SetupStep::Bind(src, _, _) if src == "/dev/urandom"));
    assert!(matches!(&plan[7], SetupStep::CreateDir(p) if p == "container/abc/tmp"));
    assert!(matches!(&plan[8], SetupStep::Bind(src, t, f) if src == "container/abc/tmp" && t == "container/abc/rootfs/tmp" && f.no_suid && !f.read_only));
    assert!(matches!(&plan[9], SetupStep::MountLayer(src, t, f) if src == "/home/u/payload" && t == "container/abc/rootfs//app/payload" && !f.read_only));
}
