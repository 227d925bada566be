use squish::error::SquishError;
use squish::squishfile::{LayerSpec, Port, PortProtocol, Run, Squishfile};

fn s(x: &str) -> String {
    x.to_string()
}

fn layer(version: Option<&str>, path: Option<&str>) -> LayerSpec {
    LayerSpec::new(version.map(s), path.map(s), None, None)
}

fn manifest(layers: Vec<(String, LayerSpec)>, env: Vec<(String, String)>) -> Result<Squishfile, SquishError> {
    Squishfile::new(
        Run::new(s("/bin/sh"), vec![s("-c"), s("echo hi")]),
        layers,
        env,
        vec![Port::new(2000, 42069, PortProtocol::Tcp)],
    )
}

#[test]
fn builds_a_valid_manifest() {
    let m = manifest(vec![(s("alpine"), layer(Some("3.14"), None))], vec![(s("A"), s("1"))]).unwrap();
    assert_eq!(m.run().command(), "/bin/sh");
    assert_eq!(m.run().args(), &vec![s("-c"), s("echo hi")]);
    assert_eq!(m.layers().len(), 1);
    assert_eq!(m.env(), &vec![(s("A"), s("1"))]);
    assert_eq!(m.ports()[0].host(), 42069);
    assert_eq!(m.ports()[0].container(), 2000);
    assert_eq!(m.ports()[0].protocol(), PortProtocol::Tcp);
}

#[test]
fn layer_without_version_or_path_is_refused() {
    let r = manifest(vec![(s("sdk"), layer(None, None))], vec![]);
    assert!(matches!(r, Err(SquishError::ManifestParse(k)) if k == "layers"));
}

#[test]
fn duplicate_layer_or_env_key_is_refused() {
    let r = manifest(vec![(s("a"), layer(Some("1"), None)), (s("a"), layer(Some("2"), None))], vec![]);
    assert!(matches!(r, Err(SquishError::ManifestParse(k)) if k == "layers"));
    let r = manifest(vec![], vec![(s("A"), s("1")), (s("A"), s("2"))]);
    assert!(matches!(r, Err(SquishError::ManifestParse(k)) if k == "env"));
}

#[test]
fn shorthand_layers() {
    let l = LayerSpec::from_shorthand("./payload");
    assert_eq!(l.path(), &Some(s("./payload")));
    assert_eq!(l.version(), &None);
    assert_eq!(l.rw(), Some(false));
    let l = LayerSpec::from_shorthand("../up");
    assert_eq!(l.path(), &Some(s("../up")));
    let l = LayerSpec::from_shorthand("1.2.3");
    assert_eq!(l.version(), &Some(s("1.2.3")));
    assert_eq!(l.path(), &None);
    assert_eq!(l.target(), &None);
}

#[test]
fn update_layer_replaces_or_appends() {
    let mut m = manifest(vec![(s("node"), layer(Some("16"), None))], vec![]).unwrap();
    m.update_layer(&s("node"), &layer(Some("18"), None));
    assert_eq!(m.layers().len(), 1);
    assert_eq!(m.layer("node").unwrap().version(), &Some(s("18")));
    m.update_layer(&s("app"), &layer(None, Some("./x")));
    assert_eq!(m.layers().len(), 2);
    assert_eq!(m.layers()[0].0, "app");
    assert_eq!(m.layers()[1].0, "node");
    m.update_layer(&s("zig"), &layer(Some("0.11"), None));
    let names: Vec<&str> = m.layers().iter().map(|(k, _)| k.as_str()).collect();
    assert_eq!(names, vec!["app", "node", "zig"]);
    assert!(m.layer("missing").is_none());
}

#[test]
fn local_paths_are_resolved_by_name() {
    let mut m = manifest(
        vec![
            (s("app"), LayerSpec::new(None, Some(s("./payload")), Some(s("/srv")), Some(true))),
            (s("node"), layer(Some("16"), Some("./both"))),
            (s("data"), layer(None, Some("../data"))),
        ],
        vec![],
    )
    .unwrap();
    assert_eq!(
        m.local_paths(),
        vec![(s("app"), s("./payload")), (s("data"), s("../data")), (s("node"), s("./both"))]
    );
    m.set_local_path("app", s("/home/u/payload"));
    m.set_local_path("node", s("/home/u/both"));
    m.set_local_path("data", s("/elsewhere"));
    m.set_local_path("data", s("/again"));
    let app = m.layer("app").unwrap();
    assert_eq!(app.path(), &Some(s("/home/u/payload")));
    assert_eq!(app.target(), &Some(s("/srv")));
    assert_eq!(app.rw(), Some(true));
    let node = m.layer("node").unwrap();
    assert_eq!(node.path(), &Some(s("/home/u/both")));
    assert_eq!(node.version(), &Some(s("16")));
    assert_eq!(m.layer("data").unwrap().path(), &Some(s("/elsewhere")));
    assert!(m.local_paths().is_empty());
}

#[test]
fn layers_are_kept_in_name_order() {
    let m = manifest(
        vec![(s("zeta"), layer(Some("1"), None)), (s("Zed"), layer(Some("2"), None)), (s("alpha"), layer(Some("3"), None)), (s("al"), layer(Some("4"), None))],
        vec![],
    )
    .unwrap();
    let names: Vec<&str> = m.layers().iter().map(|(k, _)| k.as_str()).collect();
    assert_eq!(names, vec!["Zed", "al", "alpha", "zeta"]);
}
