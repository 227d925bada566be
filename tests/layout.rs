use squish::error::{err, SquishError};
use squish::layout::{
    base_url, current_rootfs, current_rootfs_tarball, path_to, release_file_url, release_manifest_url, rootfs_directory,
    select_minirootfs, ReleaseEntry,
};

#[test]
fn rootfs_paths() {
    assert_eq!(rootfs_directory(), "cache/alpine/rootfs");
    assert_eq!(current_rootfs("3.14", "x86_64"), "cache/alpine/rootfs/alpine-rootfs-3.14-x86_64");
    assert_eq!(
        current_rootfs_tarball("3.14", "x86_64"),
        "cache/alpine/rootfs/alpine-rootfs-3.14-x86_64.tar.gz"
    );
}

#[test]
fn download_urls() {
    assert_eq!(base_url("3.14", "x86_64"), "https://cz.alpinelinux.org/alpine/v3.14/releases/x86_64");
    assert_eq!(
        release_manifest_url("3.14", "x86_64"),
        "https://cz.alpinelinux.org/alpine/v3.14/releases/x86_64/latest-releases.yaml"
    );
    assert_eq!(
        release_file_url("3.14", "x86_64", "a.tar.gz"),
        "https://cz.alpinelinux.org/alpine/v3.14/releases/x86_64/a.tar.gz"
    );
}

#[test]
fn container_work_dir() {
    assert_eq!(path_to("abc"), "container/abc");
}

fn entry(flavor: Option<&str>, file: Option<&str>) -> ReleaseEntry {
    ReleaseEntry { flavor: flavor.map(|s| s.to_string()), file: file.map(|s| s.to_string()) }
}

#[test]
fn picks_first_minirootfs() {
    let v = Some(vec![
        entry(Some("standard"), Some("std.iso")),
        entry(Some("minirootfs"), Some("mini-1.tar.gz")),
        entry(Some("minirootfs"), Some("mini-2.tar.gz")),
    ]);
    assert_eq!(select_minirootfs(&v).unwrap(), "mini-1.tar.gz");
}

#[test]
fn release_manifest_errors() {
    assert!(matches!(select_minirootfs(&None), Err(SquishError::AlpineManifestInvalid)));
    let none = Some(vec![entry(Some("standard"), Some("std.iso")), entry(None, Some("x"))]);
    assert!(matches!(select_minirootfs(&none), Err(SquishError::AlpineManifestMissing)));
    let nofile = Some(vec![entry(Some("minirootfs"), None)]);
    assert!(matches!(select_minirootfs(&nofile), Err(SquishError::AlpineManifestFileMissing)));
}

#[test]
fn generic_error_carries_reason() {
    match err::<u8>("boom") {
        Err(SquishError::GenericError(s)) => assert_eq!(s, "boom"),
        _ => panic!("expected a generic error"),
    }
}
