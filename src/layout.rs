//! Where things live on disk and on the network.

use vstd::prelude::*;
use vstd::string::StringExecFns;

use crate::error::SquishError;
use crate::text::same_text;

verus! {

/// The directory that caches base root filesystems.
pub open spec fn rootfs_directory_spec() -> Seq<char> {
    "cache/alpine/rootfs"@
}

/// `cache/alpine/rootfs/alpine-rootfs-<version>-<arch>`, without a suffix.
pub open spec fn rootfs_stem(version: Seq<char>, arch: Seq<char>) -> Seq<char> {
    rootfs_directory_spec() + "/alpine-rootfs-"@ + version + "-"@ + arch
}

/// The directory that caches base root filesystems.
pub fn rootfs_directory() -> (r: &'static str)
    ensures
        r@ == rootfs_directory_spec(),
{
    "cache/alpine/rootfs"
}

/// The cached tarball of a base root filesystem.
pub fn current_rootfs_tarball(version: &str, arch: &str) -> (r: String)
    ensures
        r@ == rootfs_stem(version@, arch@) + ".tar.gz"@,
{
    let mut r = String::from_str(rootfs_directory());
    r.append("/alpine-rootfs-");
    r.append(version);
    r.append("-");
    r.append(arch);
    r.append(".tar.gz");
    r
}

/// The extracted base root filesystem.
pub fn current_rootfs(version: &str, arch: &str) -> (r: String)
    ensures
        r@ == rootfs_stem(version@, arch@),
{
    let mut r = String::from_str(rootfs_directory());
    r.append("/alpine-rootfs-");
    r.append(version);
    r.append("-");
    r.append(arch);
    r
}

/// The release directory that base images are downloaded from.
pub fn base_url(version: &str, arch: &str) -> (r: String)
    ensures
        r@ == "https://cz.alpinelinux.org/alpine/v"@ + version@ + "/releases/"@ + arch@,
{
    let mut r = String::from_str("https://cz.alpinelinux.org/alpine/v");
    r.append(version);
    r.append("/releases/");
    r.append(arch);
    r
}

/// The work directory of a container, relative to the daemon's directory.
pub fn path_to(id: &str) -> (r: String)
    ensures
        r@ == "container/"@ + id@,
{
    let mut r = String::from_str("container/");
    r.append(id);
    r
}

/// The release manifest of a base-image version and architecture.
pub fn release_manifest_url(version: &str, arch: &str) -> (r: String)
    ensures
        r@ == "https://cz.alpinelinux.org/alpine/v"@ + version@ + "/releases/"@ + arch@ + "/latest-releases.yaml"@,
{
    let mut r = base_url(version, arch);
    r.append("/latest-releases.yaml");
    r
}

/// Where a file of a release is downloaded from.
pub fn release_file_url(version: &str, arch: &str, file: &str) -> (r: String)
    ensures
        r@ == "https://cz.alpinelinux.org/alpine/v"@ + version@ + "/releases/"@ + arch@ + "/"@ + file@,
{
    let mut r = base_url(version, arch);
    r.append("/");
    r.append(file);
    r
}

/// One entry of a release manifest: its flavor and its file, when given as
/// strings.
pub struct ReleaseEntry {
    pub flavor: Option<String>,
    pub file: Option<String>,
}

/// The entry is the minimal root filesystem.
pub open spec fn is_minirootfs(e: ReleaseEntry) -> bool {
    e.flavor matches Some(f) && f@ == "minirootfs"@
}

/// The file of the first minimal root filesystem that a release manifest
/// lists. `AlpineManifestInvalid` when the manifest is not a list of
/// entries (`None`), `AlpineManifestMissing` when no entry is a minimal root
/// filesystem, `AlpineManifestFileMissing` when that entry names no file.
pub fn select_minirootfs(entries: &Option<Vec<ReleaseEntry>>) -> (r: Result<String, SquishError>)
    ensures
        entries is None ==> r matches Err(SquishError::AlpineManifestInvalid),
        entries matches Some(v) ==> {
            &&& (forall|i: int| 0 <= i < v@.len() ==> !is_minirootfs(#[trigger] v@[i])) ==> (r matches Err(
                SquishError::AlpineManifestMissing,
            ))
            &&& forall|i: int|
                0 <= i < v@.len() && is_minirootfs(#[trigger] v@[i]) && (forall|j: int|
                    0 <= j < i ==> !is_minirootfs(#[trigger] v@[j])) ==> match v@[i].file {
                    Some(f) => (r matches Ok(s) && s@ == f@),
                    None => (r matches Err(SquishError::AlpineManifestFileMissing)),
                }
        },
{
    proof {
        reveal_strlit("minirootfs");
    }
    match entries {
        None => Err(SquishError::AlpineManifestInvalid),
        Some(v) => {
            let mut i: usize = 0;
            while i < v.len()
                invariant
                    i <= v@.len(),
                    *entries == Some(*v),
                    forall|j: int| 0 <= j < i ==> !is_minirootfs(#[trigger] v@[j]),
                decreases v@.len() - i,
            {
                let hit = match &v[i].flavor {
                    Some(f) => same_text(f.as_str(), "minirootfs"),
                    None => false,
                };
                if hit {
                    assert(is_minirootfs(v@[i as int]));
                    return match &v[i].file {
                        Some(f) => Ok(f.clone()),
                        None => Err(SquishError::AlpineManifestFileMissing),
                    };
                }
                i += 1;
            }
            Err(SquishError::AlpineManifestMissing)
        },
    }
}

} // verus!
