//! The executor's setup stage: the ordered steps that build a container's
//! root filesystem before it changes root and runs the command.

use vstd::prelude::*;
use vstd::string::StringExecFns;

use crate::squishfile::{LayerSpec, LayerView, Squishfile};
use crate::text::{after_last_slash, basename, remove_all, same_text, without_all};

verus! {

/// How a bind mount is made, besides being a bind mount.
#[derive(Clone, Copy, Debug, PartialEq, Eq, Structural)]
pub struct MountFlags {
    pub read_only: bool,
    pub no_atime: bool,
    pub no_suid: bool,
}

/// One step of building a container's root filesystem.
pub enum SetupStep {
    /// Create a directory and its parents.
    CreateDir(String),
    /// Point standard output and standard error at new files (created
    /// exclusively) with these paths.
    RedirectOutput(String, String),
    /// Bind-mount a source onto a target.
    Bind(String, String, MountFlags),
    /// Bind-mount a layer's source onto a target, first creating the target
    /// as a file or a directory to match the source; skipped when the source
    /// does not exist.
    MountLayer(String, String, MountFlags),
}

/// A setup step as a mathematical value.
pub enum StepView {
    CreateDir(Seq<char>),
    RedirectOutput(Seq<char>, Seq<char>),
    Bind(Seq<char>, Seq<char>, MountFlags),
    MountLayer(Seq<char>, Seq<char>, MountFlags),
}

impl View for SetupStep {
    type V = StepView;

    open spec fn view(&self) -> StepView {
        match self {
            SetupStep::CreateDir(p) => StepView::CreateDir(p@),
            SetupStep::RedirectOutput(o, e) => StepView::RedirectOutput(o@, e@),
            SetupStep::Bind(s, t, f) => StepView::Bind(s@, t@, *f),
            SetupStep::MountLayer(s, t, f) => StepView::MountLayer(s@, t@, *f),
        }
    }
}

/// The views of a list of steps.
pub open spec fn steps_view(v: Seq<SetupStep>) -> Seq<StepView> {
    v.map_values(|s: SetupStep| s@)
}

/// Where a layer is mounted inside the container: its target when it sets
/// one; else, for a layer with a path, `/app/<basename(path)>` for the layer
/// named `app` and `/app/<path>` (with every `../` and then every `./`
/// removed) for any other; else `/sdk/<name>`.
pub open spec fn layer_target_spec(name: Seq<char>, l: LayerView) -> Seq<char> {
    match l.target {
        Some(t) => t,
        None => match l.path {
            Some(p) => if name == "app"@ {
                "/app/"@ + basename(p)
            } else {
                "/app/"@ + remove_all(remove_all(p, "../"@), "./"@)
            },
            None => "/sdk/"@ + name,
        },
    }
}

/// A layer is mounted without access times and set-user-id bits, and
/// read-only unless it asks to be writable.
pub open spec fn layer_flags(l: LayerView) -> MountFlags {
    MountFlags { read_only: l.rw != Some(true), no_atime: true, no_suid: true }
}

/// The step that mounts a layer into the root `root`; none for the base
/// image's layer, which is the root itself, nor for a layer with no path.
pub open spec fn layer_step(root: Seq<char>, e: (Seq<char>, LayerView)) -> Option<StepView> {
    if e.0 == "alpine"@ || e.1.path is None {
        None
    } else {
        Some(StepView::MountLayer(e.1.path.unwrap(), root + "/"@ + layer_target_spec(e.0, e.1), layer_flags(e.1)))
    }
}

/// The steps that mount the layers of `layers` into `root`, in order.
pub open spec fn layer_steps(root: Seq<char>, layers: Seq<(Seq<char>, LayerView)>) -> Seq<StepView> {
    layers.filter_map(|e: (Seq<char>, LayerView)| layer_step(root, e))
}

/// A plain bind mount.
pub open spec fn bare() -> MountFlags {
    MountFlags { read_only: false, no_atime: false, no_suid: false }
}

/// The setup of a container whose work directory is `work`, over the base
/// root filesystem `rootfs`: create the root, redirect output, mount the
/// base read-only, the four character devices, a writable `/tmp`, then the
/// layers.
pub open spec fn setup_plan(rootfs: Seq<char>, work: Seq<char>, layers: Seq<(Seq<char>, LayerView)>) -> Seq<StepView> {
    let root = work + "/rootfs"@;
    seq![
        StepView::CreateDir(root),
        StepView::RedirectOutput(work + "/stdout.log"@, work + "/stderr.log"@),
        StepView::Bind(rootfs, root, MountFlags { read_only: true, no_atime: true, no_suid: true }),
        StepView::Bind("/dev/null"@, root + "/dev/null"@, bare()),
        StepView::Bind("/dev/zero"@, root + "/dev/zero"@, bare()),
        StepView::Bind("/dev/random"@, root + "/dev/random"@, bare()),
        StepView::Bind("/dev/urandom"@, root + "/dev/urandom"@, bare()),
        StepView::CreateDir(work + "/tmp"@),
        StepView::Bind(work + "/tmp"@, root + "/tmp"@, MountFlags { read_only: false, no_atime: false, no_suid: true }),
    ] + layer_steps(root, layers)
}

/// Where the layer `name` is mounted inside the container.
pub fn layer_target(name: &str, layer: &LayerSpec) -> (r: String)
    ensures
        r@ == layer_target_spec(name@, layer@),
{
    proof {
        reveal_strlit("../");
        reveal_strlit("./");
    }
    match layer.target() {
        Some(t) => t.clone(),
        None => match layer.path() {
            Some(p) => {
                let mut t = String::from_str("/app/");
                if same_text(name, "app") {
                    let b = after_last_slash(p.as_str());
                    t.append(b.as_str());
                } else {
                    let a = without_all(p.as_str(), "../");
                    let b = without_all(a.as_str(), "./");
                    t.append(b.as_str());
                }
                t
            },
            None => {
                let mut t = String::from_str("/sdk/");
                t.append(name);
                t
            },
        },
    }
}

/// The flags that the layer is mounted with.
pub fn mount_flags(layer: &LayerSpec) -> (r: MountFlags)
    ensures
        r == layer_flags(layer@),
{
    let writable = match layer.rw() {
        Some(b) => b,
        None => false,
    };
    MountFlags { read_only: !writable, no_atime: true, no_suid: true }
}

fn join(a: &str, b: &str) -> (r: String)
    ensures
        r@ == a@ + b@,
{
    let mut r = String::from_str(a);
    r.append(b);
    r
}

/// The bootstrap stage of one container.
pub struct Engine<'a> {
    squishfile: &'a Squishfile,
    rootfs_path: &'a str,
    container_path: &'a str,
    container_id: &'a str,
    container_rootfs_path: String,
}

impl<'a> Engine<'a> {
    /// The engine for the container `container_id` with work directory
    /// `container_path`, over the base root filesystem `rootfs`.
    pub fn new(squishfile: &'a Squishfile, rootfs: &'a str, container_path: &'a str, container_id: &'a str) -> (r:
        Self)
        ensures
            r.squishfile_spec() == *squishfile,
            r.rootfs_spec() == rootfs@,
            r.work_spec() == container_path@,
            r.id_spec() == container_id@,
            r.root_spec() == container_path@ + "/rootfs"@,
    {
        Engine {
            squishfile,
            rootfs_path: rootfs,
            container_path,
            container_id,
            container_rootfs_path: join(container_path, "/rootfs"),
        }
    }

    pub closed spec fn squishfile_spec(self) -> Squishfile {
        *self.squishfile
    }

    pub closed spec fn rootfs_spec(self) -> Seq<char> {
        self.rootfs_path@
    }

    pub closed spec fn work_spec(self) -> Seq<char> {
        self.container_path@
    }

    pub closed spec fn id_spec(self) -> Seq<char> {
        self.container_id@
    }

    pub closed spec fn root_spec(self) -> Seq<char> {
        self.container_rootfs_path@
    }

    pub fn squishfile(&self) -> (r: &Squishfile)
        ensures
            *r == self.squishfile_spec(),
    {
        self.squishfile
    }

    pub fn container_id(&self) -> (r: &str)
        ensures
            r@ == self.id_spec(),
    {
        self.container_id
    }

    /// The container's root, which the command runs under.
    pub fn container_rootfs_path(&self) -> (r: &str)
        ensures
            r@ == self.root_spec(),
    {
        self.container_rootfs_path.as_str()
    }

    /// The steps that build the container's root filesystem, in the order
    /// they must run.
    pub fn setup_plan(&self) -> (r: Vec<SetupStep>)
        requires
            self.root_spec() == self.work_spec() + "/rootfs"@,
        ensures
            steps_view(r@) == setup_plan(self.rootfs_spec(), self.work_spec(), self.squishfile_spec().layers_spec()),
    {
        let work = self.container_path;
        let root = self.container_rootfs_path.as_str();
        let mut steps: Vec<SetupStep> = Vec::new();
        steps.push(SetupStep::CreateDir(String::from_str(root)));
        steps.push(SetupStep::RedirectOutput(join(work, "/stdout.log"), join(work, "/stderr.log")));
        steps.push(SetupStep::Bind(
            String::from_str(self.rootfs_path),
            String::from_str(root),
            MountFlags { read_only: true, no_atime: true, no_suid: true },
        ));
        let plain = MountFlags { read_only: false, no_atime: false, no_suid: false };
        steps.push(SetupStep::Bind(String::from_str("/dev/null"), join(root, "/dev/null"), plain));
        steps.push(SetupStep::Bind(String::from_str("/dev/zero"), join(root, "/dev/zero"), plain));
        steps.push(SetupStep::Bind(String::from_str("/dev/random"), join(root, "/dev/random"), plain));
        steps.push(SetupStep::Bind(String::from_str("/dev/urandom"), join(root, "/dev/urandom"), plain));
        let tmp = join(work, "/tmp");
        steps.push(SetupStep::CreateDir(tmp.clone()));
        steps.push(SetupStep::Bind(tmp, join(root, "/tmp"), MountFlags { read_only: false, no_atime: false, no_suid: true }));
        let ghost head = steps_view(steps@);
        assert(head =~= setup_plan(self.rootfs_spec(), self.work_spec(), Seq::empty()).subrange(0, 9));
        let layers = self.squishfile.layers();
        let ghost ls = self.squishfile_spec().layers_spec();
        let mut i: usize = 0;
        assert(layer_steps(root@, ls.subrange(0, 0)) =~= Seq::<StepView>::empty());
        assert(steps_view(steps@) =~= head + layer_steps(root@, ls.subrange(0, 0)));
        while i < layers.len()
            invariant
                i <= layers@.len() == ls.len(),
                crate::squishfile::layer_entries(layers@) == ls,
                root@ == self.root_spec(),
                steps_view(steps@) == head + layer_steps(root@, ls.subrange(0, i as int)),
            decreases layers@.len() - i,
        {
            let name = &layers[i].0;
            let layer = &layers[i].1;
            let ghost prev = steps@;
            assert(ls[i as int] == (name@, layer@));
            assert(ls.subrange(0, i + 1).drop_last() =~= ls.subrange(0, i as int));
            if !same_text(name.as_str(), "alpine") {
                match layer.path() {
                    Some(p) => {
                        let target = join(root, "/");
                        let t = layer_target(name.as_str(), layer);
                        let target = join(target.as_str(), t.as_str());
                        steps.push(SetupStep::MountLayer(p.clone(), target, mount_flags(layer)));
                        assert(steps_view(steps@) =~= steps_view(prev) + seq![steps@.last()@]);
                    },
                    None => {},
                }
            }
            i += 1;
        }
        assert(ls.subrange(0, i as int) =~= ls);
        assert(setup_plan(self.rootfs_spec(), self.work_spec(), ls) =~= head + layer_steps(root@, ls));
        steps
    }
}

} // verus!
