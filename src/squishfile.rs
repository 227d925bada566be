//! The manifest ("squishfile"): what to run, which layers to mount, the
//! environment and the port forwards.

use vstd::prelude::*;
use vstd::string::StringExecFns;

use crate::error::SquishError;
use crate::text::{
    is_prefix, lemma_text_lt_irreflexive, lemma_text_lt_total, lemma_text_lt_transitive, same_text, starts_with, text_less,
    text_lt,
};

verus! {

/// The view of an optional string.
pub open spec fn opt_view(o: Option<String>) -> Option<Seq<char>> {
    match o {
        Some(s) => Some(s@),
        None => None,
    }
}

fn copy_opt(o: &Option<String>) -> (r: Option<String>)
    ensures
        opt_view(r) == opt_view(*o),
{
    match o {
        Some(s) => Some(s.clone()),
        None => None,
    }
}

/// The transport protocol of a port forward.
#[derive(Clone, Copy, Debug, PartialEq, Eq, Structural)]
pub enum PortProtocol {
    Tcp,
    Udp,
}

/// A port forward from the host into the container.
#[derive(Clone, Copy, Debug, PartialEq, Eq, Structural)]
pub struct Port {
    container: u16,
    host: u16,
    protocol: PortProtocol,
}

impl Port {
    pub fn new(container: u16, host: u16, protocol: PortProtocol) -> (r: Port)
        ensures
            r.container_spec() == container,
            r.host_spec() == host,
            r.protocol_spec() == protocol,
    {
        Port { container, host, protocol }
    }

    pub closed spec fn container_spec(self) -> u16 {
        self.container
    }

    pub closed spec fn host_spec(self) -> u16 {
        self.host
    }

    pub closed spec fn protocol_spec(self) -> PortProtocol {
        self.protocol
    }

    /// The port inside the container.
    pub fn container(&self) -> (r: u16)
        ensures
            r == self.container_spec(),
    {
        self.container
    }

    /// The port on the host.
    pub fn host(&self) -> (r: u16)
        ensures
            r == self.host_spec(),
    {
        self.host
    }

    pub fn protocol(&self) -> (r: PortProtocol)
        ensures
            r == self.protocol_spec(),
    {
        self.protocol
    }
}

/// The command that the container runs.
pub struct Run {
    command: String,
    args: Vec<String>,
}

impl Run {
    pub fn new(command: String, args: Vec<String>) -> (r: Run)
        ensures
            r.command_spec() == command@,
            r.args_spec() == args@.map_values(|a: String| a@),
    {
        Run { command, args }
    }

    pub closed spec fn command_spec(self) -> Seq<char> {
        self.command@
    }

    pub closed spec fn args_spec(self) -> Seq<Seq<char>> {
        self.args@.map_values(|a: String| a@)
    }

    pub fn command(&self) -> (r: &String)
        ensures
            r@ == self.command_spec(),
    {
        &self.command
    }

    pub fn args(&self) -> (r: &Vec<String>)
        ensures
            r@.map_values(|a: String| a@) == self.args_spec(),
    {
        &self.args
    }
}

/// A layer as a mathematical value.
pub struct LayerView {
    pub version: Option<Seq<char>>,
    pub path: Option<Seq<char>>,
    pub target: Option<Seq<char>>,
    pub rw: Option<bool>,
}

/// A named filesystem contribution to a container's root: a versioned SDK,
/// a host path, or both, with an optional mount target.
pub struct LayerSpec {
    version: Option<String>,
    path: Option<String>,
    target: Option<String>,
    rw: Option<bool>,
}

impl View for LayerSpec {
    type V = LayerView;

    closed spec fn view(&self) -> LayerView {
        LayerView {
            version: opt_view(self.version),
            path: opt_view(self.path),
            target: opt_view(self.target),
            rw: self.rw,
        }
    }
}

/// A layer names a version or a path, or both.
pub open spec fn layer_valid(l: LayerView) -> bool {
    l.version is Some || l.path is Some
}

/// A layer whose path is relative to the caller: it starts with `./` or
/// `../`, whatever the layer's version.
pub open spec fn is_local(l: LayerView) -> bool {
    l.path matches Some(p) && (is_prefix("./"@, p) || is_prefix("../"@, p))
}

/// The layer that a bare string in a manifest stands for: a read-only mount
/// of a relative path when it starts with `./` or `../`, else a version.
pub open spec fn shorthand_layer(s: Seq<char>) -> LayerView {
    if is_prefix("./"@, s) || is_prefix("../"@, s) {
        LayerView { version: None, path: Some(s), target: None, rw: Some(false) }
    } else {
        LayerView { version: Some(s), path: None, target: None, rw: Some(false) }
    }
}

impl LayerSpec {
    pub fn new(version: Option<String>, path: Option<String>, target: Option<String>, rw: Option<bool>) -> (r:
        LayerSpec)
        ensures
            r@ == (LayerView {
                version: opt_view(version),
                path: opt_view(path),
                target: opt_view(target),
                rw,
            }),
    {
        LayerSpec { version, path, target, rw }
    }

    /// The layer that the bare string `s` stands for.
    pub fn from_shorthand(s: &str) -> (r: LayerSpec)
        ensures
            r@ == shorthand_layer(s@),
    {
        if starts_with(s, "./") || starts_with(s, "../") {
            LayerSpec { version: None, path: Some(String::from_str(s)), target: None, rw: Some(false) }
        } else {
            LayerSpec { version: Some(String::from_str(s)), path: None, target: None, rw: Some(false) }
        }
    }

    pub fn version(&self) -> (r: &Option<String>)
        ensures
            opt_view(*r) == self@.version,
    {
        &self.version
    }

    pub fn path(&self) -> (r: &Option<String>)
        ensures
            opt_view(*r) == self@.path,
    {
        &self.path
    }

    pub fn target(&self) -> (r: &Option<String>)
        ensures
            opt_view(*r) == self@.target,
    {
        &self.target
    }

    pub fn rw(&self) -> (r: Option<bool>)
        ensures
            r == self@.rw,
    {
        self.rw
    }

    /// Whether this layer's path is relative to the caller.
    pub fn is_relative(&self) -> (r: bool)
        ensures
            r == is_local(self@),
    {
        match &self.path {
            Some(p) => starts_with(p.as_str(), "./") || starts_with(p.as_str(), "../"),
            None => false,
        }
    }

    /// A copy of this layer.
    pub fn duplicate(&self) -> (r: LayerSpec)
        ensures
            r@ == self@,
    {
        LayerSpec {
            version: copy_opt(&self.version),
            path: copy_opt(&self.path),
            target: copy_opt(&self.target),
            rw: self.rw,
        }
    }
}

/// No two entries of `s` are equal.
pub open spec fn distinct(s: Seq<Seq<char>>) -> bool {
    forall|i: int, j: int| 0 <= i < s.len() && 0 <= j < s.len() && i != j ==> #[trigger] s[i] != #[trigger] s[j]
}

/// The views of a list of strings.
pub open spec fn texts(v: Seq<String>) -> Seq<Seq<char>> {
    v.map_values(|s: String| s@)
}

/// Whether the strings of `keys` are pairwise different.
fn all_distinct(keys: &Vec<String>) -> (r: bool)
    ensures
        r == distinct(texts(keys@)),
{
    let n = keys.len();
    let mut i: usize = 0;
    while i < n
        invariant
            i <= n == keys@.len(),
            forall|a: int, b: int| 0 <= a < i && 0 <= b < n && a != b ==> #[trigger] texts(keys@)[a] != #[trigger] texts(keys@)[b],
        decreases n - i,
    {
        let mut j: usize = 0;
        while j < n
            invariant
                i < n == keys@.len(),
                j <= n,
                forall|a: int, b: int| 0 <= a < i && 0 <= b < n && a != b ==> #[trigger] texts(keys@)[a] != #[trigger] texts(keys@)[b],
                forall|b: int| 0 <= b < j && b != i ==> texts(keys@)[i as int] != #[trigger] texts(keys@)[b],
            decreases n - j,
        {
            if j != i && same_text(keys[i].as_str(), keys[j].as_str()) {
                assert(texts(keys@)[i as int] == texts(keys@)[j as int]);
                return false;
            }
            j += 1;
        }
        i += 1;
    }
    true
}

/// The (name, path) of a layer whose path is relative to the caller.
pub open spec fn local_entry(e: (Seq<char>, LayerView)) -> Option<(Seq<char>, Seq<char>)> {
    if is_local(e.1) {
        Some((e.0, e.1.path.unwrap()))
    } else {
        None
    }
}

/// The (name, path) of each layer of `l` whose path is relative to the caller.
pub open spec fn locals(l: Seq<(Seq<char>, LayerView)>) -> Seq<(Seq<char>, Seq<char>)> {
    l.filter_map(|e: (Seq<char>, LayerView)| local_entry(e))
}

/// A manifest: what to run, the layers to mount, the environment and the
/// port forwards.
pub struct Squishfile {
    run: Run,
    layers: Vec<(String, LayerSpec)>,
    env: Vec<(String, String)>,
    ports: Vec<Port>,
}

/// A layer list as (name, layer) values.
pub open spec fn layer_entries(v: Seq<(String, LayerSpec)>) -> Seq<(Seq<char>, LayerView)> {
    v.map_values(|e: (String, LayerSpec)| (e.0@, e.1@))
}

/// An environment as (key, value) values.
pub open spec fn env_entries(v: Seq<(String, String)>) -> Seq<(Seq<char>, Seq<char>)> {
    v.map_values(|e: (String, String)| (e.0@, e.1@))
}

/// The names of a layer list.
pub open spec fn names_of(l: Seq<(Seq<char>, LayerView)>) -> Seq<Seq<char>> {
    l.map_values(|e: (Seq<char>, LayerView)| e.0)
}

/// The keys of an environment.
pub open spec fn keys_of(l: Seq<(Seq<char>, Seq<char>)>) -> Seq<Seq<char>> {
    l.map_values(|e: (Seq<char>, Seq<char>)| e.0)
}

/// Names in strictly increasing order.
pub open spec fn sorted_names(n: Seq<Seq<char>>) -> bool {
    forall|i: int, j: int| 0 <= i < j < n.len() ==> text_lt(#[trigger] n[i], #[trigger] n[j])
}

/// What the parts of a manifest must satisfy, in any order: layer names are
/// unique, every layer names a version or a path, and environment keys are
/// unique.
pub open spec fn parts_valid(layers: Seq<(Seq<char>, LayerView)>, env: Seq<(Seq<char>, Seq<char>)>) -> bool {
    &&& distinct(names_of(layers))
    &&& forall|i: int| 0 <= i < layers.len() ==> layer_valid(#[trigger] layers[i].1)
    &&& distinct(keys_of(env))
}

/// A manifest's parts are valid and its layers are in increasing order of
/// name, the order in which they are mounted.
pub open spec fn manifest_valid(layers: Seq<(Seq<char>, LayerView)>, env: Seq<(Seq<char>, Seq<char>)>) -> bool {
    &&& parts_valid(layers, env)
    &&& sorted_names(names_of(layers))
}

/// Inserting `x` into `s` adds `x` and keeps what was there.
proof fn lemma_insert_contains<A>(s: Seq<A>, k: int, x: A, y: A)
    requires
        0 <= k <= s.len(),
    ensures
        s.insert(k, x).contains(y) <==> (s.contains(y) || y == x),
{
    let t = s.insert(k, x);
    if s.contains(y) {
        let j = choose|j: int| 0 <= j < s.len() && s[j] == y;
        if j < k {
            assert(t[j] == y);
        } else {
            assert(t[j + 1] == y);
        }
    }
    if y == x {
        assert(t[k] == x);
    }
    if t.contains(y) {
        let j = choose|j: int| 0 <= j < t.len() && t[j] == y;
        if j < k {
            assert(s[j] == y);
        } else if j > k {
            assert(s[j - 1] == y);
        }
    }
}

/// Sorted names are unique.
proof fn lemma_sorted_distinct(n: Seq<Seq<char>>)
    requires
        sorted_names(n),
    ensures
        distinct(n),
{
    assert forall|i: int, j: int| 0 <= i < n.len() && 0 <= j < n.len() && i != j implies #[trigger] n[i] != #[trigger] n[j] by {
        lemma_text_lt_irreflexive(n[i]);
        if i < j {
            assert(text_lt(n[i], n[j]));
        } else {
            assert(text_lt(n[j], n[i]));
        }
    }
}

/// Adds the layer `(name, l)` to a list sorted by name, at its place, unless
/// a layer of that name is there; whether it was added.
fn insert_sorted(v: &mut Vec<(String, LayerSpec)>, name: String, l: LayerSpec) -> (r: bool)
    requires
        sorted_names(names_of(layer_entries(old(v)@))),
    ensures
        r == !names_of(layer_entries(old(v)@)).contains(name@),
        !r ==> final(v)@ == old(v)@,
        r ==> exists|k: int|
            0 <= k <= old(v)@.len() && layer_entries(final(v)@) == layer_entries(old(v)@).insert(k, (name@, l@)),
        sorted_names(names_of(layer_entries(final(v)@))),
{
    let ghost e = layer_entries(v@);
    let ghost ns = names_of(e);
    let mut k: usize = 0;
    while k < v.len() && text_less(v[k].0.as_str(), name.as_str())
        invariant
            k <= v@.len(),
            e == layer_entries(v@),
            ns == names_of(e),
            sorted_names(ns),
            forall|j: int| 0 <= j < k ==> text_lt(#[trigger] ns[j], name@),
        decreases v@.len() - k,
    {
        assert(ns[k as int] == v@[k as int].0@);
        k += 1;
    }
    if k < v.len() {
        assert(ns[k as int] == v@[k as int].0@);
    }
    if k < v.len() && same_text(v[k].0.as_str(), name.as_str()) {
        return false;
    }
    proof {
        if k < v@.len() {
            lemma_text_lt_total(ns[k as int], name@);
        }
        assert forall|j: int| k <= j < ns.len() implies text_lt(name@, #[trigger] ns[j]) by {
            if j > k {
                lemma_text_lt_transitive(name@, ns[k as int], ns[j]);
            }
        }
        assert forall|j: int| 0 <= j < ns.len() implies #[trigger] ns[j] != name@ by {
            lemma_text_lt_irreflexive(name@);
        }
    }
    let ghost entry = (name@, l@);
    v.insert(k, (name, l));
    proof {
        assert(layer_entries(v@) =~= e.insert(k as int, entry));
        let n2 = names_of(layer_entries(v@));
        assert(n2 =~= ns.insert(k as int, entry.0));
        assert forall|i: int, j: int| 0 <= i < j < n2.len() implies text_lt(#[trigger] n2[i], #[trigger] n2[j]) by {
            if j < k {
            } else if j == k {
            } else if i < k {
                assert(n2[j] == ns[j - 1]);
            } else if i == k {
                assert(n2[j] == ns[j - 1]);
            } else {
                assert(n2[i] == ns[i - 1]);
                assert(n2[j] == ns[j - 1]);
            }
        }
    }
    true
}

impl Squishfile {
    /// The layers, in manifest order.
    pub closed spec fn layers_spec(self) -> Seq<(Seq<char>, LayerView)> {
        layer_entries(self.layers@)
    }

    /// The environment, in manifest order.
    pub closed spec fn env_spec(self) -> Seq<(Seq<char>, Seq<char>)> {
        env_entries(self.env@)
    }

    pub closed spec fn run_spec(self) -> Run {
        self.run
    }

    pub closed spec fn ports_spec(self) -> Seq<Port> {
        self.ports@
    }

    pub open spec fn wf(self) -> bool {
        manifest_valid(self.layers_spec(), self.env_spec())
    }

    /// A manifest from its parts, its layers put in increasing order of
    /// name. `ManifestParse("layers")` when two layers share a name or a layer
    /// names neither a version nor a path; `ManifestParse("env")` when two
    /// variables share a key.
    pub fn new(run: Run, layers: Vec<(String, LayerSpec)>, env: Vec<(String, String)>, ports: Vec<Port>) -> (r:
        Result<Squishfile, SquishError>)
        ensures
            r is Ok <==> parts_valid(layer_entries(layers@), env_entries(env@)),
            r matches Ok(m) ==> m.wf() && m.layers_spec().len() == layers@.len() && (forall|x: (Seq<char>, LayerView)|
                #[trigger] m.layers_spec().contains(x) <==> layer_entries(layers@).contains(x)) && m.env_spec()
                == env_entries(env@) && m.run_spec() == run && m.ports_spec() == ports@,
            r matches Err(e) ==> (e matches SquishError::ManifestParse(k) && (k@ == "layers"@ || k@ == "env"@)),
            r matches Err(SquishError::ManifestParse(k)) && k@ == "layers"@ ==> !(distinct(names_of(layer_entries(layers@)))
                && forall|i: int| 0 <= i < layers@.len() ==> layer_valid(#[trigger] layer_entries(layers@)[i].1)),
    {
        let ghost input = layer_entries(layers@);
        let mut i: usize = 0;
        while i < layers.len()
            invariant
                i <= layers@.len(),
                input == layer_entries(layers@),
                forall|j: int| 0 <= j < i ==> layer_valid(#[trigger] input[j].1),
            decreases layers@.len() - i,
        {
            let l = &layers[i].1;
            if l.version.is_none() && l.path.is_none() {
                assert(!layer_valid(input[i as int].1));
                return Err(SquishError::ManifestParse(String::from_str("layers")));
            }
            i += 1;
        }
        let mut sorted: Vec<(String, LayerSpec)> = Vec::new();
        let mut i: usize = 0;
        assert(layer_entries(sorted@) =~= Seq::<(Seq<char>, LayerView)>::empty());
        assert(names_of(input.subrange(0, 0)) =~= Seq::<Seq<char>>::empty());
        while i < layers.len()
            invariant
                i <= layers@.len(),
                input == layer_entries(layers@),
                forall|j: int| 0 <= j < layers@.len() ==> layer_valid(#[trigger] input[j].1),
                sorted_names(names_of(layer_entries(sorted@))),
                layer_entries(sorted@).len() == i,
                forall|x: (Seq<char>, LayerView)| #[trigger] layer_entries(sorted@).contains(x) <==> input.subrange(0, i as int).contains(x),
                distinct(names_of(input.subrange(0, i as int))),
            decreases layers@.len() - i,
        {
            let ghost before = layer_entries(sorted@);
            let ghost entry = input[i as int];
            let name = layers[i].0.clone();
            let l = layers[i].1.duplicate();
            assert(entry == (name@, l@));
            assert(input.subrange(0, i + 1) =~= input.subrange(0, i as int).insert(i as int, entry));
            if !insert_sorted(&mut sorted, name, l) {
                proof {
                    let k = choose|k: int| 0 <= k < names_of(before).len() && names_of(before)[k] == entry.0;
                    assert(before.contains(before[k]));
                    let j = choose|j: int| 0 <= j < i && input.subrange(0, i as int)[j] == before[k];
                    assert(input[j].0 == input[i as int].0);
                    assert(names_of(input)[j] == names_of(input)[i as int]);
                }
                return Err(SquishError::ManifestParse(String::from_str("layers")));
            }
            proof {
                let k = choose|k: int|
                    0 <= k <= before.len() && layer_entries(sorted@) == before.insert(k, entry);
                assert forall|x: (Seq<char>, LayerView)| #[trigger] layer_entries(sorted@).contains(x) <==> input.subrange(0, i + 1).contains(x) by {
                    lemma_insert_contains(before, k, entry, x);
                    lemma_insert_contains(input.subrange(0, i as int), i as int, entry, x);
                }
                let ns = names_of(input.subrange(0, i + 1));
                assert forall|a: int, b: int| 0 <= a < ns.len() && 0 <= b < ns.len() && a != b implies #[trigger] ns[a] != #[trigger] ns[b] by {
                    if a < i && b < i {
                        assert(names_of(input.subrange(0, i as int))[a] == ns[a]);
                        assert(names_of(input.subrange(0, i as int))[b] == ns[b]);
                    } else {
                        let o = if a < i { a } else { b };
                        let x = input.subrange(0, i as int)[o];
                        assert(input.subrange(0, i as int).contains(x));
                        assert(before.contains(x));
                        let q = choose|q: int| 0 <= q < before.len() && before[q] == x;
                        assert(names_of(before)[q] == x.0);
                        assert(ns[o] == x.0);
                    }
                }
            }
            i += 1;
        }
        assert(input.subrange(0, i as int) =~= input);
        let mut keys: Vec<String> = Vec::new();
        let mut i: usize = 0;
        while i < env.len()
            invariant
                i <= env@.len(),
                texts(keys@) == keys_of(env_entries(env@)).subrange(0, i as int),
            decreases env@.len() - i,
        {
            let ghost before = keys@;
            let key = env[i].0.clone();
            keys.push(key);
            assert(texts(keys@) =~= texts(before).push(env@[i as int].0@));
            assert(keys_of(env_entries(env@))[i as int] == env@[i as int].0@);
            assert(texts(keys@) =~= keys_of(env_entries(env@)).subrange(0, i + 1));
            i += 1;
        }
        assert(texts(keys@) =~= keys_of(env_entries(env@)));
        if !all_distinct(&keys) {
            proof {
                reveal_strlit("layers");
                reveal_strlit("env");
                assert("env"@.len() != "layers"@.len());
            }
            return Err(SquishError::ManifestParse(String::from_str("env")));
        }
        proof {
            let out = layer_entries(sorted@);
            lemma_sorted_distinct(names_of(out));
            assert forall|j: int| 0 <= j < out.len() implies layer_valid(#[trigger] out[j].1) by {
                assert(out.contains(out[j]));
                let q = choose|q: int| 0 <= q < input.len() && input[q] == out[j];
            }
        }
        Ok(Squishfile { run, layers: sorted, env, ports })
    }

    pub fn run(&self) -> (r: &Run)
        ensures
            *r == self.run_spec(),
    {
        &self.run
    }

    pub fn layers(&self) -> (r: &Vec<(String, LayerSpec)>)
        ensures
            layer_entries(r@) == self.layers_spec(),
    {
        &self.layers
    }

    pub fn env(&self) -> (r: &Vec<(String, String)>)
        ensures
            env_entries(r@) == self.env_spec(),
    {
        &self.env
    }

    /// The position of the layer named `name`.
    pub fn find_layer(&self, name: &str) -> (r: Option<usize>)
        ensures
            r matches Some(i) ==> i < self.layers_spec().len() && self.layers_spec()[i as int].0 == name@,
            r is None ==> !names_of(self.layers_spec()).contains(name@),
    {
        let mut i: usize = 0;
        while i < self.layers.len()
            invariant
                i <= self.layers@.len(),
                forall|j: int| 0 <= j < i ==> (#[trigger] self.layers_spec()[j]).0 != name@,
            decreases self.layers@.len() - i,
        {
            assert(self.layers_spec()[i as int].0 == self.layers@[i as int].0@);
            if same_text(self.layers[i].0.as_str(), name) {
                return Some(i);
            }
            i += 1;
        }
        assert forall|j: int| 0 <= j < names_of(self.layers_spec()).len() implies names_of(self.layers_spec())[j] != name@ by {
            assert(names_of(self.layers_spec())[j] == self.layers_spec()[j].0);
        }
        None
    }

    /// The layer named `name`.
    pub fn layer(&self, name: &str) -> (r: Option<&LayerSpec>)
        ensures
            r matches Some(l) ==> exists|i: int| 0 <= i < self.layers_spec().len() && #[trigger] self.layers_spec()[i] == (name@, l@),
            r is None ==> !names_of(self.layers_spec()).contains(name@),
    {
        match self.find_layer(name) {
            Some(i) => {
                let l = &self.layers[i].1;
                assert(self.layers_spec()[i as int] == (name@, l@));
                Some(l)
            },
            None => None,
        }
    }

    /// Sets the layer named `layer` to `new_data`: in place when there is
    /// one, else inserted at its place in name order.
    pub fn update_layer(&mut self, layer: &String, new_data: &LayerSpec)
        requires
            old(self).wf(),
            layer_valid(new_data@),
        ensures
            final(self).wf(),
            names_of(old(self).layers_spec()).contains(layer@) ==> exists|i: int|
                0 <= i < old(self).layers_spec().len() && old(self).layers_spec()[i].0 == layer@
                    && final(self).layers_spec() == old(self).layers_spec().update(i, (layer@, new_data@)),
            !names_of(old(self).layers_spec()).contains(layer@) ==> exists|k: int|
                0 <= k <= old(self).layers_spec().len() && final(self).layers_spec() == old(self).layers_spec().insert(
                    k,
                    (layer@, new_data@),
                ),
            final(self).env_spec() == old(self).env_spec(),
            final(self).run_spec() == old(self).run_spec(),
            final(self).ports_spec() == old(self).ports_spec(),
    {
        let ghost before = self.layers_spec();
        match self.find_layer(layer.as_str()) {
            Some(i) => {
                let entry = (layer.clone(), new_data.duplicate());
                self.layers.set(i, entry);
                assert(names_of(before)[i as int] == before[i as int].0);
                assert(names_of(before).contains(layer@));
                assert(self.layers_spec() =~= before.update(i as int, (layer@, new_data@)));
                assert(names_of(self.layers_spec()) =~= names_of(before));
            },
            None => {
                insert_sorted(&mut self.layers, layer.clone(), new_data.duplicate());
                proof {
                    let k = choose|k: int| 0 <= k <= before.len() && self.layers_spec() == before.insert(k, (layer@, new_data@));
                    lemma_sorted_distinct(names_of(self.layers_spec()));
                    assert forall|j: int| 0 <= j < self.layers_spec().len() implies layer_valid(#[trigger] self.layers_spec()[j].1) by {
                        if j < k {
                            assert(self.layers_spec()[j] == before[j]);
                        } else if j > k {
                            assert(self.layers_spec()[j] == before[j - 1]);
                        }
                    }
                }
            },
        }
    }

    /// The (name, path) of each layer whose path starts with `./` or `../`,
    /// in manifest order: the mounts whose paths are relative to the caller.
    pub fn local_paths(&self) -> (r: Vec<(String, String)>)
        ensures
            env_entries(r@) == locals(self.layers_spec()),
    {
        let mut out: Vec<(String, String)> = Vec::new();
        let mut i: usize = 0;
        assert(env_entries(out@) =~= locals(self.layers_spec().subrange(0, 0)));
        while i < self.layers.len()
            invariant
                i <= self.layers@.len(),
                env_entries(out@) == locals(self.layers_spec().subrange(0, i as int)),
            decreases self.layers@.len() - i,
        {
            let (name, l) = (&self.layers[i].0, &self.layers[i].1);
            let ghost prev = out@;
            assert(self.layers_spec()[i as int] == (name@, l@));
            assert(self.layers_spec().subrange(0, i + 1).drop_last() =~= self.layers_spec().subrange(0, i as int));
            if l.is_relative() {
                match &l.path {
                    Some(p) => {
                        out.push((name.clone(), p.clone()));
                        assert(env_entries(out@) =~= env_entries(prev) + seq![(name@, p@)]);
                    },
                    None => {},
                }
            }
            i += 1;
        }
        assert(self.layers_spec().subrange(0, i as int) =~= self.layers_spec());
        out
    }

    /// Gives the local layer named `name` the path `path` (its resolved,
    /// absolute form); any other layer, and a missing one, stays as it is.
    pub fn set_local_path(&mut self, name: &str, path: String)
        requires
            old(self).wf(),
        ensures
            final(self).wf(),
            final(self).layers_spec().len() == old(self).layers_spec().len(),
            forall|i: int| 0 <= i < old(self).layers_spec().len() ==> #[trigger] final(self).layers_spec()[i] == if old(
                self,
            ).layers_spec()[i].0 == name@ && is_local(old(self).layers_spec()[i].1) {
                (name@, LayerView { path: Some(path@), ..old(self).layers_spec()[i].1 })
            } else {
                old(self).layers_spec()[i]
            },
            final(self).env_spec() == old(self).env_spec(),
            final(self).run_spec() == old(self).run_spec(),
            final(self).ports_spec() == old(self).ports_spec(),
    {
        let ghost before = self.layers_spec();
        match self.find_layer(name) {
            Some(i) => {
                if self.layers[i].1.is_relative() {
                    let l = &self.layers[i].1;
                    let new_data = LayerSpec {
                        version: copy_opt(&l.version),
                        path: Some(path),
                        target: copy_opt(&l.target),
                        rw: l.rw,
                    };
                    let entry = (self.layers[i].0.clone(), new_data);
                    self.layers.set(i, entry);
                    assert(self.layers_spec() =~= before.update(i as int, (name@, LayerView { path: Some(path@), ..before[i as int].1 })));
                    assert(names_of(self.layers_spec()) =~= names_of(before));
                    assert forall|j: int| 0 <= j < before.len() && j != i implies before[j].0 != name@ by {
                        assert(names_of(before)[j] == before[j].0);
                        assert(names_of(before)[i as int] == before[i as int].0);
                    }
                } else {
                    assert forall|j: int| 0 <= j < before.len() && j != i implies before[j].0 != name@ by {
                        assert(names_of(before)[j] == before[j].0);
                        assert(names_of(before)[i as int] == before[i as int].0);
                    }
                }
            },
            None => {
                assert forall|j: int| 0 <= j < before.len() implies before[j].0 != name@ by {
                    assert(names_of(before)[j] == before[j].0);
                }
            },
        }
    }

    pub fn ports(&self) -> (r: &Vec<Port>)
        ensures
            r@ == self.ports_spec(),
    {
        &self.ports
    }
}

} // verus!
