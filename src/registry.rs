//! The live container set, indexed by id and by guest PID.

use std::collections::HashMap;

use vstd::prelude::*;
use vstd::string::StringExecFns;
use vstd::utf8::encode_utf8;

use crate::error::SquishError;
use crate::identity::{id_of, lower_hex, name_shaped, now, random_name, sha256_of};
use crate::text::{is_prefix, same_text, starts_with};

verus! {

broadcast use vstd::std_specs::hash::group_hash_axioms;

/// A container: a tracked guest process with an id and a name, the network
/// helper bound to it, and its creation time.
pub struct Container {
    pub name: String,
    /// Host-side PID of the guest's first process.
    pub pid: i32,
    /// PID of the userspace-network helper.
    pub slirp_pid: i32,
    pub id: String,
    /// Milliseconds since the UNIX epoch at creation.
    pub created_at: u128,
}

/// A container as a mathematical value.
pub struct ContainerView {
    pub name: Seq<char>,
    pub pid: i32,
    pub slirp_pid: i32,
    pub id: Seq<char>,
    pub created_at: u128,
}

impl View for Container {
    type V = ContainerView;

    open spec fn view(&self) -> ContainerView {
        ContainerView {
            name: self.name@,
            pid: self.pid,
            slirp_pid: self.slirp_pid,
            id: self.id@,
            created_at: self.created_at,
        }
    }
}

/// What a listing shows of a running container.
pub struct RunningContainer {
    pub id: String,
    pub name: String,
    pub pid: i32,
}

impl Container {
    /// What a listing shows of this container.
    pub fn running(&self) -> (r: RunningContainer)
        ensures
            r.id@ == self.id@,
            r.name@ == self.name@,
            r.pid == self.pid,
    {
        RunningContainer { id: self.id.clone(), name: self.name.clone(), pid: self.pid }
    }
}

/// Some container of `cs` has id `id`.
pub open spec fn has_id(cs: Seq<ContainerView>, id: Seq<char>) -> bool {
    exists|i: int| 0 <= i < cs.len() && (#[trigger] cs[i]).id == id
}

/// The containers as a map from id to container.
pub open spec fn by_id(cs: Seq<ContainerView>) -> Map<Seq<char>, ContainerView> {
    Map::new(
        |k: Seq<char>| has_id(cs, k),
        |k: Seq<char>| cs[choose|i: int| 0 <= i < cs.len() && (#[trigger] cs[i]).id == k],
    )
}

/// A container is matched by `p` when its id or its name starts with `p`.
pub open spec fn prefix_match(p: Seq<char>, c: ContainerView) -> bool {
    is_prefix(p, c.id) || is_prefix(p, c.name)
}

/// The containers that `remove_container` of `id` leaves.
pub open spec fn without_id(cs: Seq<ContainerView>, id: Seq<char>) -> Seq<ContainerView> {
    cs.filter(|c: ContainerView| c.id != id)
}

/// The containers that `fuzzy_remove_container` of `p` leaves.
pub open spec fn without_matches(cs: Seq<ContainerView>, p: Seq<char>) -> Seq<ContainerView> {
    cs.filter(|c: ContainerView| !prefix_match(p, c))
}

/// The ids that `fuzzy_remove_container` of `p` removes, in registry order.
pub open spec fn matched_ids(cs: Seq<ContainerView>, p: Seq<char>) -> Seq<Seq<char>> {
    cs.filter(|c: ContainerView| prefix_match(p, c)).map_values(|c: ContainerView| c.id)
}

/// The predicate of containers whose id is not in `ids`.
pub open spec fn keeps(ids: Seq<Seq<char>>) -> spec_fn(ContainerView) -> bool {
    |c: ContainerView| !ids.contains(c.id)
}

/// The predicate of containers whose id is in `ids`.
pub open spec fn drops(ids: Seq<Seq<char>>) -> spec_fn(ContainerView) -> bool {
    |c: ContainerView| ids.contains(c.id)
}

/// The predicate of the container with id `id`.
pub open spec fn named(id: Seq<char>) -> spec_fn(ContainerView) -> bool {
    |c: ContainerView| c.id == id
}

/// The PIDs to send SIGTERM to once the containers `cs` are removed: for
/// each, in order, its guest and then its network helper.
pub open spec fn signal_targets(cs: Seq<ContainerView>) -> Seq<i32>
    decreases cs.len(),
{
    if cs.len() == 0 {
        Seq::empty()
    } else {
        signal_targets(cs.drop_last()) + seq![cs.last().pid, cs.last().slirp_pid]
    }
}

/// The predicate of containers that `p` matches.
pub open spec fn matches_prefix(p: Seq<char>) -> spec_fn(ContainerView) -> bool {
    |c: ContainerView| prefix_match(p, c)
}

/// The predicate of containers whose guest PID is in `pids`.
pub open spec fn pid_in(pids: Seq<i32>) -> spec_fn(ContainerView) -> bool {
    |c: ContainerView| pids.contains(c.pid)
}

/// The views of a list of ids.
pub open spec fn id_list(ids: Seq<String>) -> Seq<Seq<char>> {
    ids.map_values(|s: String| s@)
}

/// Filtering by two predicates that agree on every element gives the same
/// sequence.
proof fn lemma_filter_agree(s: Seq<ContainerView>, p: spec_fn(ContainerView) -> bool, q: spec_fn(ContainerView) -> bool)
    requires
        forall|i: int| 0 <= i < s.len() ==> p(#[trigger] s[i]) == q(s[i]),
    ensures
        s.filter(p) == s.filter(q),
    decreases s.len(),
{
    reveal(Seq::filter);
    if s.len() > 0 {
        let t = s.drop_last();
        assert forall|i: int| 0 <= i < t.len() implies p(#[trigger] t[i]) == q(t[i]) by {
            assert(t[i] == s[i]);
        }
        lemma_filter_agree(t, p, q);
    }
}

/// Filtering by a predicate that holds everywhere changes nothing.
proof fn lemma_filter_all(s: Seq<ContainerView>)
    ensures
        s.filter(|c: ContainerView| true) == s,
    decreases s.len(),
{
    reveal(Seq::filter);
    if s.len() > 0 {
        lemma_filter_all(s.drop_last());
        assert(s.drop_last().push(s.last()) =~= s);
    }
}

/// Relies on nix::sys::signal::kill: asks the kernel to deliver SIGTERM to the
/// process `pid`; whether that succeeds depends on the system, and the
/// result says whether the kernel accepted it.
#[verifier::external_body]
fn send_sigterm(pid: i32) -> (r: bool)
    requires
        pid > 0,
{
    nix::sys::signal::kill(nix::unistd::Pid::from_raw(pid), nix::sys::signal::Signal::SIGTERM).is_ok()
}

/// The PIDs of `pids` that name a single process: those above zero.
pub open spec fn signallable(pids: Seq<i32>) -> Seq<i32> {
    pids.filter(|p: i32| p > 0)
}

/// Sends SIGTERM to each positive PID of `pids`, in order (a PID of zero or
/// below names no single process and is skipped), and returns one
/// `(pid, accepted)` pair per PID signalled: whether the kernel accepted the
/// signal, for the caller to log the failures.
pub fn terminate_all(pids: &Vec<i32>) -> (r: Vec<(i32, bool)>)
    ensures
        r@.map_values(|x: (i32, bool)| x.0) == signallable(pids@),
{
    let mut out: Vec<(i32, bool)> = Vec::new();
    let mut i: usize = 0;
    proof {
        reveal(Seq::filter);
    }
    assert(out@.map_values(|x: (i32, bool)| x.0) =~= signallable(pids@.subrange(0, 0)));
    while i < pids.len()
        invariant
            i <= pids@.len(),
            out@.map_values(|x: (i32, bool)| x.0) == signallable(pids@.subrange(0, i as int)),
        decreases pids@.len() - i,
    {
        let p = pids[i];
        let ghost prev = out@;
        proof {
            reveal(Seq::filter);
            assert(pids@.subrange(0, i + 1).drop_last() =~= pids@.subrange(0, i as int));
            assert(pids@.subrange(0, i + 1).last() == p);
        }
        if p > 0 {
            let accepted = send_sigterm(p);
            out.push((p, accepted));
            assert(out@.map_values(|x: (i32, bool)| x.0) =~= prev.map_values(|x: (i32, bool)| x.0).push(p));
        }
        i += 1;
    }
    assert(pids@.subrange(0, i as int) =~= pids@);
    out
}

/// Whether `pids` holds `pid`.
fn holds_pid(pids: &Vec<i32>, pid: i32) -> (r: bool)
    ensures
        r == pids@.contains(pid),
{
    let mut i: usize = 0;
    while i < pids.len()
        invariant
            i <= pids@.len(),
            forall|j: int| 0 <= j < i ==> pids@[j] != pid,
        decreases pids@.len() - i,
    {
        if pids[i] == pid {
            return true;
        }
        i += 1;
    }
    false
}

/// Whether `ids` holds `id`.
fn lists(ids: &Vec<String>, id: &str) -> (r: bool)
    ensures
        r == id_list(ids@).contains(id@),
{
    let mut i: usize = 0;
    while i < ids.len()
        invariant
            i <= ids@.len(),
            forall|j: int| 0 <= j < i ==> (#[trigger] ids@[j])@ != id@,
        decreases ids@.len() - i,
    {
        if same_text(ids[i].as_str(), id) {
            assert(id_list(ids@)[i as int] == id@);
            return true;
        }
        i += 1;
    }
    assert forall|j: int| 0 <= j < id_list(ids@).len() implies id_list(ids@)[j] != id@ by {
        assert(id_list(ids@)[j] == ids@[j]@);
    }
    false
}

/// Which containers a removal takes.
enum Selection<'a> {
    /// Those whose id or name starts with the prefix.
    Prefix(&'a str),
    /// Those whose guest PID is listed.
    Pids(&'a Vec<i32>),
}

/// `by` takes the container `c`.
spec fn selects(by: Selection, c: ContainerView) -> bool {
    match by {
        Selection::Prefix(p) => prefix_match(p@, c),
        Selection::Pids(v) => v@.contains(c.pid),
    }
}

/// The predicate of the containers that `by` takes.
spec fn selector(by: Selection) -> spec_fn(ContainerView) -> bool {
    |c: ContainerView| selects(by, c)
}

/// Whether `by` takes the container `c`.
fn picks(by: &Selection, c: &Container) -> (r: bool)
    ensures
        r == selects(*by, c@),
{
    match by {
        Selection::Prefix(p) => starts_with(c.id.as_str(), p) || starts_with(c.name.as_str(), p),
        Selection::Pids(v) => holds_pid(v, c.pid),
    }
}

/// The global state of the daemon: the containers by id, and the id of each
/// container by its guest PID.
pub struct ContainerState {
    id_map: Vec<Container>,
    pid_id_map: HashMap<i32, String>,
}

impl ContainerState {
    /// The containers, in the order they were added.
    pub closed spec fn containers(self) -> Seq<ContainerView> {
        self.id_map@.map_values(|c: Container| c@)
    }

    /// The primary index: id to container.
    pub open spec fn primary(self) -> Map<Seq<char>, ContainerView> {
        by_id(self.containers())
    }

    /// The secondary index: guest PID to id.
    pub closed spec fn secondary(self) -> Map<i32, Seq<char>> {
        self.pid_id_map@.map_values(|s: String| s@)
    }

    /// Ids and PIDs are unique, and the secondary index holds exactly the
    /// guest PID of each container, mapped to its id.
    pub closed spec fn wf(self) -> bool {
        let cs = self.containers();
        &&& forall|i: int, j: int|
            0 <= i < cs.len() && 0 <= j < cs.len() && i != j ==> #[trigger] cs[i].id != #[trigger] cs[j].id
        &&& forall|i: int, j: int|
            0 <= i < cs.len() && 0 <= j < cs.len() && i != j ==> #[trigger] cs[i].pid != #[trigger] cs[j].pid
        &&& forall|i: int| 0 <= i < cs.len() ==> self.pid_id_map@.contains_key(#[trigger] cs[i].pid)
            && self.pid_id_map@[cs[i].pid]@ == cs[i].id
        &&& forall|p: i32| #[trigger] self.pid_id_map@.contains_key(p) ==> exists|i: int|
            0 <= i < cs.len() && (#[trigger] cs[i]).pid == p
    }

    /// An empty registry.
    pub fn new() -> (r: Self)
        ensures
            r.wf(),
            r.containers() == Seq::<ContainerView>::empty(),
    {
        let r = ContainerState { id_map: Vec::new(), pid_id_map: HashMap::new() };
        assert(r.containers() =~= Seq::<ContainerView>::empty());
        r
    }

    /// A fresh (id, name) pair: a random name (words, `-`, four digits) and
    /// the id derived from it, the lowercase hexadecimal SHA-256 digest of the
    /// name's UTF-8 bytes.
    pub fn generate_id() -> (r: (String, String))
        ensures
            name_shaped(r.1@),
            r.0@ == lower_hex(sha256_of(encode_utf8(r.1@))),
            r.0@.len() == 64,
    {
        let name = random_name();
        let id = id_of(name.as_str());
        (id, name)
    }

    /// Whether a container with this id or this guest PID is registered.
    fn find_clash(&self, id: &str, pid: i32) -> (r: bool)
        requires
            self.wf(),
        ensures
            r == (has_id(self.containers(), id@) || exists|i: int|
                0 <= i < self.containers().len() && (#[trigger] self.containers()[i]).pid == pid),
    {
        let mut i: usize = 0;
        while i < self.id_map.len()
            invariant
                i <= self.id_map@.len(),
                forall|j: int| 0 <= j < i ==> (#[trigger] self.containers()[j]).id != id@
                    && self.containers()[j].pid != pid,
            decreases self.id_map@.len() - i,
        {
            let c = &self.id_map[i];
            assert(self.containers()[i as int] == c@);
            if c.pid == pid || same_text(c.id.as_str(), id) {
                return true;
            }
            i += 1;
        }
        false
    }

    /// Whether a container with id `id` is registered.
    fn find_id(&self, id: &str) -> (r: bool)
        ensures
            r == has_id(self.containers(), id@),
    {
        let mut i: usize = 0;
        while i < self.id_map.len()
            invariant
                i <= self.id_map@.len(),
                forall|j: int| 0 <= j < i ==> (#[trigger] self.containers()[j]).id != id@,
            decreases self.id_map@.len() - i,
        {
            assert(self.containers()[i as int] == self.id_map@[i as int]@);
            if same_text(self.id_map[i].id.as_str(), id) {
                return true;
            }
            i += 1;
        }
        false
    }

    /// Registers `c`. A container with the same id or the same guest PID
    /// already registered makes it `Duplicate`, and nothing changes.
    pub fn insert(&mut self, c: Container) -> (r: Result<(), SquishError>)
        requires
            old(self).wf(),
        ensures
            final(self).wf(),
            r is Err <==> (has_id(old(self).containers(), c.id@) || exists|i: int|
                0 <= i < old(self).containers().len() && (#[trigger] old(self).containers()[i]).pid
                    == c.pid),
            r is Err ==> r == Err::<(), SquishError>(SquishError::Duplicate) && final(self).containers()
                == old(self).containers(),
            r is Ok ==> final(self).containers() == old(self).containers().push(c@),
    {
        if self.find_clash(c.id.as_str(), c.pid) {
            return Err(SquishError::Duplicate);
        }
        let ghost old_cs = self.containers();
        let pid = c.pid;
        let id = c.id.clone();
        self.pid_id_map.insert(pid, id);
        self.id_map.push(c);
        assert(self.containers() =~= old_cs.push(c@));
        assert forall|p: i32| #[trigger] self.pid_id_map@.contains_key(p) implies exists|i: int|
            0 <= i < self.containers().len() && (#[trigger] self.containers()[i]).pid == p by {
            if p != pid {
                let i = choose|i: int| 0 <= i < old_cs.len() && (#[trigger] old_cs[i]).pid == p;
                assert(self.containers()[i] == old_cs[i]);
            } else {
                assert(self.containers()[old_cs.len() as int].pid == p);
            }
        }
        Ok(())
    }

    /// Registers a container created now.
    pub fn add_container(&mut self, pid: i32, slirp_pid: i32, id: &str, name: String) -> (r: Result<
        (),
        SquishError,
    >)
        requires
            old(self).wf(),
        ensures
            final(self).wf(),
            r == Err::<(), SquishError>(SquishError::Duplicate) <==> (has_id(old(self).containers(), id@)
                || exists|i: int|
                0 <= i < old(self).containers().len() && (#[trigger] old(self).containers()[i]).pid
                    == pid),
            r is Err ==> final(self).containers() == old(self).containers(),
            r is Ok ==> exists|t: u128|
                final(self).containers() == old(self).containers().push(
                    ContainerView { name: name@, pid, slirp_pid, id: id@, created_at: t },
                ),
    {
        if self.find_clash(id, pid) {
            return Err(SquishError::Duplicate);
        }
        let created_at = match now() {
            Ok(t) => t,
            Err(e) => {
                return Err(e);
            },
        };
        let c = Container { name, pid, slirp_pid, id: String::from_str(id), created_at };
        self.insert(c)
    }

    /// Removes every container whose id is in `ids`, dropping both index
    /// entries, and returns the PIDs to send SIGTERM to (`signal_targets`),
    /// so that the caller signals them once it has let go of the registry.
    /// Ids that match no container are ignored.
    pub fn remove_all_containers(&mut self, ids: Vec<String>) -> (r: Vec<i32>)
        requires
            old(self).wf(),
        ensures
            final(self).wf(),
            final(self).containers() == old(self).containers().filter(keeps(id_list(ids@))),
            r@ == signal_targets(old(self).containers().filter(drops(id_list(ids@)))),
    {
        self.remove_listed(&ids)
    }

    /// The work of `remove_all_containers`, on borrowed ids.
    fn remove_listed(&mut self, ids: &Vec<String>) -> (r: Vec<i32>)
        requires
            old(self).wf(),
        ensures
            final(self).wf(),
            final(self).containers() == old(self).containers().filter(keeps(id_list(ids@))),
            r@ == signal_targets(old(self).containers().filter(drops(id_list(ids@)))),
    {
        let ghost drop = drops(id_list(ids@));
        let mut sigs: Vec<i32> = Vec::new();
        let ghost cs = self.containers();
        let ghost old_sec = self.pid_id_map@;
        let ghost keep = keeps(id_list(ids@));
        let mut rest: Vec<Container> = Vec::new();
        std::mem::swap(&mut self.id_map, &mut rest);
        let ghost orig = rest@;
        let ghost mut i: int = 0;
        let ghost mut gone: Set<i32> = Set::empty();
        assert(self.containers() =~= cs.subrange(0, 0).filter(keep)) by {
            reveal(Seq::filter);
        }
        assert(sigs@ =~= signal_targets(cs.subrange(0, 0).filter(drop))) by {
            reveal(Seq::filter);
        }
        while rest.len() > 0
            invariant
                0 <= i <= orig.len(),
                orig.len() == cs.len(),
                forall|j: int| 0 <= j < orig.len() ==> (#[trigger] orig[j])@ == cs[j],
                rest@ == orig.subrange(i, orig.len() as int),
                keep == keeps(id_list(ids@)),
                drop == drops(id_list(ids@)),
                sigs@ == signal_targets(cs.subrange(0, i).filter(drop)),
                forall|a: int, b: int|
                    0 <= a < cs.len() && 0 <= b < cs.len() && a != b ==> #[trigger] cs[a].id != #[trigger] cs[b].id,
                forall|a: int, b: int|
                    0 <= a < cs.len() && 0 <= b < cs.len() && a != b ==> #[trigger] cs[a].pid != #[trigger] cs[b].pid,
                forall|j: int| 0 <= j < cs.len() ==> old_sec.contains_key(#[trigger] cs[j].pid)
                    && old_sec[cs[j].pid]@ == cs[j].id,
                forall|p: i32| #[trigger] old_sec.contains_key(p) ==> exists|j: int|
                    0 <= j < cs.len() && (#[trigger] cs[j]).pid == p,
                self.containers() == cs.subrange(0, i).filter(keep),
                forall|a: int| 0 <= a < self.containers().len() ==> exists|j: int|
                    0 <= j < i && cs[j] == #[trigger] self.containers()[a],
                forall|a: int, b: int|
                    0 <= a < self.containers().len() && 0 <= b < self.containers().len() && a != b
                        ==> #[trigger] self.containers()[a].id != #[trigger] self.containers()[b].id,
                forall|a: int, b: int|
                    0 <= a < self.containers().len() && 0 <= b < self.containers().len() && a != b
                        ==> #[trigger] self.containers()[a].pid != #[trigger] self.containers()[b].pid,
                forall|j: int| 0 <= j < i && !keep(#[trigger] cs[j]) ==> gone.contains(cs[j].pid),
                forall|p: i32| #[trigger] gone.contains(p) ==> exists|j: int|
                    0 <= j < i && !keep(cs[j]) && (#[trigger] cs[j]).pid == p,
                self.pid_id_map@ == old_sec.remove_keys(gone),
            decreases rest@.len(),
        {
            let c = rest.remove(0);
            let ghost before = self.containers();
            let ghost prev_sigs = sigs@;
            let ghost dropped = cs.subrange(0, i).filter(drop);
            proof {
                reveal(Seq::filter);
                assert(cs.subrange(0, i + 1).drop_last() =~= cs.subrange(0, i));
                assert(orig[i] == c);
                assert(c@ == cs[i]);
            }
            if lists(ids, c.id.as_str()) {
                self.pid_id_map.remove(&c.pid);
                sigs.push(c.pid);
                sigs.push(c.slirp_pid);
                proof {
                    assert(cs.subrange(0, i + 1).filter(drop) == dropped.push(cs[i]));
                    assert(dropped.push(cs[i]).drop_last() =~= dropped);
                    assert(sigs@ =~= signal_targets(dropped.push(cs[i])));
                    gone = gone.insert(c.pid);
                    assert(self.pid_id_map@ =~= old_sec.remove_keys(gone));
                }
            } else {
                self.id_map.push(c);
                proof {
                    assert(cs.subrange(0, i + 1).filter(drop) == dropped);
                    assert(self.containers() =~= before.push(c@));
                    assert forall|a: int| 0 <= a < before.len() implies (#[trigger] before[a]).id != c@.id
                        && before[a].pid != c@.pid by {
                        let j = choose|j: int| 0 <= j < i && cs[j] == #[trigger] before[a];
                    }
                    assert forall|a: int| 0 <= a < self.containers().len() implies exists|j: int|
                        0 <= j < i + 1 && cs[j] == #[trigger] self.containers()[a] by {
                        if a < before.len() {
                            let j = choose|j: int| 0 <= j < i && cs[j] == #[trigger] before[a];
                            assert(cs[j] == self.containers()[a]);
                        } else {
                            assert(cs[i] == self.containers()[a]);
                        }
                    }
                }
            }
            proof {
                i = i + 1;
            }
        }
        proof {
            assert(cs.subrange(0, i) =~= cs);
            let kept = self.containers();
            assert forall|a: int| 0 <= a < kept.len() implies self.pid_id_map@.contains_key(#[trigger] kept[a].pid)
                && self.pid_id_map@[kept[a].pid]@ == kept[a].id by {
                let j = choose|j: int| 0 <= j < i && cs[j] == #[trigger] kept[a];
                cs.lemma_filter_pred(keep, a);
                if gone.contains(cs[j].pid) {
                    let k = choose|k: int| 0 <= k < i && !keep(cs[k]) && (#[trigger] cs[k]).pid == cs[j].pid;
                }
            }
            assert forall|p: i32| #[trigger] self.pid_id_map@.contains_key(p) implies exists|a: int|
                0 <= a < kept.len() && (#[trigger] kept[a]).pid == p by {
                let j = choose|j: int| 0 <= j < cs.len() && (#[trigger] cs[j]).pid == p;
                cs.lemma_filter_contains(keep, j);
                let a = choose|a: int| 0 <= a < kept.len() && kept[a] == cs[j];
            }
        }
        sigs
    }

    /// Removes the container with id `id`, as `remove_all_containers` does,
    /// and returns the PIDs to signal; `NotFound` when there is none, and
    /// then nothing changes.
    pub fn remove_container(&mut self, id: &str) -> (r: Result<Vec<i32>, SquishError>)
        requires
            old(self).wf(),
        ensures
            final(self).wf(),
            r is Ok <==> has_id(old(self).containers(), id@),
            r matches Err(e) ==> e is NotFound,
            r matches Ok(v) ==> v@ == signal_targets(old(self).containers().filter(named(id@))),
            final(self).containers() == without_id(old(self).containers(), id@),
    {
        let ghost cs = self.containers();
        let ghost same = |c: ContainerView| c.id != id@;
        if !self.find_id(id) {
            proof {
                lemma_filter_agree(cs, same, |c: ContainerView| true);
                lemma_filter_all(cs);
            }
            return Err(SquishError::NotFound);
        }
        let ids = vec![String::from_str(id)];
        proof {
            assert(id_list(ids@) =~= seq![id@]);
            assert forall|i: int| 0 <= i < cs.len() implies keeps(id_list(ids@))(#[trigger] cs[i]) == same(cs[i]) by {
                if cs[i].id == id@ {
                    assert(seq![id@][0] == cs[i].id);
                }
            }
            lemma_filter_agree(cs, keeps(id_list(ids@)), same);
            lemma_filter_agree(cs, drops(id_list(ids@)), named(id@));
        }
        let sigs = self.remove_all_containers(ids);
        Ok(sigs)
    }

    /// Removes the containers that `sel` selects, given their ids in
    /// registry order.
    fn remove_selected(&mut self, sel: Ghost<spec_fn(ContainerView) -> bool>, ids: &Vec<String>) -> (r: Vec<i32>)
        requires
            old(self).wf(),
            id_list(ids@) == old(self).containers().filter(sel@).map_values(|c: ContainerView| c.id),
        ensures
            final(self).wf(),
            final(self).containers() == old(self).containers().filter(|c: ContainerView| !(sel@)(c)),
            r@ == signal_targets(old(self).containers().filter(sel@)),
    {
        let ghost cs = self.containers();
        let ghost f = cs.filter(sel@);
        proof {
            assert forall|i: int| 0 <= i < cs.len() implies keeps(id_list(ids@))(#[trigger] cs[i]) == !(sel@)(cs[i]) by {
                if (sel@)(cs[i]) {
                    cs.lemma_filter_contains(sel@, i);
                    let k = choose|k: int| 0 <= k < f.len() && f[k] == cs[i];
                    assert(id_list(ids@)[k] == cs[i].id);
                } else if id_list(ids@).contains(cs[i].id) {
                    let k = choose|k: int| 0 <= k < id_list(ids@).len() && id_list(ids@)[k] == cs[i].id;
                    assert(f[k].id == cs[i].id);
                    assert(f.contains(f[k]));
                    cs.lemma_filter_contains_rev(sel@, f[k]);
                    cs.lemma_filter_pred(sel@, k);
                    let j = choose|j: int| 0 <= j < cs.len() && cs[j] == f[k];
                    assert(cs[j].id == cs[i].id);
                }
            }
            lemma_filter_agree(cs, keeps(id_list(ids@)), |c: ContainerView| !(sel@)(c));
            assert forall|i: int| 0 <= i < cs.len() implies drops(id_list(ids@))(#[trigger] cs[i]) == (sel@)(cs[i]) by {
                assert(keeps(id_list(ids@))(cs[i]) == !(sel@)(cs[i]));
            }
            lemma_filter_agree(cs, drops(id_list(ids@)), sel@);
        }
        self.remove_listed(ids)
    }

    /// Removes every container that `by` selects, as
    /// `remove_all_containers` does. Returns their ids in registry order, no
    /// two alike, and the PIDs to signal.
    fn remove_where(&mut self, by: Selection) -> (r: (Vec<String>, Vec<i32>))
        requires
            old(self).wf(),
        ensures
            final(self).wf(),
            final(self).containers() == old(self).containers().filter(|c: ContainerView| !selects(by, c)),
            id_list(r.0@) == old(self).containers().filter(selector(by)).map_values(|c: ContainerView| c.id),
            forall|a: int, b: int|
                0 <= a < r.0@.len() && 0 <= b < r.0@.len() && a != b ==> (#[trigger] r.0@[a])@ != (#[trigger] r.0@[b])@,
            r.1@ == signal_targets(old(self).containers().filter(selector(by))),
    {
        let ghost cs = self.containers();
        let ghost sel = selector(by);
        let mut matched: Vec<String> = Vec::new();
        let mut i: usize = 0;
        proof {
            reveal(Seq::filter);
            assert(id_list(matched@) =~= cs.subrange(0, 0).filter(sel).map_values(|c: ContainerView| c.id));
        }
        while i < self.id_map.len()
            invariant
                i <= self.id_map@.len() == cs.len(),
                cs == self.containers(),
                sel == selector(by),
                id_list(matched@) == cs.subrange(0, i as int).filter(sel).map_values(|c: ContainerView| c.id),
                forall|a: int, b: int|
                    0 <= a < cs.len() && 0 <= b < cs.len() && a != b ==> #[trigger] cs[a].id != #[trigger] cs[b].id,
                forall|k: int| 0 <= k < matched@.len() ==> exists|j: int| 0 <= j < i && (#[trigger] matched@[k])@ == cs[j].id,
                forall|a: int, b: int|
                    0 <= a < matched@.len() && 0 <= b < matched@.len() && a != b ==> (#[trigger] matched@[a])@
                        != (#[trigger] matched@[b])@,
            decreases self.id_map@.len() - i,
        {
            let c = &self.id_map[i];
            proof {
                reveal(Seq::filter);
                assert(cs.subrange(0, i + 1).drop_last() =~= cs.subrange(0, i as int));
                assert(cs[i as int] == c@);
            }
            let hit = picks(&by, c);
            let ghost prev = cs.subrange(0, i as int).filter(sel);
            assert(hit == sel(cs[i as int]));
            if hit {
                let ghost before = matched@;
                matched.push(c.id.clone());
                proof {
                    assert forall|k: int| 0 <= k < before.len() implies (#[trigger] before[k])@ != c.id@ by {
                        let j = choose|j: int| 0 <= j < i && (#[trigger] before[k])@ == cs[j].id;
                        assert(cs[j].id != cs[i as int].id);
                    }
                    assert forall|k: int| 0 <= k < matched@.len() implies exists|j: int|
                        0 <= j < i + 1 && (#[trigger] matched@[k])@ == cs[j].id by {
                        if k < before.len() {
                            let j = choose|j: int| 0 <= j < i && (#[trigger] before[k])@ == cs[j].id;
                            assert(matched@[k] == before[k]);
                        } else {
                            assert(matched@[k]@ == cs[i as int].id);
                        }
                    }
                    assert(id_list(matched@) =~= id_list(before).push(c.id@));
                }
            }
            proof {
                if hit {
                    assert(cs.subrange(0, i + 1).filter(sel) == prev.push(cs[i as int]));
                    assert(prev.push(cs[i as int]).map_values(|c: ContainerView| c.id) =~= prev.map_values(
                        |c: ContainerView| c.id,
                    ).push(cs[i as int].id));
                } else {
                    assert(cs.subrange(0, i + 1).filter(sel) == prev);
                }
            }
            i += 1;
        }
        proof {
            assert(cs.subrange(0, i as int) =~= cs);
        }
        let sigs = self.remove_selected(Ghost(sel), &matched);
        proof {
            lemma_filter_agree(cs, |c: ContainerView| !sel(c), |c: ContainerView| !selects(by, c));
        }
        (matched, sigs)
    }

    /// Removes every container whose id or name starts with
    /// `partial_id_or_name` (a prefix match, not a substring match), as
    /// `remove_all_containers` does. Returns their ids in registry order, no
    /// two alike, and the PIDs to signal.
    pub fn fuzzy_remove_container(&mut self, partial_id_or_name: &str) -> (r: (Vec<String>, Vec<i32>))
        requires
            old(self).wf(),
        ensures
            final(self).wf(),
            final(self).containers() == without_matches(old(self).containers(), partial_id_or_name@),
            id_list(r.0@) == matched_ids(old(self).containers(), partial_id_or_name@),
            forall|a: int, b: int|
                0 <= a < r.0@.len() && 0 <= b < r.0@.len() && a != b ==> (#[trigger] r.0@[a])@ != (#[trigger] r.0@[b])@,
            r.1@ == signal_targets(old(self).containers().filter(matches_prefix(partial_id_or_name@))),
    {
        let ghost cs = self.containers();
        let ghost p = partial_id_or_name@;
        let by = Selection::Prefix(partial_id_or_name);
        let r = self.remove_where(by);
        proof {
            lemma_filter_agree(cs, |c: ContainerView| !selects(by, c), |c: ContainerView| !prefix_match(p, c));
            lemma_filter_agree(cs, selector(by), |c: ContainerView| prefix_match(p, c));
            lemma_filter_agree(cs, selector(by), matches_prefix(p));
        }
        r
    }

    /// Removes every container whose guest PID is in `dead`, as
    /// `remove_all_containers` does. Returns their ids in registry order, no
    /// two alike, and the PIDs to signal.
    pub fn reap(&mut self, dead: &Vec<i32>) -> (r: (Vec<String>, Vec<i32>))
        requires
            old(self).wf(),
        ensures
            final(self).wf(),
            final(self).containers() == old(self).containers().filter(|c: ContainerView| !dead@.contains(c.pid)),
            forall|a: int, b: int|
                0 <= a < r.0@.len() && 0 <= b < r.0@.len() && a != b ==> (#[trigger] r.0@[a])@ != (#[trigger] r.0@[b])@,
            r.1@ == signal_targets(old(self).containers().filter(pid_in(dead@))),
            id_list(r.0@) == old(self).containers().filter(|c: ContainerView| dead@.contains(c.pid)).map_values(
                |c: ContainerView| c.id,
            ),
    {
        let ghost cs = self.containers();
        let by = Selection::Pids(dead);
        let r = self.remove_where(by);
        proof {
            lemma_filter_agree(cs, |c: ContainerView| !selects(by, c), |c: ContainerView| !dead@.contains(c.pid));
            lemma_filter_agree(cs, selector(by), |c: ContainerView| dead@.contains(c.pid));
            lemma_filter_agree(cs, selector(by), pid_in(dead@));
        }
        r
    }

    /// What a listing shows of each container, in registry order.
    pub fn running_containers(&self) -> (r: Vec<RunningContainer>)
        ensures
            r@.len() == self.containers().len(),
            forall|i: int| 0 <= i < r@.len() ==> (#[trigger] r@[i]).id@ == self.containers()[i].id
                && r@[i].name@ == self.containers()[i].name && r@[i].pid == self.containers()[i].pid,
    {
        let mut out: Vec<RunningContainer> = Vec::new();
        let mut i: usize = 0;
        while i < self.id_map.len()
            invariant
                i <= self.id_map@.len(),
                out@.len() == i,
                forall|j: int| 0 <= j < i ==> (#[trigger] out@[j]).id@ == self.containers()[j].id
                    && out@[j].name@ == self.containers()[j].name && out@[j].pid == self.containers()[j].pid,
            decreases self.id_map@.len() - i,
        {
            out.push(self.id_map[i].running());
            i += 1;
        }
        out
    }

    /// A copy of the secondary index, as (guest PID, id) pairs in registry
    /// order, for a sweep that runs without the registry.
    pub fn pid_snapshot(&self) -> (r: Vec<(i32, String)>)
        requires
            self.wf(),
        ensures
            r@.len() == self.containers().len(),
            forall|i: int| 0 <= i < r@.len() ==> (#[trigger] r@[i]).0 == self.containers()[i].pid
                && r@[i].1@ == self.containers()[i].id,
            forall|i: int| 0 <= i < r@.len() ==> self.secondary().contains_key((#[trigger] r@[i]).0)
                && self.secondary()[r@[i].0] == r@[i].1@,
            forall|p: i32| #[trigger] self.secondary().contains_key(p) ==> exists|i: int|
                0 <= i < r@.len() && (#[trigger] r@[i]).0 == p,
    {
        let mut out: Vec<(i32, String)> = Vec::new();
        let mut i: usize = 0;
        while i < self.id_map.len()
            invariant
                i <= self.id_map@.len(),
                out@.len() == i,
                forall|j: int| 0 <= j < i ==> (#[trigger] out@[j]).0 == self.containers()[j].pid
                    && out@[j].1@ == self.containers()[j].id,
            decreases self.id_map@.len() - i,
        {
            out.push((self.id_map[i].pid, self.id_map[i].id.clone()));
            i += 1;
        }
        proof {
            let cs = self.containers();
            assert forall|p: i32| #[trigger] self.secondary().contains_key(p) implies exists|i: int|
                0 <= i < out@.len() && (#[trigger] out@[i]).0 == p by {
                assert(self.pid_id_map@.contains_key(p));
                let j = choose|j: int| 0 <= j < cs.len() && (#[trigger] cs[j]).pid == p;
                assert(out@[j].0 == p);
            }
            assert forall|i: int| 0 <= i < out@.len() implies self.secondary().contains_key((#[trigger] out@[i]).0)
                && self.secondary()[out@[i].0] == out@[i].1@ by {
                assert(cs[i].pid == out@[i].0);
            }
        }
        out
    }
}

/// Both indexes move together: an id is registered exactly when its
/// container's guest PID is indexed and maps back to that id, and every
/// indexed PID belongs to a registered container whose id it maps to.
pub proof fn lemma_indexes_agree(s: ContainerState, id: Seq<char>)
    requires
        s.wf(),
    ensures
        s.primary().contains_key(id) <==> (s.secondary().contains_key(s.primary()[id].pid)
            && s.secondary()[s.primary()[id].pid] == id),
        forall|p: i32| #[trigger] s.secondary().contains_key(p) ==> s.primary().contains_key(s.secondary()[p])
            && s.primary()[s.secondary()[p]].pid == p,
{
    let cs = s.containers();
    if s.primary().contains_key(id) {
        let i = choose|i: int| 0 <= i < cs.len() && (#[trigger] cs[i]).id == id;
        assert(s.pid_id_map@.contains_key(cs[i].pid));
    }
    if s.secondary().contains_key(s.primary()[id].pid) && s.secondary()[s.primary()[id].pid] == id {
        let q = s.primary()[id].pid;
        assert(s.pid_id_map@.contains_key(q));
        let j = choose|j: int| 0 <= j < cs.len() && (#[trigger] cs[j]).pid == q;
        assert(cs[j].id == id);
    }
    assert forall|p: i32| #[trigger] s.secondary().contains_key(p) implies s.primary().contains_key(s.secondary()[p])
        && s.primary()[s.secondary()[p]].pid == p by {
        assert(s.pid_id_map@.contains_key(p));
        let j = choose|j: int| 0 <= j < cs.len() && (#[trigger] cs[j]).pid == p;
        let k = cs[j].id;
        assert(has_id(cs, k));
        let i = choose|i: int| 0 <= i < cs.len() && (#[trigger] cs[i]).id == k;
        assert(i == j);
    }
}

/// Removing an id leaves no container with it, so a second removal of the
/// same id finds nothing and leaves the containers as they are.
pub proof fn lemma_remove_twice(cs: Seq<ContainerView>, id: Seq<char>)
    ensures
        !has_id(without_id(cs, id), id),
        without_id(without_id(cs, id), id) == without_id(cs, id),
{
    let pred = |c: ContainerView| c.id != id;
    let w = cs.filter(pred);
    assert forall|i: int| 0 <= i < w.len() implies (#[trigger] w[i]).id != id by {
        cs.lemma_filter_pred(pred, i);
    }
    lemma_filter_agree(w, pred, |c: ContainerView| true);
    lemma_filter_all(w);
}

/// A fuzzy removal keeps exactly the containers that `p` does not match,
/// and reports the id of every container that it does match.
pub proof fn lemma_fuzzy_remove_exact(cs: Seq<ContainerView>, p: Seq<char>)
    ensures
        forall|i: int| 0 <= i < cs.len() ==> (without_matches(cs, p).contains(#[trigger] cs[i]) <==> !prefix_match(p, cs[i])),
        forall|c: ContainerView| #[trigger] without_matches(cs, p).contains(c) ==> cs.contains(c) && !prefix_match(p, c),
        forall|i: int| 0 <= i < cs.len() && prefix_match(p, #[trigger] cs[i]) ==> matched_ids(cs, p).contains(cs[i].id),
{
    let keep = |c: ContainerView| !prefix_match(p, c);
    let hit = |c: ContainerView| prefix_match(p, c);
    let w = cs.filter(keep);
    assert forall|c: ContainerView| #[trigger] w.contains(c) implies cs.contains(c) && !prefix_match(p, c) by {
        cs.lemma_filter_contains_rev(keep, c);
        let k = choose|k: int| 0 <= k < w.len() && w[k] == c;
        cs.lemma_filter_pred(keep, k);
    }
    assert forall|i: int| 0 <= i < cs.len() implies (w.contains(#[trigger] cs[i]) <==> !prefix_match(p, cs[i])) by {
        if !prefix_match(p, cs[i]) {
            cs.lemma_filter_contains(keep, i);
        }
    }
    assert forall|i: int| 0 <= i < cs.len() && prefix_match(p, #[trigger] cs[i]) implies matched_ids(cs, p).contains(cs[i].id) by {
        cs.lemma_filter_contains(hit, i);
        let f = cs.filter(hit);
        let k = choose|k: int| 0 <= k < f.len() && f[k] == cs[i];
        assert(matched_ids(cs, p)[k] == cs[i].id);
    }
}

/// In a well-formed registry no two containers share an id or a guest PID.
pub proof fn lemma_wf_unique(s: ContainerState)
    requires
        s.wf(),
    ensures
        forall|i: int, j: int|
            0 <= i < s.containers().len() && 0 <= j < s.containers().len() && i != j
                ==> #[trigger] s.containers()[i].id != #[trigger] s.containers()[j].id,
        forall|i: int, j: int|
            0 <= i < s.containers().len() && 0 <= j < s.containers().len() && i != j
                ==> #[trigger] s.containers()[i].pid != #[trigger] s.containers()[j].pid,
{
}

/// Every container of a well-formed registry is found under its id in the
/// primary index and under its guest PID in the secondary index.
pub proof fn lemma_registered_indexed(s: ContainerState, c: ContainerView)
    requires
        s.wf(),
        s.containers().contains(c),
    ensures
        s.primary().contains_key(c.id),
        s.primary()[c.id] == c,
        s.secondary().contains_key(c.pid),
        s.secondary()[c.pid] == c.id,
{
    let cs = s.containers();
    let i = choose|i: int| 0 <= i < cs.len() && cs[i] == c;
    assert(has_id(cs, c.id));
    let k = choose|k: int| 0 <= k < cs.len() && (#[trigger] cs[k]).id == c.id;
    assert(k == i);
    assert(s.pid_id_map@.contains_key(cs[i].pid));
}

/// After a fuzzy removal of `p` from `before` leaves `after`, every id left
/// was there before, with the same container, and every container that `p`
/// does not match is still found under its id and under its guest PID.
pub proof fn lemma_fuzzy_remove_indexes(before: ContainerState, after: ContainerState, p: Seq<char>)
    requires
        before.wf(),
        after.wf(),
        after.containers() == without_matches(before.containers(), p),
    ensures
        forall|k: Seq<char>| #[trigger] after.primary().contains_key(k) ==> before.primary().contains_key(k)
            && before.primary()[k] == after.primary()[k],
        forall|c: ContainerView| before.containers().contains(c) && !prefix_match(p, c) ==> {
            &&& after.primary().contains_key(c.id)
            &&& after.primary()[c.id] == c
            &&& after.secondary().contains_key(c.pid)
            &&& after.secondary()[c.pid] == c.id
        },
{
    lemma_fuzzy_remove_exact(before.containers(), p);
    assert forall|k: Seq<char>| #[trigger] after.primary().contains_key(k) implies before.primary().contains_key(k)
        && before.primary()[k] == after.primary()[k] by {
        let cs = after.containers();
        let i = choose|i: int| 0 <= i < cs.len() && (#[trigger] cs[i]).id == k;
        assert(cs.contains(cs[i]));
        lemma_registered_indexed(after, cs[i]);
        lemma_registered_indexed(before, cs[i]);
    }
    assert forall|c: ContainerView| before.containers().contains(c) && !prefix_match(p, c) implies {
        &&& after.primary().contains_key(c.id)
        &&& after.primary()[c.id] == c
        &&& after.secondary().contains_key(c.pid)
        &&& after.secondary()[c.pid] == c.id
    } by {
        let j = choose|j: int| 0 <= j < before.containers().len() && before.containers()[j] == c;
        assert(without_matches(before.containers(), p).contains(before.containers()[j]));
        lemma_registered_indexed(after, c);
    }
}

} // verus!
