//! Reading the current cgroup: its path, its enclosing slice, and the
//! controllers delegated to it.

use vstd::prelude::*;
use vstd::string::{StrSliceExecFns, StringExecFns};

use crate::error::SquishError;
use crate::text::{
    after_last_slash, basename, ends_at, is_suffix, same_text, sep_of, split_by, split_pieces, trim, trimmed, views,
};

verus! {

/// A kind of cgroup controller.
#[derive(Clone, Copy, Debug, PartialEq, Eq, Structural)]
pub enum Controller {
    Cpu,
    Cpuset,
    Freezer,
    Hugetlb,
    Io,
    Memory,
    PerfEvent,
    Pids,
    Rdma,
}

/// The controller that a name in `cgroup.controllers` stands for.
pub open spec fn controller_of(s: Seq<char>) -> Option<Controller> {
    if s == "cpu"@ { Some(Controller::Cpu) }
    else if s == "cpuset"@ { Some(Controller::Cpuset) }
    else if s == "freezer"@ { Some(Controller::Freezer) }
    else if s == "hugetlb"@ { Some(Controller::Hugetlb) }
    else if s == "io"@ { Some(Controller::Io) }
    else if s == "memory"@ { Some(Controller::Memory) }
    else if s == "perf_event"@ { Some(Controller::PerfEvent) }
    else if s == "pids"@ { Some(Controller::Pids) }
    else if s == "rdma"@ { Some(Controller::Rdma) }
    else { None }
}

/// The controller named `delegation`; `CgroupDelegationInvalid` for a name
/// that is none.
pub fn delegation_to_controller(delegation: &str) -> (r: Result<Controller, SquishError>)
    ensures
        controller_of(delegation@) matches Some(c) ==> r == Ok::<Controller, SquishError>(c),
        controller_of(delegation@) is None ==> r matches Err(SquishError::CgroupDelegationInvalid),
{
    if same_text(delegation, "cpu") { Ok(Controller::Cpu) }
    else if same_text(delegation, "cpuset") { Ok(Controller::Cpuset) }
    else if same_text(delegation, "freezer") { Ok(Controller::Freezer) }
    else if same_text(delegation, "hugetlb") { Ok(Controller::Hugetlb) }
    else if same_text(delegation, "io") { Ok(Controller::Io) }
    else if same_text(delegation, "memory") { Ok(Controller::Memory) }
    else if same_text(delegation, "perf_event") { Ok(Controller::PerfEvent) }
    else if same_text(delegation, "pids") { Ok(Controller::Pids) }
    else if same_text(delegation, "rdma") { Ok(Controller::Rdma) }
    else { Err(SquishError::CgroupDelegationInvalid) }
}

/// The whitespace-separated words of `s`.
pub open spec fn words(s: Seq<char>) -> Seq<Seq<char>> {
    split_by(s, sep_of(true)).filter(|w: Seq<char>| w.len() > 0)
}

/// Every word of `s` names a controller.
pub open spec fn all_known(s: Seq<char>) -> bool {
    forall|i: int| 0 <= i < words(s).len() ==> (#[trigger] controller_of(words(s)[i])) is Some
}

/// The controllers that a `cgroup.controllers` file lists, in order;
/// `CgroupDelegationInvalid` when a word names none.
pub fn parse_cgroup_controller_delegations(delegations: &str) -> (r: Result<Vec<Controller>, SquishError>)
    ensures
        r is Ok <==> all_known(delegations@),
        r matches Ok(v) ==> v@ == words(delegations@).map_values(|w: Seq<char>| controller_of(w).unwrap()),
        r matches Err(e) ==> e is CgroupDelegationInvalid,
{
    let pieces = split_pieces(delegations, true);
    let ghost all = views(pieces@);
    let ghost keep = |w: Seq<char>| w.len() > 0;
    let mut out: Vec<Controller> = Vec::new();
    let mut i: usize = 0;
    proof {
        reveal(Seq::filter);
        assert(all.subrange(0, 0).filter(keep) =~= Seq::<Seq<char>>::empty());
    }
    assert(out@ =~= all.subrange(0, 0).filter(keep).map_values(|w: Seq<char>| controller_of(w).unwrap()));
    while i < pieces.len()
        invariant
            i <= pieces@.len() == all.len(),
            all == views(pieces@),
            all == split_by(delegations@, sep_of(true)),
            keep == (|w: Seq<char>| w.len() > 0),
            out@ == all.subrange(0, i as int).filter(keep).map_values(|w: Seq<char>| controller_of(w).unwrap()),
            forall|j: int| 0 <= j < all.subrange(0, i as int).filter(keep).len() ==>
                (#[trigger] controller_of(all.subrange(0, i as int).filter(keep)[j])) is Some,
        decreases pieces@.len() - i,
    {
        let w = pieces[i].as_str();
        let ghost prev = all.subrange(0, i as int).filter(keep);
        proof {
            reveal(Seq::filter);
            assert(all.subrange(0, i + 1).drop_last() =~= all.subrange(0, i as int));
            assert(all[i as int] == w@);
        }
        if w.unicode_len() > 0 {
            assert(all.subrange(0, i + 1).filter(keep) == prev.push(w@));
            match delegation_to_controller(w) {
                Ok(c) => {
                    let ghost before = out@;
                    out.push(c);
                    assert(out@ =~= prev.push(w@).map_values(|w: Seq<char>| controller_of(w).unwrap()));
                },
                Err(e) => {
                    proof {
                        assert(all.filter(keep) == words(delegations@));
                        lemma_filter_prefix(all, keep, i as int + 1);
                        let k = prev.len() as int;
                        assert(all.subrange(0, i + 1).filter(keep)[k] == w@);
                        assert(words(delegations@)[k] == w@);
                    }
                    return Err(e);
                },
            }
        } else {
            assert(all.subrange(0, i + 1).filter(keep) == prev);
        }
        i += 1;
    }
    assert(all.subrange(0, i as int) =~= all);
    assert(all.filter(keep) == words(delegations@));
    Ok(out)
}

/// Filtering a prefix gives a prefix of the filtered sequence.
proof fn lemma_filter_prefix(s: Seq<Seq<char>>, p: spec_fn(Seq<char>) -> bool, n: int)
    requires
        0 <= n <= s.len(),
    ensures
        s.subrange(0, n).filter(p).len() <= s.filter(p).len(),
        forall|j: int| 0 <= j < s.subrange(0, n).filter(p).len() ==> #[trigger] s.filter(p)[j] == s.subrange(0, n).filter(p)[j],
    decreases s.len() - n,
{
    reveal(Seq::filter);
    if n < s.len() {
        lemma_filter_prefix(s, p, n + 1);
        assert(s.subrange(0, n + 1).drop_last() =~= s.subrange(0, n));
    } else {
        assert(s.subrange(0, n) =~= s);
    }
}

/// Position `k` of `path` ends a component whose name ends in `.slice`.
pub open spec fn is_slice_end(path: Seq<char>, k: int) -> bool {
    0 <= k <= path.len() && (k == path.len() || path[k] == '/') && is_suffix(".slice"@, path.subrange(0, k))
}

/// The cgroup path up to its innermost slice: the longest prefix of `cgroup`
/// that ends with a component whose name ends in `.slice`;
/// `CgroupNoMoreSlices` when there is no such component.
pub fn detect_current_cgroup_cgroup_slice_recursive(cgroup: &String) -> (r: Result<String, SquishError>)
    ensures
        r is Err <==> forall|k: int| !is_slice_end(cgroup@, k),
        r matches Err(e) ==> e is CgroupNoMoreSlices,
        r matches Ok(s) ==> exists|k: int| is_slice_end(cgroup@, k) && s@ == cgroup@.subrange(0, k)
            && forall|j: int| k < j ==> !is_slice_end(cgroup@, j),
{
    let s = cgroup.as_str();
    let m = s.unicode_len();
    let mut k: usize = m;
    loop
        invariant
            k <= m == s@.len(),
            s@ == cgroup@,
            forall|j: int| k < j ==> !is_slice_end(s@, j),
        decreases k,
    {
        let boundary = k == m || s.get_char(k) == '/';
        if boundary && ends_at(s, k, ".slice") {
            assert(s@ == cgroup@);
            assert(is_slice_end(cgroup@, k as int));
            let r = String::from_str(s.substring_char(0, k));
            assert(r@ == cgroup@.subrange(0, k as int));
            return Ok(r);
        }
        assert(!is_slice_end(s@, k as int));
        if k == 0 {
            assert forall|j: int| !is_slice_end(s@, j) by {
                if j < 0 {
                }
            }
            return Err(SquishError::CgroupNoMoreSlices);
        }
        k -= 1;
    }
}

/// The name of a slice: the last component of its path.
pub fn slice_name(slice: &str) -> (r: String)
    ensures
        r@ == basename(slice@),
{
    after_last_slash(slice)
}

/// The cgroup path in the contents of `/proc/self/cgroup`: the third
/// colon-separated field of the trimmed text; `None` when it has fewer than
/// three.
pub fn cgroup_from_proc(info: &str) -> (r: Option<String>)
    ensures
        split_by(trim(info@), sep_of(false)).len() > 2 ==> (r matches Some(s) && s@ == split_by(
            trim(info@),
            sep_of(false),
        )[2]),
        split_by(trim(info@), sep_of(false)).len() <= 2 ==> r is None,
{
    let t = trimmed(info);
    let fields = split_pieces(t.as_str(), false);
    if fields.len() > 2 {
        assert(views(fields@)[2] == fields@[2]@);
        Some(fields[2].clone())
    } else {
        None
    }
}

/// The cgroup filesystem path of a cgroup.
pub fn cgroup_fs_path(cgroup: &str) -> (r: String)
    ensures
        r@ == "/sys/fs/cgroup"@ + cgroup@,
{
    let mut r = String::from_str("/sys/fs/cgroup");
    r.append(cgroup);
    r
}

} // verus!
