//! Ordering of a set of WIT packages so that every package is loaded after
//! the packages it depends on.
//!
//! The working set is one primary package plus its dependency packages, each
//! declaring the names of the foreign packages it references. A name that
//! resolves to no dependency package is treated as externally supplied and
//! skipped. Two packages sharing a name, or a package that depends on itself
//! directly or through others, abort the ordering.

use vstd::prelude::*;
use vstd::set_lib::{lemma_int_range, lemma_len_subset, set_int_range};

use crate::error::WadmError;
use crate::strutil::{clone_strings, str_eq};

verus! {

/// View of a dependency package.
#[verifier::ext_equal]
pub ghost struct SpecPackage {
    pub name: Seq<char>,
    pub deps: Seq<Seq<char>>,
}

/// A WIT package of the working set: its name and the names of the foreign
/// packages it references.
pub struct DependencyPackage {
    pub name: String,
    pub deps: Vec<String>,
}

impl View for DependencyPackage {
    type V = SpecPackage;

    open spec fn view(&self) -> SpecPackage {
        SpecPackage { name: self.name@, deps: self.deps.deep_view() }
    }
}

impl Clone for DependencyPackage {
    /// An equal copy of the package.
    fn clone(&self) -> (r: Self)
        ensures
            r@ == self@,
    {
        DependencyPackage { name: self.name.clone(), deps: clone_strings(&self.deps) }
    }
}

/// Views of a sequence of packages.
pub open spec fn pkg_views(s: Seq<DependencyPackage>) -> Seq<SpecPackage> {
    s.map_values(|p: DependencyPackage| p@)
}

/// The package references the name among its foreign dependencies.
pub open spec fn package_has_dep(p: SpecPackage, nm: Seq<char>) -> bool {
    exists|d: int| 0 <= d < p.deps.len() && p.deps[d] == nm
}

/// Package `x` references package `y` of the set by name.
pub open spec fn spec_edge(pkgs: Seq<SpecPackage>, x: int, y: int) -> bool {
    &&& 0 <= x < pkgs.len()
    &&& 0 <= y < pkgs.len()
    &&& package_has_dep(pkgs[x], pkgs[y].name)
}

/// `c` is a dependency cycle of the set: consecutive members reference each
/// other and the last references the first. A single self-referencing package
/// is the shortest cycle.
pub open spec fn spec_cycle(pkgs: Seq<SpecPackage>, c: Seq<int>) -> bool {
    &&& c.len() > 0
    &&& forall|k: int| #![trigger c[k]] 0 <= k < c.len() - 1 ==> spec_edge(pkgs, c[k], c[k + 1])
    &&& spec_edge(pkgs, c[c.len() - 1], c[0])
}

/// The set contains a dependency cycle.
pub open spec fn spec_has_cycle(pkgs: Seq<SpecPackage>) -> bool {
    exists|c: Seq<int>| spec_cycle(pkgs, c)
}

/// A package named `nm` lies on some dependency cycle of the set.
pub open spec fn spec_on_cycle(pkgs: Seq<SpecPackage>, nm: Seq<char>) -> bool {
    exists|c: Seq<int>, k: int|
        spec_cycle(pkgs, c) && 0 <= k < c.len() && pkgs[c[k]].name == nm
}

/// Two packages of the set share a name.
pub open spec fn spec_has_dup(pkgs: Seq<SpecPackage>) -> bool {
    exists|i: int, j: int| 0 <= i < j < pkgs.len() && pkgs[i].name == pkgs[j].name
}

/// `nm` is a name shared by two packages of the set.
pub open spec fn spec_dup_name(pkgs: Seq<SpecPackage>, nm: Seq<char>) -> bool {
    exists|i: int, j: int|
        0 <= i < j < pkgs.len() && pkgs[i].name == pkgs[j].name && pkgs[j].name == nm
}

/// All packages of the set have distinct names.
pub open spec fn unique_names(pkgs: Seq<SpecPackage>) -> bool {
    forall|i: int, j: int| 0 <= i < j < pkgs.len() ==> pkgs[i].name != pkgs[j].name
}

/// Views of a vector of adjacency rows.
pub open spec fn adj_views(a: Seq<Vec<usize>>) -> Seq<Seq<usize>> {
    a.map_values(|v: Vec<usize>| v@)
}

/// Finds a package with the given name among the first `limit` entries.
fn find_package(all: &Vec<DependencyPackage>, limit: usize, name: &str) -> (r: Option<usize>)
    requires
        limit <= all@.len(),
    ensures
        match r {
            Some(j) => j < limit && pkg_views(all@)[j as int].name == name@,
            None => forall|j: int| 0 <= j < limit ==> pkg_views(all@)[j].name != name@,
        },
{
    let mut j: usize = 0;
    while j < limit
        invariant
            limit <= all@.len(),
            j <= limit,
            forall|k: int| 0 <= k < j ==> pkg_views(all@)[k].name != name@,
        decreases limit - j,
    {
        if str_eq(all[j].name.as_str(), name) {
            return Some(j);
        }
        j += 1;
    }
    None
}

/// The adjacency rows describe the set exactly: each entry is a dependency
/// package the row's package references, and every reference to a dependency
/// package appears in the row. The primary package — the last of the set — is
/// never a target.
pub open spec fn adj_wf(adj: Seq<Seq<usize>>, pkgs: Seq<SpecPackage>) -> bool {
    &&& adj.len() == pkgs.len()
    &&& forall|x: int, t: int|
        0 <= x < pkgs.len() && 0 <= t < adj[x].len() ==> (adj[x][t] as int) < pkgs.len() - 1
            && package_has_dep(pkgs[x], pkgs[adj[x][t] as int].name)
    &&& forall|x: int, y: int|
        0 <= x < pkgs.len() && 0 <= y < pkgs.len() - 1 && package_has_dep(pkgs[x], pkgs[y].name)
            ==> adj[x].contains(y as usize)
}

/// Every adjacency target of the package at position `p` of `order` is
/// emitted at an earlier position.
pub open spec fn deps_emitted_before(
    adj: Seq<Seq<usize>>,
    order: Seq<usize>,
    p: int,
    t: int,
) -> bool {
    exists|q: int| 0 <= q < p && order[q] == adj[order[p] as int][t]
}

/// The traversal state: `order` holds finished packages, each after all the
/// dependency packages it references; `done` marks exactly the members of
/// `order`; `visiting` marks exactly the members of the active path, which
/// descends along references.
pub open spec fn st_inv(
    adj: Seq<Seq<usize>>,
    pkgs: Seq<SpecPackage>,
    visiting: Seq<bool>,
    done: Seq<bool>,
    order: Seq<usize>,
    path: Seq<int>,
) -> bool {
    &&& adj_wf(adj, pkgs)
    &&& unique_names(pkgs)
    &&& visiting.len() == pkgs.len()
    &&& done.len() == pkgs.len()
    &&& forall|p: int|
        0 <= p < order.len() ==> (order[p] as int) < pkgs.len() && done[order[p] as int]
    &&& forall|x: int| 0 <= x < pkgs.len() && done[x] ==> order.contains(x as usize)
    &&& order.no_duplicates()
    &&& forall|p: int, t: int|
        0 <= p < order.len() && 0 <= t < adj[order[p] as int].len() ==> #[trigger] deps_emitted_before(adj, order, p, t)
    &&& forall|k: int| 0 <= k < path.len() ==> 0 <= #[trigger] path[k] < pkgs.len() - 1
    &&& path.no_duplicates()
    &&& forall|x: int| 0 <= x < pkgs.len() ==> (visiting[x] <==> path.contains(x))
    &&& forall|k: int|
        0 <= k < path.len() - 1 ==> #[trigger] package_has_dep(pkgs[path[k]], pkgs[path[k + 1]].name)
}

/// A sequence of distinct integers drawn from `0 .. n` has at most `n`
/// members.
proof fn lemma_distinct_bounded(s: Seq<int>, n: int)
    requires
        0 <= n,
        s.no_duplicates(),
        forall|k: int| 0 <= k < s.len() ==> 0 <= #[trigger] s[k] < n,
    ensures
        s.len() <= n,
{
    broadcast use vstd::seq_lib::seq_to_set_is_finite;

    s.unique_seq_to_set();
    assert forall|x: int| s.to_set().contains(x) implies set_int_range(0, n).contains(x) by {
        let k = choose|k: int| 0 <= k < s.len() && s[k] == x;
        assert(0 <= s[k] < n);
    }
    assert(s.to_set().subset_of(set_int_range(0, n)));
    lemma_int_range(0, n);
    lemma_len_subset(s.to_set(), set_int_range(0, n));
}

/// Depth-first traversal of one package: finishes every dependency package it
/// references before finishing the package itself, and fails on the cycles it
/// uncovers.
fn visit(
    adj: &Vec<Vec<usize>>,
    all: &Vec<DependencyPackage>,
    i: usize,
    visiting: &mut Vec<bool>,
    done: &mut Vec<bool>,
    order: &mut Vec<usize>,
    Ghost(path): Ghost<Seq<int>>,
) -> (r: Result<(), WadmError>)
    requires
        st_inv(
            adj_views(adj@),
            pkg_views(all@),
            old(visiting)@,
            old(done)@,
            old(order)@,
            path,
        ),
        (i as int) < all@.len(),
        path.len() > 0 ==> path.last() == i as int,
    ensures
        r is Ok ==> st_inv(
            adj_views(adj@),
            pkg_views(all@),
            final(visiting)@,
            final(done)@,
            final(order)@,
            path,
        ),
        r is Ok ==> final(visiting)@ == old(visiting)@,
        r is Ok ==> final(done)@[i as int],
        r is Ok ==> forall|x: int| 0 <= x < all@.len() && old(done)@[x] ==> final(done)@[x],
        r is Ok ==> forall|x: int|
            0 <= x < all@.len() && !old(done)@[x] && final(done)@[x] ==> x == i as int || x
                < all@.len() - 1,
        r is Ok ==> old(order)@.is_prefix_of(final(order)@),
        r is Ok && !old(done)@[i as int] && (i as int) == all@.len() - 1 ==> final(order)@.len()
            > 0 && final(order)@.last() == i,
        r matches Err(e) ==> e matches WadmError::DependencyCycle(nm) && spec_on_cycle(
            pkg_views(all@).drop_last(),
            nm@,
        ),
    decreases all@.len() - path.len(),
{
    let ghost pkgs = pkg_views(all@);
    let ghost n = pkgs.len() as int;
    if done[i] {
        return Ok(());
    }
    let row_len = adj[i].len();
    let mut t: usize = 0;
    while t < row_len
        invariant
            st_inv(adj_views(adj@), pkgs, visiting@, done@, order@, path),
            pkgs == pkg_views(all@),
            n == pkgs.len(),
            (i as int) < n,
            row_len == adj_views(adj@)[i as int].len(),
            t <= row_len,
            path.len() > 0 ==> path.last() == i as int,
            old(done)@.len() == n,
            old(visiting)@.len() == n,
            forall|u: int| 0 <= u < t ==> done@[adj_views(adj@)[i as int][u] as int],
            visiting@ == old(visiting)@,
            forall|x: int| 0 <= x < n && old(done)@[x] ==> done@[x],
            forall|x: int| 0 <= x < n && !old(done)@[x] && done@[x] ==> x < n - 1,
            old(order)@.is_prefix_of(order@),
        decreases row_len - t,
    {
        let d = adj[i][t];
        proof {
            assert(adj_views(adj@)[i as int][t as int] == d);
            assert((d as int) < n - 1 && package_has_dep(pkgs[i as int], pkgs[d as int].name));
        }
        if visiting[d] {
            proof {
                let dv = pkgs.drop_last();
                assert(path.contains(d as int));
                let q = choose|q: int| 0 <= q < path.len() && path[q] == d as int;
                let c = path.subrange(q, path.len() as int);
                assert(c.len() > 0);
                assert(c[0] == d as int);
                assert(c[c.len() - 1] == path.last());
                assert(path.last() == i as int);
                assert forall|k: int| 0 <= k < c.len() - 1 implies #[trigger] spec_edge(dv, c[k], c[k + 1]) by {
                    assert(c[k] == path[q + k]);
                    assert(c[k + 1] == path[q + k + 1]);
                    assert(package_has_dep(pkgs[path[q + k]], pkgs[path[q + k + 1]].name));
                    assert(dv[c[k]] == pkgs[c[k]]);
                    assert(dv[c[k + 1]] == pkgs[c[k + 1]]);
                }
                assert(dv[i as int] == pkgs[i as int]);
                assert(dv[d as int] == pkgs[d as int]);
                assert(spec_edge(dv, c[c.len() - 1], c[0]));
                assert(spec_cycle(dv, c));
                assert(dv[c[c.len() - 1]].name == all@[i as int]@.name);
                assert(spec_on_cycle(dv, all@[i as int]@.name));
            }
            return Err(WadmError::DependencyCycle(all[i].name.clone()));
        }
        let ghost pre_visiting = visiting@;
        visiting.set(d, true);
        let ghost new_path = path.push(d as int);
        proof {
            assert(!path.contains(d as int));
            assert forall|x: int| 0 <= x < n implies (visiting@[x] <==> new_path.contains(x)) by {
                if x == d as int {
                    assert(new_path[new_path.len() - 1] == d as int);
                } else {
                    assert(new_path.contains(x) <==> path.contains(x)) by {
                        if new_path.contains(x) {
                            let w = choose|w: int|
                                0 <= w < new_path.len() && new_path[w] == x;
                            assert(w < path.len() && path[w] == x);
                        }
                        if path.contains(x) {
                            let w = choose|w: int| 0 <= w < path.len() && path[w] == x;
                            assert(new_path[w] == x);
                        }
                    }
                }
            }
            assert(new_path.drop_last() =~= path);
            assert forall|k: int| 0 <= k < new_path.len() - 1 implies #[trigger] package_has_dep(
                pkgs[new_path[k]],
                pkgs[new_path[k + 1]].name,
            ) by {
                if k < path.len() - 1 {
                    assert(new_path[k] == path[k]);
                    assert(new_path[k + 1] == path[k + 1]);
                } else {
                    assert(new_path[k] == path.last());
                    assert(new_path[k + 1] == d as int);
                }
            }
            assert(new_path.no_duplicates()) by {
                assert forall|p: int, q: int|
                    0 <= p < q < new_path.len() implies new_path[p] != new_path[q] by {
                    if q == new_path.len() - 1 {
                        assert(new_path[p] == path[p]);
                        assert(new_path[q] == d as int);
                        assert(!path.contains(d as int));
                        if path[p] == d as int {
                            assert(path.contains(d as int));
                        }
                    } else {
                        assert(new_path[p] == path[p]);
                        assert(new_path[q] == path[q]);
                    }
                }
            }
            assert forall|k: int| 0 <= k < new_path.len() implies 0 <= #[trigger] new_path[k] < n
                - 1 by {
                if k < path.len() {
                    assert(new_path[k] == path[k]);
                } else {
                    assert(new_path[k] == d as int);
                }
            }
            lemma_distinct_bounded(new_path, n - 1);
        }
        match visit(adj, all, d, visiting, done, order, Ghost(new_path)) {
            Ok(()) => {},
            Err(e) => {
                return Err(e);
            },
        }
        visiting.set(d, false);
        proof {
            assert(visiting@ =~= pre_visiting);
        }
        t += 1;
    }
    if !done[i] {
        let ghost pre_order = order@;
        done.set(i, true);
        order.push(i);
        proof {
            assert(!pre_order.contains(i)) by {
                if pre_order.contains(i) {
                    let w = choose|w: int| 0 <= w < pre_order.len() && pre_order[w] == i;
                }
            }
            assert(order@.no_duplicates()) by {
                assert forall|p: int, q: int|
                    0 <= p < q < order@.len() implies order@[p] != order@[q] by {
                    if q == order@.len() - 1 {
                        assert(order@[p] == pre_order[p]);
                    } else {
                        assert(order@[p] == pre_order[p]);
                        assert(order@[q] == pre_order[q]);
                    }
                }
            }
            assert forall|x: int| 0 <= x < n && done@[x] implies order@.contains(x as usize) by {
                if x == i as int {
                    assert(order@[order@.len() - 1] == i);
                } else {
                    assert(pre_order.contains(x as usize));
                    let w = choose|w: int|
                        0 <= w < pre_order.len() && pre_order[w] == x as usize;
                    assert(order@[w] == x as usize);
                }
            }
            assert forall|p: int, t2: int|
                0 <= p < order@.len() && 0 <= t2 < adj_views(adj@)[order@[p] as int].len() implies
                #[trigger] deps_emitted_before(adj_views(adj@), order@, p, t2) by {
                if p < order@.len() - 1 {
                    assert(order@[p] == pre_order[p]);
                    assert(deps_emitted_before(adj_views(adj@), pre_order, p, t2));
                    let q = choose|q: int|
                        0 <= q < p && pre_order[q] == adj_views(adj@)[pre_order[p] as int][t2];
                    assert(order@[q] == adj_views(adj@)[order@[p] as int][t2]);
                } else {
                    assert(order@[p] == i);
                    let tgt = adj_views(adj@)[i as int][t2];
                    assert(done@[tgt as int]);
                    assert(pre_order.contains(tgt));
                    let q = choose|q: int| 0 <= q < pre_order.len() && pre_order[q] == tgt;
                    assert(order@[q] == tgt);
                }
            }
        }
    }
    Ok(())
}

/// Every package of the ordering stands after the dependency packages it
/// references; the last position, reserved for the primary package, is
/// exempt as a target.
pub open spec fn spec_topo_ordered(out: Seq<SpecPackage>) -> bool {
    forall|x: int, y: int|
        0 <= x < out.len() && 0 <= y < out.len() - 1 && #[trigger] package_has_dep(
            out[x],
            out[y].name,
        ) ==> y < x
}

/// Every package of `pkgs` occurs in `out`.
pub open spec fn spec_covers(pkgs: Seq<SpecPackage>, out: Seq<SpecPackage>) -> bool {
    forall|x: int|
        0 <= x < pkgs.len() ==> exists|p: int| 0 <= p < out.len() && out[p] == #[trigger] pkgs[x]
}

/// A position of `v` in `out`, when one exists.
spec fn pos_of(out: Seq<SpecPackage>, v: SpecPackage) -> int {
    choose|p: int| 0 <= p < out.len() && out[p] == v
}

/// Walking a dependency cycle through a topological ordering, positions
/// strictly descend: the `k`-th member sits at least `k` places before the
/// first.
proof fn lemma_cycle_descent(
    pkgs: Seq<SpecPackage>,
    primary: SpecPackage,
    out: Seq<SpecPackage>,
    c: Seq<int>,
    k: int,
)
    requires
        unique_names(pkgs.push(primary)),
        out.len() == pkgs.len() + 1,
        out.last() == primary,
        spec_covers(pkgs, out),
        spec_topo_ordered(out),
        spec_cycle(pkgs, c),
        0 <= k < c.len(),
    ensures
        0 <= pos_of(out, pkgs[c[k]]) < out.len(),
        out[pos_of(out, pkgs[c[k]])] == pkgs[c[k]],
        pos_of(out, pkgs[c[k]]) <= pos_of(out, pkgs[c[0]]) - k,
    decreases k,
{
    if k == 0 {
        assert(spec_edge(pkgs, c[c.len() - 1], c[0]));
        assert(0 <= c[0] < pkgs.len());
        assert(exists|p: int| 0 <= p < out.len() && out[p] == pkgs[c[0]]);
    } else {
        lemma_cycle_descent(pkgs, primary, out, c, k - 1);
        assert(spec_edge(pkgs, c[k - 1], c[k]));
        assert(exists|p: int| 0 <= p < out.len() && out[p] == pkgs[c[k]]);
        let pk = pos_of(out, pkgs[c[k]]);
        let pk1 = pos_of(out, pkgs[c[k - 1]]);
        assert(out[pk] == pkgs[c[k]]);
        assert(out[pk1] == pkgs[c[k - 1]]);
        if pk == out.len() - 1 {
            assert(pkgs[c[k]].name == primary.name);
            assert(pkgs.push(primary)[c[k]] == pkgs[c[k]]);
            assert(pkgs.push(primary)[pkgs.len() as int] == primary);
            assert(false);
        }
        assert(package_has_dep(out[pk1], out[pk].name));
        assert(pk < pk1);
    }
}

/// A working set that some ordering arranges with every package after the
/// dependency packages it references is free of dependency cycles: on cyclic
/// input the orderer can only fail, never produce an ordering.
pub proof fn lemma_cycle_has_no_order(
    pkgs: Seq<SpecPackage>,
    primary: SpecPackage,
    out: Seq<SpecPackage>,
)
    requires
        unique_names(pkgs.push(primary)),
        out.len() == pkgs.len() + 1,
        out.last() == primary,
        spec_covers(pkgs, out),
        spec_topo_ordered(out),
    ensures
        !spec_has_cycle(pkgs),
{
    if spec_has_cycle(pkgs) {
        let c = choose|c: Seq<int>| spec_cycle(pkgs, c);
        let last = c.len() - 1;
        lemma_cycle_descent(pkgs, primary, out, c, last);
        lemma_cycle_descent(pkgs, primary, out, c, 0);
        let p_last = pos_of(out, pkgs[c[last]]);
        let p0 = pos_of(out, pkgs[c[0]]);
        assert(spec_edge(pkgs, c[last], c[0]));
        if p0 == out.len() - 1 {
            assert(pkgs[c[0]].name == primary.name);
            assert(pkgs.push(primary)[c[0]] == pkgs[c[0]]);
            assert(pkgs.push(primary)[pkgs.len() as int] == primary);
        }
        assert(package_has_dep(out[p_last], out[p0].name));
        assert(p0 < p_last);
    }
}

/// Rows `0 .. upto` of the adjacency describe the set exactly.
spec fn rows_wf(adjv: Seq<Seq<usize>>, pkgs: Seq<SpecPackage>, upto: int) -> bool {
    &&& forall|x: int, t: int|
        0 <= x < upto && 0 <= t < adjv[x].len() ==> ((#[trigger] adjv[x][t]) as int) < pkgs.len()
            - 1 && package_has_dep(pkgs[x], pkgs[adjv[x][t] as int].name)
    &&& forall|x: int, y: int, dd: int|
        #![trigger pkgs[y].name, pkgs[x].deps[dd]]
        0 <= x < upto && 0 <= y < pkgs.len() - 1 && 0 <= dd < pkgs[x].deps.len()
            && pkgs[x].deps[dd] == pkgs[y].name ==> adjv[x].contains(y as usize)
}

/// Detects a shared package name in the working set.
fn check_duplicates(all: &Vec<DependencyPackage>) -> (r: Option<String>)
    ensures
        match r {
            None => unique_names(pkg_views(all@)),
            Some(nm) => spec_dup_name(pkg_views(all@), nm@),
        },
{
    let ghost pkgs = pkg_views(all@);
    let n = all.len();
    let mut j: usize = 1;
    while j < n
        invariant
            n == all@.len(),
            pkgs == pkg_views(all@),
            1 <= j,
            forall|a: int, b: int| 0 <= a < b < j ==> pkgs[a].name != pkgs[b].name,
        decreases n - j,
    {
        let mut a: usize = 0;
        while a < j
            invariant
                n == all@.len(),
                pkgs == pkg_views(all@),
                j < n,
                a <= j,
                forall|b: int| 0 <= b < a ==> pkgs[b].name != pkgs[j as int].name,
            decreases j - a,
        {
            if str_eq(all[a].name.as_str(), all[j].name.as_str()) {
                proof {
                    assert(pkgs[a as int].name == pkgs[j as int].name);
                    assert(spec_dup_name(pkgs, all@[j as int]@.name));
                }
                return Some(all[j].name.clone());
            }
            a += 1;
        }
        j += 1;
    }
    None
}

/// Builds the adjacency rows of the working set: one row per package, listing
/// the dependency packages it references by position; unresolved names are
/// skipped.
#[verifier::loop_isolation(false)]
fn build_adjacency(all: &Vec<DependencyPackage>) -> (adj: Vec<Vec<usize>>)
    requires
        unique_names(pkg_views(all@)),
        all@.len() >= 1,
    ensures
        adj_wf(adj_views(adj@), pkg_views(all@)),
{
    let ghost pkgs = pkg_views(all@);
    let n = all.len();
    let mut adj: Vec<Vec<usize>> = Vec::new();
    let mut x: usize = 0;
    while x < n
        invariant
            adj@.len() == x,
            x <= n,
            rows_wf(adj_views(adj@), pkgs, x as int),
        decreases n - x,
    {
        let mut row: Vec<usize> = Vec::new();
        let dcount = all[x].deps.len();
        let mut di: usize = 0;
        while di < dcount
            invariant
                x < n,
                dcount == pkgs[x as int].deps.len(),
                di <= dcount,
                forall|t: int|
                    0 <= t < row@.len() ==> ((#[trigger] row@[t]) as int) < n - 1
                        && package_has_dep(pkgs[x as int], pkgs[row@[t] as int].name),
                forall|y: int, dd: int|
                    #![trigger pkgs[y].name, pkgs[x as int].deps[dd]]
                    0 <= y < n - 1 && 0 <= dd < di && pkgs[x as int].deps[dd] == pkgs[y].name
                        ==> row@.contains(y as usize),
            decreases dcount - di,
        {
            let ghost pre_row = row@;
            let depname = &all[x].deps[di];
            proof {
                assert(depname@ == pkgs[x as int].deps[di as int]);
            }
            match find_package(all, n - 1, depname.as_str()) {
                Some(y) => {
                    row.push(y);
                    proof {
                        assert forall|y2: int, dd: int|
                            #![trigger pkgs[y2].name, pkgs[x as int].deps[dd]]
                            0 <= y2 < n - 1 && 0 <= dd < di + 1 && pkgs[x as int].deps[dd]
                                == pkgs[y2].name implies row@.contains(y2 as usize) by {
                            if dd < di {
                                assert(pre_row.contains(y2 as usize));
                                let w = choose|w: int|
                                    0 <= w < pre_row.len() && pre_row[w] == y2 as usize;
                                assert(row@[w] == y2 as usize);
                            } else {
                                assert(pkgs[y2].name == pkgs[y as int].name);
                                if y2 != y as int {
                                    assert(false);
                                }
                                assert(row@[row@.len() - 1] == y);
                            }
                        }
                    }
                },
                None => {
                    proof {
                        assert forall|y2: int, dd: int|
                            #![trigger pkgs[y2].name, pkgs[x as int].deps[dd]]
                            0 <= y2 < n - 1 && 0 <= dd < di + 1 && pkgs[x as int].deps[dd]
                                == pkgs[y2].name implies row@.contains(y2 as usize) by {
                            if dd < di {
                                assert(pre_row.contains(y2 as usize));
                            } else {
                                assert(pkgs[y2].name == depname@);
                                assert(false);
                            }
                        }
                    }
                },
            }
            di += 1;
        }
        let ghost pre_adj = adj@;
        adj.push(row);
        proof {
            assert(adj_views(adj@).len() == x + 1);
            assert(adj_views(adj@)[x as int] == row@);
            assert forall|x2: int| 0 <= x2 < x implies #[trigger] adj_views(adj@)[x2]
                == adj_views(pre_adj)[x2] by {
                assert(adj@[x2] == pre_adj[x2]);
            }
            assert forall|x2: int, t: int|
                0 <= x2 < x + 1 && 0 <= t < adj_views(adj@)[x2].len() implies ((
                #[trigger] adj_views(adj@)[x2][t]) as int) < pkgs.len() - 1 && package_has_dep(
                pkgs[x2],
                pkgs[adj_views(adj@)[x2][t] as int].name,
            ) by {
                if x2 < x as int {
                    assert(adj_views(adj@)[x2] == adj_views(pre_adj)[x2]);
                    assert((adj_views(pre_adj)[x2][t] as int) < pkgs.len() - 1 && package_has_dep(
                        pkgs[x2],
                        pkgs[adj_views(pre_adj)[x2][t] as int].name,
                    ));
                } else {
                    assert(adj_views(adj@)[x2] == row@);
                }
            }
            assert forall|x2: int, y: int, dd: int|
                #![trigger pkgs[y].name, pkgs[x2].deps[dd]]
                0 <= x2 < x + 1 && 0 <= y < pkgs.len() - 1 && 0 <= dd < pkgs[x2].deps.len()
                    && pkgs[x2].deps[dd] == pkgs[y].name implies adj_views(adj@)[x2].contains(
                y as usize,
            ) by {
                if x2 < x as int {
                    assert(adj_views(pre_adj)[x2].contains(y as usize));
                    assert(adj_views(adj@)[x2] == adj_views(pre_adj)[x2]);
                } else {
                    assert(row@.contains(y as usize));
                    assert(adj_views(adj@)[x2] == row@);
                }
            }
        }
        x += 1;
    }
    proof {
        assert(adj_wf(adj_views(adj@), pkgs)) by {
            assert forall|x2: int, y: int|
                0 <= x2 < pkgs.len() && 0 <= y < pkgs.len() - 1 && #[trigger] package_has_dep(
                    pkgs[x2],
                    pkgs[y].name,
                ) implies adj_views(adj@)[x2].contains(y as usize) by {
                let dd = choose|dd: int|
                    0 <= dd < pkgs[x2].deps.len() && pkgs[x2].deps[dd] == pkgs[y].name;
                assert(pkgs[y].name == pkgs[x2].deps[dd]);
            }
        }
    }
    adj
}

/// Runs the traversal over every package — the dependency packages in their
/// given order, the primary package last — and returns the finish order.
#[verifier::loop_isolation(false)]
fn traverse(adj: &Vec<Vec<usize>>, all: &Vec<DependencyPackage>) -> (r: Result<
    Vec<usize>,
    WadmError,
>)
    requires
        unique_names(pkg_views(all@)),
        adj_wf(adj_views(adj@), pkg_views(all@)),
        all@.len() >= 1,
    ensures
        r matches Ok(order) ==> {
            &&& order@.len() == all@.len()
            &&& order@.no_duplicates()
            &&& (forall|q: int| 0 <= q < order@.len() ==> ((#[trigger] order@[q]) as int)
                < all@.len())
            &&& order@.last() == (all@.len() - 1) as usize
            &&& (forall|v: int| 0 <= v < all@.len() ==> #[trigger] order@.contains(v as usize))
            &&& (forall|p: int, t: int|
                0 <= p < order@.len() && 0 <= t < adj_views(adj@)[order@[p] as int].len()
                    ==> #[trigger] deps_emitted_before(adj_views(adj@), order@, p, t))
        },
        r matches Err(e) ==> e matches WadmError::DependencyCycle(nm) && spec_on_cycle(
            pkg_views(all@).drop_last(),
            nm@,
        ),
{
    let ghost pkgs = pkg_views(all@);
    let n = all.len();
    let mut visiting: Vec<bool> = Vec::new();
    let mut done: Vec<bool> = Vec::new();
    let mut f: usize = 0;
    while f < n
        invariant
            visiting@.len() == f,
            done@.len() == f,
            f <= n,
            forall|k: int| 0 <= k < f ==> !visiting@[k] && !done@[k],
        decreases n - f,
    {
        visiting.push(false);
        done.push(false);
        f += 1;
    }
    let mut order: Vec<usize> = Vec::new();

    proof {
        assert(st_inv(adj_views(adj@), pkgs, visiting@, done@, order@, Seq::empty()));
    }

    let mut root: usize = 0;
    while root < n - 1
        invariant
            st_inv(adj_views(adj@), pkgs, visiting@, done@, order@, Seq::empty()),
            root <= n - 1,
            forall|k: int| 0 <= k < root ==> done@[k],
            !done@[n - 1],
        decreases n - 1 - root,
    {
        match visit(adj, all, root, &mut visiting, &mut done, &mut order, Ghost(Seq::empty())) {
            Ok(()) => {},
            Err(e) => {
                return Err(e);
            },
        }
        root += 1;
    }
    match visit(adj, all, n - 1, &mut visiting, &mut done, &mut order, Ghost(Seq::empty())) {
        Ok(()) => {},
        Err(e) => {
            return Err(e);
        },
    }
    proof {
        assert(forall|k: int| 0 <= k < n ==> done@[k]);
        assert(order@.last() == (n - 1) as usize);
        let order_int = order@.map_values(|u: usize| u as int);
        assert(order_int.no_duplicates()) by {
            assert forall|p: int, q: int|
                0 <= p < q < order_int.len() implies order_int[p] != order_int[q] by {
                assert(order@[p] != order@[q]);
            }
        }
        assert forall|k: int| 0 <= k < order_int.len() implies 0 <= #[trigger] order_int[k]
            < n by {
            assert(order@[k] < n);
        }
        lemma_distinct_bounded(order_int, n as int);
        assert(order@.len() <= n);
        broadcast use vstd::seq_lib::seq_to_set_is_finite;

        order_int.unique_seq_to_set();
        assert forall|v: int| set_int_range(0, n as int).contains(v) implies
            order_int.to_set().contains(v) by {
            assert(done@[v]);
            assert(order@.contains(v as usize));
            let p = choose|p: int| 0 <= p < order@.len() && order@[p] == v as usize;
            assert(order_int[p] == v);
            assert(order_int.contains(v));
        }
        lemma_int_range(0, n as int);
        lemma_len_subset(set_int_range(0, n as int), order_int.to_set());
        assert(order@.len() == n);
        assert forall|v: int| 0 <= v < n implies #[trigger] order@.contains(v as usize) by {
            assert(done@[v]);
        }
    }
    Ok(order)
}

/// Orders the working set — the dependency packages in their given order,
/// then the primary package — so that every package stands after the
/// dependency packages it references. A name that resolves to no dependency
/// package is skipped as externally supplied. Fails when two packages share a
/// name, and when the dependency packages contain a reference cycle; no
/// partial ordering is returned.
#[verifier::loop_isolation(false)]
#[verifier::rlimit(60)]
pub fn order_packages(deps: Vec<DependencyPackage>, primary: DependencyPackage) -> (r: Result<
    Vec<DependencyPackage>,
    WadmError,
>)
    ensures
        spec_has_dup(pkg_views(deps@).push(primary@)) <==> (r matches Err(e) && e matches
            WadmError::DuplicatePackage(nm) && spec_dup_name(
            pkg_views(deps@).push(primary@),
            nm@,
        )),
        !spec_has_dup(pkg_views(deps@).push(primary@)) ==> (spec_has_cycle(pkg_views(deps@))
            <==> (r matches Err(e) && e matches WadmError::DependencyCycle(nm) && spec_on_cycle(
            pkg_views(deps@),
            nm@,
        ))),
        (r is Ok) <==> !spec_has_dup(pkg_views(deps@).push(primary@)) && !spec_has_cycle(
            pkg_views(deps@),
        ),
        r matches Ok(out) ==> {
            &&& pkg_views(out@).len() == deps@.len() + 1
            &&& pkg_views(out@).last() == primary@
            &&& spec_covers(pkg_views(deps@).push(primary@), pkg_views(out@))
            &&& spec_covers(pkg_views(out@), pkg_views(deps@).push(primary@))
            &&& spec_topo_ordered(pkg_views(out@))
        },
{
    let ghost dv = pkg_views(deps@);
    let ghost pv = primary@;
    let mut all: Vec<DependencyPackage> = deps;
    all.push(primary);
    let n = all.len();
    let ghost pkgs = pkg_views(all@);
    proof {
        assert(pkgs =~= dv.push(pv));
        assert(pkgs.drop_last() =~= dv);
    }

    match check_duplicates(&all) {
        Some(nm) => {
            return Err(WadmError::DuplicatePackage(nm));
        },
        None => {},
    }

    let adj = build_adjacency(&all);
    let order = match traverse(&adj, &all) {
        Ok(order) => order,
        Err(e) => {
            return Err(e);
        },
    };

    let mut out: Vec<DependencyPackage> = Vec::new();
    let mut p: usize = 0;
    while p < order.len()
        invariant
            order@.len() == n,
            p <= n,
            out@.len() == p,
            forall|q: int| 0 <= q < p ==> pkg_views(out@)[q] == pkgs[order@[q] as int],
        decreases order.len() - p,
    {
        let ix = order[p];
        let ghost pre_out = out@;
        out.push(all[ix].clone());
        proof {
            assert forall|q: int| 0 <= q < p implies pkg_views(out@)[q] == pkgs[
                order@[q] as int
            ] by {
                assert(out@[q] == pre_out[q]);
                assert(pkg_views(pre_out)[q] == pkgs[order@[q] as int]);
            }
            assert(pkg_views(out@)[p as int] == all@[ix as int]@);
        }
        p += 1;
    }

    proof {
        let out_v = pkg_views(out@);
        assert(out_v.len() == n);
        assert(out_v.last() == pkgs[(n - 1) as int]);
        assert(pkgs[(n - 1) as int] == pv);
        assert forall|x2: int| 0 <= x2 < pkgs.len() implies exists|q: int|
            0 <= q < out_v.len() && out_v[q] == #[trigger] pkgs[x2] by {
            assert(order@.contains(x2 as usize));
            let q = choose|q: int| 0 <= q < order@.len() && order@[q] == x2 as usize;
            assert(out_v[q] == pkgs[x2]);
        }
        assert(spec_topo_ordered(out_v)) by {
            assert forall|a: int, b: int|
                0 <= a < out_v.len() && 0 <= b < out_v.len() - 1 && #[trigger] package_has_dep(
                    out_v[a],
                    out_v[b].name,
                ) implies b < a by {
                let oa = order@[a] as int;
                let ob = order@[b] as int;
                assert(out_v[a] == pkgs[oa]);
                assert(out_v[b] == pkgs[ob]);
                if ob == n - 1 {
                    assert(order@[b] == order@[n - 1]);
                    assert(b == n - 1);
                }
                assert(0 <= ob < n - 1);
                assert(package_has_dep(pkgs[oa], pkgs[ob].name));
                assert(adj_views(adj@)[oa].contains(ob as usize));
                let t = choose|t: int|
                    0 <= t < adj_views(adj@)[oa].len() && adj_views(adj@)[oa][t] == ob as usize;
                assert(deps_emitted_before(adj_views(adj@), order@, a, t));
                let q = choose|q: int|
                    0 <= q < a && order@[q] == adj_views(adj@)[order@[a] as int][t];
                assert(order@[q] == ob as usize);
                assert(order@[q] == order@[b]);
                if q != b {
                    assert(false);
                }
            }
        }
        assert(spec_covers(dv, out_v)) by {
            assert forall|x2: int| 0 <= x2 < dv.len() implies exists|q: int|
                0 <= q < out_v.len() && out_v[q] == #[trigger] dv[x2] by {
                assert(dv[x2] == pkgs[x2]);
                assert(order@.contains(x2 as usize));
                let q = choose|q: int| 0 <= q < order@.len() && order@[q] == x2 as usize;
                assert(out_v[q] == pkgs[x2]);
            }
        }
        lemma_cycle_has_no_order(dv, pv, out_v);
        assert(spec_covers(pkgs, out_v));
        assert(spec_covers(out_v, pkgs)) by {
            assert forall|q: int| 0 <= q < out_v.len() implies exists|x2: int|
                0 <= x2 < pkgs.len() && pkgs[x2] == #[trigger] out_v[q] by {
                assert(out_v[q] == pkgs[order@[q] as int]);
            }
        }
    }
    Ok(out)
}

} // verus!
