//! NovaPkg: the classroom package manager, installing packages after their dependencies.
use vstd::prelude::*;
use crate::text::{str_to_chars, chars_to_string, push_str, push_chars, str_eq};

verus! {

/// A package of the repository.
#[derive(Debug)]
pub struct Package {
    pub name: String,
    pub version: String,
    pub description: String,
    pub dependencies: Vec<String>,
}

/// The repository and the names of the installed packages.
pub struct PackageDatabase {
    pub available_packages: Vec<Package>,
    pub installed_packages: Vec<String>,
}

/// A package as plain values: name, version, description, dependencies.
pub type PackageView = (Seq<char>, Seq<char>, Seq<char>, Seq<Seq<char>>);

/// The views of a list of strings.
pub open spec fn names_view(s: Seq<String>) -> Seq<Seq<char>> {
    s.map_values(|x: String| x@)
}

/// The view of a package.
pub open spec fn package_view(p: Package) -> PackageView {
    (p.name@, p.version@, p.description@, names_view(p.dependencies@))
}

/// The views of the repository.
pub open spec fn packages_view(s: Seq<Package>) -> Seq<PackageView> {
    s.map_values(|p: Package| package_view(p))
}

impl PackageDatabase {
    /// Package names are distinct and installed names are distinct.
    pub open spec fn wf(&self) -> bool {
        &&& forall|i: int, j: int| 0 <= i < j < self.available_packages@.len()
            ==> self.available_packages@[i].name@ != self.available_packages@[j].name@
        &&& names_view(self.installed_packages@).no_duplicates()
    }

    /// The repository as plain values.
    pub open spec fn available(&self) -> Seq<PackageView> {
        packages_view(self.available_packages@)
    }

    /// The installed names.
    pub open spec fn installed(&self) -> Seq<Seq<char>> {
        names_view(self.installed_packages@)
    }
}

/// Whether the repository holds a package called `n`.
pub open spec fn is_available(av: Seq<PackageView>, n: Seq<char>) -> bool {
    exists|i: int| 0 <= i < av.len() && av[i].0 == n
}

/// The dependencies of package `n` in the repository.
pub open spec fn deps_of(av: Seq<PackageView>, n: Seq<char>) -> Seq<Seq<char>> {
    av[choose|i: int| 0 <= i < av.len() && av[i].0 == n].3
}

/// A package of the repository.
fn package(name: &str, version: &str, description: &str, deps: Vec<String>) -> (p: Package)
    ensures
        package_view(p) == (name@, version@, description@, names_view(deps@)),
{
    Package {
        name: String::from_str(name),
        version: String::from_str(version),
        description: String::from_str(description),
        dependencies: deps,
    }
}

/// A list of names.
fn names(a: &str, b: Option<&str>) -> (r: Vec<String>)
    ensures
        names_view(r@) == match b { Some(y) => seq![a@, y@], None => seq![a@] },
{
    let mut v: Vec<String> = Vec::new();
    v.push(String::from_str(a));
    match b {
        Some(y) => { v.push(String::from_str(y)); },
        None => {},
    }
    assert(names_view(v@) =~= match b { Some(y) => seq![a@, y@], None => seq![a@] });
    v
}

/// The repository NovaPkg starts with, in declaration order.
pub open spec fn initial_repository() -> Seq<PackageView> {
    seq![
        ("libc"@, "2.35"@, "NovaOS Standard C Library bindings"@, Seq::empty()),
        ("libm"@, "1.0.0"@, "NovaMath math operations library"@, Seq::empty()),
        ("shell-utils"@, "1.0.0"@, "Core CLI utilities for filesystem interaction (pwd, cd, mkdir, cat)"@, seq!["libc"@]),
        ("network-tools"@, "1.0.0"@, "Network card stack interface tools (ping, sshd, socket)"@, seq!["libc"@]),
        ("gcc"@, "12.2.0"@, "GNU Compiler Collection C compiler"@, seq!["libc"@, "libm"@]),
        ("python"@, "3.11.2"@, "Python Programming Language Interpreter"@, seq!["libc"@, "libm"@]),
        ("git"@, "2.39.0"@, "Distributed version control system"@, seq!["libc"@]),
    ]
}

/// The repository with its seven packages; only libc is installed.
pub fn init_novapkg() -> (db: PackageDatabase)
    ensures
        db.wf(),
        db.available() == initial_repository(),
        db.installed() == seq!["libc"@],
{
    let mut av: Vec<Package> = Vec::new();
    let none1: Vec<String> = Vec::new();
    let none2: Vec<String> = Vec::new();
    assert(names_view(none1@) =~= Seq::<Seq<char>>::empty());
    assert(names_view(none2@) =~= Seq::<Seq<char>>::empty());
    av.push(package("libc", "2.35", "NovaOS Standard C Library bindings", none1));
    av.push(package("libm", "1.0.0", "NovaMath math operations library", none2));
    av.push(package("shell-utils", "1.0.0", "Core CLI utilities for filesystem interaction (pwd, cd, mkdir, cat)", names("libc", None)));
    av.push(package("network-tools", "1.0.0", "Network card stack interface tools (ping, sshd, socket)", names("libc", None)));
    av.push(package("gcc", "12.2.0", "GNU Compiler Collection C compiler", names("libc", Some("libm"))));
    av.push(package("python", "3.11.2", "Python Programming Language Interpreter", names("libc", Some("libm"))));
    av.push(package("git", "2.39.0", "Distributed version control system", names("libc", None)));
    let mut installed: Vec<String> = Vec::new();
    installed.push(String::from_str("libc"));
    let db = PackageDatabase { available_packages: av, installed_packages: installed };
    assert(db.available() =~= initial_repository());
    assert(db.installed() =~= seq!["libc"@]);
    proof {
        reveal_strlit("libc");
        reveal_strlit("libm");
        reveal_strlit("shell-utils");
        reveal_strlit("network-tools");
        reveal_strlit("gcc");
        reveal_strlit("python");
        reveal_strlit("git");
        assert forall|i: int, j: int| 0 <= i < j < db.available_packages@.len() implies
            db.available_packages@[i].name@ != db.available_packages@[j].name@ by {
            assert(db.available_packages@[i].name@ == initial_repository()[i].0);
            assert(db.available_packages@[j].name@ == initial_repository()[j].0);
            let a = db.available_packages@[i].name@;
            let b = db.available_packages@[j].name@;
            if a == b {
                assert(a.len() == b.len());
                assert(a[1] == b[1]);
                if a.len() == 4 { assert(a[3] == b[3]); }
            }
        }
    }
    db
}

/// Position of `name` in a list of names.
fn find_name(v: &Vec<String>, name: &str) -> (r: Option<usize>)
    ensures
        r matches Some(i) ==> i < v@.len() && v@[i as int]@ == name@,
        r is None ==> !names_view(v@).contains(name@),
{
    let mut i: usize = 0;
    while i < v.len()
        invariant
            i <= v@.len(),
            forall|k: int| 0 <= k < i ==> v@[k]@ != name@,
        decreases v@.len() - i,
    {
        if str_eq(v[i].as_str(), name) {
            return Some(i);
        }
        i = i + 1;
    }
    proof {
        if names_view(v@).contains(name@) {
            let k = choose|k: int| 0 <= k < names_view(v@).len() && names_view(v@)[k] == name@;
            assert(v@[k]@ == name@);
        }
    }
    None
}

/// Position of package `name` in the repository.
fn find_package(db: &PackageDatabase, name: &str) -> (r: Option<usize>)
    requires
        db.wf(),
    ensures
        r matches Some(i) ==> i < db.available_packages@.len() && db.available()[i as int].0 == name@
            && deps_of(db.available(), name@) == db.available()[i as int].3,
        r is None ==> !is_available(db.available(), name@),
{
    let ghost av = db.available();
    let mut i: usize = 0;
    while i < db.available_packages.len()
        invariant
            db.wf(),
            av == db.available(),
            i <= db.available_packages@.len(),
            forall|k: int| 0 <= k < i ==> av[k].0 != name@,
        decreases db.available_packages@.len() - i,
    {
        if str_eq(db.available_packages[i].name.as_str(), name) {
            proof {
                assert(av[i as int].0 == name@);
                let c = choose|c: int| 0 <= c < av.len() && av[c].0 == name@;
                if c != i as int {
                    assert(db.available_packages@[c].name@ == db.available_packages@[i as int].name@);
                }
            }
            return Some(i);
        }
        i = i + 1;
    }
    None
}

/// `path` walks the dependency graph from its first package to its last, each step going from
/// a package to one of its dependencies.
pub open spec fn dep_path(av: Seq<PackageView>, path: Seq<Seq<char>>) -> bool {
    &&& path.len() >= 1
    &&& forall|i: int| 0 <= i < path.len() - 1 ==> #[trigger] deps_of(av, path[i]).contains(path[i + 1])
}

/// `x` is `name` itself or one of its dependencies, direct or further down.
pub open spec fn in_closure(av: Seq<PackageView>, name: Seq<char>, x: Seq<char>) -> bool {
    exists|path: Seq<Seq<char>>| #[trigger] dep_path(av, path) && path[0] == name && path.last() == x
}

/// A package belongs to its own closure.
pub proof fn lemma_closure_refl(av: Seq<PackageView>, name: Seq<char>)
    ensures
        in_closure(av, name, name),
{
    let p = seq![name];
    assert(dep_path(av, p));
}

/// The closure of a dependency lies within the closure of the package.
pub proof fn lemma_closure_step(av: Seq<PackageView>, node: Seq<char>, d: Seq<char>, x: Seq<char>)
    requires
        deps_of(av, node).contains(d),
        in_closure(av, d, x),
    ensures
        in_closure(av, node, x),
{
    let p = choose|path: Seq<Seq<char>>| #[trigger] dep_path(av, path) && path[0] == d && path.last() == x;
    let q = seq![node] + p;
    assert forall|i: int| 0 <= i < q.len() - 1 implies #[trigger] deps_of(av, q[i]).contains(q[i + 1]) by {
        if i == 0 {
            assert(q[1] == p[0]);
        } else {
            assert(q[i] == p[i - 1] && q[i + 1] == p[i]);
            assert(deps_of(av, p[i - 1]).contains(p[(i - 1) + 1]));
        }
    }
    assert(dep_path(av, q));
    assert(q.last() == p.last());
}

/// A dependency-ordered list that holds the first package of a dependency path holds every
/// package on it.
proof fn lemma_ordered_holds_path(av: Seq<PackageView>, order: Seq<Seq<char>>, path: Seq<Seq<char>>, k: int)
    requires
        dependency_ordered(av, order),
        dep_path(av, path),
        order.contains(path[0]),
        0 <= k < path.len(),
    ensures
        order.contains(path[k]),
    decreases k,
{
    if k > 0 {
        lemma_ordered_holds_path(av, order, path, k - 1);
        let i = choose|i: int| 0 <= i < order.len() && order[i] == path[k - 1];
        assert(deps_of(av, path[k - 1]).contains(path[(k - 1) + 1]));
        let d = choose|d: int| 0 <= d < deps_of(av, order[i]).len() && deps_of(av, order[i])[d] == path[k];
        assert(order.subrange(0, i).contains(deps_of(av, order[i])[d]));
        let w = choose|w: int| 0 <= w < i && order.subrange(0, i)[w] == path[k];
        assert(order[w] == path[k]);
    }
}

/// A dependency-ordered list that holds `name` holds its whole closure.
pub proof fn lemma_ordered_holds_closure(av: Seq<PackageView>, order: Seq<Seq<char>>, name: Seq<char>, x: Seq<char>)
    requires
        dependency_ordered(av, order),
        order.contains(name),
        in_closure(av, name, x),
    ensures
        order.contains(x),
{
    let p = choose|path: Seq<Seq<char>>| #[trigger] dep_path(av, path) && path[0] == name && path.last() == x;
    lemma_ordered_holds_path(av, order, p, p.len() - 1);
}

/// Why resolution of `node` failed: a cycle, or a package of its closure missing from the repository.
pub open spec fn resolve_error(av: Seq<PackageView>, node: Seq<char>, e: Seq<char>) -> bool {
    e == "Cyclic dependency detected!"@
        || exists|d: Seq<char>| #[trigger] in_closure(av, node, d) && !is_available(av, d) && e == "Unresolved dependency: "@ + d
}

/// `order` lists distinct available packages, each after every dependency of it.
pub open spec fn dependency_ordered(av: Seq<PackageView>, order: Seq<Seq<char>>) -> bool {
    &&& order.no_duplicates()
    &&& forall|i: int| 0 <= i < order.len() ==> is_available(av, #[trigger] order[i])
    &&& forall|i: int, d: int| 0 <= i < order.len() && 0 <= d < deps_of(av, order[i]).len()
        ==> #[trigger] order.subrange(0, i).contains(deps_of(av, order[i])[d])
}

/// `rank` orders the repository's dependencies: every dependency of an available package is
/// available and ranks below it. A repository with such a ranking has no dependency cycle
/// and no missing dependency.
pub open spec fn deps_ranked(av: Seq<PackageView>, rank: spec_fn(Seq<char>) -> nat) -> bool {
    forall|p: Seq<char>, d: int| is_available(av, p) && 0 <= d < deps_of(av, p).len()
        ==> is_available(av, #[trigger] deps_of(av, p)[d]) && rank(deps_of(av, p)[d]) < rank(p)
}

/// Resolution of `node` is owed success: the repository's dependencies are ranked by `rank`,
/// `node` is available, and every package being resolved further up ranks above it.
pub open spec fn resolvable(av: Seq<PackageView>, rank: spec_fn(Seq<char>) -> nat, node: Seq<char>,
    temp: Seq<Seq<char>>) -> bool
{
    &&& deps_ranked(av, rank)
    &&& is_available(av, node)
    &&& forall|i: int| 0 <= i < temp.len() ==> rank(#[trigger] temp[i]) > rank(node)
}

/// Depth-first resolution of `node`: its dependencies first, then itself, skipping what was
/// already visited; `temp` holds the packages being resolved further up.
fn resolve(node: &str, db: &PackageDatabase, resolved: &mut Vec<String>, temp: &mut Vec<String>) -> (r: Result<(), String>)
    requires
        db.wf(),
        dependency_ordered(db.available(), names_view(old(resolved)@)),
        names_view(old(temp)@).no_duplicates(),
        forall|i: int| 0 <= i < old(temp)@.len() ==> is_available(db.available(), #[trigger] old(temp)@[i]@),
        forall|i: int| 0 <= i < old(temp)@.len() ==> !names_view(old(resolved)@).contains(#[trigger] old(temp)@[i]@),
    ensures
        names_view(final(temp)@) == names_view(old(temp)@),
        r is Ok ==> dependency_ordered(db.available(), names_view(final(resolved)@))
            && names_view(final(resolved)@).contains(node@)
            && names_view(old(resolved)@).is_prefix_of(names_view(final(resolved)@))
            && (forall|i: int| 0 <= i < old(temp)@.len() ==> !names_view(final(resolved)@).contains(#[trigger] old(temp)@[i]@)),
        names_view(old(temp)@).contains(node@) ==> (r matches Err(e) && e@ == "Cyclic dependency detected!"@),
        !names_view(old(temp)@).contains(node@) && names_view(old(resolved)@).contains(node@) ==> r is Ok
            && names_view(final(resolved)@) == names_view(old(resolved)@),
        !names_view(old(temp)@).contains(node@) && !names_view(old(resolved)@).contains(node@)
            && !is_available(db.available(), node@) ==> (r matches Err(e) && e@ == "Unresolved dependency: "@ + node@),
        forall|rank: spec_fn(Seq<char>) -> nat| #[trigger] resolvable(db.available(), rank, node@, names_view(old(temp)@))
            ==> r is Ok,
        r is Ok ==> forall|i: int| old(resolved)@.len() <= i < final(resolved)@.len()
            ==> in_closure(db.available(), node@, #[trigger] names_view(final(resolved)@)[i]),
        r matches Err(e) ==> resolve_error(db.available(), node@, e@),
    decreases db.available_packages@.len() - old(temp)@.len(),
{
    match find_name(temp, node) {
        Some(w) => {
            proof {
                assert(names_view(temp@)[w as int] == node@);
                assert forall|rank: spec_fn(Seq<char>) -> nat| #[trigger] resolvable(db.available(), rank, node@, names_view(temp@))
                    implies false by {
                    assert(rank(names_view(temp@)[w as int]) > rank(node@));
                }
            }
            return Err(String::from_str("Cyclic dependency detected!"));
        },
        None => {},
    }
    match find_name(resolved, node) {
        Some(i) => {
            proof {
                assert(names_view(resolved@)[i as int] == node@);
                assert(names_view(resolved@).is_prefix_of(names_view(resolved@)));
            }
            return Ok(());
        },
        None => {},
    }
    let pi = match find_package(db, node) {
        Some(i) => i,
        None => {
            let mut msg: Vec<char> = Vec::new();
            push_str(&mut msg, "Unresolved dependency: ");
            let nc = str_to_chars(node);
            push_chars(&mut msg, nc.as_slice());
            proof { lemma_closure_refl(db.available(), node@); }
            return Err(chars_to_string(msg.as_slice()));
        },
    };
    proof {
        lemma_available_names_bound(db, names_view(temp@), node@);
    }
    let ghost t0 = temp@;
    temp.push(String::from_str(node));
    let deps = &db.available_packages[pi].dependencies;
    let ghost dv = names_view(deps@);
    assert(dv == deps_of(db.available(), node@));
    let mut k: usize = 0;
    let ghost r0 = resolved@;
    while k < deps.len()
        invariant
            db.wf(),
            k <= deps@.len(),
            dv == names_view(deps@),
            names_view(temp@) == names_view(t0).push(node@),
            names_view(t0).no_duplicates(),
            !names_view(t0).contains(node@),
            is_available(db.available(), node@),
            forall|i: int| 0 <= i < t0.len() ==> is_available(db.available(), #[trigger] t0[i]@),
            dependency_ordered(db.available(), names_view(resolved@)),
            names_view(r0).is_prefix_of(names_view(resolved@)),
            !names_view(resolved@).contains(node@),
            forall|i: int| 0 <= i < t0.len() ==> !names_view(resolved@).contains(#[trigger] t0[i]@),
            forall|j: int| 0 <= j < k ==> names_view(resolved@).contains(#[trigger] dv[j]),
            temp@.len() == t0.len() + 1,
            db.available_packages@.len() - t0.len() > 0,
            t0 == old(temp)@,
            r0 == old(resolved)@,
            !names_view(r0).contains(node@),
            dv == deps_of(db.available(), node@),
            forall|i: int| r0.len() <= i < resolved@.len() ==> in_closure(db.available(), node@, #[trigger] names_view(resolved@)[i]),
        decreases deps@.len() - k,
    {
        let ghost before = resolved@;
        proof {
            assert forall|i: int| 0 <= i < temp@.len() implies is_available(db.available(), #[trigger] temp@[i]@) by {
                if i < t0.len() { assert(names_view(temp@)[i] == names_view(t0)[i]); }
                else { assert(names_view(temp@)[i] == node@); }
            }
            assert forall|i: int| 0 <= i < temp@.len() implies !names_view(resolved@).contains(#[trigger] temp@[i]@) by {
                if i < t0.len() { assert(names_view(temp@)[i] == names_view(t0)[i]); }
                else { assert(names_view(temp@)[i] == node@); }
            }
            assert(names_view(temp@).no_duplicates()) by {
                let tv = names_view(temp@);
                assert forall|a: int, b: int| 0 <= a < tv.len() && 0 <= b < tv.len() && a != b implies tv[a] != tv[b] by {
                    if a < t0.len() && b < t0.len() {
                        assert(tv[a] == names_view(t0)[a] && tv[b] == names_view(t0)[b]);
                    } else if a < t0.len() {
                        assert(tv[a] == names_view(t0)[a]);
                        assert(names_view(t0).contains(tv[a]));
                    } else if b < t0.len() {
                        assert(tv[b] == names_view(t0)[b]);
                        assert(names_view(t0).contains(tv[b]));
                    }
                }
            }
        }
        let dep = deps[k].as_str();
        let ghost tb = temp@;
        let res = resolve(dep, db, resolved, temp);
        proof {
            assert(names_view(temp@).len() == temp@.len());
            assert(names_view(tb).len() == tb.len());
        }
        match res {
            Ok(()) => {},
            Err(e) => {
                let ghost tp = temp@;
                temp.pop();
                proof {
                    lemma_names_pop(tp, t0, node@);
                    assert(dv[k as int] == dep@);
                    assert(dv.contains(dep@));
                    if !(e@ == "Cyclic dependency detected!"@) {
                        let d = choose|d: Seq<char>| #[trigger] in_closure(db.available(), dep@, d) && !is_available(db.available(), d)
                            && e@ == "Unresolved dependency: "@ + d;
                        lemma_closure_step(db.available(), node@, dep@, d);
                    }
                    assert forall|rank: spec_fn(Seq<char>) -> nat| #[trigger] resolvable(db.available(), rank, node@, names_view(t0))
                        implies false by {
                        let av = db.available();
                        let tv = names_view(tb);
                        assert(is_available(av, deps_of(av, node@)[k as int]) && rank(deps_of(av, node@)[k as int]) < rank(node@));
                        assert forall|i: int| 0 <= i < tv.len() implies rank(#[trigger] tv[i]) > rank(dep@) by {
                            if i < t0.len() {
                                assert(tv[i] == names_view(t0)[i]);
                            } else {
                                assert(tv[i] == node@);
                            }
                        }
                        assert(resolvable(av, rank, dep@, tv));
                    }
                }
                return Err(e);
            },
        }
        proof {
            assert(dv[k as int] == dep@);
            assert forall|j: int| 0 <= j < k + 1 implies names_view(resolved@).contains(#[trigger] dv[j]) by {
                if j < k {
                    let w = choose|w: int| 0 <= w < names_view(before).len() && names_view(before)[w] == dv[j];
                    assert(names_view(resolved@)[w] == dv[j]);
                }
            }
            assert(names_view(r0).is_prefix_of(names_view(resolved@))) by {
                assert forall|w: int| 0 <= w < names_view(r0).len() implies names_view(r0)[w] == names_view(resolved@)[w] by {
                    assert(names_view(before)[w] == names_view(resolved@)[w]);
                }
            }
            assert(!names_view(resolved@).contains(node@)) by {
                let last = temp@.len() - 1;
                assert(names_view(temp@)[last] == node@);
            }
            assert forall|i: int| 0 <= i < t0.len() implies !names_view(resolved@).contains(#[trigger] t0[i]@) by {
                assert(names_view(temp@)[i] == t0[i]@);
            }
            assert(dv.contains(dep@));
            assert forall|i: int| r0.len() <= i < resolved@.len() implies in_closure(db.available(), node@, #[trigger] names_view(resolved@)[i]) by {
                if i < before.len() {
                    assert(names_view(before)[i] == names_view(resolved@)[i]);
                } else {
                    lemma_closure_step(db.available(), node@, dep@, names_view(resolved@)[i]);
                }
            }
        }
        k = k + 1;
    }
    let ghost tp = temp@;
    temp.pop();
    proof { lemma_names_pop(tp, t0, node@); }
    let ghost rb = resolved@;
    resolved.push(String::from_str(node));
    proof {
        let rv = names_view(resolved@);
        assert(rv =~= names_view(rb).push(node@));
        assert(rv.no_duplicates()) by {
            assert forall|a: int, b: int| 0 <= a < rv.len() && 0 <= b < rv.len() && a != b implies rv[a] != rv[b] by {
                if a < rb.len() && b < rb.len() {
                    assert(rv[a] == names_view(rb)[a] && rv[b] == names_view(rb)[b]);
                } else if a < rb.len() {
                    assert(names_view(rb).contains(rv[a]));
                } else if b < rb.len() {
                    assert(names_view(rb).contains(rv[b]));
                }
            }
        }
        assert forall|i: int| 0 <= i < rv.len() implies is_available(db.available(), #[trigger] rv[i]) by {
            if i < rb.len() { assert(rv[i] == names_view(rb)[i]); }
        }
        assert forall|i: int, d: int| 0 <= i < rv.len() && 0 <= d < deps_of(db.available(), rv[i]).len()
            implies #[trigger] rv.subrange(0, i).contains(deps_of(db.available(), rv[i])[d]) by {
            if i < rb.len() {
                assert(rv[i] == names_view(rb)[i]);
                assert(rv.subrange(0, i) =~= names_view(rb).subrange(0, i));
            } else {
                assert(rv.subrange(0, i) =~= names_view(rb));
                assert(deps_of(db.available(), rv[i]) == dv);
            }
        }
        assert(rv[rv.len() - 1] == node@);
        assert(names_view(r0).is_prefix_of(rv)) by {
            assert forall|w: int| 0 <= w < names_view(r0).len() implies names_view(r0)[w] == rv[w] by {
                assert(names_view(r0)[w] == names_view(rb)[w]);
            }
        }
        assert forall|i: int| 0 <= i < t0.len() implies !rv.contains(#[trigger] t0[i]@) by {
            if rv.contains(t0[i]@) {
                let w = choose|w: int| 0 <= w < rv.len() && rv[w] == t0[i]@;
                if w < rb.len() { assert(names_view(rb)[w] == t0[i]@); }
                else { assert(names_view(t0)[i] == t0[i]@); assert(names_view(t0).contains(node@)); }
            }
        }
        lemma_closure_refl(db.available(), node@);
        assert forall|i: int| r0.len() <= i < rv.len() implies in_closure(db.available(), node@, #[trigger] rv[i]) by {
            if i < rb.len() {
                assert(rv[i] == names_view(rb)[i]);
            }
        }
    }
    Ok(())
}

/// Popping the name pushed last gives back the earlier names.
proof fn lemma_names_pop(tp: Seq<String>, t0: Seq<String>, node: Seq<char>)
    requires
        tp.len() > 0,
        names_view(tp) == names_view(t0).push(node),
    ensures
        names_view(tp.drop_last()) == names_view(t0),
{
    assert(names_view(tp).len() == names_view(t0).len() + 1);
    assert forall|i: int| 0 <= i < t0.len() implies names_view(tp.drop_last())[i] == names_view(t0)[i] by {
        assert(names_view(tp)[i] == names_view(t0).push(node)[i]);
    }
    assert(names_view(tp.drop_last()) =~= names_view(t0));
}

/// Distinct available names are no more than the repository's packages.
proof fn lemma_available_names_bound(db: &PackageDatabase, t: Seq<Seq<char>>, extra: Seq<char>)
    requires
        db.wf(),
        t.no_duplicates(),
        forall|i: int| 0 <= i < t.len() ==> is_available(db.available(), #[trigger] t[i]),
        is_available(db.available(), extra),
        !t.contains(extra),
    ensures
        t.len() < db.available_packages@.len(),
{
    let av = db.available();
    let names = av.map_values(|p: PackageView| p.0);
    assert(names.no_duplicates()) by {
        assert forall|a: int, b: int| 0 <= a < names.len() && 0 <= b < names.len() && a != b implies names[a] != names[b] by {
            if a < b { assert(db.available_packages@[a].name@ != db.available_packages@[b].name@); }
            else { assert(db.available_packages@[b].name@ != db.available_packages@[a].name@); }
        }
    }
    let t2 = t.push(extra);
    assert(t2.no_duplicates()) by {
        assert forall|a: int, b: int| 0 <= a < t2.len() && 0 <= b < t2.len() && a != b implies t2[a] != t2[b] by {
            if a < t.len() && b < t.len() {
            } else if a < t.len() {
                assert(t.contains(t2[a]));
            } else if b < t.len() {
                assert(t.contains(t2[b]));
            }
        }
    }
    assert(t2.to_set().subset_of(names.to_set())) by {
        assert forall|x: Seq<char>| t2.to_set().contains(x) implies names.to_set().contains(x) by {
            let i = choose|i: int| 0 <= i < t2.len() && t2[i] == x;
            if i < t.len() { assert(is_available(av, t[i])); }
            let j = choose|j: int| 0 <= j < av.len() && av[j].0 == x;
            assert(names[j] == x);
        }
    }
    t2.unique_seq_to_set();
    names.unique_seq_to_set();
    vstd::set_lib::lemma_len_subset(t2.to_set(), names.to_set());
}


/// Every dependency of each package in `order` is installed already or comes earlier in it.
pub open spec fn installs_after_dependencies(av: Seq<PackageView>, installed: Seq<Seq<char>>, order: Seq<Seq<char>>) -> bool {
    forall|i: int, d: int| 0 <= i < order.len() && 0 <= d < deps_of(av, order[i]).len()
        ==> installed.contains(#[trigger] deps_of(av, order[i])[d]) || order.subrange(0, i).contains(deps_of(av, order[i])[d])
}

/// The installation of `name` and its missing dependencies is `order`: distinct available
/// packages, none installed before, `name` among them, each after its dependencies.
pub open spec fn valid_install(av: Seq<PackageView>, installed: Seq<Seq<char>>, name: Seq<char>, order: Seq<Seq<char>>) -> bool {
    &&& order.no_duplicates()
    &&& forall|i: int| 0 <= i < order.len() ==> is_available(av, #[trigger] order[i]) && !installed.contains(order[i])
    &&& order.contains(name)
    &&& installs_after_dependencies(av, installed, order)
}

/// The message for a package missing from the repository.
pub open spec fn not_found_message(name: Seq<char>) -> Seq<char> {
    "Package '"@ + name + "' not found in NovaOS repository"@
}

/// A copy of a string list.
fn copy_names(v: &Vec<String>) -> (r: Vec<String>)
    ensures
        names_view(r@) == names_view(v@),
{
    let mut r: Vec<String> = Vec::new();
    let mut i: usize = 0;
    while i < v.len()
        invariant
            i <= v@.len(),
            names_view(r@) == names_view(v@.subrange(0, i as int)),
        decreases v@.len() - i,
    {
        let ghost prev = r@;
        r.push(v[i].clone());
        i = i + 1;
        assert(names_view(r@) =~= names_view(prev).push(v@[i - 1]@));
        assert(names_view(v@.subrange(0, i as int)) =~= names_view(v@.subrange(0, i - 1)).push(v@[i - 1]@));
    }
    assert(v@.subrange(0, i as int) =~= v@);
    r
}

/// Installs `name` together with whatever of its dependencies is missing, dependencies first,
/// and returns what was installed in that order.
pub fn install_package(db: &mut PackageDatabase, name: &str) -> (r: Result<Vec<String>, String>)
    requires
        old(db).wf(),
    ensures
        final(db).wf(),
        final(db).available() == old(db).available(),
        !is_available(old(db).available(), name@) ==> (r matches Err(e) && e@ == not_found_message(name@))
            && final(db).installed() == old(db).installed(),
        is_available(old(db).available(), name@) && old(db).installed().contains(name@) ==>
            (r matches Err(e) && e@ == "Package '"@ + name@ + "' is already installed"@) && final(db).installed() == old(db).installed(),
        r is Err ==> final(db).installed() == old(db).installed(),
        r matches Ok(list) ==> valid_install(old(db).available(), old(db).installed(), name@, names_view(list@))
            && final(db).installed() == old(db).installed() + names_view(list@),
        r matches Ok(list) ==> (forall|i: int| 0 <= i < list@.len()
            ==> in_closure(old(db).available(), name@, #[trigger] names_view(list@)[i]))
            && (forall|x: Seq<char>| #[trigger] in_closure(old(db).available(), name@, x)
            ==> old(db).installed().contains(x) || names_view(list@).contains(x)),
        is_available(old(db).available(), name@) && !old(db).installed().contains(name@) ==>
            (forall|rank: spec_fn(Seq<char>) -> nat| #[trigger] deps_ranked(old(db).available(), rank) ==> r is Ok)
            && (r matches Err(e) ==> resolve_error(old(db).available(), name@, e@)),
{
    if find_package(db, name).is_none() {
        let mut msg: Vec<char> = Vec::new();
        push_str(&mut msg, "Package '");
        let nc = str_to_chars(name);
        push_chars(&mut msg, nc.as_slice());
        push_str(&mut msg, "' not found in NovaOS repository");
        return Err(chars_to_string(msg.as_slice()));
    }
    match find_name(&db.installed_packages, name) {
        Some(i) => {
            proof { assert(db.installed()[i as int] == name@); }
            let mut msg: Vec<char> = Vec::new();
            push_str(&mut msg, "Package '");
            let nc = str_to_chars(name);
            push_chars(&mut msg, nc.as_slice());
            push_str(&mut msg, "' is already installed");
            return Err(chars_to_string(msg.as_slice()));
        },
        None => {},
    }
    let mut resolved: Vec<String> = Vec::new();
    let mut temp: Vec<String> = Vec::new();
    proof {
        assert(names_view(resolved@) =~= Seq::<Seq<char>>::empty());
        assert(names_view(temp@) =~= Seq::<Seq<char>>::empty());
    }
    let rres = resolve(name, db, &mut resolved, &mut temp);
    proof {
        assert forall|rank: spec_fn(Seq<char>) -> nat| #[trigger] deps_ranked(db.available(), rank) implies rres is Ok by {
            assert(resolvable(db.available(), rank, name@, names_view(temp@)));
        }
    }
    match rres {
        Ok(()) => {},
        Err(e) => { return Err(e); },
    }
    let ghost av = db.available();
    let ghost inst0 = db.installed();
    let ghost rv = names_view(resolved@);
    let mut actual: Vec<String> = Vec::new();
    let mut j: usize = 0;
    while j < resolved.len()
        invariant
            db.wf(),
            av == db.available(),
            rv == names_view(resolved@),
            rv.len() == resolved@.len(),
            dependency_ordered(av, rv),
            j <= resolved@.len(),
            inst0.no_duplicates(),
            db.installed() == inst0 + names_view(actual@),
            names_view(actual@).no_duplicates(),
            forall|i: int| 0 <= i < actual@.len() ==> is_available(av, #[trigger] names_view(actual@)[i]) && !inst0.contains(names_view(actual@)[i]),
            forall|i: int| 0 <= i < j ==> inst0.contains(#[trigger] rv[i]) || names_view(actual@).contains(rv[i]),
            forall|i: int| 0 <= i < actual@.len() ==> rv.subrange(0, j as int).contains(#[trigger] names_view(actual@)[i]),
            installs_after_dependencies(av, inst0, names_view(actual@)),
        decreases resolved@.len() - j,
    {
        let ghost a0 = names_view(actual@);
        let ghost i0 = db.installed();
        let item = resolved[j].as_str();
        assert(rv[j as int] == item@);
        match find_name(&db.installed_packages, item) {
            Some(_) => {
                proof {
                    let w = choose|w: int| 0 <= w < db.installed_packages@.len() && db.installed_packages@[w]@ == item@;
                    assert(db.installed()[w] == item@);
                    assert(i0 == inst0 + a0);
                    assert(i0.len() == db.installed_packages@.len());
                    assert(w < inst0.len() + a0.len());
                    if w < inst0.len() {
                        assert((inst0 + a0)[w] == inst0[w]);
                        assert(inst0[w] == item@);
                    } else {
                        assert((inst0 + a0)[w] == a0[w - inst0.len()]);
                        assert(a0[w - inst0.len()] == item@);
                    }
                }
            },
            None => {
                db.installed_packages.push(String::from_str(item));
                actual.push(String::from_str(item));
                proof {
                    let a1 = names_view(actual@);
                    assert(a1 =~= a0.push(item@));
                    assert(db.installed() =~= i0.push(item@));
                    assert(!a0.contains(item@)) by {
                        if a0.contains(item@) {
                            let w = choose|w: int| 0 <= w < a0.len() && a0[w] == item@;
                            assert(db.installed()[inst0.len() + w] == item@);
                        }
                    }
                    assert(!inst0.contains(item@)) by {
                        if inst0.contains(item@) {
                            let w = choose|w: int| 0 <= w < inst0.len() && inst0[w] == item@;
                            assert(i0[w] == item@);
                        }
                    }
                    assert(a1.no_duplicates()) by {
                        assert forall|x: int, y: int| 0 <= x < a1.len() && 0 <= y < a1.len() && x != y implies a1[x] != a1[y] by {
                            if x < a0.len() && y < a0.len() {
                            } else if x < a0.len() {
                                assert(a0.contains(a1[x]));
                            } else if y < a0.len() {
                                assert(a0.contains(a1[y]));
                            }
                        }
                    }
                    assert(installs_after_dependencies(av, inst0, a1)) by {
                        assert forall|i: int, d: int| 0 <= i < a1.len() && 0 <= d < deps_of(av, a1[i]).len()
                            implies inst0.contains(#[trigger] deps_of(av, a1[i])[d]) || a1.subrange(0, i).contains(deps_of(av, a1[i])[d]) by {
                            if i < a0.len() {
                                assert(a1[i] == a0[i]);
                                assert(a1.subrange(0, i) =~= a0.subrange(0, i));
                            } else {
                                assert(a1.subrange(0, i) =~= a0);
                                let dep = deps_of(av, item@)[d];
                                assert(rv.subrange(0, j as int).contains(dep));
                                let w = choose|w: int| 0 <= w < j && rv.subrange(0, j as int)[w] == dep;
                                assert(rv[w] == dep);
                            }
                        }
                    }
                    assert forall|i: int| 0 <= i < actual@.len() implies rv.subrange(0, j + 1).contains(#[trigger] names_view(actual@)[i]) by {
                        if i < a0.len() {
                            assert(a1[i] == a0[i]);
                            let w = choose|w: int| 0 <= w < j && rv.subrange(0, j as int)[w] == a0[i];
                            assert(rv.subrange(0, j + 1)[w] == a0[i]);
                        } else {
                            assert(rv.subrange(0, j + 1)[j as int] == item@);
                        }
                    }
                    assert forall|i: int| 0 <= i < j + 1 implies inst0.contains(#[trigger] rv[i]) || a1.contains(rv[i]) by {
                        if i < j {
                            if a0.contains(rv[i]) {
                                let w = choose|w: int| 0 <= w < a0.len() && a0[w] == rv[i];
                                assert(a1[w] == rv[i]);
                            }
                        } else {
                            assert(a1[a0.len() as int] == item@);
                        }
                    }
                    assert forall|i: int| 0 <= i < actual@.len() implies is_available(av, #[trigger] names_view(actual@)[i]) && !inst0.contains(names_view(actual@)[i]) by {
                        if i < a0.len() { assert(a1[i] == a0[i]); }
                    }
                }
            },
        }
        proof {
            assert forall|i: int| 0 <= i < actual@.len() implies rv.subrange(0, j + 1).contains(#[trigger] names_view(actual@)[i]) by {
                let x = names_view(actual@)[i];
                if rv.subrange(0, j as int).contains(x) {
                    let w = choose|w: int| 0 <= w < j && rv.subrange(0, j as int)[w] == x;
                    assert(rv.subrange(0, j + 1)[w] == x);
                }
            }
        }
        j = j + 1;
    }
    proof {
        let a = names_view(actual@);
        let w = choose|w: int| 0 <= w < rv.len() && rv[w] == name@;
        assert(inst0.contains(rv[w]) || a.contains(rv[w]));
        assert forall|i: int| 0 <= i < actual@.len() implies in_closure(av, name@, #[trigger] names_view(actual@)[i]) by {
            assert(rv.subrange(0, j as int).contains(a[i]));
            let u = choose|u: int| 0 <= u < j && rv.subrange(0, j as int)[u] == a[i];
            assert(rv[u] == a[i]);
        }
        assert forall|x: Seq<char>| #[trigger] in_closure(av, name@, x) implies inst0.contains(x) || a.contains(x) by {
            lemma_ordered_holds_closure(av, rv, name@, x);
            let u = choose|u: int| 0 <= u < rv.len() && rv[u] == x;
            assert(inst0.contains(rv[u]) || a.contains(rv[u]));
        }
    }
    Ok(actual)
}

/// Whether some installed package other than `name` depends on `name`.
pub open spec fn is_dependent(av: Seq<PackageView>, inst: Seq<char>, name: Seq<char>) -> bool {
    inst != name && is_available(av, inst) && deps_of(av, inst).contains(name)
}

/// Uninstalls `name`, unless another installed package depends on it (the first such package
/// in installation order is named).
pub fn remove_package(db: &mut PackageDatabase, name: &str) -> (r: Result<(), String>)
    requires
        old(db).wf(),
    ensures
        final(db).wf(),
        final(db).available() == old(db).available(),
        !old(db).installed().contains(name@) ==> (r matches Err(e) && e@ == "Package '"@ + name@ + "' is not installed"@)
            && final(db).installed() == old(db).installed(),
        old(db).installed().contains(name@) && (exists|i: int| 0 <= i < old(db).installed().len()
            && #[trigger] is_dependent(old(db).available(), old(db).installed()[i], name@)) ==> (r matches Err(e) && ({
                let i = choose|i: int| 0 <= i < old(db).installed().len()
                    && is_dependent(old(db).available(), old(db).installed()[i], name@)
                    && forall|k: int| 0 <= k < i ==> !is_dependent(old(db).available(), old(db).installed()[k], name@);
                e@ == "Cannot remove '"@ + name@ + "': Package '"@ + old(db).installed()[i] + "' depends on it"@
            })) && final(db).installed() == old(db).installed(),
        old(db).installed().contains(name@) && (forall|i: int| 0 <= i < old(db).installed().len()
            ==> !#[trigger] is_dependent(old(db).available(), old(db).installed()[i], name@)) ==> r is Ok
            && final(db).installed() == old(db).installed().remove(old(db).installed().index_of(name@)),
{
    let pos = match find_name(&db.installed_packages, name) {
        None => {
            let mut msg: Vec<char> = Vec::new();
            push_str(&mut msg, "Package '");
            let nc = str_to_chars(name);
            push_chars(&mut msg, nc.as_slice());
            push_str(&mut msg, "' is not installed");
            return Err(chars_to_string(msg.as_slice()));
        },
        Some(p) => p,
    };
    let ghost iv = db.installed();
    let ghost av = db.available();
    assert(iv[pos as int] == name@);
    assert(iv.contains(name@));
    let mut i: usize = 0;
    while i < db.installed_packages.len()
        invariant
            db.wf(),
            iv == db.installed(),
            av == db.available(),
            iv == old(db).installed(),
            av == old(db).available(),
            iv.contains(name@),
            iv.len() == db.installed_packages@.len(),
            i <= iv.len(),
            forall|k: int| 0 <= k < i ==> !is_dependent(av, iv[k], name@),
        decreases iv.len() - i,
    {
        let inst = db.installed_packages[i].as_str();
        assert(iv[i as int] == inst@);
        if !str_eq(inst, name) {
            match find_package(db, inst) {
                Some(pi) => {
                    let deps = &db.available_packages[pi].dependencies;
                    match find_name(deps, name) {
                        Some(w) => {
                            proof {
                                assert(names_view(deps@)[w as int] == name@);
                                assert(is_dependent(av, iv[i as int], name@));
                                let c = choose|c: int| 0 <= c < iv.len() && is_dependent(av, iv[c], name@)
                                    && forall|k: int| 0 <= k < c ==> !is_dependent(av, iv[k], name@);
                                if c < i { } else if c > i { assert(!is_dependent(av, iv[i as int], name@)); }
                            }
                            let mut msg: Vec<char> = Vec::new();
                            push_str(&mut msg, "Cannot remove '");
                            let nc = str_to_chars(name);
                            push_chars(&mut msg, nc.as_slice());
                            push_str(&mut msg, "': Package '");
                            let ic = str_to_chars(inst);
                            push_chars(&mut msg, ic.as_slice());
                            push_str(&mut msg, "' depends on it");
                            return Err(chars_to_string(msg.as_slice()));
                        },
                        None => {},
                    }
                },
                None => {},
            }
        }
        i = i + 1;
    }
    let ghost i0 = db.installed_packages@;
    db.installed_packages.remove(pos);
    proof {
        assert(iv[pos as int] == name@);
        assert(iv.index_of(name@) == pos as int) by {
            iv.index_of_first_ensures(name@);
            let f = iv.index_of(name@);
            if f != pos as int {
                assert(iv[f] == name@);
            }
        }
        assert(db.installed() =~= iv.remove(pos as int));
        let nv = db.installed();
        assert forall|x: int, y: int| 0 <= x < nv.len() && 0 <= y < nv.len() && x != y implies nv[x] != nv[y] by {
            let x0 = if x < pos { x } else { x + 1 };
            let y0 = if y < pos { y } else { y + 1 };
            assert(nv[x] == iv[x0] && nv[y] == iv[y0]);
        }
    }
    Ok(())
}

/// The installed package names.
pub fn list_installed(db: &PackageDatabase) -> (r: Vec<String>)
    ensures
        names_view(r@) == db.installed(),
{
    copy_names(&db.installed_packages)
}

/// A copy of a package.
fn copy_package(p: &Package) -> (r: Package)
    ensures
        package_view(r) == package_view(*p),
{
    Package { name: p.name.clone(), version: p.version.clone(), description: p.description.clone(), dependencies: copy_names(&p.dependencies) }
}

/// Every package of the repository.
pub fn get_all_available(db: &PackageDatabase) -> (r: Vec<Package>)
    ensures
        packages_view(r@) == db.available(),
{
    let mut r: Vec<Package> = Vec::new();
    let mut i: usize = 0;
    while i < db.available_packages.len()
        invariant
            i <= db.available_packages@.len(),
            packages_view(r@) == packages_view(db.available_packages@.subrange(0, i as int)),
        decreases db.available_packages@.len() - i,
    {
        let ghost prev = r@;
        r.push(copy_package(&db.available_packages[i]));
        i = i + 1;
        assert(packages_view(r@) =~= packages_view(prev).push(package_view(db.available_packages@[i - 1])));
        assert(packages_view(db.available_packages@.subrange(0, i as int)) =~= packages_view(db.available_packages@.subrange(0, i - 1)).push(package_view(db.available_packages@[i - 1])));
    }
    assert(db.available_packages@.subrange(0, i as int) =~= db.available_packages@);
    r
}

} // verus!
