//! Pruning: what the allow-list reaches stays, the rest goes.
//!
//! The model is a graph. Its nodes are identifiers, and an API points at
//! every identifier it depends on. A symbol on the allow-list can be generated
//! if it names an API that is not excluded and if nothing it reaches is out of
//! reach itself: excluded, or neither declared nor primitive.

use vstd::prelude::*;
use crate::conversion::api::Api;
use crate::conversion::api::ApiView;
use crate::conversion::api::ConvertError;
use crate::conversion::api::ErrorView;
use crate::conversion::api::apis_view;
use crate::conversion::api::api_names;
use crate::conversion::api::find_api;
use crate::conversion::api::lookup;
use crate::conversion::api::distinct_names;
use crate::conversion::api::lemma_lookup_distinct;
use crate::search::lemma_first_from;
use crate::conversion::parse::apis_result_view;
use crate::flags::count_unset;
use crate::flags::lemma_count_unset_update;
use crate::flags::unset_flags;
use crate::names::first_index;
use crate::names::is_first_index;
use crate::names::is_primitive;
use crate::names::is_primitive_name;
use crate::names::lemma_first_index;
use crate::names::lemma_first_index_unique;
use crate::names::names_view;
use crate::search::first_such;
use crate::search::lemma_first_such_is;
use crate::search::lemma_first_such_none;
use crate::type_database::DatabaseView;
use crate::type_database::TypeDatabase;

verus! {

/// `name` is the identifier of an API that may be generated.
pub open spec fn usable(model: Seq<ApiView>, db: DatabaseView, name: Seq<char>) -> bool {
    first_index(api_names(model), name) is Some && !db.is_excluded(name)
}

/// `name` cannot be had: it names an excluded API, or it names no API and no
/// primitive type.
pub open spec fn broken(model: Seq<ApiView>, db: DatabaseView, name: Seq<char>) -> bool {
    match first_index(api_names(model), name) {
        Some(_) => db.is_excluded(name),
        None => !is_primitive_name(name),
    }
}

/// The API called `a` depends on `b`.
pub open spec fn depends_on(model: Seq<ApiView>, a: Seq<char>, b: Seq<char>) -> bool {
    match lookup(model, a) {
        Some(api) => api.deps().contains(b),
        None => false,
    }
}

/// Each identifier of `path` but the last is usable and depends on the next.
pub open spec fn is_path(model: Seq<ApiView>, db: DatabaseView, path: Seq<Seq<char>>) -> bool {
    &&& path.len() > 0
    &&& forall|i: int|
        0 <= i < path.len() - 1 ==> usable(model, db, #[trigger] path[i]) && depends_on(
            model,
            path[i],
            path[i + 1],
        )
}

/// Dependency edges lead from `from` to `to`.
pub open spec fn reaches(
    model: Seq<ApiView>,
    db: DatabaseView,
    from: Seq<char>,
    to: Seq<char>,
) -> bool {
    exists|path: Seq<Seq<char>>|
        #[trigger] is_path(model, db, path) && path[0] == from && path.last() == to
}

/// The symbol `root` cannot be generated.
pub open spec fn unsatisfiable(model: Seq<ApiView>, db: DatabaseView, root: Seq<char>) -> bool {
    !usable(model, db, root) || exists|n: Seq<char>|
        #[trigger] reaches(model, db, root, n) && broken(model, db, n)
}

/// Some symbol on the allow-list reaches `name`.
pub open spec fn retained(model: Seq<ApiView>, db: DatabaseView, name: Seq<char>) -> bool {
    exists|r: int|
        0 <= r < db.allowlist.len() && #[trigger] reaches(model, db, db.allowlist[r], name)
}

/// The test for a symbol of the allow-list that cannot be generated.
pub open spec fn unsatisfiable_test(model: Seq<ApiView>, db: DatabaseView) -> spec_fn(int) -> bool {
    |r: int| unsatisfiable(model, db, db.allowlist[r])
}

/// The test for an API that the allow-list reaches.
pub open spec fn retention_test(model: Seq<ApiView>, db: DatabaseView) -> spec_fn(ApiView) -> bool {
    |a: ApiView| retained(model, db, a.name)
}

/// What pruning yields: the APIs that the allow-list reaches, in the order
/// they had, or the first symbol of the allow-list that cannot be generated.
pub open spec fn pruned(model: Seq<ApiView>, db: DatabaseView) -> Result<Seq<ApiView>, ErrorView> {
    match first_such(db.allowlist.len() as int, unsatisfiable_test(model, db)) {
        Some(r) => Err(ErrorView::UnsatisfiableRoot { root: db.allowlist[r] }),
        None => Ok(model.filter(retention_test(model, db))),
    }
}

/// Every identifier reaches itself.
pub proof fn lemma_reaches_self(model: Seq<ApiView>, db: DatabaseView, a: Seq<char>)
    ensures
        reaches(model, db, a, a),
{
    let path = seq![a];
    assert(is_path(model, db, path));
    assert(path[0] == a && path.last() == a);
}

/// What is reached can be left along any edge.
pub proof fn lemma_reaches_step(
    model: Seq<ApiView>,
    db: DatabaseView,
    from: Seq<char>,
    a: Seq<char>,
    b: Seq<char>,
)
    requires
        reaches(model, db, from, a),
        usable(model, db, a),
        depends_on(model, a, b),
    ensures
        reaches(model, db, from, b),
{
    let path = choose|path: Seq<Seq<char>>|
        #[trigger] is_path(model, db, path) && path[0] == from && path.last() == a;
    let longer = path.push(b);
    assert forall|i: int| 0 <= i < longer.len() - 1 implies usable(
        model,
        db,
        #[trigger] longer[i],
    ) && depends_on(model, longer[i], longer[i + 1]) by {
        if i < path.len() - 1 {
            assert(longer[i] == path[i]);
            assert(longer[i + 1] == path[i + 1]);
        }
    }
    assert(is_path(model, db, longer));
    assert(longer[0] == from && longer.last() == b);
}

/// Whether the dependency `d` is taken care of: it names an API that may be
/// generated and is marked, or it names no API and is primitive.
spec fn good(model: Seq<ApiView>, db: DatabaseView, visited: Seq<bool>, d: Seq<char>) -> bool {
    match first_index(api_names(model), d) {
        Some(j) => !db.is_excluded(d) && visited[j],
        None => is_primitive_name(d),
    }
}

/// Every dependency of API `k` is taken care of.
spec fn settled(model: Seq<ApiView>, db: DatabaseView, visited: Seq<bool>, k: int) -> bool {
    forall|m: int|
        0 <= m < model[k].deps().len() ==> good(model, db, visited, #[trigger] model[k].deps()[m])
}

/// API `k` may be marked: it is the first of its name, is not excluded, and
/// one of the first `upto` symbols of the allow-list reaches it.
spec fn mark_ok(model: Seq<ApiView>, db: DatabaseView, k: int, upto: int) -> bool {
    &&& is_first_index(api_names(model), model[k].name, k)
    &&& !db.is_excluded(model[k].name)
    &&& exists|r: int|
        0 <= r < upto && r < db.allowlist.len() && #[trigger] reaches(
            model,
            db,
            db.allowlist[r],
            model[k].name,
        )
}

spec fn marks_ok(model: Seq<ApiView>, db: DatabaseView, visited: Seq<bool>, upto: int) -> bool {
    &&& visited.len() == model.len()
    &&& forall|k: int| 0 <= k < model.len() && #[trigger] visited[k] ==> mark_ok(model, db, k, upto)
}

spec fn pending(queue: Seq<usize>, head: int, k: int) -> bool {
    exists|q: int| head <= q < queue.len() && #[trigger] queue[q] == k
}

spec fn closed_but(
    model: Seq<ApiView>,
    db: DatabaseView,
    visited: Seq<bool>,
    queue: Seq<usize>,
    head: int,
) -> bool {
    forall|k: int|
        0 <= k < model.len() && #[trigger] visited[k] ==> settled(model, db, visited, k) || pending(
            queue,
            head,
            k,
        )
}

spec fn closed(model: Seq<ApiView>, db: DatabaseView, visited: Seq<bool>) -> bool {
    forall|k: int| 0 <= k < model.len() && #[trigger] visited[k] ==> settled(model, db, visited, k)
}

spec fn queue_ok(
    model: Seq<ApiView>,
    db: DatabaseView,
    visited: Seq<bool>,
    queue: Seq<usize>,
    r: int,
) -> bool {
    forall|q: int|
        0 <= q < queue.len() ==> {
            let k = #[trigger] queue[q] as int;
            &&& 0 <= k < model.len()
            &&& visited[k]
            &&& reaches(model, db, db.allowlist[r], model[k].name)
        }
}

/// Each of the first `upto` symbols of the allow-list names a marked API.
spec fn roots_marked(model: Seq<ApiView>, db: DatabaseView, visited: Seq<bool>, upto: int) -> bool {
    forall|r: int|
        0 <= r < upto ==> good(model, db, visited, #[trigger] db.allowlist[r]) && usable(
            model,
            db,
            db.allowlist[r],
        )
}

/// What holds between two sweeps: the marks are justified by the first `upto`
/// symbols, each of those is marked, and nothing marked has loose ends.
spec fn swept(model: Seq<ApiView>, db: DatabaseView, visited: Seq<bool>, upto: int) -> bool {
    &&& 0 <= upto <= db.allowlist.len()
    &&& marks_ok(model, db, visited, upto)
    &&& roots_marked(model, db, visited, upto)
    &&& closed(model, db, visited)
}

/// What holds during the sweep from symbol `r`, with `queue[head..]` still to
/// be looked at.
spec fn wave_inv(
    model: Seq<ApiView>,
    db: DatabaseView,
    visited: Seq<bool>,
    queue: Seq<usize>,
    head: int,
    r: int,
) -> bool {
    &&& 0 <= head <= queue.len()
    &&& 0 <= r < db.allowlist.len()
    &&& marks_ok(model, db, visited, r + 1)
    &&& roots_marked(model, db, visited, r + 1)
    &&& queue_ok(model, db, visited, queue, r)
    &&& closed_but(model, db, visited, queue, head)
}

/// The same, while the dependencies of `queue[head]` are gone through and the
/// first `m` of them are done.
spec fn expand_inv(
    model: Seq<ApiView>,
    db: DatabaseView,
    visited: Seq<bool>,
    queue: Seq<usize>,
    head: int,
    r: int,
    m: int,
) -> bool {
    &&& wave_inv(model, db, visited, queue, head, r)
    &&& head < queue.len()
    &&& 0 <= m <= model[queue[head] as int].deps().len()
    &&& forall|x: int|
        0 <= x < m ==> good(model, db, visited, #[trigger] model[queue[head] as int].deps()[x])
}

proof fn lemma_good_monotone(
    model: Seq<ApiView>,
    db: DatabaseView,
    visited: Seq<bool>,
    j: int,
    d: Seq<char>,
)
    requires
        visited.len() == model.len(),
        0 <= j < model.len(),
        good(model, db, visited, d),
    ensures
        good(model, db, visited.update(j, true), d),
{
    lemma_first_index(api_names(model), d);
}

proof fn lemma_settled_monotone(
    model: Seq<ApiView>,
    db: DatabaseView,
    visited: Seq<bool>,
    j: int,
    k: int,
)
    requires
        visited.len() == model.len(),
        0 <= j < model.len(),
        settled(model, db, visited, k),
    ensures
        settled(model, db, visited.update(j, true), k),
{
    assert forall|m: int| 0 <= m < model[k].deps().len() implies good(
        model,
        db,
        visited.update(j, true),
        #[trigger] model[k].deps()[m],
    ) by {
        lemma_good_monotone(model, db, visited, j, model[k].deps()[m]);
    }
}

/// The node at the head of the queue depends on each of its dependencies,
/// so the symbol that reaches the node reaches them.
proof fn lemma_head_reaches_dep(
    model: Seq<ApiView>,
    db: DatabaseView,
    visited: Seq<bool>,
    queue: Seq<usize>,
    head: int,
    r: int,
    m: int,
)
    requires
        expand_inv(model, db, visited, queue, head, r, m),
        m < model[queue[head] as int].deps().len(),
    ensures
        reaches(model, db, db.allowlist[r], model[queue[head] as int].deps()[m]),
{
    let k = queue[head] as int;
    let d = model[k].deps()[m];
    let names = api_names(model);
    assert(visited[k]);
    assert(mark_ok(model, db, k, r + 1));
    lemma_first_index_unique(names, model[k].name, k);
    assert(lookup(model, model[k].name) == Some(model[k]));
    assert(model[k].deps().contains(d));
    lemma_reaches_step(model, db, db.allowlist[r], model[k].name, d);
}

proof fn lemma_expand_broken(
    model: Seq<ApiView>,
    db: DatabaseView,
    visited: Seq<bool>,
    queue: Seq<usize>,
    head: int,
    r: int,
    m: int,
)
    requires
        expand_inv(model, db, visited, queue, head, r, m),
        m < model[queue[head] as int].deps().len(),
        broken(model, db, model[queue[head] as int].deps()[m]),
    ensures
        unsatisfiable(model, db, db.allowlist[r]),
{
    lemma_head_reaches_dep(model, db, visited, queue, head, r, m);
}

proof fn lemma_expand_mark(
    model: Seq<ApiView>,
    db: DatabaseView,
    visited: Seq<bool>,
    queue: Seq<usize>,
    head: int,
    r: int,
    m: int,
    j: int,
)
    requires
        expand_inv(model, db, visited, queue, head, r, m),
        m < model[queue[head] as int].deps().len(),
        first_index(api_names(model), model[queue[head] as int].deps()[m]) == Some(j),
        !db.is_excluded(model[queue[head] as int].deps()[m]),
        !visited[j],
        j <= usize::MAX,
    ensures
        expand_inv(
            model,
            db,
            visited.update(j, true),
            queue.push(j as usize),
            head,
            r,
            m + 1,
        ),
{
    let k = queue[head] as int;
    let d = model[k].deps()[m];
    let names = api_names(model);
    let visited2 = visited.update(j, true);
    let queue2 = queue.push(j as usize);
    lemma_first_index(names, d);
    lemma_head_reaches_dep(model, db, visited, queue, head, r, m);
    assert(names[j] == model[j].name);
    assert(mark_ok(model, db, j, r + 1));
    assert(marks_ok(model, db, visited2, r + 1)) by {
        assert forall|x: int| 0 <= x < model.len() && #[trigger] visited2[x] implies mark_ok(
            model,
            db,
            x,
            r + 1,
        ) by {
            if x != j {
                assert(visited[x]);
            }
        }
    }
    assert(roots_marked(model, db, visited2, r + 1)) by {
        assert forall|x: int| 0 <= x < r + 1 implies good(
            model,
            db,
            visited2,
            #[trigger] db.allowlist[x],
        ) && usable(model, db, db.allowlist[x]) by {
            lemma_good_monotone(model, db, visited, j, db.allowlist[x]);
        }
    }
    assert(queue_ok(model, db, visited2, queue2, r)) by {
        assert forall|q: int| 0 <= q < queue2.len() implies {
            let x = #[trigger] queue2[q] as int;
            &&& 0 <= x < model.len()
            &&& visited2[x]
            &&& reaches(model, db, db.allowlist[r], model[x].name)
        } by {
            if q < queue.len() {
                assert(queue2[q] == queue[q]);
            }
        }
    }
    assert(closed_but(model, db, visited2, queue2, head)) by {
        assert forall|x: int| 0 <= x < model.len() && #[trigger] visited2[x] implies settled(
            model,
            db,
            visited2,
            x,
        ) || pending(queue2, head, x) by {
            if x == j {
                assert(queue2[queue.len() as int] == j);
            } else {
                assert(visited[x]);
                if settled(model, db, visited, x) {
                    lemma_settled_monotone(model, db, visited, j, x);
                } else {
                    let q = choose|q: int| head <= q < queue.len() && #[trigger] queue[q] == x;
                    assert(queue2[q] == x);
                }
            }
        }
    }
    assert(queue2[head] == queue[head]);
    assert forall|x: int| 0 <= x < m + 1 implies good(
        model,
        db,
        visited2,
        #[trigger] model[queue2[head] as int].deps()[x],
    ) by {
        if x < m {
            lemma_good_monotone(model, db, visited, j, model[k].deps()[x]);
        }
    }
}

proof fn lemma_expand_done(
    model: Seq<ApiView>,
    db: DatabaseView,
    visited: Seq<bool>,
    queue: Seq<usize>,
    head: int,
    r: int,
)
    requires
        expand_inv(
            model,
            db,
            visited,
            queue,
            head,
            r,
            model[queue[head] as int].deps().len() as int,
        ),
    ensures
        wave_inv(model, db, visited, queue, head + 1, r),
{
    let k = queue[head] as int;
    assert(settled(model, db, visited, k));
    assert forall|x: int| 0 <= x < model.len() && #[trigger] visited[x] implies settled(
        model,
        db,
        visited,
        x,
    ) || pending(queue, head + 1, x) by {
        if !settled(model, db, visited, x) {
            let q = choose|q: int| head <= q < queue.len() && #[trigger] queue[q] == x;
            assert(q != head);
        }
    }
}

/// Where nothing marked has loose ends, a path that starts at a marked node
/// stays among marked nodes and primitives.
proof fn lemma_closed_path(
    model: Seq<ApiView>,
    db: DatabaseView,
    visited: Seq<bool>,
    path: Seq<Seq<char>>,
    i: int,
)
    requires
        visited.len() == model.len(),
        closed(model, db, visited),
        is_path(model, db, path),
        good(model, db, visited, path[0]),
        0 <= i < path.len(),
    ensures
        good(model, db, visited, path[i]),
    decreases i,
{
    if i > 0 {
        lemma_closed_path(model, db, visited, path, i - 1);
        let a = path[i - 1];
        let names = api_names(model);
        lemma_first_index(names, a);
        assert(usable(model, db, a));
        let k = first_index(names, a).unwrap();
        assert(visited[k]);
        assert(settled(model, db, visited, k));
        assert(depends_on(model, a, path[i - 1 + 1]));
        let deps = model[k].deps();
        let m = choose|m: int| 0 <= m < deps.len() && deps[m] == path[i];
        assert(good(model, db, visited, deps[m]));
    }
}

/// Where nothing marked has loose ends, a symbol that names a marked API can
/// be generated.
proof fn lemma_closed_satisfiable(
    model: Seq<ApiView>,
    db: DatabaseView,
    visited: Seq<bool>,
    root: Seq<char>,
)
    requires
        visited.len() == model.len(),
        closed(model, db, visited),
        good(model, db, visited, root),
        usable(model, db, root),
    ensures
        !unsatisfiable(model, db, root),
{
    assert forall|n: Seq<char>| #[trigger] reaches(model, db, root, n) implies !broken(
        model,
        db,
        n,
    ) by {
        let path = choose|path: Seq<Seq<char>>|
            #[trigger] is_path(model, db, path) && path[0] == root && path.last() == n;
        lemma_closed_path(model, db, visited, path, path.len() - 1);
    }
}

/// After the last sweep an API is marked exactly if the allow-list reaches it.
proof fn lemma_swept_retained(model: Seq<ApiView>, db: DatabaseView, visited: Seq<bool>, i: int)
    requires
        swept(model, db, visited, db.allowlist.len() as int),
        0 <= i < model.len(),
    ensures
        retained(model, db, model[i].name) == good(model, db, visited, model[i].name),
{
    let names = api_names(model);
    let name = model[i].name;
    lemma_first_index(names, name);
    assert(names[i] == name);
    if retained(model, db, name) {
        let r = choose|r: int|
            0 <= r < db.allowlist.len() && #[trigger] reaches(model, db, db.allowlist[r], name);
        let path = choose|path: Seq<Seq<char>>|
            #[trigger] is_path(model, db, path) && path[0] == db.allowlist[r] && path.last()
                == name;
        assert(good(model, db, visited, db.allowlist[r]));
        lemma_closed_path(model, db, visited, path, path.len() - 1);
    }
    if good(model, db, visited, name) {
        let k = first_index(names, name).unwrap();
        assert(visited[k]);
        assert(mark_ok(model, db, k, db.allowlist.len() as int));
        assert(names[k] == model[k].name);
    }
}

/// Goes through the dependencies of the node at the head of the queue. A
/// dependency that names an unmarked API has it marked and queued. Says
/// `false` where a dependency cannot be had.
fn expand(
    apis: &Vec<Api>,
    db: &TypeDatabase,
    visited: &mut Vec<bool>,
    queue: &mut Vec<usize>,
    head: usize,
    r: usize,
) -> (ok: bool)
    requires
        wave_inv(apis_view(apis@), db@, old(visited)@, old(queue)@, head as int, r as int),
        head < old(queue)@.len(),
    ensures
        ok ==> wave_inv(
            apis_view(apis@),
            db@,
            final(visited)@,
            final(queue)@,
            head + 1,
            r as int,
        ),
        ok ==> count_unset(final(visited)@) + final(queue)@.len() == count_unset(old(visited)@)
            + old(queue)@.len(),
        !ok ==> unsatisfiable(apis_view(apis@), db@, db@.allowlist[r as int]),
{
    let ghost model = apis_view(apis@);
    let k = queue[head];
    assert(model[k as int] == apis@[k as int]@);
    let deps = apis[k].deps();
    let mut m: usize = 0;
    while m < deps.len()
        invariant
            m <= deps.len(),
            model == apis_view(apis@),
            names_view(deps@) == model[k as int].deps(),
            head < queue@.len(),
            k == queue@[head as int],
            expand_inv(model, db@, visited@, queue@, head as int, r as int, m as int),
            count_unset(visited@) + queue@.len() == count_unset(old(visited)@) + old(queue)@.len(),
        decreases deps.len() - m,
    {
        let d = &deps[m];
        assert(names_view(deps@)[m as int] == d@);
        proof {
            lemma_first_index(api_names(model), d@);
        }
        match find_api(apis, d) {
            Some(j) => {
                if db.is_excluded(d) {
                    proof {
                        lemma_expand_broken(
                            model,
                            db@,
                            visited@,
                            queue@,
                            head as int,
                            r as int,
                            m as int,
                        );
                    }
                    return false;
                }
                if !visited[j] {
                    proof {
                        lemma_expand_mark(
                            model,
                            db@,
                            visited@,
                            queue@,
                            head as int,
                            r as int,
                            m as int,
                            j as int,
                        );
                        lemma_count_unset_update(visited@, j as int);
                    }
                    visited.set(j, true);
                    queue.push(j);
                }
            },
            None => {
                if !is_primitive(d) {
                    proof {
                        lemma_expand_broken(
                            model,
                            db@,
                            visited@,
                            queue@,
                            head as int,
                            r as int,
                            m as int,
                        );
                    }
                    return false;
                }
            },
        }
        m += 1;
    }
    proof {
        lemma_expand_done(model, db@, visited@, queue@, head as int, r as int);
    }
    true
}

/// Marks everything that symbol `r` of the allow-list reaches. Says whether
/// the symbol can be generated.
fn sweep(apis: &Vec<Api>, db: &TypeDatabase, visited: &mut Vec<bool>, r: usize) -> (ok: bool)
    requires
        r < db@.allowlist.len(),
        swept(apis_view(apis@), db@, old(visited)@, r as int),
    ensures
        ok == !unsatisfiable(apis_view(apis@), db@, db@.allowlist[r as int]),
        ok ==> swept(apis_view(apis@), db@, final(visited)@, r + 1),
{
    let ghost model = apis_view(apis@);
    let ghost names = api_names(model);
    let root = &db.allowlist[r];
    assert(db@.allowlist[r as int] == root@);
    proof {
        lemma_first_index(names, root@);
    }
    let start = match find_api(apis, root) {
        Some(j) => j,
        None => {
            return false;
        },
    };
    if db.is_excluded(root) {
        return false;
    }
    proof {
        lemma_reaches_self(model, db@, root@);
        assert(names[start as int] == model[start as int].name);
    }
    if visited[start] {
        proof {
            lemma_closed_satisfiable(model, db@, visited@, root@);
            assert(marks_ok(model, db@, visited@, r + 1)) by {
                assert forall|k: int| 0 <= k < model.len() && #[trigger] visited@[k] implies mark_ok(
                    model,
                    db@,
                    k,
                    r + 1,
                ) by {
                    assert(mark_ok(model, db@, k, r as int));
                }
            }
        }
        return true;
    }
    let mut queue: Vec<usize> = Vec::new();
    proof {
        lemma_count_unset_update(visited@, start as int);
        let visited2 = visited@.update(start as int, true);
        let queue2 = seq![start];
        assert(mark_ok(model, db@, start as int, r + 1));
        assert forall|k: int| 0 <= k < model.len() && #[trigger] visited2[k] implies mark_ok(
            model,
            db@,
            k,
            r + 1,
        ) by {
            if k != start {
                assert(visited@[k]);
                assert(mark_ok(model, db@, k, r as int));
            }
        }
        assert forall|x: int| 0 <= x < r + 1 implies good(
            model,
            db@,
            visited2,
            #[trigger] db@.allowlist[x],
        ) && usable(model, db@, db@.allowlist[x]) by {
            if x < r {
                lemma_good_monotone(model, db@, visited@, start as int, db@.allowlist[x]);
            }
        }
        assert forall|k: int| 0 <= k < model.len() && #[trigger] visited2[k] implies settled(
            model,
            db@,
            visited2,
            k,
        ) || pending(queue2, 0, k) by {
            if k == start {
                assert(queue2[0] == k);
            } else {
                assert(visited@[k]);
                lemma_settled_monotone(model, db@, visited@, start as int, k);
            }
        }
    }
    visited.set(start, true);
    queue.push(start);
    assert(queue@ =~= seq![start]);
    let mut head: usize = 0;
    while head < queue.len()
        invariant
            model == apis_view(apis@),
            r < db@.allowlist.len(),
            root@ == db@.allowlist[r as int],
            wave_inv(model, db@, visited@, queue@, head as int, r as int),
        decreases count_unset(visited@) + queue@.len() - head,
    {
        if !expand(apis, db, visited, &mut queue, head, r) {
            return false;
        }
        head += 1;
    }
    proof {
        assert(closed(model, db@, visited@)) by {
            assert forall|k: int| 0 <= k < model.len() && #[trigger] visited@[k] implies settled(
                model,
                db@,
                visited@,
                k,
            ) by {
                assert(!pending(queue@, head as int, k));
            }
        }
        assert(good(model, db@, visited@, root@));
        lemma_closed_satisfiable(model, db@, visited@, root@);
    }
    true
}

/// `s.take(i + 1)` filtered is `s.take(i)` filtered, with `s[i]` added if it passes.
proof fn lemma_filter_step(s: Seq<ApiView>, pred: spec_fn(ApiView) -> bool, i: int)
    requires
        0 <= i < s.len(),
    ensures
        s.take(i + 1).filter(pred) == if pred(s[i]) {
            s.take(i).filter(pred).push(s[i])
        } else {
            s.take(i).filter(pred)
        },
{
    reveal(Seq::filter);
    assert(s.take(i + 1).drop_last() =~= s.take(i));
    assert(s.take(i + 1).last() == s[i]);
}

/// Keeps of `apis` what the allow-list of `type_database` reaches along
/// dependency edges, in the order it had, and drops the rest. The traversal
/// is breadth-first from each symbol of the allow-list in turn. The first
/// symbol that cannot be generated, because it names no API, names an
/// excluded one, or reaches something that cannot be had, ends the
/// conversion.
pub fn filter_apis_by_following_edges_from_allowlist(
    apis: Vec<Api>,
    type_database: &TypeDatabase,
) -> (r: Result<Vec<Api>, ConvertError>)
    ensures
        apis_result_view(r) == pruned(apis_view(apis@), type_database@),
{
    let ghost model = apis_view(apis@);
    let ghost db = type_database@;
    let ghost test = unsatisfiable_test(model, db);
    let n = apis.len();
    let mut visited = unset_flags(n);
    let roots = type_database.allowlist.len();
    let mut r: usize = 0;
    while r < roots
        invariant
            r <= roots,
            roots == db.allowlist.len(),
            db == type_database@,
            model == apis_view(apis@),
            test == unsatisfiable_test(model, db),
            swept(model, db, visited@, r as int),
            forall|x: int| 0 <= x < r ==> !(#[trigger] test(x)),
        decreases roots - r,
    {
        if !sweep(&apis, type_database, &mut visited, r) {
            proof {
                assert(test(r as int));
                lemma_first_such_is(roots as int, test, r as int);
            }
            return Err(ConvertError::UnsatisfiableRoot { root: type_database.allowlist[r].clone() });
        }
        assert(!test(r as int));
        r += 1;
    }
    proof {
        lemma_first_such_none(roots as int, test);
    }
    let ghost keep = retention_test(model, db);
    let mut kept: Vec<Api> = Vec::new();
    let mut i: usize = 0;
    assert(model.take(0).filter(keep) =~= Seq::<ApiView>::empty()) by {
        reveal(Seq::filter);
    }
    while i < n
        invariant
            i <= n,
            n == apis@.len(),
            model == apis_view(apis@),
            db == type_database@,
            keep == retention_test(model, db),
            visited@.len() == n,
            swept(model, db, visited@, db.allowlist.len() as int),
            apis_view(kept@) == model.take(i as int).filter(keep),
        decreases n - i,
    {
        let api = &apis[i];
        assert(model[i as int] == api@);
        proof {
            lemma_swept_retained(model, db, visited@, i as int);
            lemma_filter_step(model, keep, i as int);
            lemma_first_index(api_names(model), api@.name);
        }
        let marked = match find_api(&apis, &api.name) {
            Some(f) => visited[f] && !type_database.is_excluded(&api.name),
            None => false,
        };
        proof {
            assert(keep(model[i as int]) == retained(model, db, model[i as int].name));
            assert(api_names(model)[i as int] == api@.name);
            assert(marked == good(model, db, visited@, api@.name));
        }
        if marked {
            kept.push(api.clone());
            assert(apis_view(kept@) =~= model.take(i as int).filter(keep).push(model[i as int]));
        }
        i += 1;
    }
    assert(model.take(n as int) =~= model);
    Ok(kept)
}

/// What a filter lets through was there before and passes the test.
pub proof fn lemma_filter_origin(s: Seq<ApiView>, pred: spec_fn(ApiView) -> bool, i: int)
    requires
        0 <= i < s.filter(pred).len(),
    ensures
        exists|k: int| 0 <= k < s.len() && #[trigger] s[k] == s.filter(pred)[i] && pred(s[k]),
    decreases s.len(),
{
    reveal(Seq::filter);
    if s.len() > 0 {
        let front = s.drop_last();
        if i < front.filter(pred).len() {
            lemma_filter_origin(front, pred, i);
            let k = choose|k: int|
                0 <= k < front.len() && #[trigger] front[k] == front.filter(pred)[i] && pred(
                    front[k],
                );
            assert(s[k] == front[k]);
        } else {
            assert(s[s.len() - 1] == s.filter(pred)[i]);
        }
    }
}

/// What passes the test gets through the filter.
pub proof fn lemma_filter_keeps(s: Seq<ApiView>, pred: spec_fn(ApiView) -> bool, k: int)
    requires
        0 <= k < s.len(),
        pred(s[k]),
    ensures
        exists|i: int| 0 <= i < s.filter(pred).len() && #[trigger] s.filter(pred)[i] == s[k],
    decreases s.len(),
{
    reveal(Seq::filter);
    let front = s.drop_last();
    if k < s.len() - 1 {
        lemma_filter_keeps(front, pred, k);
        let i = choose|i: int|
            0 <= i < front.filter(pred).len() && #[trigger] front.filter(pred)[i] == front[k];
        assert(s.filter(pred)[i] == s[k]);
    } else {
        assert(s.filter(pred)[front.filter(pred).len() as int] == s[k]);
    }
}

/// Pruning that succeeds found every symbol of the allow-list satisfiable.
pub proof fn lemma_pruned_roots_satisfiable(model: Seq<ApiView>, db: DatabaseView, r: int)
    requires
        pruned(model, db) is Ok,
        0 <= r < db.allowlist.len(),
    ensures
        !unsatisfiable(model, db, db.allowlist[r]),
{
    lemma_first_from(0, db.allowlist.len() as int, unsatisfiable_test(model, db));
    assert(!unsatisfiable_test(model, db)(r));
}

/// Pruning that fails names a symbol of the allow-list that cannot be
/// generated, the first of them.
pub proof fn lemma_pruned_failure(model: Seq<ApiView>, db: DatabaseView)
    requires
        pruned(model, db) is Err,
    ensures
        exists|r: int|
            0 <= r < db.allowlist.len() && pruned(model, db) == Err::<Seq<ApiView>, ErrorView>(
                ErrorView::UnsatisfiableRoot { root: #[trigger] db.allowlist[r] },
            ) && unsatisfiable(model, db, db.allowlist[r]) && forall|x: int|
                0 <= x < r ==> !unsatisfiable(model, db, #[trigger] db.allowlist[x]),
{
    let test = unsatisfiable_test(model, db);
    lemma_first_from(0, db.allowlist.len() as int, test);
    let r = first_such(db.allowlist.len() as int, test).unwrap();
    assert(test(r));
    assert forall|x: int| 0 <= x < r implies !unsatisfiable(model, db, #[trigger] db.allowlist[x]) by {
        assert(!test(x));
    }
}

/// Reachability: every API that pruning keeps was in the model, and some
/// symbol of the allow-list reaches it along dependency edges.
pub proof fn lemma_pruned_reachable(model: Seq<ApiView>, db: DatabaseView, i: int)
    requires
        pruned(model, db) is Ok,
        0 <= i < pruned(model, db)->Ok_0.len(),
    ensures
        retained(model, db, pruned(model, db)->Ok_0[i].name),
        exists|k: int| 0 <= k < model.len() && #[trigger] model[k] == pruned(model, db)->Ok_0[i],
{
    let keep = retention_test(model, db);
    lemma_filter_origin(model, keep, i);
    let k = choose|k: int|
        0 <= k < model.len() && #[trigger] model[k] == model.filter(keep)[i] && keep(model[k]);
    assert(retained(model, db, model[k].name));
}

/// Every API of the model that the allow-list reaches is kept.
pub proof fn lemma_pruned_keeps(model: Seq<ApiView>, db: DatabaseView, k: int)
    requires
        pruned(model, db) is Ok,
        0 <= k < model.len(),
        retained(model, db, model[k].name),
    ensures
        exists|i: int|
            0 <= i < pruned(model, db)->Ok_0.len() && #[trigger] pruned(model, db)->Ok_0[i]
                == model[k],
        api_names(pruned(model, db)->Ok_0).contains(model[k].name),
{
    let keep = retention_test(model, db);
    assert(keep(model[k]));
    lemma_filter_keeps(model, keep, k);
    let kept = pruned(model, db)->Ok_0;
    let i = choose|i: int| 0 <= i < kept.len() && #[trigger] kept[i] == model[k];
    assert(api_names(kept)[i] == model[k].name);
}

/// Every symbol of the allow-list is among what pruning keeps, where pruning
/// succeeds.
pub proof fn lemma_roots_present(model: Seq<ApiView>, db: DatabaseView, r: int)
    requires
        pruned(model, db) is Ok,
        0 <= r < db.allowlist.len(),
    ensures
        api_names(pruned(model, db)->Ok_0).contains(db.allowlist[r]),
{
    let root = db.allowlist[r];
    lemma_pruned_roots_satisfiable(model, db, r);
    lemma_first_index(api_names(model), root);
    let k = first_index(api_names(model), root).unwrap();
    assert(api_names(model)[k] == model[k].name);
    lemma_reaches_self(model, db, root);
    assert(retained(model, db, model[k].name));
    lemma_pruned_keeps(model, db, k);
}

/// Closure: what pruning keeps depends only on what it keeps, and on
/// primitive types that nothing declares.
pub proof fn lemma_pruned_closed(model: Seq<ApiView>, db: DatabaseView, i: int, m: int)
    requires
        distinct_names(model),
        pruned(model, db) is Ok,
        0 <= i < pruned(model, db)->Ok_0.len(),
        0 <= m < pruned(model, db)->Ok_0[i].deps().len(),
    ensures
        ({
            let d = pruned(model, db)->Ok_0[i].deps()[m];
            ||| api_names(pruned(model, db)->Ok_0).contains(d)
            ||| is_primitive_name(d) && !api_names(model).contains(d)
        }),
        retained(model, db, pruned(model, db)->Ok_0[i].deps()[m]),
{
    let kept = pruned(model, db)->Ok_0;
    let a = kept[i];
    let d = a.deps()[m];
    let names = api_names(model);
    lemma_pruned_reachable(model, db, i);
    let k = choose|k: int| 0 <= k < model.len() && #[trigger] model[k] == a;
    let r = choose|r: int|
        0 <= r < db.allowlist.len() && #[trigger] reaches(model, db, db.allowlist[r], a.name);
    let root = db.allowlist[r];
    lemma_pruned_roots_satisfiable(model, db, r);
    lemma_lookup_distinct(model, k);
    assert(!broken(model, db, a.name));
    assert(usable(model, db, a.name));
    assert(a.deps().contains(d));
    assert(depends_on(model, a.name, d));
    lemma_reaches_step(model, db, root, a.name, d);
    assert(!broken(model, db, d));
    lemma_first_index(names, d);
    match first_index(names, d) {
        Some(j) => {
            assert(names[j] == model[j].name);
            assert(retained(model, db, model[j].name));
            lemma_pruned_keeps(model, db, j);
        },
        None => {},
    }
}

/// A filter keeps the order: of two APIs that it lets through, the one that
/// comes first in the outcome came first before.
pub proof fn lemma_filter_order(s: Seq<ApiView>, pred: spec_fn(ApiView) -> bool, i: int, j: int)
    requires
        0 <= i < j < s.filter(pred).len(),
    ensures
        exists|a: int, b: int|
            0 <= a < b < s.len() && #[trigger] s[a] == s.filter(pred)[i] && #[trigger] s[b]
                == s.filter(pred)[j],
    decreases s.len(),
{
    reveal(Seq::filter);
    if s.len() > 0 {
        let front = s.drop_last();
        if j < front.filter(pred).len() {
            lemma_filter_order(front, pred, i, j);
            let (a, b) = choose|a: int, b: int|
                0 <= a < b < front.len() && #[trigger] front[a] == front.filter(pred)[i]
                    && #[trigger] front[b] == front.filter(pred)[j];
            assert(s[a] == front[a] && s[b] == front[b]);
        } else {
            lemma_filter_origin(front, pred, i);
            let a = choose|a: int|
                0 <= a < front.len() && #[trigger] front[a] == front.filter(pred)[i] && pred(
                    front[a],
                );
            assert(s[a] == front[a]);
            assert(s[s.len() - 1] == s.filter(pred)[j]);
        }
    }
}

/// Pruning a model without repeated identifiers leaves one without.
pub proof fn lemma_pruned_distinct(model: Seq<ApiView>, db: DatabaseView)
    requires
        distinct_names(model),
        pruned(model, db) is Ok,
    ensures
        distinct_names(pruned(model, db)->Ok_0),
{
    let kept = pruned(model, db)->Ok_0;
    let keep = retention_test(model, db);
    assert forall|i: int, j: int| 0 <= i < j < kept.len() implies (#[trigger] kept[i]).name != (
    #[trigger] kept[j]).name by {
        lemma_filter_order(model, keep, i, j);
        let (a, b) = choose|a: int, b: int|
            0 <= a < b < model.len() && #[trigger] model[a] == kept[i] && #[trigger] model[b]
                == kept[j];
        assert(model[a].name != model[b].name);
    }
}

/// A symbol of the allow-list that cannot be generated ends pruning: it
/// fails, and with a symbol that cannot be generated.
pub proof fn lemma_unsatisfiable_root_fails(model: Seq<ApiView>, db: DatabaseView, r: int)
    requires
        0 <= r < db.allowlist.len(),
        unsatisfiable(model, db, db.allowlist[r]),
    ensures
        pruned(model, db) is Err,
        pruned(model, db)->Err_0 is UnsatisfiableRoot,
{
    let test = unsatisfiable_test(model, db);
    assert(test(r));
    lemma_first_from(0, db.allowlist.len() as int, test);
}

/// What is reached from a symbol is the symbol itself or a dependency of
/// something usable that the symbol reaches.
pub proof fn lemma_reaches_last_step(
    model: Seq<ApiView>,
    db: DatabaseView,
    from: Seq<char>,
    to: Seq<char>,
)
    requires
        reaches(model, db, from, to),
    ensures
        to == from || exists|a: Seq<char>|
            #[trigger] reaches(model, db, from, a) && usable(model, db, a) && depends_on(
                model,
                a,
                to,
            ),
{
    let path = choose|path: Seq<Seq<char>>|
        #[trigger] is_path(model, db, path) && path[0] == from && path.last() == to;
    if path.len() > 1 {
        let shorter = path.drop_last();
        let a = shorter.last();
        assert forall|i: int| 0 <= i < shorter.len() - 1 implies usable(
            model,
            db,
            #[trigger] shorter[i],
        ) && depends_on(model, shorter[i], shorter[i + 1]) by {
            assert(shorter[i] == path[i]);
            assert(shorter[i + 1] == path[i + 1]);
        }
        assert(is_path(model, db, shorter));
        assert(shorter[0] == from);
        assert(reaches(model, db, from, a));
        assert(a == path[path.len() - 2]);
        assert(usable(model, db, path[path.len() - 2]));
        assert(depends_on(model, path[path.len() - 2], path[path.len() - 2 + 1]));
    }
}

/// Whatever a symbol reaches lies in any set of identifiers that holds the
/// symbol and, with every usable identifier, what that identifier depends on.
pub proof fn lemma_reaches_within(
    model: Seq<ApiView>,
    db: DatabaseView,
    from: Seq<char>,
    within: Set<Seq<char>>,
    path: Seq<Seq<char>>,
    i: int,
)
    requires
        within.contains(from),
        forall|a: Seq<char>, b: Seq<char>|
            within.contains(a) && usable(model, db, a) && #[trigger] depends_on(model, a, b)
                ==> within.contains(b),
        is_path(model, db, path),
        path[0] == from,
        0 <= i < path.len(),
    ensures
        within.contains(path[i]),
    decreases i,
{
    if i > 0 {
        lemma_reaches_within(model, db, from, within, path, i - 1);
        assert(usable(model, db, path[i - 1]));
        assert(depends_on(model, path[i - 1], path[i - 1 + 1]));
    }
}

/// A symbol that names a usable API can be generated if a set of
/// identifiers holds it, holds with every usable identifier what that
/// identifier depends on, and holds nothing that cannot be had.
pub proof fn lemma_satisfiable_within(
    model: Seq<ApiView>,
    db: DatabaseView,
    root: Seq<char>,
    within: Set<Seq<char>>,
)
    requires
        within.contains(root),
        usable(model, db, root),
        forall|a: Seq<char>, b: Seq<char>|
            within.contains(a) && usable(model, db, a) && #[trigger] depends_on(model, a, b)
                ==> within.contains(b),
        forall|n: Seq<char>| within.contains(n) ==> !broken(model, db, n),
    ensures
        !unsatisfiable(model, db, root),
{
    assert forall|n: Seq<char>| #[trigger] reaches(model, db, root, n) implies !broken(
        model,
        db,
        n,
    ) by {
        let path = choose|path: Seq<Seq<char>>|
            #[trigger] is_path(model, db, path) && path[0] == root && path.last() == n;
        lemma_reaches_within(model, db, root, within, path, path.len() - 1);
    }
}

} // verus!
