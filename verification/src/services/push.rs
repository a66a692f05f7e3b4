//! `prio push <branch> [-p]`: push a branch, and first the stacked branches it depends on.
//!
//! Publishing a stacked branch before its dependencies are pushed would make the
//! pull request's diff misleading, so the unpushed transitive dependencies either
//! block the push or, with `-p`, are pushed first.
use vstd::prelude::*;
use vstd::string::StringExecFns;
use crate::services::status::{stack_deps, stacked_after};
use crate::error::PrioError;
use crate::storage::repo_state::StackEntry;
use crate::strings::{concat2, concat3, contains_string, copy_strings, join, join_spec, owned, str_eq, trim, trim_spec, views};

verus! {

/// Every dependency named by any stack entry, entry by entry.
pub open spec fn all_deps(stacks: Seq<StackEntry>) -> Seq<Seq<char>>
    decreases stacks.len(),
{
    if stacks.len() == 0 {
        Seq::empty()
    } else {
        views(stacks[0].dependencies@) + all_deps(stacks.drop_first())
    }
}

/// Each name of `p` after the first is a stack dependency of the name before it.
pub open spec fn dep_chain(stacks: Seq<StackEntry>, p: Seq<Seq<char>>) -> bool {
    forall|i: int| #![trigger stack_deps(stacks, p[i])]
        0 <= i < p.len() - 1 ==> stack_deps(stacks, p[i]).contains(p[i + 1])
}

/// `x` is reached from `b` through one or more stack dependencies.
pub open spec fn depends_on(stacks: Seq<StackEntry>, b: Seq<char>, x: Seq<char>) -> bool {
    exists|p: Seq<Seq<char>>| #![trigger dep_chain(stacks, p)]
        p.len() >= 2 && p[0] == b && p.last() == x && dep_chain(stacks, p)
}

proof fn lemma_stack_deps_in_all(stacks: Seq<StackEntry>, b: Seq<char>, x: Seq<char>)
    requires
        stack_deps(stacks, b).contains(x),
    ensures
        all_deps(stacks).contains(x),
    decreases stacks.len(),
{
    if stacks.len() > 0 {
        if stacks[0].branch@ == b {
            let k = choose|k: int| 0 <= k < stack_deps(stacks, b).len() && stack_deps(stacks, b)[k] == x;
            assert(all_deps(stacks)[k] == x);
        } else {
            lemma_stack_deps_in_all(stacks.drop_first(), b, x);
            let k = choose|k: int| 0 <= k < all_deps(stacks.drop_first()).len() && all_deps(stacks.drop_first())[k] == x;
            let n = views(stacks[0].dependencies@).len();
            assert(all_deps(stacks)[n + k] == x);
        }
    }
}

/// A list without repeats, all drawn from `u`, is no longer than `u`.
proof fn lemma_distinct_bound(s: Seq<Seq<char>>, u: Seq<Seq<char>>)
    requires
        s.no_duplicates(),
        forall|x: Seq<char>| s.contains(x) ==> u.contains(x),
    ensures
        s.len() <= u.len(),
{
    s.unique_seq_to_set();
    u.lemma_cardinality_of_set();
    vstd::seq_lib::seq_to_set_is_finite(u);
    assert(s.to_set().subset_of(u.to_set()));
    vstd::set_lib::lemma_len_subset(s.to_set(), u.to_set());
}

/// A dependency chain extended by one dependency of its last name.
proof fn lemma_chain_push(stacks: Seq<StackEntry>, p: Seq<Seq<char>>, x: Seq<char>)
    requires
        p.len() >= 1,
        dep_chain(stacks, p),
        stack_deps(stacks, p.last()).contains(x),
    ensures
        dep_chain(stacks, p.push(x)),
{
    let q = p.push(x);
    assert forall|i: int| 0 <= i < q.len() - 1 implies #[trigger] stack_deps(stacks, q[i]).contains(q[i + 1]) by {
        if i < p.len() - 1 {
            assert(q[i] == p[i] && q[i + 1] == p[i + 1]);
            assert(stack_deps(stacks, p[i]).contains(p[i + 1]));
        } else {
            assert(q[i] == p.last() && q[i + 1] == x);
        }
    }
}

/// A set that holds the dependencies of `b` and of each of its own names holds
/// every name of a dependency chain from `b`.
proof fn lemma_closed_holds_chain(stacks: Seq<StackEntry>, b: Seq<char>, r: Seq<Seq<char>>, p: Seq<Seq<char>>, k: int)
    requires
        forall|x: Seq<char>| stack_deps(stacks, b).contains(x) ==> r.contains(x),
        forall|y: Seq<char>, x: Seq<char>| #![trigger r.contains(y), stack_deps(stacks, y).contains(x)]
            r.contains(y) && stack_deps(stacks, y).contains(x) ==> r.contains(x),
        p.len() >= 2,
        p[0] == b,
        dep_chain(stacks, p),
        1 <= k < p.len(),
    ensures
        r.contains(p[k]),
    decreases k,
{
    assert(stack_deps(stacks, p[k - 1]).contains(p[k]));
    if k > 1 {
        lemma_closed_holds_chain(stacks, b, r, p, k - 1);
    }
}

/// Each name of `t` is a dependency of `b`, or of a name before it among the
/// first `bound` names.
pub open spec fn reached_in_order(stacks: Seq<StackEntry>, b: Seq<char>, t: Seq<Seq<char>>, bound: int) -> bool {
    forall|k: int| #![trigger t[k]]
        0 <= k < t.len() ==> stack_deps(stacks, b).contains(t[k]) || exists|j: int|
            #![trigger stack_deps(stacks, t[j])]
            0 <= j < k && j < bound && stack_deps(stacks, t[j]).contains(t[k])
}

/// A dependency of the name at `m`, inserted right after it, keeps the order.
proof fn lemma_reached_insert(stacks: Seq<StackEntry>, b: Seq<char>, t: Seq<Seq<char>>, m: int, d: Seq<char>)
    requires
        0 <= m < t.len(),
        reached_in_order(stacks, b, t, m + 1),
        stack_deps(stacks, t[m]).contains(d),
    ensures
        reached_in_order(stacks, b, t.insert(m + 1, d), m + 1),
{
    let u = t.insert(m + 1, d);
    assert forall|k: int| 0 <= k < u.len() implies stack_deps(stacks, b).contains(#[trigger] u[k]) || exists|j: int|
        #![trigger stack_deps(stacks, u[j])]
        0 <= j < k && j < m + 1 && stack_deps(stacks, u[j]).contains(u[k]) by {
        if k == m + 1 {
            assert(u[m] == t[m] && u[k] == d);
            assert(stack_deps(stacks, u[m]).contains(u[k]));
        } else {
            let k0 = if k < m + 1 { k } else { k - 1 };
            assert(u[k] == t[k0]);
            if !stack_deps(stacks, b).contains(t[k0]) {
                let j = choose|j: int| #![trigger stack_deps(stacks, t[j])]
                    0 <= j < k0 && j < m + 1 && stack_deps(stacks, t[j]).contains(t[k0]);
                assert(u[j] == t[j]);
                assert(stack_deps(stacks, u[j]).contains(u[k]));
            }
        }
    }
}

/// The order holds of the same names with a larger bound.
proof fn lemma_reached_widen(stacks: Seq<StackEntry>, b: Seq<char>, t: Seq<Seq<char>>, bound: int, wider: int)
    requires
        reached_in_order(stacks, b, t, bound),
        bound <= wider,
    ensures
        reached_in_order(stacks, b, t, wider),
{
    assert forall|k: int| 0 <= k < t.len() implies stack_deps(stacks, b).contains(#[trigger] t[k]) || exists|j: int|
        #![trigger stack_deps(stacks, t[j])]
        0 <= j < k && j < wider && stack_deps(stacks, t[j]).contains(t[k]) by {
        if !stack_deps(stacks, b).contains(t[k]) {
            let j = choose|j: int| #![trigger stack_deps(stacks, t[j])]
                0 <= j < k && j < bound && stack_deps(stacks, t[j]).contains(t[k]);
            assert(stack_deps(stacks, t[j]).contains(t[k]));
        }
    }
}

/// The transitive stack dependencies of `branch`, each name once, in the order a
/// walk reaches them: the direct dependencies are queued in order, and the
/// dependencies first found through a name are taken up right after it.
pub fn stack_dependencies(branch: &str, stacks: &Vec<StackEntry>) -> (r: Vec<String>)
    ensures
        views(r@).no_duplicates(),
        forall|x: Seq<char>| views(r@).contains(x) <==> depends_on(stacks@, branch@, x),
        reached_in_order(stacks@, branch@, views(r@), r@.len() as int),
{
    let ghost st = stacks@;
    let ghost b = branch@;
    let ghost n = all_deps(st).len();
    let mut ordered: Vec<String> = Vec::new();
    let mut queue: Vec<String> = Vec::new();

    let direct = stacked_after(stacks, branch);
    let mut i: usize = 0;
    while i < direct.len()
        invariant
            st == stacks@,
            b == branch@,
            views(direct@) == stack_deps(st, b),
            i <= direct.len(),
            ordered@.len() == 0,
            views(queue@).no_duplicates(),
            forall|x: Seq<char>| views(queue@).contains(x) ==> depends_on(st, b, x),
            forall|x: Seq<char>| views(queue@).contains(x) ==> all_deps(st).contains(x),
            forall|j: int| 0 <= j < i ==> views(queue@).contains(#[trigger] views(direct@)[j]),
            forall|x: Seq<char>| views(queue@).contains(x) ==> stack_deps(st, b).contains(x),
        decreases direct.len() - i,
    {
        let d = &direct[i];
        let ghost dv = views(direct@)[i as int];
        assert(d@ == dv);
        if !contains_string(&queue, d.as_str()) {
            let ghost old_q = views(queue@);
            queue.push(d.clone());
            proof {
                assert(views(queue@) =~= old_q.push(dv));
                assert(stack_deps(st, b).contains(dv)) by {
                    assert(stack_deps(st, b)[i as int] == dv);
                }
                let p = seq![b, dv];
                assert(dep_chain(st, p)) by {
                    assert forall|k: int| 0 <= k < p.len() - 1 implies #[trigger] stack_deps(st, p[k]).contains(p[k + 1]) by {
                        assert(k == 0);
                    }
                }
                assert(depends_on(st, b, dv));
                lemma_stack_deps_in_all(st, b, dv);
                assert forall|x: Seq<char>| views(queue@).contains(x) implies depends_on(st, b, x) && all_deps(st).contains(x)
                    && stack_deps(st, b).contains(x) by {
                    if x != dv {
                        let k = choose|k: int| 0 <= k < views(queue@).len() && views(queue@)[k] == x;
                        assert(old_q[k] == x);
                    }
                }
                assert forall|j: int| 0 <= j <= i implies views(queue@).contains(#[trigger] views(direct@)[j]) by {
                    if j < i {
                        let y = views(direct@)[j];
                        let k = choose|k: int| 0 <= k < old_q.len() && old_q[k] == y;
                        assert(views(queue@)[k] == y);
                    } else {
                        assert(views(queue@)[old_q.len() as int] == dv);
                    }
                }
                assert(views(queue@).no_duplicates()) by {
                    assert forall|a: int, c: int| 0 <= a < c < views(queue@).len() implies views(queue@)[a] != views(queue@)[c] by {
                        if c == old_q.len() {
                            assert(old_q[a] == views(queue@)[a]);
                        } else {
                            assert(old_q[a] == views(queue@)[a]);
                            assert(old_q[c] == views(queue@)[c]);
                        }
                    }
                }
            }
        } else {
            proof {
                assert(views(queue@).contains(dv));
            }
        }
        i = i + 1;
    }

    proof {
        assert(views(ordered@) + views(queue@) =~= views(queue@));
        lemma_distinct_bound(views(queue@), all_deps(st));
        assert forall|k: int| 0 <= k < views(queue@).len() implies stack_deps(st, b).contains(#[trigger] views(queue@)[k]) by {
            assert(views(queue@).contains(views(queue@)[k]));
        }
    }
    while queue.len() > 0
        invariant
            st == stacks@,
            b == branch@,
            n == all_deps(st).len(),
            (views(ordered@) + views(queue@)).no_duplicates(),
            (views(ordered@) + views(queue@)).len() <= n,
            forall|x: Seq<char>| (views(ordered@) + views(queue@)).contains(x) ==> depends_on(st, b, x),
            forall|x: Seq<char>| (views(ordered@) + views(queue@)).contains(x) ==> all_deps(st).contains(x),
            forall|x: Seq<char>| stack_deps(st, b).contains(x) ==> (views(ordered@) + views(queue@)).contains(x),
            forall|y: Seq<char>, x: Seq<char>| #![trigger views(ordered@).contains(y), stack_deps(st, y).contains(x)]
                views(ordered@).contains(y) && stack_deps(st, y).contains(x) ==> (views(ordered@) + views(queue@)).contains(x),
            reached_in_order(st, b, views(ordered@) + views(queue@), ordered@.len() as int),
        decreases 2 * (n - (ordered@.len() + queue@.len())) + queue@.len(),
    {
        let ghost s0 = views(ordered@) + views(queue@);
        let current = queue.remove(0);
        let ghost c = current@;
        let ghost q_mid = queue@.len();
        proof {
            assert(s0 =~= views(ordered@) + seq![c] + views(queue@));
            lemma_reached_widen(st, b, s0, ordered@.len() as int, ordered@.len() as int + 1);
        }
        let deps = stacked_after(stacks, current.as_str());
        let mut j: usize = 0;
        while j < deps.len()
            invariant
                st == stacks@,
                b == branch@,
                n == all_deps(st).len(),
                c == current@,
                views(deps@) == stack_deps(st, c),
                j <= deps.len(),
                (views(ordered@) + seq![c] + views(queue@)).no_duplicates(),
                forall|x: Seq<char>| s0.contains(x) ==> (views(ordered@) + seq![c] + views(queue@)).contains(x),
                forall|x: Seq<char>| (views(ordered@) + seq![c] + views(queue@)).contains(x) ==> depends_on(st, b, x),
                forall|x: Seq<char>| (views(ordered@) + seq![c] + views(queue@)).contains(x) ==> all_deps(st).contains(x),
                forall|y: Seq<char>, x: Seq<char>| #![trigger views(ordered@).contains(y), stack_deps(st, y).contains(x)]
                    views(ordered@).contains(y) && stack_deps(st, y).contains(x) ==> (views(ordered@) + seq![c] + views(queue@)).contains(x),
                forall|k: int| 0 <= k < j ==> (views(ordered@) + seq![c] + views(queue@)).contains(#[trigger] views(deps@)[k]),
                queue@.len() >= q_mid,
                reached_in_order(st, b, views(ordered@) + seq![c] + views(queue@), ordered@.len() as int + 1),
            decreases deps.len() - j,
        {
            let d = &deps[j];
            let ghost dv = views(deps@)[j as int];
            assert(d@ == dv);
            let ghost s1 = views(ordered@) + seq![c] + views(queue@);
            let seen = contains_string(&ordered, d.as_str()) || str_eq(current.as_str(), d.as_str())
                || contains_string(&queue, d.as_str());
            if !seen {
                let ghost old_q = views(queue@);
                queue.insert(0, d.clone());
                proof {
                    let s2 = views(ordered@) + seq![c] + views(queue@);
                    let m = ordered@.len() as int;
                    assert(views(queue@) =~= seq![dv] + old_q);
                    assert(s2 =~= s1.insert(m + 1, dv));
                    assert(s1[m] == c);
                    lemma_reached_insert(st, b, s1, m, dv);
                    assert(!s1.contains(dv)) by {
                        if s1.contains(dv) {
                            let k = choose|k: int| 0 <= k < s1.len() && s1[k] == dv;
                            if k < m {
                                assert(views(ordered@)[k] == dv);
                            } else if k == m {
                            } else {
                                assert(old_q[k - m - 1] == dv);
                            }
                        }
                    }
                    assert(stack_deps(st, c).contains(dv)) by {
                        assert(stack_deps(st, c)[j as int] == dv);
                    }
                    assert(s1.contains(c)) by {
                        assert(s1[m] == c);
                    }
                    assert(depends_on(st, b, c));
                    let p = choose|p: Seq<Seq<char>>| #![trigger dep_chain(st, p)]
                        p.len() >= 2 && p[0] == b && p.last() == c && dep_chain(st, p);
                    lemma_chain_push(st, p, dv);
                    assert(p.push(dv).last() == dv && p.push(dv)[0] == b);
                    assert(depends_on(st, b, dv));
                    lemma_stack_deps_in_all(st, c, dv);
                    assert forall|x: Seq<char>| s1.contains(x) implies s2.contains(x) by {
                        let k = choose|k: int| 0 <= k < s1.len() && s1[k] == x;
                        if k <= m {
                            assert(s2[k] == x);
                        } else {
                            assert(s2[k + 1] == x);
                        }
                    }
                    assert(s2.contains(dv)) by {
                        assert(s2[m + 1] == dv);
                    }
                    assert forall|x: Seq<char>| s2.contains(x) implies depends_on(st, b, x) && all_deps(st).contains(x) by {
                        if x != dv {
                            let k = choose|k: int| 0 <= k < s2.len() && s2[k] == x;
                            if k <= m {
                                assert(s1[k] == x);
                            } else {
                                assert(s1[k - 1] == x);
                            }
                        }
                    }
                    assert(s2.no_duplicates()) by {
                        assert forall|a: int, e: int| 0 <= a < e < s2.len() implies s2[a] != s2[e] by {
                            if a == m + 1 {
                                assert(s1[e - 1] == s2[e]);
                            } else if e == m + 1 {
                                assert(s1[a] == s2[a]);
                            } else {
                                let a1 = if a < m + 1 { a } else { a - 1 };
                                let e1 = if e < m + 1 { e } else { e - 1 };
                                assert(s1[a1] == s2[a] && s1[e1] == s2[e]);
                            }
                        }
                    }
                }
            } else {
                proof {
                    assert(s1.contains(dv)) by {
                        let m = ordered@.len() as int;
                        if views(ordered@).contains(dv) {
                            let k = choose|k: int| 0 <= k < views(ordered@).len() && views(ordered@)[k] == dv;
                            assert(s1[k] == dv);
                        } else if c == dv {
                            assert(s1[m] == dv);
                        } else {
                            let k = choose|k: int| 0 <= k < views(queue@).len() && views(queue@)[k] == dv;
                            assert(s1[m + 1 + k] == dv);
                        }
                    }
                }
            }
            j = j + 1;
        }
        let ghost s3 = views(ordered@) + seq![c] + views(queue@);
        let ghost o_before = views(ordered@);
        ordered.push(current);
        proof {
            assert(views(ordered@) =~= o_before.push(c));
            assert(views(ordered@) + views(queue@) =~= s3);
            assert forall|x: Seq<char>| stack_deps(st, c).contains(x) implies s3.contains(x) by {
                let k = choose|k: int| 0 <= k < stack_deps(st, c).len() && stack_deps(st, c)[k] == x;
                assert(views(deps@)[k] == x);
            }
            assert forall|y: Seq<char>, x: Seq<char>|
                #[trigger] views(ordered@).contains(y) && #[trigger] stack_deps(st, y).contains(x) implies s3.contains(x) by {
                if y != c {
                    let k = choose|k: int| 0 <= k < views(ordered@).len() && views(ordered@)[k] == y;
                    assert(o_before[k] == y);
                    assert(o_before.contains(y));
                }
            }
            assert(views(ordered@.drop_last()) =~= views(ordered@).drop_last());
            assert forall|x: Seq<char>| stack_deps(st, b).contains(x) implies s3.contains(x) by {
                assert(s0.contains(x));
            }
            lemma_distinct_bound(s3, all_deps(st));
        }
    }

    proof {
        assert(views(ordered@) + views(queue@) =~= views(ordered@));
        let r = views(ordered@);
        assert forall|x: Seq<char>| depends_on(st, b, x) implies r.contains(x) by {
            let p = choose|p: Seq<Seq<char>>| #![trigger dep_chain(st, p)]
                p.len() >= 2 && p[0] == b && p.last() == x && dep_chain(st, p);
            lemma_closed_holds_chain(st, b, r, p, p.len() - 1);
        }
    }
    ordered
}

/// The dependencies not yet at origin, in the order found; `at_origin[i]` says
/// whether `deps[i]` is at origin.
pub fn collect_unpushed_deps(deps: &Vec<String>, at_origin: &Vec<bool>) -> (r: Vec<String>)
    requires
        at_origin.len() == deps.len(),
    ensures
        views(r@) == unpushed_spec(views(deps@), at_origin@),
{
    let mut r: Vec<String> = Vec::new();
    let mut i: usize = 0;
    while i < deps.len()
        invariant
            at_origin.len() == deps.len(),
            i <= deps.len(),
            views(r@) == unpushed_spec(views(deps@).take(i as int), at_origin@.take(i as int)),
        decreases deps.len() - i,
    {
        proof {
            assert(views(deps@).take(i + 1).drop_last() =~= views(deps@).take(i as int));
            assert(at_origin@.take(i + 1).drop_last() =~= at_origin@.take(i as int));
        }
        if !at_origin[i] {
            r.push(deps[i].clone());
            proof {
                assert(views(r@) =~= views(r@).drop_last().push(deps@[i as int]@));
            }
        }
        proof {
            assert(views(r@) =~= views(r@));
        }
        i = i + 1;
    }
    proof {
        assert(views(deps@).take(deps.len() as int) =~= views(deps@));
        assert(at_origin@.take(deps.len() as int) =~= at_origin@);
    }
    r
}

/// The names of `deps` whose flag is false, in order.
pub open spec fn unpushed_spec(deps: Seq<Seq<char>>, at_origin: Seq<bool>) -> Seq<Seq<char>>
    decreases deps.len(),
{
    if deps.len() == 0 || at_origin.len() == 0 {
        Seq::empty()
    } else {
        let p = unpushed_spec(deps.drop_last(), at_origin.drop_last());
        if at_origin.last() {
            p
        } else {
            p.push(deps.last())
        }
    }
}

/// The message that refuses to push `branch` before its unpushed dependencies.
pub open spec fn blocked_text(branch: Seq<char>, deps: Seq<Seq<char>>) -> Seq<char> {
    "Cannot push '"@ + branch + "': stacked dependency branch(es) ["@ + join_spec(deps, ", "@)
        + "] have not been pushed yet.\nUse -p / --push-deps to push all dependency branches first."@
}

/// What `prio push` does once it knows which dependencies are not at origin.
pub enum PushPlan {
    /// Refuse, with this message.
    Blocked { message: String },
    /// Push these branches, in this order.
    Push { branches: Vec<String> },
}

/// Decide the push: with unpushed dependencies and no `-p`, refuse; otherwise
/// push the dependencies first, then the branch.
pub fn plan_push(branch: &str, unpushed: &Vec<String>, push_deps: bool) -> (r: PushPlan)
    ensures
        unpushed@.len() > 0 && !push_deps ==> (r matches PushPlan::Blocked { message }
            && message@ == blocked_text(branch@, views(unpushed@))),
        unpushed@.len() == 0 || push_deps ==> (r matches PushPlan::Push { branches }
            && views(branches@) == views(unpushed@).push(branch@)),
{
    if unpushed.len() > 0 && !push_deps {
        let list = join(unpushed, ", ");
        let a = concat3("Cannot push '", branch, "': stacked dependency branch(es) [");
        let b = concat3(a.as_str(), list.as_str(), "] have not been pushed yet.\nUse -p / --push-deps to push all dependency branches first.");
        proof {
            assert(b@ =~= blocked_text(branch@, views(unpushed@)));
        }
        return PushPlan::Blocked { message: b };
    }
    let mut branches = copy_strings(unpushed);
    branches.push(owned(branch));
    proof {
        assert(views(branches@) =~= views(unpushed@).push(branch@));
    }
    PushPlan::Push { branches }
}

/// The log line written before a dependency is pushed.
pub fn dependency_push_note(dep: &str) -> (r: String)
    ensures
        r@ == "Pushing dependency branch: "@ + dep@,
{
    concat2("Pushing dependency branch: ", dep)
}

/// The message of a successful push.
pub fn pushed_message(branch: &str) -> (r: String)
    ensures
        r@ == "Pushed branch "@ + branch@ + "."@,
{
    concat3("Pushed branch ", branch, ".")
}

/// Whether the branch has commits of its own beyond the default branch at
/// origin, from the output of `git log --oneline origin/<default>..<branch>`; a
/// failed log counts as none.
pub fn has_own_commits(log: &Result<String, PrioError>) -> (r: bool)
    ensures
        r == (log matches Ok(out) && trim_spec(out@).len() > 0),
{
    match log {
        Ok(out) => {
            let t = trim(out.as_str());
            t.as_str().unicode_len() > 0
        },
        Err(_) => false,
    }
}

/// Whether a branch must first be brought from prio-mc into the work clone: it
/// is not at origin, has no commits of its own there, and its prio-mc tip is
/// known and differs from the default branch at origin.
pub fn needs_mc_sync(
    origin_exists: bool,
    own_commits: bool,
    mc_sha: &Option<String>,
    default_sha: &Option<String>,
) -> (r: bool)
    ensures
        r == (!origin_exists && !own_commits && mc_sha is Some && (default_sha is None
            || mc_sha.unwrap()@ != default_sha.unwrap()@)),
{
    if origin_exists || own_commits {
        return false;
    }
    match mc_sha {
        None => false,
        Some(m) => match default_sha {
            None => true,
            Some(d) => !str_eq(m.as_str(), d.as_str()),
        },
    }
}

} // verus!
