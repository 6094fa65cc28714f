//! Which tasks a filter shows, the flat order of a tree, and the choice of the
//! selected task after a change.
use crate::filter::{holds, Cond, Condition};
use crate::ordered_map::{has_key, inserted, key_index, keys_of, lemma_key_index, lemma_key_index_found, unique_keys, PersistentIndexMap};
use crate::task::{Task, TaskMap};
use crate::tree::{child, resolves, task_at};
use vstd::prelude::*;

verus! {

/// `t`, or some task below it, satisfies `c`.
pub open spec fn subtree_matches(t: Task, c: Cond) -> bool
    decreases t,
{
    proof {
        assert forall|i: int| 0 <= i < t.subtasks@.len() implies decreases_to!(t => t.subtasks@[i].1) by {
            t.subtasks.lemma_value_decreases(i);
        }
    }
    holds(c, t) || exists|i: int| 0 <= i < t.subtasks@.len() && subtree_matches(#[trigger] t.subtasks@[i].1, c)
}

/// The visible entries (id and path) contributed by task `t` under key `k`,
/// below `prefix`, in pre-order. With `shown` (an ancestor matched) or when
/// `t` matches, `t` and its whole subtree are visible; otherwise `t` is visible
/// when some task below it matches, and its subtasks are judged on their own.
pub open spec fn visible_node(k: u128, t: Task, prefix: Seq<u128>, c: Cond, shown: bool) -> Seq<(u128, Seq<u128>)>
    decreases t, 2int,
{
    let path = prefix.push(k);
    if shown || holds(c, t) {
        seq![(k, path)] + visible_upto(t.subtasks, path, c, true, t.subtasks@.len() as int)
    } else if subtree_matches(t, c) {
        seq![(k, path)] + visible_upto(t.subtasks, path, c, false, t.subtasks@.len() as int)
    } else {
        Seq::empty()
    }
}

/// The visible entries of the first `n` tasks of `m`, in order.
pub open spec fn visible_upto(m: TaskMap, prefix: Seq<u128>, c: Cond, shown: bool, n: int) -> Seq<(u128, Seq<u128>)>
    decreases m, n,
{
    if n <= 0 || n > m@.len() {
        Seq::empty()
    } else {
        proof { m.lemma_value_decreases(n - 1); }
        visible_upto(m, prefix, c, shown, n - 1) + visible_node(m@[n - 1].0, m@[n - 1].1, prefix, c, shown)
    }
}

/// The visible entries of a whole tree under condition `c`.
pub open spec fn visible_list(m: TaskMap, c: Cond) -> Seq<(u128, Seq<u128>)> {
    visible_upto(m, Seq::empty(), c, false, m@.len() as int)
}

/// The map that inserting the entries `l` in order makes of `s`.
pub open spec fn insert_all<V>(s: Seq<(u128, V)>, l: Seq<(u128, V)>) -> Seq<(u128, V)>
    decreases l.len(),
{
    if l.len() == 0 {
        s
    } else {
        inserted(insert_all(s, l.drop_last()), l.last().0, l.last().1)
    }
}

pub proof fn lemma_insert_all_append<V>(s: Seq<(u128, V)>, a: Seq<(u128, V)>, b: Seq<(u128, V)>)
    ensures
        insert_all(s, a + b) == insert_all(insert_all(s, a), b),
    decreases b.len(),
{
    if b.len() == 0 {
        assert(a + b =~= a);
    } else {
        assert((a + b).drop_last() =~= a + b.drop_last());
        assert((a + b).last() == b.last());
        lemma_insert_all_append(s, a, b.drop_last());
    }
}

/// The entries of a visible-set map with each path as a sequence.
pub open spec fn path_entries(s: Seq<(u128, Vec<u128>)>) -> Seq<(u128, Seq<u128>)> {
    Seq::new(s.len(), |i: int| (s[i].0, s[i].1@))
}

proof fn lemma_path_entries_inserted(s: Seq<(u128, Vec<u128>)>, k: u128, v: Vec<u128>)
    requires
        unique_keys(s),
    ensures
        path_entries(inserted(s, k, v)) == inserted(path_entries(s), k, v@),
{
    let p = path_entries(s);
    assert(keys_of(p) =~= keys_of(s));
    assert forall|i: int| 0 <= i < s.len() implies (p[i].0 == k <==> #[trigger] s[i].0 == k) by {}
    if has_key(s, k) {
        lemma_key_index_found(s, k);
        let i = key_index(s, k);
        assert(p[i].0 == k);
        assert(unique_keys(p));
        lemma_key_index(p, k, i);
        assert(path_entries(inserted(s, k, v)) =~= inserted(p, k, v@));
    } else {
        assert(!has_key(p, k)) by {
            if has_key(p, k) {
                let j = key_index(p, k);
                assert(s[j].0 == k);
            }
        }
        assert(path_entries(inserted(s, k, v)) =~= inserted(p, k, v@));
    }
}

fn any_match(t: &Task, c: &Condition) -> (r: bool)
    ensures
        r == subtree_matches(*t, c@),
    decreases t,
{
    if c.evaluate(t) {
        return true;
    }
    let n = t.subtasks.len();
    let mut i: usize = 0;
    while i < n
        invariant
            n == t.subtasks@.len(),
            i <= n,
            !holds(c@, *t),
            forall|j: int| 0 <= j < i ==> !subtree_matches(#[trigger] t.subtasks@[j].1, c@),
        decreases n - i,
    {
        proof { t.subtasks.lemma_value_decreases(i as int); }
        let sub = t.subtasks.value_at(i);
        if any_match(sub, c) {
            assert(subtree_matches(t.subtasks@[i as int].1, c@));
            return true;
        }
        i = i + 1;
    }
    false
}

fn path_with(prefix: &Vec<u128>, k: u128) -> (r: Vec<u128>)
    ensures
        r@ == prefix@.push(k),
{
    let mut r: Vec<u128> = Vec::new();
    let mut i: usize = 0;
    while i < prefix.len()
        invariant
            i <= prefix@.len(),
            r@ == prefix@.subrange(0, i as int),
        decreases prefix@.len() - i,
    {
        r.push(prefix[i]);
        i = i + 1;
        assert(r@ =~= prefix@.subrange(0, i as int));
    }
    r.push(k);
    assert(r@ =~= prefix@.push(k));
    r
}

fn visit_node(
    k: u128,
    t: &Task,
    prefix: &Vec<u128>,
    c: &Condition,
    shown: bool,
    results: &mut PersistentIndexMap<Vec<u128>>,
)
    ensures
        path_entries(final(results)@) == insert_all(path_entries(old(results)@), visible_node(k, *t, prefix@, c@, shown)),
    decreases t, 2int,
{
    let path = path_with(prefix, k);
    let ghost start = path_entries(results@);
    let all = shown || c.evaluate(t);
    if all || any_match(t, c) {
        let ghost head = seq![(k, path@)];
        results.note_unique();
        let stored = path_with(prefix, k);
        proof { lemma_path_entries_inserted(results@, k, stored); }
        *results = results.insert(k, stored);
        assert(insert_all(start, head) == inserted(start, k, path@)) by {
            assert(head.drop_last() =~= Seq::<(u128, Seq<u128>)>::empty());
            assert(insert_all(start, head.drop_last()) == start);
        }
        visit_upto(&t.subtasks, &path, c, all, results, t.subtasks.len());
        proof { lemma_insert_all_append(start, head, visible_upto(t.subtasks, path@, c@, all, t.subtasks@.len() as int)); }
    } else {
        assert(visible_node(k, *t, prefix@, c@, shown) =~= Seq::<(u128, Seq<u128>)>::empty());
    }
}

fn visit_upto(
    m: &TaskMap,
    prefix: &Vec<u128>,
    c: &Condition,
    shown: bool,
    results: &mut PersistentIndexMap<Vec<u128>>,
    n: usize,
)
    requires
        n <= m@.len(),
    ensures
        path_entries(final(results)@) == insert_all(path_entries(old(results)@), visible_upto(*m, prefix@, c@, shown, n as int)),
    decreases m, n,
{
    let ghost start = path_entries(results@);
    let mut i: usize = 0;
    while i < n
        invariant
            n <= m@.len(),
            i <= n,
            path_entries(results@) == insert_all(start, visible_upto(*m, prefix@, c@, shown, i as int)),
        decreases n - i,
    {
        proof { m.lemma_value_decreases(i as int); }
        let ghost before = visible_upto(*m, prefix@, c@, shown, i as int);
        visit_node(*m.get_key_at_index(i).unwrap(), m.value_at(i), prefix, c, shown, results);
        proof {
            lemma_insert_all_append(start, before, visible_node(m@[i as int].0, m@[i as int].1, prefix@, c@, shown));
        }
        i = i + 1;
    }
}

/// The visible-set of `tasks` under condition `c`: each visible task's id bound
/// to its path from the root, in pre-order.
pub fn filter_tasks(tasks: &TaskMap, c: &Condition) -> (r: PersistentIndexMap<Vec<u128>>)
    ensures
        path_entries(r@) == insert_all(Seq::empty(), visible_list(*tasks, c@)),
{
    let mut results: PersistentIndexMap<Vec<u128>> = PersistentIndexMap::new();
    assert(path_entries(results@) =~= Seq::empty());
    let prefix: Vec<u128> = Vec::new();
    assert(prefix@ =~= Seq::<u128>::empty());
    visit_upto(tasks, &prefix, c, false, &mut results, tasks.len());
    results
}

proof fn lemma_keys_concat<V>(a: Seq<(u128, V)>, b: Seq<(u128, V)>)
    ensures
        keys_of(a + b) == keys_of(a) + keys_of(b),
{
    assert(keys_of(a + b) =~= keys_of(a) + keys_of(b));
}

/// Inserting a list of entries into a map leaves exactly the keys of the map
/// and of the list.
pub proof fn lemma_insert_all_keys<V>(s: Seq<(u128, V)>, l: Seq<(u128, V)>, x: u128)
    ensures
        has_key(insert_all(s, l), x) <==> has_key(s, x) || has_key(l, x),
    decreases l.len(),
{
    if l.len() > 0 {
        let front = l.drop_last();
        lemma_insert_all_keys(s, front, x);
        let m = insert_all(s, front);
        let k = l.last().0;
        let r = inserted(m, k, l.last().1);
        if has_key(m, k) {
            let i = key_index(m, k);
            assert forall|j: int| 0 <= j < r.len() implies (r[j].0 == m[j].0) by {}
            if has_key(m, x) {
                let j = choose|j: int| 0 <= j < m.len() && m[j].0 == x;
                assert(r[j].0 == x);
            }
            if has_key(r, x) {
                let j = choose|j: int| 0 <= j < r.len() && r[j].0 == x;
                assert(m[j].0 == x);
            }
        } else {
            if has_key(m, x) {
                let j = choose|j: int| 0 <= j < m.len() && m[j].0 == x;
                assert(r[j].0 == x);
            }
            if has_key(r, x) {
                let j = choose|j: int| 0 <= j < r.len() && r[j].0 == x;
                if j < m.len() {
                    assert(m[j].0 == x);
                }
            }
        }
        if has_key(l, x) {
            let j = choose|j: int| 0 <= j < l.len() && l[j].0 == x;
            if j < front.len() {
                assert(front[j].0 == x);
            } else if has_key(m, k) {
                lemma_key_index_found(m, k);
                assert(r[key_index(m, k)].0 == k);
            } else {
                assert(r[r.len() - 1].0 == k);
            }
        }
        if has_key(front, x) {
            let j = choose|j: int| 0 <= j < front.len() && front[j].0 == x;
            assert(l[j].0 == x);
        }
    }
}

/// The ids of task `t` (under key `k`) and of all tasks below it, in pre-order.
pub open spec fn flat_node(k: u128, t: Task) -> Seq<u128>
    decreases t, 2int,
{
    seq![k] + flat_upto(t.subtasks, t.subtasks@.len() as int)
}

/// The ids of the first `n` subtrees of `m`, in pre-order.
pub open spec fn flat_upto(m: TaskMap, n: int) -> Seq<u128>
    decreases m, n,
{
    if n <= 0 || n > m@.len() {
        Seq::empty()
    } else {
        proof { m.lemma_value_decreases(n - 1); }
        flat_upto(m, n - 1) + flat_node(m@[n - 1].0, m@[n - 1].1)
    }
}

/// The ids of a whole tree in pre-order.
pub open spec fn flat_list(m: TaskMap) -> Seq<u128> {
    flat_upto(m, m@.len() as int)
}

/// Once a task is shown, every task below it is shown as well: with `shown`,
/// the visible entries of the first `n` subtrees of `m` are exactly their
/// tasks, in pre-order.
pub proof fn lemma_shown_upto_is_flat(m: TaskMap, prefix: Seq<u128>, c: Cond, n: int)
    requires
        0 <= n <= m@.len(),
    ensures
        keys_of(visible_upto(m, prefix, c, true, n)) == flat_upto(m, n),
    decreases m, n,
{
    if n > 0 {
        m.lemma_value_decreases(n - 1);
        lemma_shown_upto_is_flat(m, prefix, c, n - 1);
        lemma_shown_node_is_flat(m@[n - 1].0, m@[n - 1].1, prefix, c);
        lemma_keys_concat(
            visible_upto(m, prefix, c, true, n - 1),
            visible_node(m@[n - 1].0, m@[n - 1].1, prefix, c, true),
        );
    } else {
        assert(keys_of(visible_upto(m, prefix, c, true, n)) =~= Seq::<u128>::empty());
    }
}

/// A shown task contributes itself and every task below it, in pre-order.
pub proof fn lemma_shown_node_is_flat(k: u128, t: Task, prefix: Seq<u128>, c: Cond)
    ensures
        keys_of(visible_node(k, t, prefix, c, true)) == flat_node(k, t),
    decreases t, 2int,
{
    let path = prefix.push(k);
    lemma_shown_upto_is_flat(t.subtasks, path, c, t.subtasks@.len() as int);
    lemma_keys_concat(seq![(k, path)], visible_upto(t.subtasks, path, c, true, t.subtasks@.len() as int));
    assert(keys_of(seq![(k, path)]) =~= seq![k]);
}

/// Only tasks of the tree are visible: each key of the visible entries of the
/// first `n` subtrees of `m` is the id of a task in them.
pub proof fn lemma_visible_in_tree(m: TaskMap, prefix: Seq<u128>, c: Cond, shown: bool, n: int)
    requires
        0 <= n <= m@.len(),
    ensures
        forall|x: u128| #[trigger] keys_of(visible_upto(m, prefix, c, shown, n)).contains(x) ==> flat_upto(m, n).contains(x),
    decreases m, n,
{
    if n > 0 {
        m.lemma_value_decreases(n - 1);
        let before = visible_upto(m, prefix, c, shown, n - 1);
        let last = visible_node(m@[n - 1].0, m@[n - 1].1, prefix, c, shown);
        lemma_visible_in_tree(m, prefix, c, shown, n - 1);
        lemma_visible_node_in_tree(m@[n - 1].0, m@[n - 1].1, prefix, c, shown);
        lemma_keys_concat(before, last);
        assert forall|x: u128| keys_of(visible_upto(m, prefix, c, shown, n)).contains(x) implies flat_upto(m, n).contains(x) by {
            let ks = keys_of(before) + keys_of(last);
            let i = choose|i: int| 0 <= i < ks.len() && ks[i] == x;
            let f = flat_upto(m, n - 1) + flat_node(m@[n - 1].0, m@[n - 1].1);
            assert(flat_upto(m, n) == f);
            if i < keys_of(before).len() {
                assert(keys_of(before)[i] == x);
                assert(keys_of(before).contains(x));
                let fu = flat_upto(m, n - 1);
                let j = choose|j: int| 0 <= j < fu.len() && fu[j] == x;
                assert(f[j] == x);
            } else {
                assert(keys_of(last)[i - keys_of(before).len()] == x);
                assert(keys_of(last).contains(x));
                let fnode = flat_node(m@[n - 1].0, m@[n - 1].1);
                let j = choose|j: int| 0 <= j < fnode.len() && fnode[j] == x;
                assert(f[flat_upto(m, n - 1).len() + j] == x);
            }
        }
    }
}

/// The keys that a task contributes to the visible entries are ids of it and
/// of the tasks below it.
pub proof fn lemma_visible_node_in_tree(k: u128, t: Task, prefix: Seq<u128>, c: Cond, shown: bool)
    ensures
        forall|x: u128| #[trigger] keys_of(visible_node(k, t, prefix, c, shown)).contains(x) ==> flat_node(k, t).contains(x),
    decreases t, 2int,
{
    let path = prefix.push(k);
    let all = shown || holds(c, t);
    if all || subtree_matches(t, c) {
        let below = visible_upto(t.subtasks, path, c, all, t.subtasks@.len() as int);
        lemma_visible_in_tree(t.subtasks, path, c, all, t.subtasks@.len() as int);
        lemma_keys_concat(seq![(k, path)], below);
        assert(keys_of(seq![(k, path)]) =~= seq![k]);
        assert forall|x: u128| keys_of(visible_node(k, t, prefix, c, shown)).contains(x) implies flat_node(k, t).contains(x) by {
            let ks = seq![k] + keys_of(below);
            assert(keys_of(visible_node(k, t, prefix, c, shown)) == ks);
            let i = choose|i: int| 0 <= i < ks.len() && ks[i] == x;
            assert(flat_node(k, t) == seq![k] + flat_upto(t.subtasks, t.subtasks@.len() as int));
            if i == 0 {
                assert(flat_node(k, t)[0] == x);
            } else {
                assert(keys_of(below)[i - 1] == x);
                assert(keys_of(below).contains(x));
                let fu = flat_upto(t.subtasks, t.subtasks@.len() as int);
                let j = choose|j: int| 0 <= j < fu.len() && fu[j] == x;
                assert(flat_node(k, t)[j + 1] == x);
            }
        }
    } else {
        assert(keys_of(visible_node(k, t, prefix, c, shown)) =~= Seq::<u128>::empty());
    }
}

/// Filtering is monotone. If task `t` (under key `k`, below `prefix`) matches
/// `c`, then `t` and every task below it are visible, in pre-order, whether or
/// not an ancestor matched. If some task below `t` matches, `t` itself is
/// visible, with its path.
pub proof fn lemma_filter_monotone(k: u128, t: Task, prefix: Seq<u128>, c: Cond, shown: bool)
    ensures
        holds(c, t) ==> keys_of(visible_node(k, t, prefix, c, shown)) == flat_node(k, t),
        subtree_matches(t, c) ==> visible_node(k, t, prefix, c, shown).len() > 0
            && visible_node(k, t, prefix, c, shown)[0] == (k, prefix.push(k)),
{
    if holds(c, t) {
        lemma_shown_node_is_flat(k, t, prefix, c);
        assert(visible_node(k, t, prefix, c, shown) == visible_node(k, t, prefix, c, true));
    }
}

/// Some task on `q` (the task at one of its prefixes) satisfies `c`.
pub open spec fn matched_on_path(m: TaskMap, q: Seq<u128>, c: Cond) -> bool {
    exists|i: int| 1 <= i <= q.len() && #[trigger] holds(c, task_at(m, q.subrange(0, i)))
}

proof fn lemma_prefix_of(q: Seq<u128>, i: int)
    requires
        2 <= i <= q.len(),
    ensures
        q.subrange(0, i).len() == i,
        q.subrange(0, i)[0] == q[0],
        q.subrange(0, i).drop_first() == q.drop_first().subrange(0, i - 1),
{
    assert(q.subrange(0, i).drop_first() =~= q.drop_first().subrange(0, i - 1));
}

/// Every non-empty prefix of a path that resolves resolves too, and the task
/// at a prefix longer than one is found below the first task.
proof fn lemma_prefix_resolves(m: TaskMap, q: Seq<u128>, i: int)
    requires
        resolves(m, q),
        1 <= i <= q.len(),
    ensures
        resolves(m, q.subrange(0, i)),
        i >= 2 ==> task_at(m, q.subrange(0, i)) == task_at(child(m, q[0]).subtasks, q.drop_first().subrange(0, i - 1)),
    decreases q.len(),
{
    if i == 1 {
        let r = q.subrange(0, 1);
        assert(r[0] == q[0]);
        assert(r.drop_first().len() == 0);
        assert(resolves(child(m, q[0]).subtasks, r.drop_first()));
    } else {
        lemma_prefix_of(q, i);
        lemma_prefix_resolves(child(m, q[0]).subtasks, q.drop_first(), i - 1);
    }
}

/// A match below the task at the end of `q` is a match below the first task
/// of `q`.
proof fn lemma_match_lifts(m: TaskMap, q: Seq<u128>, c: Cond)
    requires
        q.len() > 0,
        resolves(m, q),
        subtree_matches(task_at(m, q), c),
    ensures
        subtree_matches(child(m, q[0]), c),
    decreases q.len(),
{
    if q.len() > 1 {
        let t = child(m, q[0]);
        let rest = q.drop_first();
        assert(resolves(t.subtasks, rest));
        assert(has_key(t.subtasks@, rest[0]));
        lemma_match_lifts(t.subtasks, rest, c);
        lemma_key_index_found(t.subtasks@, rest[0]);
        let j = key_index(t.subtasks@, rest[0]);
        assert(subtree_matches(t.subtasks@[j].1, c));
    }
}

/// The entries of the `j`-th task of `m` are among the visible entries of the
/// first `n` tasks, for `j < n`.
proof fn lemma_node_in_upto(m: TaskMap, prefix: Seq<u128>, c: Cond, shown: bool, j: int, n: int)
    requires
        0 <= j < n <= m@.len(),
    ensures
        forall|e: (u128, Seq<u128>)| visible_node(m@[j].0, m@[j].1, prefix, c, shown).contains(e)
            ==> #[trigger] visible_upto(m, prefix, c, shown, n).contains(e),
    decreases n,
{
    m.lemma_value_decreases(n - 1);
    let before = visible_upto(m, prefix, c, shown, n - 1);
    let last = visible_node(m@[n - 1].0, m@[n - 1].1, prefix, c, shown);
    assert(visible_upto(m, prefix, c, shown, n) == before + last);
    if j < n - 1 {
        lemma_node_in_upto(m, prefix, c, shown, j, n - 1);
    }
    assert forall|e: (u128, Seq<u128>)| visible_node(m@[j].0, m@[j].1, prefix, c, shown).contains(e)
        implies #[trigger] visible_upto(m, prefix, c, shown, n).contains(e) by {
        if j < n - 1 {
            assert(before.contains(e));
            let k = choose|k: int| 0 <= k < before.len() && before[k] == e;
            assert((before + last)[k] == e);
        } else {
            let k = choose|k: int| 0 <= k < last.len() && last[k] == e;
            assert((before + last)[before.len() + k] == e);
        }
    }
}

/// The task at the end of a resolving path `q` is visible, with the path from
/// the root, when an ancestor already matched (`shown`), when some task on `q`
/// matches, or when some task below it matches.
pub proof fn lemma_visible_at_path(m: TaskMap, q: Seq<u128>, prefix: Seq<u128>, c: Cond, shown: bool)
    requires
        q.len() > 0,
        resolves(m, q),
        shown || matched_on_path(m, q, c) || subtree_matches(task_at(m, q), c),
    ensures
        visible_upto(m, prefix, c, shown, m@.len() as int).contains((q.last(), prefix + q)),
    decreases q.len(),
{
    let p0 = q[0];
    lemma_key_index_found(m@, p0);
    let j = key_index(m@, p0);
    let t = m@[j].1;
    assert(t == child(m, p0));
    let head = (p0, prefix.push(p0));
    let node = visible_node(p0, t, prefix, c, shown);
    let shown2 = shown || holds(c, t);
    if q.len() == 1 {
        assert(task_at(m, q) == t);
        if matched_on_path(m, q, c) {
            let i = choose|i: int| 1 <= i <= q.len() && #[trigger] holds(c, task_at(m, q.subrange(0, i)));
            assert(q.subrange(0, i) =~= q);
        }
        assert(node[0] == head);
        assert(q.last() == p0 && prefix + q =~= prefix.push(p0));
        assert(node.contains((q.last(), prefix + q)));
    } else {
        let rest = q.drop_first();
        assert(resolves(t.subtasks, rest));
        assert(task_at(m, q) == task_at(t.subtasks, rest));
        if !shown2 {
            if matched_on_path(m, q, c) {
                let i = choose|i: int| 1 <= i <= q.len() && #[trigger] holds(c, task_at(m, q.subrange(0, i)));
                if i == 1 {
                    lemma_prefix_resolves(m, q, 1);
                    let r = q.subrange(0, 1);
                    assert(r.len() == 1 && r[0] == p0);
                } else {
                    lemma_prefix_resolves(m, q, i);
                    lemma_prefix_resolves(t.subtasks, rest, i - 1);
                    let d = task_at(t.subtasks, rest.subrange(0, i - 1));
                    assert(holds(c, d));
                    assert(subtree_matches(d, c));
                    lemma_match_lifts(t.subtasks, rest.subrange(0, i - 1), c);
                    assert(rest.subrange(0, i - 1)[0] == rest[0]);
                    assert(matched_on_path(t.subtasks, rest, c));
                }
            }
        }
        let inner = visible_upto(t.subtasks, prefix.push(p0), c, shown2, t.subtasks@.len() as int);
        if !shown2 {
            if subtree_matches(task_at(t.subtasks, rest), c) {
                lemma_match_lifts(t.subtasks, rest, c);
            }
            if matched_on_path(t.subtasks, rest, c) {
                let i = choose|i: int| 1 <= i <= rest.len() && #[trigger] holds(c, task_at(t.subtasks, rest.subrange(0, i)));
                lemma_prefix_resolves(t.subtasks, rest, i);
                let d = task_at(t.subtasks, rest.subrange(0, i));
                assert(subtree_matches(d, c));
                lemma_match_lifts(t.subtasks, rest.subrange(0, i), c);
                assert(rest.subrange(0, i)[0] == rest[0]);
            }
            lemma_key_index_found(t.subtasks@, rest[0]);
            let k = key_index(t.subtasks@, rest[0]);
            assert(subtree_matches(t.subtasks@[k].1, c));
            assert(subtree_matches(t, c));
        }
        lemma_visible_at_path(t.subtasks, rest, prefix.push(p0), c, shown2);
        assert(rest.last() == q.last());
        assert(prefix.push(p0) + rest =~= prefix + q);
        assert(node == seq![head] + inner);
        let k = choose|k: int| 0 <= k < inner.len() && inner[k] == (q.last(), prefix + q);
        assert(node[k + 1] == (q.last(), prefix + q));
        assert(node.contains((q.last(), prefix + q)));
    }
    lemma_node_in_upto(m, prefix, c, shown, j, m@.len() as int);
}

/// Filtering is monotone over the whole tree. The task at the end of a path
/// `q` of `tasks` is in the visible entries with path `q`, and its id is a key
/// of the visible-set, when some task on `q` matches `c` (so a match shows
/// itself and every task below it) or when some task below it matches (so a
/// match shows every ancestor).
pub proof fn lemma_filter_shows_path(tasks: TaskMap, q: Seq<u128>, c: Cond)
    requires
        q.len() > 0,
        resolves(tasks, q),
        matched_on_path(tasks, q, c) || subtree_matches(task_at(tasks, q), c),
    ensures
        visible_list(tasks, c).contains((q.last(), q)),
        has_key(insert_all(Seq::<(u128, Seq<u128>)>::empty(), visible_list(tasks, c)), q.last()),
{
    lemma_visible_at_path(tasks, q, Seq::empty(), c, false);
    assert(Seq::<u128>::empty() + q =~= q);
    let l = visible_list(tasks, c);
    let k = choose|k: int| 0 <= k < l.len() && l[k] == (q.last(), q);
    assert(l[k].0 == q.last());
    lemma_insert_all_keys(Seq::<(u128, Seq<u128>)>::empty(), l, q.last());
}

fn flatten_node(k: u128, t: &Task, out: &mut Vec<u128>)
    ensures
        final(out)@ == old(out)@ + flat_node(k, *t),
    decreases t, 2int,
{
    let ghost start = out@;
    out.push(k);
    flatten_upto(&t.subtasks, out, t.subtasks.len());
    assert(final(out)@ =~= start + flat_node(k, *t));
}

fn flatten_upto(m: &TaskMap, out: &mut Vec<u128>, n: usize)
    requires
        n <= m@.len(),
    ensures
        final(out)@ == old(out)@ + flat_upto(*m, n as int),
    decreases m, n,
{
    let ghost start = out@;
    let mut i: usize = 0;
    while i < n
        invariant
            n <= m@.len(),
            i <= n,
            out@ == start + flat_upto(*m, i as int),
        decreases n - i,
    {
        proof { m.lemma_value_decreases(i as int); }
        flatten_node(*m.get_key_at_index(i).unwrap(), m.value_at(i), out);
        i = i + 1;
        assert(out@ =~= start + flat_upto(*m, i as int));
    }
}

/// The ids of all tasks of `tasks`, in pre-order.
pub fn flatten_tasks(tasks: &TaskMap) -> (r: Vec<u128>)
    ensures
        r@ == flat_list(*tasks),
{
    let mut out: Vec<u128> = Vec::new();
    flatten_upto(tasks, &mut out, tasks.len());
    assert(out@ =~= flat_list(*tasks));
    out
}

/// The distance between positions `p` and `q`.
pub open spec fn dist(p: int, q: int) -> int {
    if p >= q { p - q } else { q - p }
}

/// Position `p` of `f` holds a visible id: one with an entry in `vis`.
pub open spec fn shown_at<V>(f: Seq<u128>, vis: Seq<(u128, V)>, p: int) -> bool {
    0 <= p < f.len() && has_key(vis, f[p])
}

/// `p` is the visible position of `f` nearest to `idx`, the one after `idx`
/// winning a tie.
pub open spec fn nearest_at<V>(f: Seq<u128>, vis: Seq<(u128, V)>, idx: int, p: int) -> bool {
    &&& shown_at(f, vis, p)
    &&& forall|q: int| #[trigger] shown_at(f, vis, q) ==> dist(p, idx) < dist(q, idx) || (dist(p, idx) == dist(q, idx) && (q == p || p > idx))
}

/// The id nearest to the first occurrence of `selected` in the flat list `f`
/// that is visible in `vis`, searching outward from that position and forward
/// first; `None` when `selected` is not in `f` or nothing in `f` is visible.
#[verifier::opaque]
pub open spec fn nearest_rel<V>(f: Seq<u128>, vis: Seq<(u128, V)>, selected: u128, r: Option<u128>) -> bool {
    if exists|i: int| 0 <= i < f.len() && f[i] == selected {
        let idx = choose|i: int| 0 <= i < f.len() && f[i] == selected && forall|j: int| 0 <= j < i ==> f[j] != selected;
        match r {
            Some(x) => exists|p: int| nearest_at(f, vis, idx, p) && f[p] == x,
            None => forall|q: int| !#[trigger] shown_at(f, vis, q),
        }
    } else {
        r is None
    }
}

fn position_of(f: &Vec<u128>, x: u128) -> (r: Option<usize>)
    ensures
        r is Some ==> r->Some_0 < f@.len() && f@[r->Some_0 as int] == x && forall|j: int| 0 <= j < r->Some_0 ==> f@[j] != x,
        r is None ==> forall|j: int| 0 <= j < f@.len() ==> f@[j] != x,
{
    let mut i: usize = 0;
    while i < f.len()
        invariant
            i <= f@.len(),
            forall|j: int| 0 <= j < i ==> f@[j] != x,
        decreases f@.len() - i,
    {
        if f[i] == x {
            return Some(i);
        }
        i = i + 1;
    }
    None
}

proof fn lemma_found<V>(f: Seq<u128>, vis: Seq<(u128, V)>, selected: u128, idx: int, p: int)
    requires
        0 <= idx < f.len(),
        f[idx] == selected,
        forall|j: int| 0 <= j < idx ==> f[j] != selected,
        nearest_at(f, vis, idx, p),
    ensures
        nearest_rel(f, vis, selected, Some(f[p])),
{
    reveal(nearest_rel);
    let first = choose|i: int| 0 <= i < f.len() && f[i] == selected && forall|j: int| 0 <= j < i ==> f[j] != selected;
    if first != idx {
        if first < idx {
            assert(f[first] != selected);
        } else {
            assert(f[idx] != selected);
        }
    }
}

proof fn lemma_none_shown<V>(f: Seq<u128>, vis: Seq<(u128, V)>, selected: u128, idx: int)
    requires
        0 <= idx < f.len(),
        f[idx] == selected,
        forall|q: int| #[trigger] shown_at(f, vis, q) ==> dist(q, idx) >= f.len(),
    ensures
        nearest_rel(f, vis, selected, None),
{
    reveal(nearest_rel);
    assert forall|q: int| !#[trigger] shown_at(f, vis, q) by {
        if shown_at(f, vis, q) {
            assert(dist(q, idx) < f.len());
        }
    }
}

proof fn lemma_next_offset<V>(f: Seq<u128>, vis: Seq<(u128, V)>, idx: int, offset: int)
    requires
        0 <= idx < f.len(),
        0 <= offset,
        forall|q: int| #[trigger] shown_at(f, vis, q) ==> dist(q, idx) >= offset,
        !shown_at(f, vis, idx + offset),
        !shown_at(f, vis, idx - offset),
    ensures
        forall|q: int| #[trigger] shown_at(f, vis, q) ==> dist(q, idx) >= offset + 1,
{
    assert forall|q: int| #[trigger] shown_at(f, vis, q) implies dist(q, idx) >= offset + 1 by {
        if dist(q, idx) == offset {
            if q >= idx {
                assert(q == idx + offset);
            } else {
                assert(q == idx - offset);
            }
        }
    }
}

proof fn lemma_forward<V>(f: Seq<u128>, vis: Seq<(u128, V)>, idx: int, offset: int)
    requires
        0 <= idx < f.len(),
        0 <= offset,
        forall|q: int| #[trigger] shown_at(f, vis, q) ==> dist(q, idx) >= offset,
        shown_at(f, vis, idx + offset),
    ensures
        nearest_at(f, vis, idx, idx + offset),
{
}

proof fn lemma_backward<V>(f: Seq<u128>, vis: Seq<(u128, V)>, idx: int, offset: int)
    requires
        0 <= idx < f.len(),
        0 < offset,
        forall|q: int| #[trigger] shown_at(f, vis, q) ==> dist(q, idx) >= offset,
        !shown_at(f, vis, idx + offset),
        shown_at(f, vis, idx - offset),
    ensures
        nearest_at(f, vis, idx, idx - offset),
{
    let p = idx - offset;
    assert forall|q: int| #[trigger] shown_at(f, vis, q) implies dist(p, idx) < dist(q, idx)
        || (dist(p, idx) == dist(q, idx) && (q == p || p > idx)) by {
        if dist(q, idx) == offset && q != p {
            assert(q == idx + offset);
        }
    }
}

/// The visible id nearest to `selected` in the flat order of `tasks` (see
/// `nearest_rel`).
pub fn find_closest_task(tasks: &TaskMap, filtered: &PersistentIndexMap<Vec<u128>>, selected: u128) -> (r: Option<u128>)
    ensures
        nearest_rel(flat_list(*tasks), filtered@, selected, r),
        r is Some ==> has_key(filtered@, r->Some_0),
{
    let f = flatten_tasks(tasks);
    let ghost fs = f@;
    let idx = match position_of(&f, selected) {
        Some(i) => i,
        None => {
            proof { reveal(nearest_rel); }
            return None;
        },
    };
    let n = f.len();
    let mut offset: usize = 0;
    while offset < n
        invariant
            fs == f@,
            fs == flat_list(*tasks),
            n == fs.len(),
            idx < n,
            offset <= n,
            fs[idx as int] == selected,
            forall|j: int| 0 <= j < idx ==> fs[j] != selected,
            forall|q: int| #[trigger] shown_at(fs, filtered@, q) ==> dist(q, idx as int) >= offset,
        decreases n - offset,
    {
        if offset < n - idx {
            let id = f[idx + offset];
            if filtered.contains_key(&id) {
                proof {
                    lemma_forward(fs, filtered@, idx as int, offset as int);
                    lemma_found(fs, filtered@, selected, idx as int, idx + offset);
                }
                return Some(id);
            }
        }
        if offset > 0 && offset <= idx {
            let id = f[idx - offset];
            if filtered.contains_key(&id) {
                proof {
                    lemma_backward(fs, filtered@, idx as int, offset as int);
                    lemma_found(fs, filtered@, selected, idx as int, idx - offset);
                }
                return Some(id);
            }
        }
        proof { lemma_next_offset(fs, filtered@, idx as int, offset as int); }
        offset = offset + 1;
    }
    proof { lemma_none_shown(fs, filtered@, selected, idx as int); }
    None
}

/// The first key of `vis`, if any.
pub open spec fn first_key<V>(vis: Seq<(u128, V)>) -> Option<u128> {
    if vis.len() > 0 { Some(vis[0].0) } else { None }
}

/// `r` is the selection after a change, for the tree `tasks` and its new
/// visible-set `vis`: the `desired` id if it is visible; else the `previous`
/// selection if it is still visible; else the visible id nearest to it in the
/// flat order of the tree; else the first visible id, if there is one.
pub open spec fn selection_rel<V>(tasks: TaskMap, vis: Seq<(u128, V)>, desired: Option<u128>, previous: Option<u128>, r: Option<u128>) -> bool {
    if desired is Some && has_key(vis, desired->Some_0) {
        r == desired
    } else if previous is Some && has_key(vis, previous->Some_0) {
        r == previous
    } else if previous is Some {
        (r is Some && nearest_rel(flat_list(tasks), vis, previous->Some_0, r))
            || (nearest_rel(flat_list(tasks), vis, previous->Some_0, None) && r == first_key(vis))
    } else {
        r == first_key(vis)
    }
}

/// The selection after a change (see `selection_rel`).
pub fn new_selection(
    tasks: &TaskMap,
    filtered: &PersistentIndexMap<Vec<u128>>,
    desired: Option<u128>,
    previous: Option<u128>,
) -> (r: Option<u128>)
    ensures
        selection_rel(*tasks, filtered@, desired, previous, r),
        r is Some ==> has_key(filtered@, r->Some_0),
{
    if let Some(d) = desired {
        if filtered.contains_key(&d) {
            return Some(d);
        }
    }
    if let Some(s) = previous {
        if filtered.contains_key(&s) {
            return Some(s);
        }
        let c = find_closest_task(tasks, filtered, s);
        if c.is_some() {
            return c;
        }
    }
    match filtered.get_key_at_index(0) {
        Some(k) => Some(*k),
        None => None,
    }
}

} // verus!
