//! Matching a path against a tree of routes, depth first: at each level the
//! static children whose segment equals the path's segment, in order, then
//! every dynamic child, which binds the segment to its parameter name.

use vstd::prelude::*;
use crate::router::{normalize_path, path_segments};

verus! {

/// A node of the route tree.
#[derive(Debug)]
pub struct RouteNode {
    /// The literal segment a static node matches.
    pub segment: String,
    /// A dynamic node matches any segment and binds it to its parameter.
    pub dynamic: bool,
    /// The parameter a dynamic node binds; `param` where none is given.
    pub parameter_name: Option<String>,
    /// Whether the node can render a view, which makes it a match target.
    pub has_view: bool,
    pub children: Vec<RouteNode>,
}

/// One entry of a match: a node, given as the child positions that lead to it
/// from the node where matching started, and the parameters bound when the
/// match reached it.
#[derive(Debug)]
pub struct RouteStep {
    pub node: Vec<usize>,
    pub params: Vec<(String, String)>,
}

/// Parameters as (name, value) pairs, names unique, in order of first binding.
pub type Params = Seq<(Seq<char>, Seq<char>)>;

/// A step as the contracts see it.
pub type Step = (Seq<usize>, Params);

pub open spec fn params_view(p: Seq<(String, String)>) -> Params {
    p.map_values(|e: (String, String)| (e.0@, e.1@))
}

pub open spec fn step_view(s: RouteStep) -> Step {
    (s.node@, params_view(s.params@))
}

pub open spec fn path_view(p: Seq<RouteStep>) -> Seq<Step> {
    p.map_values(|s: RouteStep| step_view(s))
}

pub open spec fn results_view(r: Seq<Vec<RouteStep>>) -> Seq<Seq<Step>> {
    r.map_values(|p: Vec<RouteStep>| path_view(p@))
}

/// The position of the first pair at or after `i` named `k`, if any.
pub open spec fn key_position(ps: Params, k: Seq<char>, i: int) -> Option<int>
    decreases ps.len() - i,
{
    if i < 0 || i >= ps.len() {
        None
    } else if ps[i].0 == k {
        Some(i)
    } else {
        key_position(ps, k, i + 1)
    }
}

/// `k` bound to `v`: in place where `k` is bound, else appended.
pub open spec fn bind(ps: Params, k: Seq<char>, v: Seq<char>) -> Params {
    match key_position(ps, k, 0) {
        Some(j) => ps.update(j, (k, v)),
        None => ps.push((k, v)),
    }
}

/// `k` unbound.
pub open spec fn unbind(ps: Params, k: Seq<char>) -> Params {
    match key_position(ps, k, 0) {
        Some(j) => ps.remove(j),
        None => ps,
    }
}

/// The parameter a dynamic child binds.
pub open spec fn param_key(child: RouteNode) -> Seq<char> {
    match child.parameter_name {
        Some(n) => n@,
        None => seq!['p', 'a', 'r', 'a', 'm'],
    }
}

/// The matches found from `node`, reached by the positions `at`, with the
/// segments from `i` on still to match, the parameters `params` bound and
/// the steps `stack` taken; and the parameters left bound afterwards.
pub open spec fn dfs(
    node: RouteNode,
    at: Seq<usize>,
    segs: Seq<Seq<char>>,
    i: int,
    params: Params,
    stack: Seq<Step>,
) -> (Seq<Seq<Step>>, Params)
    decreases segs.len() - i, 2int, 0int,
{
    if i >= segs.len() {
        if node.has_view {
            (seq![stack.push((at, params))], params)
        } else {
            (Seq::empty(), params)
        }
    } else {
        let (r1, p1) = static_pass(node, at, segs, i, params, stack, 0);
        let (r2, p2) = dynamic_pass(node, at, segs, i, p1, stack, 0);
        (r1 + r2, p2)
    }
}

/// The matches through the static children from position `c` on.
pub open spec fn static_pass(
    node: RouteNode,
    at: Seq<usize>,
    segs: Seq<Seq<char>>,
    i: int,
    params: Params,
    stack: Seq<Step>,
    c: int,
) -> (Seq<Seq<Step>>, Params)
    decreases segs.len() - i, 1int, node.children@.len() - c,
{
    if i < 0 || i >= segs.len() || c < 0 || c >= node.children@.len() {
        (Seq::empty(), params)
    } else {
        let child = node.children@[c];
        if !child.dynamic && child.segment@ == segs[i] {
            let here = at.push(c as usize);
            let (r, p) = dfs(child, here, segs, i + 1, params, stack.push((here, params)));
            let (r2, p2) = static_pass(node, at, segs, i, p, stack, c + 1);
            (r + r2, p2)
        } else {
            static_pass(node, at, segs, i, params, stack, c + 1)
        }
    }
}

/// The matches through the dynamic children from position `c` on.
pub open spec fn dynamic_pass(
    node: RouteNode,
    at: Seq<usize>,
    segs: Seq<Seq<char>>,
    i: int,
    params: Params,
    stack: Seq<Step>,
    c: int,
) -> (Seq<Seq<Step>>, Params)
    decreases segs.len() - i, 0int, node.children@.len() - c,
{
    if i < 0 || i >= segs.len() || c < 0 || c >= node.children@.len() {
        (Seq::empty(), params)
    } else {
        let child = node.children@[c];
        if child.dynamic {
            let here = at.push(c as usize);
            let k = param_key(child);
            let bound = bind(params, k, segs[i]);
            let (r, p) = dfs(child, here, segs, i + 1, bound, stack.push((here, bound)));
            let (r2, p2) = dynamic_pass(node, at, segs, i, unbind(p, k), stack, c + 1);
            (r + r2, p2)
        } else {
            dynamic_pass(node, at, segs, i, params, stack, c + 1)
        }
    }
}

fn copy_params(p: &Vec<(String, String)>) -> (r: Vec<(String, String)>)
    ensures
        params_view(r@) == params_view(p@),
{
    let mut r: Vec<(String, String)> = Vec::new();
    let mut i: usize = 0;
    while i < p.len()
        invariant
            i <= p@.len(),
            r@.len() == i,
            params_view(r@) == params_view(p@.subrange(0, i as int)),
        decreases p@.len() - i,
    {
        let ghost before = r@;
        let k0 = p[i].0.clone();
        let v0 = p[i].1.clone();
        r.push((k0, v0));
        assert forall|k: int| 0 <= k <= i implies #[trigger] params_view(r@)[k] == params_view(
            p@.subrange(0, i + 1),
        )[k] by {
            if k < i {
                assert(params_view(before)[k] == params_view(p@.subrange(0, i as int))[k]);
            }
        }
        assert(params_view(r@) =~= params_view(p@.subrange(0, i + 1)));
        i = i + 1;
    }
    assert(p@.subrange(0, p@.len() as int) =~= p@);
    r
}

fn copy_path(a: &Vec<usize>) -> (r: Vec<usize>)
    ensures
        r@ == a@,
{
    let mut r: Vec<usize> = Vec::new();
    let mut i: usize = 0;
    while i < a.len()
        invariant
            i <= a@.len(),
            r@ == a@.subrange(0, i as int),
        decreases a@.len() - i,
    {
        r.push(a[i]);
        assert(r@ =~= a@.subrange(0, i + 1));
        i = i + 1;
    }
    assert(a@.subrange(0, a@.len() as int) =~= a@);
    r
}

fn copy_steps(s: &Vec<RouteStep>) -> (r: Vec<RouteStep>)
    ensures
        path_view(r@) == path_view(s@),
{
    let mut r: Vec<RouteStep> = Vec::new();
    let mut i: usize = 0;
    while i < s.len()
        invariant
            i <= s@.len(),
            r@.len() == i,
            path_view(r@) == path_view(s@.subrange(0, i as int)),
        decreases s@.len() - i,
    {
        let step = RouteStep { node: copy_path(&s[i].node), params: copy_params(&s[i].params) };
        let ghost before = r@;
        assert(step_view(step) == step_view(s@[i as int]));
        r.push(step);
        assert(r@ == before.push(step));
        assert forall|k: int| 0 <= k <= i implies #[trigger] path_view(r@)[k] == path_view(
            s@.subrange(0, i + 1),
        )[k] by {
            if k < i {
                assert(path_view(before)[k] == path_view(s@.subrange(0, i as int))[k]);
            }
        }
        assert(path_view(r@) =~= path_view(s@.subrange(0, i + 1)));
        i = i + 1;
    }
    assert(s@.subrange(0, s@.len() as int) =~= s@);
    r
}

fn find_param(p: &Vec<(String, String)>, k: &String) -> (r: Option<usize>)
    ensures
        match r {
            Some(j) => j < p@.len() && key_position(params_view(p@), k@, 0) == Some(j as int),
            None => key_position(params_view(p@), k@, 0) is None,
        },
{
    let ghost v = params_view(p@);
    let mut i: usize = 0;
    while i < p.len()
        invariant
            i <= p@.len(),
            v == params_view(p@),
            key_position(v, k@, 0) == key_position(v, k@, i as int),
        decreases p@.len() - i,
    {
        if p[i].0 == *k {
            return Some(i);
        }
        i = i + 1;
    }
    None
}

fn bind_param(p: &mut Vec<(String, String)>, k: String, v: String)
    ensures
        params_view(final(p)@) == bind(params_view(old(p)@), k@, v@),
{
    match find_param(p, &k) {
        Some(j) => {
            let ghost before = p@;
            p.set(j, (k, v));
            assert(params_view(p@) =~= params_view(before).update(j as int, (k@, v@)));
        },
        None => {
            let ghost before = p@;
            let ghost kv = (k@, v@);
            p.push((k, v));
            assert(params_view(p@) =~= params_view(before).push(kv));
        },
    }
}

fn unbind_param(p: &mut Vec<(String, String)>, k: &String)
    ensures
        params_view(final(p)@) == unbind(params_view(old(p)@), k@),
{
    match find_param(p, k) {
        Some(j) => {
            let ghost before = p@;
            p.remove(j);
            assert(params_view(p@) =~= params_view(before).remove(j as int));
        },
        None => {},
    }
}

fn param_name(child: &RouteNode) -> (r: String)
    ensures
        r@ == param_key(*child),
{
    match &child.parameter_name {
        Some(n) => n.clone(),
        None => {
            proof {
                reveal_strlit("param");
                assert("param"@ =~= seq!['p', 'a', 'r', 'a', 'm']);
            }
            "param".to_owned()
        },
    }
}

/// The views of the segments.
pub open spec fn segs_view(segments: Seq<String>) -> Seq<Seq<char>> {
    segments.map_values(|s: String| s@)
}

/// Collects into `results` the matches from `node` (see [`dfs`]), leaving the
/// parameters as the search leaves them and `at` and `stack` as they were.
pub fn dfs_match(
    node: &RouteNode,
    at: &mut Vec<usize>,
    segments: &Vec<String>,
    index: usize,
    params: &mut Vec<(String, String)>,
    stack: &mut Vec<RouteStep>,
    results: &mut Vec<Vec<RouteStep>>,
)
    requires
        index <= segments@.len(),
    ensures
        final(at)@ == old(at)@,
        path_view(final(stack)@) == path_view(old(stack)@),
        results_view(final(results)@) == results_view(old(results)@) + dfs(
            *node,
            old(at)@,
            segs_view(segments@),
            index as int,
            params_view(old(params)@),
            path_view(old(stack)@),
        ).0,
        params_view(final(params)@) == dfs(
            *node,
            old(at)@,
            segs_view(segments@),
            index as int,
            params_view(old(params)@),
            path_view(old(stack)@),
        ).1,
    decreases segments@.len() - index,
{
    let ghost segs = segs_view(segments@);
    let ghost a0 = at@;
    let ghost s0 = path_view(stack@);
    let ghost p0 = params_view(params@);
    let ghost r0 = results_view(results@);
    if index == segments.len() {
        if node.has_view {
            let mut collected = copy_steps(stack);
            let last = RouteStep { node: copy_path(at), params: copy_params(params) };
            let ghost before = collected@;
            collected.push(last);
            assert(collected@ == before.push(last));
            assert(path_view(collected@) =~= s0.push((a0, p0)));
            let ghost rb = results@;
            results.push(collected);
            assert(results@ == rb.push(collected));
            assert(results_view(results@) =~= r0 + seq![s0.push((a0, p0))]);
        } else {
            assert(results_view(results@) =~= r0 + Seq::<Seq<Step>>::empty());
        }
        return;
    }
    let n = segments.len();
    let segment = &segments[index];
    let ghost acc: Seq<Seq<Step>> = Seq::empty();
    let mut c: usize = 0;
    while c < node.children.len()
        invariant
            n == segments@.len(),
            index < segments@.len(),
            segs == segs_view(segments@),
            *segment == segments@[index as int],
            at@ == a0,
            path_view(stack@) == s0,
            results_view(results@) == r0 + acc,
            static_pass(*node, a0, segs, index as int, p0, s0, 0).0 == acc + static_pass(
                *node,
                a0,
                segs,
                index as int,
                params_view(params@),
                s0,
                c as int,
            ).0,
            static_pass(*node, a0, segs, index as int, p0, s0, 0).1 == static_pass(
                *node,
                a0,
                segs,
                index as int,
                params_view(params@),
                s0,
                c as int,
            ).1,
            c <= node.children@.len(),
        decreases node.children@.len() - c,
    {
        let child = &node.children[c];
        assert(segs[index as int] == segment@);
        if !child.dynamic && child.segment == *segment {
            let ghost cur = params_view(params@);
            let ghost rb = results_view(results@);
            at.push(c);
            let ghost here = at@;
            stack.push(RouteStep { node: copy_path(at), params: copy_params(params) });
            assert(path_view(stack@) =~= s0.push((here, cur)));
            dfs_match(child, at, segments, index + 1, params, stack, results);
            let ghost found = dfs(*child, here, segs, index + 1, cur, s0.push((here, cur))).0;
            proof {
                acc = acc + found;
                assert(results_view(results@) =~= r0 + acc);
            }
            let ghost sv = stack@;
            stack.pop();
            at.pop();
            assert(stack@ == sv.drop_last());
            assert forall|k: int| 0 <= k < s0.len() implies #[trigger] path_view(stack@)[k] == s0[k] by {
                assert(path_view(sv)[k] == s0[k]);
            }
            assert(path_view(stack@) =~= s0);
            assert(at@ =~= a0);
        }
        c = c + 1;
    }
    let ghost acc_static = acc;
    let ghost p1 = params_view(params@);
    proof {
        acc = Seq::empty();
        assert(static_pass(*node, a0, segs, index as int, p0, s0, 0).0 =~= acc_static);
    }
    let mut c: usize = 0;
    while c < node.children.len()
        invariant
            n == segments@.len(),
            index < segments@.len(),
            segs == segs_view(segments@),
            *segment == segments@[index as int],
            at@ == a0,
            path_view(stack@) == s0,
            results_view(results@) == r0 + acc_static + acc,
            dynamic_pass(*node, a0, segs, index as int, p1, s0, 0).0 == acc + dynamic_pass(
                *node,
                a0,
                segs,
                index as int,
                params_view(params@),
                s0,
                c as int,
            ).0,
            dynamic_pass(*node, a0, segs, index as int, p1, s0, 0).1 == dynamic_pass(
                *node,
                a0,
                segs,
                index as int,
                params_view(params@),
                s0,
                c as int,
            ).1,
            c <= node.children@.len(),
        decreases node.children@.len() - c,
    {
        let child = &node.children[c];
        assert(segs[index as int] == segment@);
        if child.dynamic {
            let key = param_name(child);
            bind_param(params, param_name(child), segment.clone());
            let ghost bound = params_view(params@);
            at.push(c);
            let ghost here = at@;
            stack.push(RouteStep { node: copy_path(at), params: copy_params(params) });
            assert(path_view(stack@) =~= s0.push((here, bound)));
            dfs_match(child, at, segments, index + 1, params, stack, results);
            let ghost found = dfs(*child, here, segs, index + 1, bound, s0.push((here, bound))).0;
            proof {
                acc = acc + found;
                assert(results_view(results@) =~= r0 + acc_static + acc);
            }
            unbind_param(params, &key);
            let ghost sv = stack@;
            stack.pop();
            at.pop();
            assert(stack@ == sv.drop_last());
            assert forall|k: int| 0 <= k < s0.len() implies #[trigger] path_view(stack@)[k] == s0[k] by {
                assert(path_view(sv)[k] == s0[k]);
            }
            assert(path_view(stack@) =~= s0);
            assert(at@ =~= a0);
        }
        c = c + 1;
    }
    assert(dynamic_pass(*node, a0, segs, index as int, p1, s0, 0).0 =~= acc);
    assert(results_view(results@) =~= r0 + (acc_static + acc));
}

/// The matches of the segments from `index` on below `node`, starting with
/// the parameters `params` and no steps taken, and the parameters the search
/// leaves bound.
pub fn collect_matches(
    node: &RouteNode,
    segments: &Vec<String>,
    index: usize,
    params: Vec<(String, String)>,
) -> (r: (Vec<Vec<RouteStep>>, Vec<(String, String)>))
    requires
        index <= segments@.len(),
    ensures
        results_view(r.0@) == dfs(*node, seq![], segs_view(segments@), index as int, params_view(params@), seq![]).0,
        params_view(r.1@) == dfs(*node, seq![], segs_view(segments@), index as int, params_view(params@), seq![]).1,
{
    let mut params = params;
    let mut at: Vec<usize> = Vec::new();
    let mut stack: Vec<RouteStep> = Vec::new();
    let mut results: Vec<Vec<RouteStep>> = Vec::new();
    let ghost p0 = params_view(params@);
    assert(at@ =~= seq![]);
    assert(path_view(stack@) =~= seq![]);
    assert(results_view(results@) =~= seq![]);
    dfs_match(node, &mut at, segments, index, &mut params, &mut stack, &mut results);
    assert(results_view(results@) =~= Seq::<Seq<Step>>::empty() + dfs(
        *node,
        seq![],
        segs_view(segments@),
        index as int,
        p0,
        seq![],
    ).0);
    (results, params)
}

/// The routes that match a path: for each, the steps from the first level
/// below the root to the matched node. The empty path matches the root
/// itself where it has a view.
pub fn match_routes(root: &RouteNode, path: &String) -> (r: Vec<Vec<RouteStep>>)
    ensures
        results_view(r@) == dfs(*root, seq![], path_segments(path@), 0, seq![], seq![]).0,
{
    let segments = normalize_path(path);
    assert(segs_view(segments@) =~= path_segments(path@));
    if segments.len() == 0 {
        let mut results: Vec<Vec<RouteStep>> = Vec::new();
        if root.has_view {
            let step = RouteStep { node: Vec::new(), params: Vec::new() };
            assert(step.node@ =~= Seq::<usize>::empty());
            assert(params_view(step.params@) =~= Seq::<(Seq<char>, Seq<char>)>::empty());
            let mut only: Vec<RouteStep> = Vec::new();
            only.push(step);
            results.push(only);
            assert(path_view(only@) =~= seq![(Seq::<usize>::empty(), Seq::<(Seq<char>, Seq<char>)>::empty())]);
            assert(results_view(results@) =~= seq![
                Seq::<Step>::empty().push((Seq::<usize>::empty(), Seq::<(Seq<char>, Seq<char>)>::empty())),
            ]);
        } else {
            assert(results_view(results@) =~= seq![]);
        }
        return results;
    }
    let none: Vec<(String, String)> = Vec::new();
    assert(params_view(none@) =~= seq![]);
    let (results, _) = collect_matches(root, &segments, 0, none);
    results
}

} // verus!
