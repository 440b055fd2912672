//! Arrays of variables shown as one frame buffer: the index ranges of a nested array of
//! scopes, and the variables that a choice of ranges selects, in index order.
use crate::frame_buffer::{
    index_name_value, value_bit_chars, value_text, value_well_formed, variable_array_index,
    ArrayLevel, VariableValue,
};
use crate::text::{chars_of, string_of, utf8_text};
use vstd::utf8::{decode_utf8, encode_utf8, is_char_boundary, valid_utf8};
use crate::hierarchy::path_names;
use crate::wave_refs::{ScopeRef, VariableRef};
use vstd::prelude::*;

verus! {

/// `x` inserted into `sorted` after every item whose key is at most its own.
pub open spec fn insert_by_key<T>(sorted: Seq<(i64, T)>, x: (i64, T)) -> Seq<(i64, T)>
    decreases sorted.len(),
{
    if sorted.len() == 0 {
        seq![x]
    } else if sorted.last().0 <= x.0 {
        sorted.push(x)
    } else {
        insert_by_key(sorted.drop_last(), x).push(sorted.last())
    }
}

/// `s` sorted by key, items with equal keys keeping their order: the order that a stable
/// sort by key gives.
pub open spec fn sort_by_key<T>(s: Seq<(i64, T)>) -> Seq<(i64, T)>
    decreases s.len(),
{
    if s.len() == 0 {
        s
    } else {
        insert_by_key(sort_by_key(s.drop_last()), s.last())
    }
}

proof fn lemma_insert_step<T>(s: Seq<(i64, T)>, x: (i64, T), j: int)
    requires
        0 < j <= s.len(),
        s[j - 1].0 > x.0,
    ensures
        insert_by_key(s.take(j), x) + s.skip(j) == insert_by_key(s.take(j - 1), x) + s.skip(j - 1),
{
    assert(s.take(j).drop_last() =~= s.take(j - 1));
    assert(s.take(j).last() == s[j - 1]);
    assert(insert_by_key(s.take(j - 1), x).push(s[j - 1]) + s.skip(j) =~= insert_by_key(
        s.take(j - 1),
        x,
    ) + s.skip(j - 1));
}

/// Sorts `items` by key; items with equal keys keep their order.
pub fn sort_keyed<T>(items: Vec<(i64, T)>) -> (res: Vec<(i64, T)>)
    ensures
        res@ == sort_by_key(items@),
{
    let mut items = items;
    let ghost all = items@;
    let mut res: Vec<(i64, T)> = Vec::new();
    let mut taken: usize = 0;
    assert(all.len() == items.len());
    assert(all.take(0) =~= Seq::<(i64, T)>::empty());
    while items.len() > 0
        invariant
            taken <= all.len(),
            all.len() <= usize::MAX,
            items@ == all.skip(taken as int),
            res@ == sort_by_key(all.take(taken as int)),
        decreases items@.len(),
    {
        let x = items.remove(0);
        let ghost s = res@;
        let mut j = res.len();
        assert(s.take(j as int) =~= s);
        assert(s.skip(j as int) =~= Seq::<(i64, T)>::empty());
        while j > 0 && res[j - 1].0 > x.0
            invariant
                j <= s.len(),
                res@ == s,
                insert_by_key(s, x) == insert_by_key(s.take(j as int), x) + s.skip(j as int),
            decreases j,
        {
            proof {
                lemma_insert_step(s, x, j as int);
            }
            j = j - 1;
        }
        proof {
            if j == 0 {
                assert(s.take(0) =~= Seq::<(i64, T)>::empty());
                assert(seq![x] + s.skip(0) =~= s.insert(0, x));
            } else {
                assert(s.take(j as int).last() == s[j - 1]);
                assert(s.take(j as int).push(x) + s.skip(j as int) =~= s.insert(j as int, x));
            }
            assert(all.take(taken + 1).drop_last() =~= all.take(taken as int));
            assert(all.take(taken + 1).last() == x);
        }
        res.insert(j, x);
        taken = taken + 1;
        assert(items@ =~= all.skip(taken as int));
    }
    assert(all.take(taken as int) =~= all);
    res
}

/// A scope of the wave form's hierarchy, as frame buffers read it: its name, and its child
/// scopes and its variables in the order in which the wave form lists them.
#[derive(Debug)]
pub struct ScopeNode {
    pub name: String,
    pub children: Vec<ScopeNode>,
    pub variables: Vec<VariableRef>,
}

/// The array index of a scope, taken from its name; `i64::MAX` when the name is no index.
pub open spec fn node_array_index(n: ScopeNode) -> i64 {
    match index_name_value(n.name@) {
        Some(v) => v,
        None => i64::MAX,
    }
}

/// The array index of a variable: its explicit index, else the index its name gives;
/// `i64::MAX` when there is neither.
pub open spec fn var_array_index(v: VariableRef) -> i64 {
    match v.index {
        Some(i) => i,
        None => match index_name_value(v.name@) {
            Some(x) => x,
            None => i64::MAX,
        },
    }
}

/// `x` limited to `lo..=hi`, as `i64::clamp` gives it.
pub open spec fn clamp_spec(x: i64, lo: i64, hi: i64) -> i64 {
    if x < lo {
        lo
    } else if x > hi {
        hi
    } else {
        x
    }
}

/// The first index that a level selects: its first index, kept within its range.
pub open spec fn level_first(l: ArrayLevel) -> i64 {
    clamp_spec(l.first_index, l.min_index, l.max_index)
}

/// The last index that a level selects: its last index, kept within its range.
pub open spec fn level_last(l: ArrayLevel) -> i64 {
    clamp_spec(l.last_index, l.min_index, l.max_index)
}

/// A level whose range is not empty; clamping to it is defined.
pub open spec fn level_ordered(l: ArrayLevel) -> bool {
    l.min_index <= l.max_index
}

/// The nodes among `nodes` whose index lies in `lo..=hi`, each with its index.
pub open spec fn keyed_nodes_in(nodes: Seq<ScopeNode>, lo: i64, hi: i64) -> Seq<(i64, ScopeNode)>
    decreases nodes.len(),
{
    if nodes.len() == 0 {
        Seq::empty()
    } else {
        let p = keyed_nodes_in(nodes.drop_last(), lo, hi);
        let k = node_array_index(nodes.last());
        if lo <= k <= hi {
            p.push((k, nodes.last()))
        } else {
            p
        }
    }
}

/// The items of `s` without their keys.
pub open spec fn unkeyed<T>(s: Seq<(i64, T)>) -> Seq<T> {
    s.map_values(|p: (i64, T)| p.1)
}

/// The child scopes of each of `nodes` whose index lies in `lo..=hi`, each node's children
/// sorted by index, one node after another.
pub open spec fn select_children(nodes: Seq<ScopeNode>, lo: i64, hi: i64) -> Seq<ScopeNode>
    decreases nodes.len(),
{
    if nodes.len() == 0 {
        Seq::empty()
    } else {
        select_children(nodes.drop_last(), lo, hi) + unkeyed(
            sort_by_key(keyed_nodes_in(nodes.last().children@, lo, hi)),
        )
    }
}

/// The scopes reached from `nodes` by selecting children level by level.
pub open spec fn descend(nodes: Seq<ScopeNode>, levels: Seq<ArrayLevel>) -> Seq<ScopeNode>
    decreases levels.len(),
{
    if levels.len() == 0 {
        nodes
    } else {
        let l = levels.last();
        select_children(descend(nodes, levels.drop_last()), level_first(l), level_last(l))
    }
}

/// The variables among `s`, each with its index, whose index lies in `lo..=hi`.
pub open spec fn keep_in_range<T>(s: Seq<(i64, T)>, lo: i64, hi: i64) -> Seq<T>
    decreases s.len(),
{
    if s.len() == 0 {
        Seq::empty()
    } else {
        let p = keep_in_range(s.drop_last(), lo, hi);
        if lo <= s.last().0 <= hi {
            p.push(s.last().1)
        } else {
            p
        }
    }
}

/// The variables of a scope, each with its index.
pub open spec fn keyed_variables(vars: Seq<VariableRef>) -> Seq<(i64, VariableRef)> {
    vars.map_values(|v: VariableRef| (var_array_index(v), v))
}

/// The variables of each of `nodes` sorted by index and kept when their index lies in
/// `lo..=hi`, one node after another.
pub open spec fn select_variables(nodes: Seq<ScopeNode>, lo: i64, hi: i64) -> Seq<VariableRef>
    decreases nodes.len(),
{
    if nodes.len() == 0 {
        Seq::empty()
    } else {
        select_variables(nodes.drop_last(), lo, hi) + keep_in_range(
            sort_by_key(keyed_variables(nodes.last().variables@)),
            lo,
            hi,
        )
    }
}

/// The variables that the levels select below `root`: the last level selects variables, the
/// others scopes. None when no scope is reached or the variable range is empty.
pub open spec fn resolved_variables(root: ScopeNode, levels: Seq<ArrayLevel>) -> Option<
    Seq<VariableRef>,
> {
    let leaves = descend(seq![root], levels.drop_last());
    let v = levels.last();
    if leaves.len() == 0 {
        None
    } else if level_first(v) > level_last(v) {
        None
    } else {
        Some(select_variables(leaves, level_first(v), level_last(v)))
    }
}

/// `x` limited to `lo..=hi`.
pub fn clamp_index(x: i64, lo: i64, hi: i64) -> (res: i64)
    requires
        lo <= hi,
    ensures
        res == clamp_spec(x, lo, hi),
{
    if x < lo {
        lo
    } else if x > hi {
        hi
    } else {
        x
    }
}

/// The array index of a scope node, from its name.
pub fn node_index(node: &ScopeNode) -> (res: i64)
    ensures
        res == node_array_index(*node),
{
    match crate::frame_buffer::parse_index_name(&node.name) {
        Some(v) => v,
        None => i64::MAX,
    }
}

/// Appends the items of `s`, without their keys, to `out`.
fn push_unkeyed<T>(out: &mut Vec<T>, s: Vec<(i64, T)>)
    ensures
        final(out)@ == old(out)@ + unkeyed(s@),
{
    let mut s = s;
    let ghost all = s@;
    let ghost start = out@;
    let mut k: usize = 0;
    assert(all.len() == s.len());
    while s.len() > 0
        invariant
            k <= all.len() <= usize::MAX,
            s@ == all.skip(k as int),
            out@ == start + unkeyed(all.take(k as int)),
            start == old(out)@,
        decreases s@.len(),
    {
        let (_, item) = s.remove(0);
        assert(unkeyed(all.take(k + 1)) =~= unkeyed(all.take(k as int)).push(all[k as int].1));
        out.push(item);
        k = k + 1;
        assert(s@ =~= all.skip(k as int));
    }
    assert(all.take(k as int) =~= all);
}

/// The children of a scope whose index lies in `lo..=hi`, each with its index.
fn keyed_children_in(children: Vec<ScopeNode>, lo: i64, hi: i64) -> (res: Vec<(i64, ScopeNode)>)
    ensures
        res@ == keyed_nodes_in(children@, lo, hi),
{
    let mut children = children;
    let ghost all = children@;
    let mut res: Vec<(i64, ScopeNode)> = Vec::new();
    let mut k: usize = 0;
    assert(all.len() == children.len());
    while children.len() > 0
        invariant
            k <= all.len() <= usize::MAX,
            children@ == all.skip(k as int),
            res@ == keyed_nodes_in(all.take(k as int), lo, hi),
        decreases children@.len(),
    {
        let c = children.remove(0);
        assert(all.take(k + 1).drop_last() =~= all.take(k as int));
        let idx = node_index(&c);
        if lo <= idx && idx <= hi {
            res.push((idx, c));
        }
        k = k + 1;
        assert(children@ =~= all.skip(k as int));
    }
    assert(all.take(k as int) =~= all);
    res
}

/// The children of `nodes` that `lo..=hi` selects, each node's sorted by index.
fn select_children_exec(nodes: Vec<ScopeNode>, lo: i64, hi: i64) -> (res: Vec<ScopeNode>)
    ensures
        res@ == select_children(nodes@, lo, hi),
{
    let mut nodes = nodes;
    let ghost all = nodes@;
    let mut res: Vec<ScopeNode> = Vec::new();
    let mut k: usize = 0;
    assert(all.len() == nodes.len());
    while nodes.len() > 0
        invariant
            k <= all.len() <= usize::MAX,
            nodes@ == all.skip(k as int),
            res@ == select_children(all.take(k as int), lo, hi),
        decreases nodes@.len(),
    {
        let node = nodes.remove(0);
        assert(all.take(k + 1).drop_last() =~= all.take(k as int));
        let ScopeNode { name: _, children, variables: _ } = node;
        let keyed = keyed_children_in(children, lo, hi);
        let sorted = sort_keyed(keyed);
        push_unkeyed(&mut res, sorted);
        k = k + 1;
        assert(nodes@ =~= all.skip(k as int));
    }
    assert(all.take(k as int) =~= all);
    res
}

/// The variables of a scope, each with its index.
fn keyed_vars(vars: Vec<VariableRef>) -> (res: Vec<(i64, VariableRef)>)
    ensures
        res@ == keyed_variables(vars@),
{
    let mut vars = vars;
    let ghost all = vars@;
    let mut res: Vec<(i64, VariableRef)> = Vec::new();
    let mut k: usize = 0;
    assert(all.len() == vars.len());
    while vars.len() > 0
        invariant
            k <= all.len() <= usize::MAX,
            vars@ == all.skip(k as int),
            res@ == keyed_variables(all.take(k as int)),
        decreases vars@.len(),
    {
        let v = vars.remove(0);
        let idx = variable_array_index(&v);
        res.push((idx, v));
        k = k + 1;
        assert(res@ =~= keyed_variables(all.take(k as int)));
        assert(vars@ =~= all.skip(k as int));
    }
    assert(all.take(k as int) =~= all);
    res
}

/// The items of `s` whose key lies in `lo..=hi`, without their keys, appended to `out`.
fn push_in_range<T>(out: &mut Vec<T>, s: Vec<(i64, T)>, lo: i64, hi: i64)
    ensures
        final(out)@ == old(out)@ + keep_in_range(s@, lo, hi),
{
    let mut s = s;
    let ghost all = s@;
    let ghost start = out@;
    let mut k: usize = 0;
    assert(all.len() == s.len());
    while s.len() > 0
        invariant
            k <= all.len() <= usize::MAX,
            s@ == all.skip(k as int),
            out@ == start + keep_in_range(all.take(k as int), lo, hi),
            start == old(out)@,
        decreases s@.len(),
    {
        let (key, item) = s.remove(0);
        assert(all.take(k + 1).drop_last() =~= all.take(k as int));
        if lo <= key && key <= hi {
            out.push(item);
        }
        k = k + 1;
        assert(out@ =~= start + keep_in_range(all.take(k as int), lo, hi));
        assert(s@ =~= all.skip(k as int));
    }
    assert(all.take(k as int) =~= all);
}

/// The variables that the levels select below `root`, scope level by scope level, each
/// level's scopes and the variables sorted by array index. None when no scope is reached or
/// the range of variable indices is empty.
pub fn resolve_leaf_scopes_and_variables(root: ScopeNode, levels: &[ArrayLevel]) -> (res: Option<
    Vec<VariableRef>,
>)
    requires
        levels@.len() >= 1,
        forall|k: int| 0 <= k < levels@.len() ==> level_ordered(#[trigger] levels@[k]),
    ensures
        match res {
            Some(v) => resolved_variables(root, levels@) == Some(v@),
            None => resolved_variables(root, levels@) is None,
        },
{
    let n = levels.len();
    let ghost scope_levels = levels@.drop_last();
    let mut current: Vec<ScopeNode> = Vec::new();
    current.push(root);
    let mut li: usize = 0;
    assert(scope_levels.take(0) =~= Seq::<ArrayLevel>::empty());
    while li < n - 1
        invariant
            n == levels@.len() >= 1,
            li <= n - 1,
            scope_levels == levels@.drop_last(),
            forall|k: int| 0 <= k < levels@.len() ==> level_ordered(#[trigger] levels@[k]),
            current@ == descend(seq![root], scope_levels.take(li as int)),
        decreases n - 1 - li,
    {
        let level = levels[li];
        assert(level_ordered(levels@[li as int]));
        let lo = clamp_index(level.first_index, level.min_index, level.max_index);
        let hi = clamp_index(level.last_index, level.min_index, level.max_index);
        assert(scope_levels.take(li + 1).drop_last() =~= scope_levels.take(li as int));
        assert(scope_levels.take(li + 1).last() == level);
        current = select_children_exec(current, lo, hi);
        li = li + 1;
    }
    assert(scope_levels.take(li as int) =~= scope_levels);
    if current.len() == 0 {
        return None;
    }
    let var_level = levels[n - 1];
    assert(level_ordered(levels@[n - 1]));
    let lo = clamp_index(var_level.first_index, var_level.min_index, var_level.max_index);
    let hi = clamp_index(var_level.last_index, var_level.min_index, var_level.max_index);
    if lo > hi {
        return None;
    }
    let ghost leaves = current@;
    let mut out: Vec<VariableRef> = Vec::new();
    let mut k: usize = 0;
    assert(leaves.len() == current.len());
    while current.len() > 0
        invariant
            k <= leaves.len() <= usize::MAX,
            current@ == leaves.skip(k as int),
            out@ == select_variables(leaves.take(k as int), lo, hi),
        decreases current@.len(),
    {
        let node = current.remove(0);
        assert(leaves.take(k + 1).drop_last() =~= leaves.take(k as int));
        let ScopeNode { name: _, children: _, variables } = node;
        let keyed = keyed_vars(variables);
        let sorted = sort_keyed(keyed);
        push_in_range(&mut out, sorted, lo, hi);
        k = k + 1;
        assert(current@ =~= leaves.skip(k as int));
    }
    assert(leaves.take(k as int) =~= leaves);
    Some(out)
}

/// The position of the first least key of `keys`, which is not empty.
pub open spec fn first_min_pos(keys: Seq<i64>) -> int
    decreases keys.len(),
{
    if keys.len() <= 1 {
        0
    } else {
        let p = first_min_pos(keys.drop_last());
        if keys.last() < keys[p] {
            keys.len() - 1
        } else {
            p
        }
    }
}

/// The first least key of a non-empty sequence is at one of its positions.
pub proof fn lemma_first_min_pos_in_range(keys: Seq<i64>)
    requires
        keys.len() > 0,
    ensures
        0 <= first_min_pos(keys) < keys.len(),
    decreases keys.len(),
{
    if keys.len() > 1 {
        lemma_first_min_pos_in_range(keys.drop_last());
    }
}

/// The greatest of `keys`, which is not empty.
pub open spec fn seq_max(keys: Seq<i64>) -> i64
    decreases keys.len(),
{
    if keys.len() <= 1 {
        keys[0]
    } else {
        let m = seq_max(keys.drop_last());
        if keys.last() > m {
            keys.last()
        } else {
            m
        }
    }
}

/// The array indices of `nodes`.
pub open spec fn node_keys(nodes: Seq<ScopeNode>) -> Seq<i64> {
    nodes.map_values(|n: ScopeNode| node_array_index(n))
}

/// The level that spans all of `keys`, selecting them all.
pub open spec fn spanning_level(keys: Seq<i64>) -> ArrayLevel {
    let lo = keys[first_min_pos(keys)];
    let hi = seq_max(keys);
    ArrayLevel { min_index: lo, max_index: hi, first_index: lo, last_index: hi }
}

/// The scope levels below `node`, found by following the child with the least index down to
/// a scope without children; each level spans the indices of the children found there.
pub open spec fn probe_levels(node: ScopeNode) -> Seq<ArrayLevel>
    decreases node,
{
    let ch = node.children@;
    if ch.len() == 0 {
        Seq::empty()
    } else {
        let keys = node_keys(ch);
        let next = ch[first_min_pos(keys)];
        proof {
            lemma_first_min_pos_in_range(keys);
            assert(decreases_to!(node => next)) by {
                assert(decreases_to!(node => node.children));
                assert(decreases_to!(node.children => node.children@));
                assert(decreases_to!(node.children@ => next));
            }
        }
        seq![spanning_level(keys)] + probe_levels(next)
    }
}

/// The scope without children that the probe of `node` ends at.
pub open spec fn probe_leaf(node: ScopeNode) -> ScopeNode
    decreases node,
{
    let ch = node.children@;
    if ch.len() == 0 {
        node
    } else {
        let next = ch[first_min_pos(node_keys(ch))];
        proof {
            lemma_first_min_pos_in_range(node_keys(ch));
            assert(decreases_to!(node => next)) by {
                assert(decreases_to!(node => node.children));
                assert(decreases_to!(node.children => node.children@));
                assert(decreases_to!(node.children@ => next));
            }
        }
        probe_leaf(next)
    }
}

/// The indices of `vars` other than `i64::MAX`, the index of variables that have none.
pub open spec fn known_var_keys(vars: Seq<VariableRef>) -> Seq<i64>
    decreases vars.len(),
{
    if vars.len() == 0 {
        Seq::empty()
    } else {
        let p = known_var_keys(vars.drop_last());
        if var_array_index(vars.last()) != i64::MAX {
            p.push(var_array_index(vars.last()))
        } else {
            p
        }
    }
}

/// The level of variable indices: it spans the known indices of the variables of `leaf`, or
/// is `0..=0` when none is known.
pub open spec fn variable_level(leaf: ScopeNode) -> ArrayLevel {
    let keys = known_var_keys(leaf.variables@);
    if keys.len() == 0 {
        ArrayLevel { min_index: 0, max_index: 0, first_index: 0, last_index: 0 }
    } else {
        spanning_level(keys)
    }
}

/// The levels of the array rooted at `node`: its scope levels, then the level of variables.
pub open spec fn frame_levels(node: ScopeNode) -> Seq<ArrayLevel> {
    probe_levels(node).push(variable_level(probe_leaf(node)))
}

/// The children of `nodes`, one node after another.
pub open spec fn all_children(nodes: Seq<ScopeNode>) -> Seq<ScopeNode>
    decreases nodes.len(),
{
    if nodes.len() == 0 {
        Seq::empty()
    } else {
        all_children(nodes.drop_last()) + nodes.last().children@
    }
}

/// The scopes `depth` levels below `nodes`.
pub open spec fn nodes_at_depth(nodes: Seq<ScopeNode>, depth: nat) -> Seq<ScopeNode>
    decreases depth,
{
    if depth == 0 {
        nodes
    } else {
        all_children(nodes_at_depth(nodes, (depth - 1) as nat))
    }
}

/// The variables of `nodes`, one node after another.
pub open spec fn all_variables(nodes: Seq<ScopeNode>) -> Seq<VariableRef>
    decreases nodes.len(),
{
    if nodes.len() == 0 {
        Seq::empty()
    } else {
        all_variables(nodes.drop_last()) + nodes.last().variables@
    }
}

/// The variables of all scopes as deep below `node` as its scope levels go.
pub open spec fn frame_leaf_variables(node: ScopeNode) -> Seq<VariableRef> {
    all_variables(nodes_at_depth(seq![node], probe_levels(node).len()))
}

/// The position of the first of `nodes` named `name`.
pub open spec fn first_named(nodes: Seq<ScopeNode>, name: Seq<char>) -> Option<int>
    decreases nodes.len(),
{
    if nodes.len() == 0 {
        None
    } else if nodes[0].name@ == name {
        Some(0)
    } else {
        match first_named(nodes.drop_first(), name) {
            Some(i) => Some(i + 1),
            None => None,
        }
    }
}

/// The scope at `path` below `node`, following at each step the first child with the name.
pub open spec fn subtree_at(node: ScopeNode, path: Seq<Seq<char>>) -> Option<ScopeNode>
    decreases path.len(),
{
    if path.len() == 0 {
        Some(node)
    } else {
        match first_named(node.children@, path[0]) {
            Some(i) => subtree_at(node.children@[i], path.drop_first()),
            None => None,
        }
    }
}

/// The least and greatest of `keys`, and the position of the first least one.
fn min_max(keys: &Vec<i64>) -> (res: (i64, i64, usize))
    requires
        keys@.len() > 0,
    ensures
        res.2 == first_min_pos(keys@),
        res.0 == keys@[first_min_pos(keys@)],
        res.1 == seq_max(keys@),
{
    let mut pos: usize = 0;
    let mut hi = keys[0];
    let mut i: usize = 1;
    while i < keys.len()
        invariant
            1 <= i <= keys@.len(),
            pos == first_min_pos(keys@.take(i as int)),
            pos < i,
            hi == seq_max(keys@.take(i as int)),
        decreases keys@.len() - i,
    {
        assert(keys@.take(i + 1).drop_last() =~= keys@.take(i as int));
        assert(keys@.take(i as int)[pos as int] == keys@[pos as int]);
        if keys[i] < keys[pos] {
            pos = i;
        }
        if keys[i] > hi {
            hi = keys[i];
        }
        i = i + 1;
    }
    assert(keys@.take(i as int) =~= keys@);
    (keys[pos], hi, pos)
}

/// The indices of the children of `node`.
fn child_keys(node: &ScopeNode) -> (res: Vec<i64>)
    ensures
        res@ == node_keys(node.children@),
{
    let mut res: Vec<i64> = Vec::new();
    let mut i: usize = 0;
    while i < node.children.len()
        invariant
            i <= node.children@.len(),
            res@ == node_keys(node.children@.take(i as int)),
        decreases node.children@.len() - i,
    {
        res.push(node_index(&node.children[i]));
        i = i + 1;
        assert(res@ =~= node_keys(node.children@.take(i as int)));
    }
    assert(node.children@.take(i as int) =~= node.children@);
    res
}

/// The known indices of `vars`.
fn known_keys(vars: &Vec<VariableRef>) -> (res: Vec<i64>)
    ensures
        res@ == known_var_keys(vars@),
{
    let mut res: Vec<i64> = Vec::new();
    let mut i: usize = 0;
    while i < vars.len()
        invariant
            i <= vars@.len(),
            res@ == known_var_keys(vars@.take(i as int)),
        decreases vars@.len() - i,
    {
        assert(vars@.take(i + 1).drop_last() =~= vars@.take(i as int));
        let idx = variable_array_index(&vars[i]);
        if idx != i64::MAX {
            res.push(idx);
        }
        i = i + 1;
    }
    assert(vars@.take(i as int) =~= vars@);
    res
}

/// Appends the scope levels below `node` to `levels` and returns the level of variables of
/// the scope the probe ends at.
fn probe(node: &ScopeNode, levels: &mut Vec<ArrayLevel>) -> (var_level: ArrayLevel)
    ensures
        final(levels)@ == old(levels)@ + probe_levels(*node),
        var_level == variable_level(probe_leaf(*node)),
    decreases node,
{
    if node.children.len() == 0 {
        let keys = known_keys(&node.variables);
        if keys.len() == 0 {
            ArrayLevel { min_index: 0, max_index: 0, first_index: 0, last_index: 0 }
        } else {
            let (lo, hi, _) = min_max(&keys);
            ArrayLevel { min_index: lo, max_index: hi, first_index: lo, last_index: hi }
        }
    } else {
        let keys = child_keys(node);
        let (lo, hi, pos) = min_max(&keys);
        proof {
            lemma_first_min_pos_in_range(keys@);
        }
        levels.push(ArrayLevel { min_index: lo, max_index: hi, first_index: lo, last_index: hi });
        let ghost pushed = levels@;
        let next = &node.children[pos];
        proof {
            assert(decreases_to!(node => node.children));
            assert(decreases_to!(node.children => node.children@));
            assert(decreases_to!(node.children@ => node.children@[pos as int]));
        }
        let v = probe(next, levels);
        assert(levels@ =~= old(levels)@ + probe_levels(*node));
        v
    }
}

/// The children of `nodes`, one node after another.
fn all_children_exec(nodes: Vec<ScopeNode>) -> (res: Vec<ScopeNode>)
    ensures
        res@ == all_children(nodes@),
{
    let mut nodes = nodes;
    let ghost all = nodes@;
    let mut res: Vec<ScopeNode> = Vec::new();
    let mut k: usize = 0;
    assert(all.len() == nodes.len());
    while nodes.len() > 0
        invariant
            k <= all.len() <= usize::MAX,
            nodes@ == all.skip(k as int),
            res@ == all_children(all.take(k as int)),
        decreases nodes@.len(),
    {
        let node = nodes.remove(0);
        assert(all.take(k + 1).drop_last() =~= all.take(k as int));
        let ScopeNode { name: _, children, variables: _ } = node;
        let mut children = children;
        res.append(&mut children);
        k = k + 1;
        assert(nodes@ =~= all.skip(k as int));
    }
    assert(all.take(k as int) =~= all);
    res
}

/// The variables of `nodes`, one node after another.
fn all_variables_exec(nodes: Vec<ScopeNode>) -> (res: Vec<VariableRef>)
    ensures
        res@ == all_variables(nodes@),
{
    let mut nodes = nodes;
    let ghost all = nodes@;
    let mut res: Vec<VariableRef> = Vec::new();
    let mut k: usize = 0;
    assert(all.len() == nodes.len());
    while nodes.len() > 0
        invariant
            k <= all.len() <= usize::MAX,
            nodes@ == all.skip(k as int),
            res@ == all_variables(all.take(k as int)),
        decreases nodes@.len(),
    {
        let node = nodes.remove(0);
        assert(all.take(k + 1).drop_last() =~= all.take(k as int));
        let ScopeNode { name: _, children: _, variables } = node;
        let mut variables = variables;
        res.append(&mut variables);
        k = k + 1;
        assert(nodes@ =~= all.skip(k as int));
    }
    assert(all.take(k as int) =~= all);
    res
}

/// The array rooted at `node`: its levels, the last one for variables, and every variable
/// of the scopes as deep below it as the scope levels go, for loading ahead.
pub fn frame_buffer_content_of(node: ScopeNode) -> (res: (Vec<ArrayLevel>, Vec<VariableRef>))
    ensures
        res.0@ == frame_levels(node),
        res.1@ == frame_leaf_variables(node),
{
    let mut levels: Vec<ArrayLevel> = Vec::new();
    let var_level = probe(&node, &mut levels);
    assert(levels@ =~= probe_levels(node));
    let depth = levels.len();
    levels.push(var_level);
    let ghost root = node;
    let mut leaf_scopes: Vec<ScopeNode> = Vec::new();
    leaf_scopes.push(node);
    let mut d: usize = 0;
    while d < depth
        invariant
            d <= depth,
            depth == probe_levels(root).len(),
            leaf_scopes@ == nodes_at_depth(seq![root], d as nat),
        decreases depth - d,
    {
        leaf_scopes = all_children_exec(leaf_scopes);
        d = d + 1;
    }
    let vars = all_variables_exec(leaf_scopes);
    (levels, vars)
}

/// The child of `node` named `name`, taken out of it, if there is one.
fn take_child_named(node: ScopeNode, name: &String) -> (res: Option<ScopeNode>)
    ensures
        match first_named(node.children@, name@) {
            Some(i) => res == Some(node.children@[i]),
            None => res is None,
        },
{
    let ScopeNode { name: _, children, variables: _ } = node;
    let mut children = children;
    let ghost all = children@;
    let mut k: usize = 0;
    assert(all.len() == children.len());
    while children.len() > 0
        invariant
            k <= all.len() <= usize::MAX,
            all == node.children@,
            children@ == all.skip(k as int),
            first_named(all, name@) == match first_named(all.skip(k as int), name@) {
                Some(i) => Some(i + k),
                None => None,
            },
        decreases children@.len(),
    {
        let c = children.remove(0);
        assert(all.skip(k as int).drop_first() =~= all.skip(k + 1));
        assert(all.skip(k as int).len() > 0);
        assert(all.skip(k as int)[0] == c);
        if c.name == *name {
            assert(first_named(all.skip(k as int), name@) == Some(0int));
            assert(all[k as int] == c);
            return Some(c);
        }
        k = k + 1;
    }
    assert(all.skip(k as int) =~= Seq::<ScopeNode>::empty());
    None
}

/// The scope at `path` below `node`, taken out of it.
fn take_subtree(node: ScopeNode, path: &Vec<String>) -> (res: Option<ScopeNode>)
    ensures
        res == subtree_at(node, path_names(path@)),
{
    let mut cur = node;
    let mut i: usize = 0;
    let ghost names = path_names(path@);
    assert(names.skip(0) =~= names);
    while i < path.len()
        invariant
            i <= path@.len(),
            names == path_names(path@),
            subtree_at(node, names) == subtree_at(cur, names.skip(i as int)),
        decreases path@.len() - i,
    {
        assert(names.skip(i as int)[0] == path@[i as int]@);
        assert(names.skip(i as int).drop_first() =~= names.skip(i + 1));
        match take_child_named(cur, &path[i]) {
            Some(child) => {
                cur = child;
            },
            None => {
                return None;
            },
        }
        i = i + 1;
    }
    assert(names.skip(i as int).len() == 0);
    Some(cur)
}

/// The array rooted at the scope `scope_ref` of the wave form whose root scope is
/// `hierarchy`: the levels, the last one for variables, and every variable to load ahead.
/// None when the wave form has no such scope.
pub fn build_frame_buffer_content(hierarchy: ScopeNode, scope_ref: &ScopeRef) -> (res: Option<
    (Vec<ArrayLevel>, Vec<VariableRef>),
>)
    ensures
        match subtree_at(hierarchy, path_names(scope_ref.strs@)) {
            Some(node) => res matches Some(r) && r.0@ == frame_levels(node) && r.1@
                == frame_leaf_variables(node),
            None => res is None,
        },
{
    match take_subtree(hierarchy, &scope_ref.strs) {
        Some(node) => Some(frame_buffer_content_of(node)),
        None => None,
    }
}

/// Whether the keys of `s` never decrease.
pub open spec fn keys_sorted<T>(s: Seq<(i64, T)>) -> bool {
    forall|i: int, j: int| 0 <= i < j < s.len() ==> s[i].0 <= s[j].0
}

/// Inserting by key adds exactly the inserted item.
pub proof fn lemma_insert_by_key_items<T>(s: Seq<(i64, T)>, x: (i64, T))
    ensures
        insert_by_key(s, x).to_multiset() == s.to_multiset().insert(x),
    decreases s.len(),
{
    broadcast use vstd::seq_lib::group_to_multiset_ensures;

    if s.len() == 0 {
        assert(seq![x] =~= s.push(x));
    } else if s.last().0 <= x.0 {
    } else {
        lemma_insert_by_key_items(s.drop_last(), x);
        assert(s.drop_last().push(s.last()) =~= s);
        assert(insert_by_key(s, x).to_multiset() =~= s.to_multiset().insert(x));
    }
}

/// Inserting by key into items sorted by key keeps them sorted.
pub proof fn lemma_insert_by_key_sorted<T>(s: Seq<(i64, T)>, x: (i64, T))
    requires
        keys_sorted(s),
    ensures
        keys_sorted(insert_by_key(s, x)),
    decreases s.len(),
{
    broadcast use vstd::seq_lib::group_to_multiset_ensures;

    if s.len() > 0 && s.last().0 > x.0 {
        let t = s.drop_last();
        let l = s.last();
        lemma_insert_by_key_sorted(t, x);
        lemma_insert_by_key_items(t, x);
        let r = insert_by_key(t, x);
        assert forall|i: int| 0 <= i < r.len() implies r[i].0 <= l.0 by {
            assert(r.to_multiset().count(r[i]) > 0);
            if r[i] != x {
                assert(t.to_multiset().count(r[i]) > 0);
                assert(t.contains(r[i]));
                let k = choose|k: int| 0 <= k < t.len() && t[k] == r[i];
                assert(s[k] == t[k]);
            }
        }
        assert forall|i: int, j: int| 0 <= i < j < r.push(l).len() implies r.push(l)[i].0 <= r.push(
            l,
        )[j].0 by {
            if j < r.len() {
                assert(r.push(l)[i] == r[i]);
                assert(r.push(l)[j] == r[j]);
            } else {
                assert(r.push(l)[i] == r[i]);
            }
        }
    }
}

/// A stable sort by key gives its items in order of their keys.
pub proof fn law_sort_by_key_sorted<T>(s: Seq<(i64, T)>)
    ensures
        keys_sorted(sort_by_key(s)),
    decreases s.len(),
{
    if s.len() > 0 {
        law_sort_by_key_sorted(s.drop_last());
        lemma_insert_by_key_sorted(sort_by_key(s.drop_last()), s.last());
    }
}

/// A stable sort by key gives back exactly its items.
pub proof fn law_sort_by_key_same_items<T>(s: Seq<(i64, T)>)
    ensures
        sort_by_key(s).to_multiset() == s.to_multiset(),
    decreases s.len(),
{
    broadcast use vstd::seq_lib::group_to_multiset_ensures;

    if s.len() > 0 {
        law_sort_by_key_same_items(s.drop_last());
        lemma_insert_by_key_items(sort_by_key(s.drop_last()), s.last());
        assert(s.drop_last().push(s.last()) =~= s);
    }
}

/// The items of `s` whose key is `k`, in order.
pub open spec fn with_key<T>(s: Seq<(i64, T)>, k: i64) -> Seq<(i64, T)>
    decreases s.len(),
{
    if s.len() == 0 {
        s
    } else if s.last().0 == k {
        with_key(s.drop_last(), k).push(s.last())
    } else {
        with_key(s.drop_last(), k)
    }
}

proof fn lemma_insert_by_key_with_key<T>(s: Seq<(i64, T)>, x: (i64, T), k: i64)
    ensures
        with_key(insert_by_key(s, x), k) == if x.0 == k {
            with_key(s, k).push(x)
        } else {
            with_key(s, k)
        },
    decreases s.len(),
{
    if s.len() == 0 {
        assert(seq![x].drop_last() =~= s);
        assert(seq![x].last() == x);
    } else if s.last().0 <= x.0 {
        assert(s.push(x).drop_last() =~= s);
    } else {
        let t = s.drop_last();
        let l = s.last();
        lemma_insert_by_key_with_key(t, x, k);
        let r = insert_by_key(t, x);
        assert(r.push(l).drop_last() =~= r);
        assert(with_key(s, k) == if l.0 == k {
            with_key(t, k).push(l)
        } else {
            with_key(t, k)
        });
    }
}

/// A stable sort by key keeps the order of the items that share a key.
pub proof fn law_sort_by_key_stable<T>(s: Seq<(i64, T)>, k: i64)
    ensures
        with_key(sort_by_key(s), k) == with_key(s, k),
    decreases s.len(),
{
    if s.len() > 0 {
        law_sort_by_key_stable(s.drop_last(), k);
        lemma_insert_by_key_with_key(sort_by_key(s.drop_last()), s.last(), k);
    }
}

/// Whether each variable of `s` is paired with its own array index.
pub open spec fn keyed_by_index(s: Seq<(i64, VariableRef)>) -> bool {
    forall|i: int| 0 <= i < s.len() ==> (#[trigger] s[i]).0 == var_array_index(s[i].1)
}

proof fn lemma_sorted_keyed_by_index(vars: Seq<VariableRef>)
    ensures
        keyed_by_index(sort_by_key(keyed_variables(vars))),
{
    broadcast use vstd::seq_lib::group_to_multiset_ensures;

    let k = keyed_variables(vars);
    let r = sort_by_key(k);
    law_sort_by_key_same_items(k);
    assert forall|i: int| 0 <= i < r.len() implies (#[trigger] r[i]).0 == var_array_index(r[i].1) by {
        assert(r.to_multiset().count(r[i]) > 0);
        assert(k.contains(r[i]));
        let j = choose|j: int| 0 <= j < k.len() && k[j] == r[i];
        assert(k[j] == (var_array_index(vars[j]), vars[j]));
    }
}

proof fn lemma_keep_in_range_bounds(s: Seq<(i64, VariableRef)>, lo: i64, hi: i64)
    requires
        keyed_by_index(s),
    ensures
        forall|i: int| 0 <= i < keep_in_range(s, lo, hi).len() ==> lo <= var_array_index(
            #[trigger] keep_in_range(s, lo, hi)[i],
        ) <= hi,
    decreases s.len(),
{
    if s.len() > 0 {
        let t = s.drop_last();
        assert forall|i: int| 0 <= i < t.len() implies (#[trigger] t[i]).0 == var_array_index(t[i].1) by {
            assert(t[i] == s[i]);
        }
        lemma_keep_in_range_bounds(t, lo, hi);
        assert(s.last() == s[s.len() - 1]);
        let p = keep_in_range(t, lo, hi);
        let r = keep_in_range(s, lo, hi);
        assert forall|i: int| 0 <= i < r.len() implies lo <= var_array_index(#[trigger] r[i]) <= hi by {
            if i < p.len() {
                assert(r[i] == p[i]);
            } else {
                assert(r[i] == s.last().1);
            }
        }
    }
}

/// Every variable that the last level selects has an index within that level's range.
pub proof fn law_selected_variables_in_range(nodes: Seq<ScopeNode>, lo: i64, hi: i64)
    ensures
        forall|i: int| 0 <= i < select_variables(nodes, lo, hi).len() ==> lo <= var_array_index(
            #[trigger] select_variables(nodes, lo, hi)[i],
        ) <= hi,
    decreases nodes.len(),
{
    if nodes.len() > 0 {
        law_selected_variables_in_range(nodes.drop_last(), lo, hi);
        let vars = nodes.last().variables@;
        lemma_sorted_keyed_by_index(vars);
        lemma_keep_in_range_bounds(sort_by_key(keyed_variables(vars)), lo, hi);
        let a = select_variables(nodes.drop_last(), lo, hi);
        let b = keep_in_range(sort_by_key(keyed_variables(vars)), lo, hi);
        assert forall|i: int| 0 <= i < (a + b).len() implies lo <= var_array_index(
            #[trigger] (a + b)[i],
        ) <= hi by {
            if i < a.len() {
                assert((a + b)[i] == a[i]);
            } else {
                assert((a + b)[i] == b[i - a.len()]);
            }
        }
    }
}

/// A scope without children has no scope levels: its levels are the level of its own
/// variables alone, and all of its variables are loaded ahead.
pub proof fn law_leaf_scope_levels(node: ScopeNode)
    requires
        node.children@.len() == 0,
    ensures
        frame_levels(node) == seq![variable_level(node)],
        frame_leaf_variables(node) == node.variables@,
{
    assert(frame_levels(node) =~= seq![variable_level(node)]);
    assert(seq![node].drop_last() =~= Seq::<ScopeNode>::empty());
    assert(all_variables(Seq::<ScopeNode>::empty()) =~= Seq::<VariableRef>::empty());
    assert(seq![node].last() == node);
    assert(all_variables(seq![node]) =~= node.variables@);
    assert(nodes_at_depth(seq![node], 0) == seq![node]);
}

/// The bit text of a value fitted to `bits`: a text shorter than `bits` bytes is padded on
/// the left with `'0'` to `bits` characters; a longer one keeps its last `bits` bytes.
pub open spec fn fitted_bit_text(text: Seq<char>, bits: nat) -> Seq<char> {
    let b = encode_utf8(text);
    if b.len() < bits {
        Seq::new((bits - text.len()) as nat, |i: int| '0') + text
    } else {
        decode_utf8(b.skip(b.len() - bits))
    }
}

/// Keeping the last `bits` bytes of `text` would cut a character in two.
pub open spec fn fit_cuts_char(text: Seq<char>, bits: nat) -> bool {
    let b = encode_utf8(text);
    b.len() >= bits && !is_char_boundary(b, b.len() - bits)
}

/// The bit texts of the variables, fitted to their widths and joined, and their total width;
/// None when a variable has no width or no value.
pub open spec fn joined_bit_texts(entries: Seq<(Option<u32>, Option<VariableValue>)>) -> Option<
    (Seq<char>, int),
>
    decreases entries.len(),
{
    if entries.len() == 0 {
        Some((Seq::empty(), 0))
    } else {
        match entries.last() {
            (Some(b), Some(v)) => match joined_bit_texts(entries.drop_last()) {
                Some((t, n)) => Some((t + fitted_bit_text(value_bit_chars(v), b as nat), n + b)),
                None => None,
            },
            _ => None,
        }
    }
}

/// The value cached for an array of variables: their joined bit texts and total width; None
/// when one has no width or value, or when the total width is zero.
pub open spec fn cached_array_value(entries: Seq<(Option<u32>, Option<VariableValue>)>) -> Option<
    (Seq<char>, int),
> {
    match joined_bit_texts(entries) {
        Some((t, n)) => if n == 0 {
            None
        } else {
            Some((t, n))
        },
        None => None,
    }
}

/// Joining the bit texts from a running width of `acc` overflows the `u32` total, or cuts a
/// character, before a variable without width or value ends it.
pub open spec fn joining_fails(entries: Seq<(Option<u32>, Option<VariableValue>)>, acc: int) -> bool
    decreases entries.len(),
{
    if entries.len() == 0 {
        false
    } else {
        match entries[0] {
            (None, _) => false,
            (Some(b), v) => acc + b > u32::MAX || match v {
                None => false,
                Some(val) => fit_cuts_char(value_bit_chars(val), b as nat) || joining_fails(
                    entries.drop_first(),
                    acc + b,
                ),
            },
        }
    }
}

/// The bit text `text` fitted to `bits`.
pub fn fit_bit_text(text: &str, bits: usize) -> (res: String)
    requires
        !fit_cuts_char(text@, bits as nat),
    ensures
        res@ == fitted_bit_text(text@, bits as nat),
{
    let bytes = text.as_bytes();
    let n = bytes.len();
    if n < bits {
        let chars = chars_of(text);
        proof {
            lemma_chars_at_most_bytes(text@);
        }
        let mut out: Vec<char> = Vec::new();
        let pad = bits - chars.len();
        let mut i: usize = 0;
        while i < pad
            invariant
                i <= pad,
                out@ == Seq::new(i as nat, |k: int| '0'),
            decreases pad - i,
        {
            out.push('0');
            i = i + 1;
            assert(out@ =~= Seq::new(i as nat, |k: int| '0'));
        }
        crate::text::push_all(&mut out, chars.as_slice());
        string_of(&out)
    } else {
        let mut suffix: Vec<u8> = Vec::new();
        let mut i: usize = n - bits;
        while i < n
            invariant
                bits <= n,
                n - bits <= i <= n,
                n == bytes@.len(),
                suffix@ == bytes@.subrange(n - bits, i as int),
            decreases n - i,
        {
            suffix.push(bytes[i]);
            i = i + 1;
            assert(suffix@ =~= bytes@.subrange(n - bits, i as int));
        }
        proof {
            vstd::utf8::encode_utf8_valid_utf8(text@);
            vstd::utf8::valid_utf8_split(bytes@, n - bits);
            assert(bytes@.skip(n - bits) =~= bytes@.subrange(n - bits, n as int));
        }
        match utf8_text(suffix) {
            Some(s) => s,
            None => String::new(),
        }
    }
}

/// A text has no more characters than its UTF-8 encoding has bytes.
proof fn lemma_chars_at_most_bytes(s: Seq<char>)
    ensures
        s.len() <= encode_utf8(s).len(),
    decreases s.len(),
{
    if s.len() > 0 {
        lemma_chars_at_most_bytes(s.drop_first());
        vstd::utf8::encode_utf8_first_scalar(s);
    }
}

/// The value cached for one variable: its bit text fitted to its width, and the width.
pub fn build_variable_frame_buffer_value(num_bits: u32, value: &VariableValue) -> (res: (
    String,
    u32,
))
    requires
        value_well_formed(*value),
        !fit_cuts_char(value_bit_chars(*value), num_bits as nat),
    ensures
        res.0@ == fitted_bit_text(value_bit_chars(*value), num_bits as nat),
        res.1 == num_bits,
{
    let text = value_text(value);
    (fit_bit_text(text.as_str(), num_bits as usize), num_bits)
}

/// The value cached for an array of variables, given the width and the value at the cursor
/// of each: their bit texts fitted and joined, and the total width.
pub fn build_cached_variable_value(entries: &[(Option<u32>, Option<VariableValue>)]) -> (res: Option<
    (String, u32),
>)
    requires
        !joining_fails(entries@, 0),
        forall|k: int|
            0 <= k < entries@.len() ==> ((#[trigger] entries@[k]).1 matches Some(v)
                ==> value_well_formed(v)),
    ensures
        match res {
            Some((t, n)) => cached_array_value(entries@) == Some((t@, n as int)),
            None => cached_array_value(entries@) is None,
        },
{
    let mut out: Vec<char> = Vec::new();
    let mut total: u32 = 0;
    let mut i: usize = 0;
    assert(entries@.take(0) =~= Seq::<(Option<u32>, Option<VariableValue>)>::empty());
    assert(entries@.skip(0) =~= entries@);
    while i < entries.len()
        invariant
            i <= entries@.len(),
            joined_bit_texts(entries@.take(i as int)) == Some((out@, total as int)),
            !joining_fails(entries@.skip(i as int), total as int),
            forall|k: int|
                0 <= k < entries@.len() ==> ((#[trigger] entries@[k]).1 matches Some(v)
                    ==> value_well_formed(v)),
        decreases entries@.len() - i,
    {
        let ghost rest = entries@.skip(i as int);
        assert(rest[0] == entries@[i as int]);
        assert(rest.drop_first() =~= entries@.skip(i + 1));
        assert(entries@.take(i + 1).drop_last() =~= entries@.take(i as int));
        assert(entries@.take(i + 1).last() == entries@[i as int]);
        let (bits, value) = &entries[i];
        match bits {
            None => {
                proof {
                    lemma_joined_none_extends(entries@, i as int + 1);
                }
                return None;
            },
            Some(b) => {
                let b = *b;
                total = total + b;
                match value {
                    None => {
                        proof {
                            lemma_joined_none_extends(entries@, i as int + 1);
                        }
                        return None;
                    },
                    Some(v) => {
                        let text = value_text(v);
                        let fitted = fit_bit_text(text.as_str(), b as usize);
                        let chars = chars_of(fitted.as_str());
                        crate::text::push_all(&mut out, chars.as_slice());
                    },
                }
            },
        }
        i = i + 1;
    }
    assert(entries@.take(i as int) =~= entries@);
    if total == 0 {
        None
    } else {
        Some((string_of(&out), total))
    }
}

/// Once a prefix has a variable without width or value, so has every longer one.
proof fn lemma_joined_none_extends(entries: Seq<(Option<u32>, Option<VariableValue>)>, k: int)
    requires
        0 <= k <= entries.len(),
        joined_bit_texts(entries.take(k)) is None,
    ensures
        joined_bit_texts(entries) is None,
    decreases entries.len() - k,
{
    if k < entries.len() {
        assert(entries.take(k + 1).drop_last() =~= entries.take(k));
        lemma_joined_none_extends(entries, k + 1);
    } else {
        assert(entries.take(k) =~= entries);
    }
}

} // verus!
