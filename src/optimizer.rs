use vstd::prelude::*;
use crate::ir::{Graph, IrError, Node, OpKind, vec_contains};

verus! {

/// Why optimisation failed.
#[derive(Clone, Copy, Debug, PartialEq, Eq, Structural)]
pub enum OptimizerError {
    /// A pass produced a graph that is not valid.
    InvalidGraph(IrError),
}

/// Node `i` writes a tensor that node `j` reads.
pub open spec fn feeds(g: &Graph, i: int, j: int) -> bool {
    exists|c: int|
        0 <= c < g.nodes@[i].outputs@.len() && g.nodes@[j].inputs@.contains(
            #[trigger] g.nodes@[i].outputs@[c],
        )
}

/// Node `i` writes a declared output of the graph.
pub open spec fn writes_output(g: &Graph, i: int) -> bool {
    exists|c: int|
        0 <= c < g.nodes@[i].outputs@.len() && g.outputs@.contains(
            #[trigger] g.nodes@[i].outputs@[c],
        )
}

/// One round of the backward sweep: a node is marked when it writes a declared output or feeds
/// a node marked in `prev`.
pub open spec fn sweep(g: &Graph, prev: Seq<bool>) -> Seq<bool> {
    Seq::new(
        g.nodes@.len(),
        |i: int|
            writes_output(g, i) || exists|j: int|
                0 <= j < g.num_nodes() && #[trigger] prev[j] && feeds(g, i, j),
    )
}

/// The nodes that reach a declared output through a chain of fewer than `k` consumers.
pub open spec fn layer(g: &Graph, k: nat) -> Seq<bool>
    decreases k,
{
    if k == 0 {
        Seq::new(g.nodes@.len(), |i: int| false)
    } else {
        sweep(g, layer(g, (k - 1) as nat))
    }
}

pub open spec fn needed_within(g: &Graph, i: int, k: nat) -> bool {
    0 <= i < g.num_nodes() && layer(g, k)[i]
}

/// Node `i` contributes, directly or through other nodes, to a declared output.
pub open spec fn needed(g: &Graph, i: int) -> bool {
    exists|k: nat| needed_within(g, i, k)
}

/// The needed nodes among the first `m`, in declaration order.
pub open spec fn needed_prefix(g: &Graph, m: int) -> Seq<int>
    decreases m,
{
    if m <= 0 {
        Seq::empty()
    } else if needed(g, m - 1) {
        needed_prefix(g, m - 1).push(m - 1)
    } else {
        needed_prefix(g, m - 1)
    }
}

/// The needed nodes of `g`, in declaration order.
pub open spec fn needed_nodes(g: &Graph) -> Seq<Node> {
    needed_prefix(g, g.num_nodes()).map_values(|i: int| g.nodes@[i])
}

pub open spec fn count_true(s: Seq<bool>) -> nat
    decreases s.len(),
{
    if s.len() == 0 {
        0
    } else {
        count_true(s.drop_last()) + if s.last() { 1nat } else { 0nat }
    }
}

proof fn lemma_count_le_len(s: Seq<bool>)
    ensures
        count_true(s) <= s.len(),
    decreases s.len(),
{
    if s.len() > 0 {
        lemma_count_le_len(s.drop_last());
    }
}

proof fn lemma_count_grows(a: Seq<bool>, b: Seq<bool>)
    requires
        a.len() == b.len(),
        forall|i: int| 0 <= i < a.len() && a[i] ==> b[i],
    ensures
        count_true(a) <= count_true(b),
        a != b ==> count_true(a) < count_true(b),
    decreases a.len(),
{
    if a.len() > 0 {
        lemma_count_grows(a.drop_last(), b.drop_last());
        if a != b && a.drop_last() == b.drop_last() {
            assert(a.last() != b.last()) by {
                if a.last() == b.last() {
                    assert forall|i: int| 0 <= i < a.len() implies a[i] == b[i] by {
                        if i < a.len() - 1 {
                            assert(a[i] == a.drop_last()[i]);
                            assert(b[i] == b.drop_last()[i]);
                        }
                    }
                    assert(a =~= b);
                }
            }
        }
    } else {
        assert(a =~= b);
    }
}

proof fn lemma_layer_len(g: &Graph, k: nat)
    ensures
        layer(g, k).len() == g.num_nodes(),
{
}

proof fn lemma_needed_monotone(g: &Graph, i: int, k: nat)
    requires
        needed_within(g, i, k),
    ensures
        needed_within(g, i, k + 1),
    decreases k,
{
    let k1 = (k - 1) as nat;
    assert(layer(g, k) == sweep(g, layer(g, k1)));
    assert(layer(g, k + 1) == sweep(g, layer(g, k)));
    if !writes_output(g, i) {
        let j = choose|j: int| 0 <= j < g.num_nodes() && #[trigger] layer(g, k1)[j] && feeds(g, i, j);
        lemma_needed_monotone(g, j, k1);
        assert(layer(g, k)[j]);
    }
}

proof fn lemma_needed_upward(g: &Graph, i: int, m: nat, k: nat)
    requires
        m <= k,
        needed_within(g, i, m),
    ensures
        needed_within(g, i, k),
    decreases k - m,
{
    if m < k {
        lemma_needed_monotone(g, i, m);
        lemma_needed_upward(g, i, m + 1, k);
    }
}

/// Once a round adds no node, no later round does either.
proof fn lemma_needed_stable(g: &Graph, k: nat, m: nat)
    requires
        layer(g, k + 1) == layer(g, k),
        m >= k,
    ensures
        layer(g, m) == layer(g, k),
    decreases m - k,
{
    if m > k {
        let m1 = (m - 1) as nat;
        lemma_needed_stable(g, k, m1);
        assert(layer(g, m) == sweep(g, layer(g, m1)));
    }
}

proof fn lemma_needed_at_fixpoint(g: &Graph, k: nat, i: int)
    requires
        layer(g, k + 1) == layer(g, k),
    ensures
        needed(g, i) == needed_within(g, i, k),
{
    if needed(g, i) {
        let m = choose|m: nat| needed_within(g, i, m);
        if m >= k {
            lemma_needed_stable(g, k, m);
        } else {
            lemma_needed_upward(g, i, m, k);
        }
    }
}

/// Whether node `i` writes a declared output.
fn writes_output_exec(g: &Graph, i: usize) -> (r: bool)
    requires
        i < g.num_nodes(),
    ensures
        r == writes_output(g, i as int),
{
    let outs = &g.nodes[i].outputs;
    let mut c: usize = 0;
    while c < outs.len()
        invariant
            outs == g.nodes@[i as int].outputs,
            0 <= c <= outs@.len(),
            forall|d: int| 0 <= d < c ==> !g.outputs@.contains(#[trigger] outs@[d]),
        decreases outs@.len() - c,
    {
        if vec_contains(&g.outputs, outs[c]) {
            return true;
        }
        c = c + 1;
    }
    false
}

/// Whether node `i` writes a tensor that node `j` reads.
fn feeds_exec(g: &Graph, i: usize, j: usize) -> (r: bool)
    requires
        i < g.num_nodes(),
        j < g.num_nodes(),
    ensures
        r == feeds(g, i as int, j as int),
{
    let outs = &g.nodes[i].outputs;
    let mut c: usize = 0;
    while c < outs.len()
        invariant
            outs == g.nodes@[i as int].outputs,
            j < g.num_nodes(),
            0 <= c <= outs@.len(),
            forall|d: int| 0 <= d < c ==> !g.nodes@[j as int].inputs@.contains(#[trigger] outs@[d]),
        decreases outs@.len() - c,
    {
        if vec_contains(&g.nodes[j].inputs, outs[c]) {
            return true;
        }
        c = c + 1;
    }
    false
}

/// For each node, whether it contributes to a declared output.
pub fn needed_flags(g: &Graph) -> (r: Vec<bool>)
    ensures
        r@.len() == g.num_nodes(),
        forall|i: int| 0 <= i < g.num_nodes() ==> r@[i] == needed(g, i),
{
    let n = g.nodes.len();
    let mut cur: Vec<bool> = Vec::new();
    let mut i: usize = 0;
    while i < n
        invariant
            n == g.num_nodes(),
            0 <= i <= n,
            cur@.len() == i,
            forall|j: int| 0 <= j < i ==> !cur@[j],
        decreases n - i,
    {
        cur.push(false);
        i = i + 1;
    }
    let ghost mut k: nat = 0;
    loop
        invariant
            n == g.num_nodes(),
            cur@.len() == n,
            forall|j: int| 0 <= j < n ==> cur@[j] == needed_within(g, j, k),
        decreases n - count_true(cur@),
    {
        let mut next: Vec<bool> = Vec::new();
        let mut i: usize = 0;
        while i < n
            invariant
                n == g.num_nodes(),
                cur@.len() == n,
                forall|j: int| 0 <= j < n ==> cur@[j] == needed_within(g, j, k),
                0 <= i <= n,
                next@.len() == i,
                forall|j: int| 0 <= j < i ==> next@[j] == needed_within(g, j, k + 1),
            decreases n - i,
        {
            proof {
                assert(layer(g, k + 1) == sweep(g, layer(g, k)));
            }
            let mut v = writes_output_exec(g, i);
            let mut j: usize = 0;
            while j < n && !v
                invariant
                    n == g.num_nodes(),
                    cur@.len() == n,
                    forall|j: int| 0 <= j < n ==> cur@[j] == needed_within(g, j, k),
                    i < n,
                    0 <= j <= n,
                    layer(g, k + 1) == sweep(g, layer(g, k)),
                    v ==> needed_within(g, i as int, k + 1),
                    !v ==> !writes_output(g, i as int) && forall|p: int|
                        0 <= p < j ==> !(#[trigger] needed_within(g, p, k) && feeds(g, i as int, p)),
                decreases n - j,
            {
                if cur[j] && feeds_exec(g, i, j) {
                    assert(layer(g, k)[j as int]);
                    v = true;
                }
                j = j + 1;
            }
            proof {
                if !v && layer(g, k + 1)[i as int] {
                    let p = choose|p: int| 0 <= p < g.num_nodes() && #[trigger] layer(g, k)[p] && feeds(g, i as int, p);
                    assert(needed_within(g, p, k));
                }
            }
            next.push(v);
            i = i + 1;
        }
        proof {
            lemma_count_le_len(next@);
            assert forall|j: int| 0 <= j < n && cur@[j] implies next@[j] by {
                lemma_needed_monotone(g, j, k);
            }
            lemma_count_grows(cur@, next@);
        }
        let mut same = true;
        let mut p: usize = 0;
        while p < n
            invariant
                cur@.len() == n,
                next@.len() == n,
                0 <= p <= n,
                same == forall|q: int| 0 <= q < p ==> cur@[q] == next@[q],
            decreases n - p,
        {
            if cur[p] != next[p] {
                same = false;
            }
            p = p + 1;
        }
        if same {
            proof {
                assert(layer(g, k + 1) =~= layer(g, k)) by {
                    assert forall|q: int| 0 <= q < n implies layer(g, k + 1)[q] == layer(g, k)[q] by {
                        assert(cur@[q] == next@[q]);
                    }
                    lemma_layer_len(g, k);
                    lemma_layer_len(g, k + 1);
                }
                assert forall|j: int| 0 <= j < n implies cur@[j] == needed(g, j) by {
                    lemma_needed_at_fixpoint(g, k, j);
                }
            }
            return cur;
        }
        proof {
            assert(cur@ != next@) by {
                if cur@ == next@ {
                    assert forall|q: int| 0 <= q < n implies cur@[q] == next@[q] by {}
                }
            }
            k = k + 1;
        }
        cur = next;
    }
}

/// Removes every node that does not contribute to a declared output; the rest keep their
/// declaration order, and tensors, inputs, outputs and constants are unchanged.
pub fn eliminate_dead_nodes(g: Graph) -> (r: Graph)
    ensures
        r.nodes@ == needed_nodes(&g),
        r.tensors == g.tensors,
        r.inputs == g.inputs,
        r.outputs == g.outputs,
        r.constants == g.constants,
{
    let flags = needed_flags(&g);
    let ghost g0 = g;
    let Graph { tensors, nodes, inputs, outputs, constants } = g;
    let mut rest = nodes;
    let mut kept: Vec<Node> = Vec::new();
    let n = flags.len();
    let mut i: usize = 0;
    while i < n
        invariant
            n == g0.num_nodes(),
            flags@.len() == n,
            forall|j: int| 0 <= j < n ==> flags@[j] == needed(&g0, j),
            0 <= i <= n,
            rest@ == g0.nodes@.skip(i as int),
            kept@ == needed_prefix(&g0, i as int).map_values(|j: int| g0.nodes@[j]),
        decreases n - i,
    {
        let node = rest.remove(0);
        proof {
            assert(node == g0.nodes@[i as int]);
            assert(rest@ =~= g0.nodes@.skip(i + 1));
        }
        if flags[i] {
            kept.push(node);
        }
        proof {
            assert(kept@ =~= needed_prefix(&g0, i + 1).map_values(|j: int| g0.nodes@[j]));
        }
        i = i + 1;
    }
    Graph { tensors, nodes: kept, inputs, outputs, constants }
}

/// The elements of `needed_prefix(g, m)` are the needed nodes below `m`, each once, ascending.
pub proof fn lemma_needed_prefix(g: &Graph, m: int)
    ensures
        forall|q: int| 0 <= q < needed_prefix(g, m).len() ==> {
            let i = #[trigger] needed_prefix(g, m)[q];
            0 <= i < m && needed(g, i)
        },
    decreases m,
{
    if m > 0 {
        lemma_needed_prefix(g, m - 1);
        let prev = needed_prefix(g, m - 1);
        assert forall|q: int| 0 <= q < needed_prefix(g, m).len() implies {
            let i = #[trigger] needed_prefix(g, m)[q];
            0 <= i < m && needed(g, i)
        } by {
            if q < prev.len() {
                assert(needed_prefix(g, m)[q] == prev[q]);
            }
        }
    }
}

/// The operator that computes `op` followed by a rectifier in one dispatch, where one exists.
pub open spec fn fused_op(op: OpKind) -> Option<OpKind> {
    match op {
        OpKind::Conv(w) => Some(OpKind::ConvRelu(w)),
        OpKind::Gemm { trans_a, trans_b } => Some(OpKind::GemmRelu { trans_a, trans_b }),
        OpKind::Add => Some(OpKind::AddRelu),
        OpKind::MatMul => Some(OpKind::MatMulRelu),
        _ => None,
    }
}

fn fused_op_exec(op: OpKind) -> (r: Option<OpKind>)
    ensures
        r == fused_op(op),
{
    match op {
        OpKind::Conv(w) => Some(OpKind::ConvRelu(w)),
        OpKind::Gemm { trans_a, trans_b } => Some(OpKind::GemmRelu { trans_a, trans_b }),
        OpKind::Add => Some(OpKind::AddRelu),
        OpKind::MatMul => Some(OpKind::MatMulRelu),
        _ => None,
    }
}

/// Node `k` of `nodes` reads tensor `t`.
pub open spec fn reads_in(nodes: Seq<Node>, k: int, t: usize) -> bool {
    0 <= k < nodes.len() && nodes[k].inputs@.contains(t)
}

/// Node `j` is a rectifier whose only input is the only output of node `i`; nothing else reads
/// that tensor and it is not among the declared outputs `outs`; and the operator of `i` has a
/// fused form.
pub open spec fn fusible_in(nodes: Seq<Node>, outs: Seq<usize>, i: int, j: int) -> bool {
    &&& 0 <= i < nodes.len()
    &&& 0 <= j < nodes.len()
    &&& i != j
    &&& fused_op(nodes[i].op) is Some
    &&& nodes[i].outputs@.len() == 1
    &&& !outs.contains(nodes[i].outputs@[0])
    &&& nodes[j].op == OpKind::Relu
    &&& nodes[j].inputs@ == seq![nodes[i].outputs@[0]]
    &&& forall|k: int| k != j ==> !#[trigger] reads_in(nodes, k, nodes[i].outputs@[0])
}

pub open spec fn fusible(g: &Graph, i: int, j: int) -> bool {
    fusible_in(g.nodes@, g.outputs@, i, j)
}

/// The node list after merging rectifier `j` into node `i`: the merged node takes the place
/// of `i`, with the inputs of `i` and the outputs of `j`, and `j` goes.
pub open spec fn fused_in(nodes: Seq<Node>, i: int, j: int) -> Seq<Node> {
    nodes.update(
        i,
        Node { op: fused_op(nodes[i].op)->Some_0, inputs: nodes[i].inputs, outputs: nodes[j].outputs },
    ).remove(j)
}

pub open spec fn fused_nodes(g: &Graph, i: int, j: int) -> Seq<Node> {
    fused_in(g.nodes@, i, j)
}

/// `(i, j)` is fusible and no node before `i` has a fusible rectifier.
pub open spec fn first_fusible(nodes: Seq<Node>, outs: Seq<usize>, i: int, j: int) -> bool {
    fusible_in(nodes, outs, i, j) && forall|a: int, b: int| a < i ==> !#[trigger] fusible_in(nodes, outs, a, b)
}

/// The fusion to apply next: the first node in declaration order with a fusible rectifier.
pub open spec fn next_fusion(nodes: Seq<Node>, outs: Seq<usize>) -> Option<(int, int)> {
    if exists|i: int, j: int| #[trigger] first_fusible(nodes, outs, i, j) {
        Some(choose|i: int, j: int| #[trigger] first_fusible(nodes, outs, i, j))
    } else {
        None
    }
}

/// The node list after applying the next fusion until none is left, at most `fuel` times.
pub open spec fn fuse_closure(nodes: Seq<Node>, outs: Seq<usize>, fuel: nat) -> Seq<Node>
    decreases fuel,
{
    if fuel == 0 {
        nodes
    } else {
        match next_fusion(nodes, outs) {
            Some(p) => fuse_closure(fused_in(nodes, p.0, p.1), outs, (fuel - 1) as nat),
            None => nodes,
        }
    }
}

pub open spec fn fully_fused(g: &Graph) -> bool {
    forall|i: int, j: int| !#[trigger] fusible(g, i, j)
}

/// A node has at most one fusible rectifier, and only one node comes first.
proof fn lemma_first_fusible_unique(nodes: Seq<Node>, outs: Seq<usize>, i: int, j: int, a: int, b: int)
    requires
        first_fusible(nodes, outs, i, j),
        first_fusible(nodes, outs, a, b),
    ensures
        i == a && j == b,
{
    assert(!(a < i));
    assert(!(i < a));
    let t = nodes[i].outputs@[0];
    assert(nodes[b].inputs@[0] == t);
    assert(reads_in(nodes, b, t));
}

/// Merges the first node in declaration order that has a fusible rectifier with it; reports
/// whether it did.
pub fn fuse_once(g: Graph) -> (r: (Graph, bool))
    ensures
        r.0.tensors == g.tensors,
        r.0.inputs == g.inputs,
        r.0.outputs == g.outputs,
        r.0.constants == g.constants,
        !r.1 ==> fully_fused(&g) && next_fusion(g.nodes@, g.outputs@) is None && r.0.nodes@ == g.nodes@,
        r.1 ==> (next_fusion(g.nodes@, g.outputs@) matches Some(p) && r.0.nodes@ == fused_nodes(&g, p.0, p.1)),
{
    let n = g.nodes.len();
    let mut i: usize = 0;
    while i < n
        invariant
            n == g.num_nodes(),
            0 <= i <= n,
            forall|a: int, b: int| a < i ==> !#[trigger] fusible(&g, a, b),
        decreases n - i,
    {
        let nd = &g.nodes[i];
        let fo = fused_op_exec(nd.op);
        if fo.is_some() && nd.outputs.len() == 1 && !vec_contains(&g.outputs, nd.outputs[0]) {
            let t = nd.outputs[0];
            let mut first: Option<usize> = None;
            let mut second: Option<usize> = None;
            let mut k: usize = 0;
            while k < n
                invariant
                    n == g.num_nodes(),
                    0 <= k <= n,
                    first is None ==> forall|c: int| 0 <= c < k ==> !#[trigger] reads_in(g.nodes@, c, t),
                    first matches Some(a) ==> a < k && reads_in(g.nodes@, a as int, t),
                    first is Some && second is None ==> forall|c: int|
                        0 <= c < k && c != first->Some_0 ==> !#[trigger] reads_in(g.nodes@, c, t),
                    second matches Some(b) ==> first is Some && b != first->Some_0 && reads_in(g.nodes@, b as int, t),
                decreases n - k,
            {
                if vec_contains(&g.nodes[k].inputs, t) {
                    if first.is_none() {
                        first = Some(k);
                    } else if second.is_none() {
                        second = Some(k);
                    }
                }
                k = k + 1;
            }
            if let Some(j) = first {
                if second.is_none() && j != i && g.nodes[j].op == OpKind::Relu && g.nodes[j].inputs.len() == 1 {
                    proof {
                        assert(g.nodes@[j as int].inputs@ =~= seq![t]);
                        assert(fusible(&g, i as int, j as int));
                        assert forall|a: int, b: int| a < i implies !#[trigger] fusible_in(g.nodes@, g.outputs@, a, b) by {
                            assert(!fusible(&g, a, b));
                        }
                    }
                    let ghost g0 = g;
                    let op = fo.unwrap();
                    let Graph { tensors, nodes, inputs, outputs, constants } = g;
                    let mut nodes = nodes;
                    let nj = nodes.remove(j);
                    let ii = if j < i { i - 1 } else { i };
                    let ni = nodes.remove(ii);
                    nodes.insert(ii, Node { op, inputs: ni.inputs, outputs: nj.outputs });
                    proof {
                        assert(nodes@ =~= fused_nodes(&g0, i as int, j as int));
                        assert(first_fusible(g0.nodes@, g0.outputs@, i as int, j as int));
                        let (a, b) = choose|a: int, b: int| #[trigger] first_fusible(g0.nodes@, g0.outputs@, a, b);
                        lemma_first_fusible_unique(g0.nodes@, g0.outputs@, i as int, j as int, a, b);
                    }
                    return (Graph { tensors, nodes, inputs, outputs, constants }, true);
                }
            }
            proof {
                assert forall|b: int| !fusible(&g, i as int, b) by {
                    if fusible(&g, i as int, b) {
                        assert(g.nodes@[b].inputs@[0] == t);
                        assert(reads_in(g.nodes@, b, t));
                        if let Some(a) = first {
                            if a as int != b {
                                assert(!reads_in(g.nodes@, a as int, t));
                            }
                            if let Some(c) = second {
                                if c as int != b {
                                    assert(!reads_in(g.nodes@, c as int, t));
                                } else {
                                    assert(!reads_in(g.nodes@, a as int, t));
                                }
                            }
                            assert(g.nodes@[a as int].inputs@.len() == 1);
                        }
                    }
                }
            }
        }
        i = i + 1;
    }
    proof {
        if exists|a: int, b: int| #[trigger] first_fusible(g.nodes@, g.outputs@, a, b) {
            let (a, b) = choose|a: int, b: int| #[trigger] first_fusible(g.nodes@, g.outputs@, a, b);
            assert(fusible(&g, a, b));
        }
    }
    (g, false)
}

/// Applies the next fusion until none is left.
pub fn fuse_all(g: Graph) -> (r: Graph)
    ensures
        r.tensors == g.tensors,
        r.inputs == g.inputs,
        r.outputs == g.outputs,
        r.constants == g.constants,
        r.nodes@ == fuse_closure(g.nodes@, g.outputs@, g.nodes@.len()),
        fully_fused(&r),
        r.num_nodes() <= g.num_nodes(),
{
    let mut cur = g;
    loop
        invariant
            cur.tensors == g.tensors,
            cur.inputs == g.inputs,
            cur.outputs == g.outputs,
            cur.constants == g.constants,
            cur.num_nodes() <= g.num_nodes(),
            fuse_closure(g.nodes@, g.outputs@, g.nodes@.len()) == fuse_closure(
                cur.nodes@,
                g.outputs@,
                cur.nodes@.len(),
            ),
        decreases cur.num_nodes(),
    {
        let ghost before = cur;
        let (next, changed) = fuse_once(cur);
        if !changed {
            proof {
                assert forall|i: int, j: int| !#[trigger] fusible(&next, i, j) by {
                    assert(!fusible(&before, i, j));
                    if fusible(&next, i, j) {
                        assert forall|k: int| k != j implies !#[trigger] reads_in(before.nodes@, k, before.nodes@[i].outputs@[0]) by {
                            assert(!reads_in(next.nodes@, k, next.nodes@[i].outputs@[0]));
                        }
                    }
                }
                assert(next.nodes@ =~= before.nodes@);
            }
            return next;
        }
        proof {
            let p = next_fusion(before.nodes@, before.outputs@)->Some_0;
            assert(first_fusible(before.nodes@, before.outputs@, p.0, p.1));
            assert(next.num_nodes() == before.num_nodes() - 1);
            assert(before.nodes@.len() > 0);
        }
        cur = next;
    }
}

/// The node list the passes make of `g`: dead nodes removed, then every fusible rectifier merged.
pub open spec fn optimized_nodes(g: &Graph) -> Seq<Node> {
    fuse_closure(needed_nodes(g), g.outputs@, needed_nodes(g).len())
}

/// `h` is what the passes make of `g`: the same tensor table, declared inputs, outputs and
/// constants, and the optimized node list.
pub open spec fn optimized_form(g: &Graph, h: &Graph) -> bool {
    &&& h.tensors == g.tensors
    &&& h.inputs == g.inputs
    &&& h.outputs == g.outputs
    &&& h.constants == g.constants
    &&& h.nodes@ == optimized_nodes(g)
}

/// Runs the optimisation passes (dead-node elimination, then activation fusion until no more
/// applies) and checks that their result is still a valid graph. It fails exactly when that
/// result is not a valid graph.
pub fn optimize(g: Graph) -> (r: Result<Graph, OptimizerError>)
    ensures
        r matches Ok(h) ==> {
            &&& optimized_form(&g, &h)
            &&& h.num_nodes() <= needed_nodes(&g).len()
            &&& fully_fused(&h)
            &&& h.well_formed()
            &&& h.acyclic()
        },
        r matches Err(e) ==> e matches OptimizerError::InvalidGraph(_) && exists|h: Graph|
            optimized_form(&g, &h) && !(h.well_formed() && h.acyclic()),
{
    let ghost g0 = g;
    let h = eliminate_dead_nodes(g);
    let h = fuse_all(h);
    let ghost hg = h;
    match h.build() {
        Ok(h) => Ok(h),
        Err(e) => {
            assert(optimized_form(&g0, &hg));
            Err(OptimizerError::InvalidGraph(e))
        },
    }
}

} // verus!
