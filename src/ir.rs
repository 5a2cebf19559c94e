use vstd::prelude::*;
use crate::utils::TensorDesc;

verus! {

/// Window attributes of a convolution or pooling operator.
#[derive(Clone, Copy, Debug, PartialEq, Eq, Structural)]
pub struct Window {
    pub kernel: u64,
    pub stride: u64,
    pub pad: u64,
}

/// The operator of a node, with its statically known attributes.
#[derive(Clone, Copy, Debug, PartialEq, Eq, Structural)]
pub enum OpKind {
    Identity,
    Relu,
    Sigmoid,
    Tanh,
    Add,
    Mul,
    MatMul,
    Gemm { trans_a: bool, trans_b: bool },
    Conv(Window),
    MaxPool(Window),
    Reshape,
    Softmax { axis: i64 },
    /// A convolution whose result goes through a rectifier, in one dispatch.
    ConvRelu(Window),
    /// A general matrix product whose result goes through a rectifier, in one dispatch.
    GemmRelu { trans_a: bool, trans_b: bool },
    /// A sum whose result goes through a rectifier, in one dispatch.
    AddRelu,
    /// A matrix product whose result goes through a rectifier, in one dispatch.
    MatMulRelu,
}

/// One operator instance; tensors are named by their index in the graph's tensor table.
#[derive(Clone, Debug)]
pub struct Node {
    pub op: OpKind,
    pub inputs: Vec<usize>,
    pub outputs: Vec<usize>,
}

/// A graph of operator nodes over a table of tensors.
#[derive(Clone, Debug)]
pub struct Graph {
    pub tensors: Vec<TensorDesc>,
    pub nodes: Vec<Node>,
    pub inputs: Vec<usize>,
    pub outputs: Vec<usize>,
    pub constants: Vec<usize>,
}

/// Why a graph description is not a valid graph.
#[derive(Clone, Copy, Debug, PartialEq, Eq, Structural)]
pub enum IrError {
    /// A tensor index beyond the tensor table.
    UnknownTensor(usize),
    /// A tensor written by two nodes, or written by a node and also declared as a model input or constant.
    DuplicateProducer(usize),
    /// A node reads a tensor that is neither a model input, a constant, nor written by any node.
    UndeclaredInput(usize),
    /// A declared output that is neither a model input, a constant, nor written by any node.
    UnresolvedOutput(usize),
    /// A node has the wrong number of inputs or outputs for its operator, or an attribute out of range.
    InvalidNode(usize),
    /// No dependency-respecting order of the nodes exists.
    Cycle,
}

/// Operator `op` takes `n_in` inputs and `n_out` outputs: unary operators one input, binary
/// ones two, and convolutions and general matrix products an optional bias as a third.
pub open spec fn arity_ok(op: OpKind, n_in: int, n_out: int) -> bool {
    n_out == 1 && match op {
        OpKind::Identity | OpKind::Relu | OpKind::Sigmoid | OpKind::Tanh | OpKind::MaxPool(_)
        | OpKind::Softmax { .. } => n_in == 1,
        OpKind::Add | OpKind::Mul | OpKind::MatMul | OpKind::Reshape | OpKind::AddRelu
        | OpKind::MatMulRelu => n_in == 2,
        OpKind::Conv(_) | OpKind::ConvRelu(_) | OpKind::Gemm { .. } | OpKind::GemmRelu { .. } => n_in
            == 2 || n_in == 3,
    }
}

/// Windows have a kernel and a stride of at least one.
pub open spec fn attributes_ok(op: OpKind) -> bool {
    match op {
        OpKind::Conv(w) | OpKind::ConvRelu(w) | OpKind::MaxPool(w) => w.kernel >= 1 && w.stride >= 1,
        _ => true,
    }
}

fn arity_ok_exec(op: OpKind, n_in: usize, n_out: usize) -> (r: bool)
    ensures
        r == arity_ok(op, n_in as int, n_out as int),
{
    n_out == 1 && match op {
        OpKind::Identity | OpKind::Relu | OpKind::Sigmoid | OpKind::Tanh | OpKind::MaxPool(_)
        | OpKind::Softmax { .. } => n_in == 1,
        OpKind::Add | OpKind::Mul | OpKind::MatMul | OpKind::Reshape | OpKind::AddRelu
        | OpKind::MatMulRelu => n_in == 2,
        OpKind::Conv(_) | OpKind::ConvRelu(_) | OpKind::Gemm { .. } | OpKind::GemmRelu { .. } => n_in
            == 2 || n_in == 3,
    }
}

fn attributes_ok_exec(op: OpKind) -> (r: bool)
    ensures
        r == attributes_ok(op),
{
    match op {
        OpKind::Conv(w) | OpKind::ConvRelu(w) | OpKind::MaxPool(w) => w.kernel >= 1 && w.stride >= 1,
        _ => true,
    }
}

impl Graph {
    pub open spec fn num_tensors(&self) -> int {
        self.tensors@.len() as int
    }

    pub open spec fn num_nodes(&self) -> int {
        self.nodes@.len() as int
    }

    /// The tensor is a model input or a constant.
    pub open spec fn is_source(&self, t: usize) -> bool {
        self.inputs@.contains(t) || self.constants@.contains(t)
    }

    /// Node `i` writes tensor `t`.
    pub open spec fn produces(&self, i: int, t: usize) -> bool {
        0 <= i < self.num_nodes() && self.nodes@[i].outputs@.contains(t)
    }

    pub open spec fn has_producer(&self, t: usize) -> bool {
        exists|j: int| self.produces(j, t)
    }

    /// Every tensor index in the graph lies within the tensor table.
    pub open spec fn ids_in_range(&self) -> bool {
        &&& forall|i: int, k: int|
            0 <= i < self.num_nodes() && 0 <= k < self.nodes@[i].inputs@.len()
                ==> self.nodes@[i].inputs@[k] < self.num_tensors()
        &&& forall|i: int, k: int|
            0 <= i < self.num_nodes() && 0 <= k < self.nodes@[i].outputs@.len()
                ==> self.nodes@[i].outputs@[k] < self.num_tensors()
        &&& forall|k: int| 0 <= k < self.inputs@.len() ==> self.inputs@[k] < self.num_tensors()
        &&& forall|k: int| 0 <= k < self.outputs@.len() ==> self.outputs@[k] < self.num_tensors()
        &&& forall|k: int|
            0 <= k < self.constants@.len() ==> self.constants@[k] < self.num_tensors()
    }

    /// Every tensor has at most one writer, and model inputs and constants have none.
    pub open spec fn single_producer(&self) -> bool {
        &&& forall|i: int, j: int, t: usize|
            self.produces(i, t) && self.produces(j, t) ==> i == j
        &&& forall|i: int, t: usize| self.produces(i, t) ==> !self.is_source(t)
    }

    /// Every tensor a node reads is a model input, a constant, or written by some node.
    pub open spec fn inputs_resolved(&self) -> bool {
        forall|i: int, k: int|
            0 <= i < self.num_nodes() && 0 <= k < self.nodes@[i].inputs@.len() ==> {
                let t = #[trigger] self.nodes@[i].inputs@[k];
                self.is_source(t) || self.has_producer(t)
            }
    }

    /// Every declared output is a model input, a constant, or written by some node.
    pub open spec fn outputs_resolved(&self) -> bool {
        forall|k: int|
            0 <= k < self.outputs@.len() ==> {
                let t = #[trigger] self.outputs@[k];
                self.is_source(t) || self.has_producer(t)
            }
    }

    /// Node `i` has the arity and attributes its operator requires.
    pub open spec fn node_ok(&self, i: int) -> bool {
        let node = self.nodes@[i];
        arity_ok(node.op, node.inputs@.len() as int, node.outputs@.len() as int) && attributes_ok(node.op)
    }

    pub open spec fn nodes_ok(&self) -> bool {
        forall|i: int| 0 <= i < self.num_nodes() ==> #[trigger] self.node_ok(i)
    }

    pub open spec fn well_formed(&self) -> bool {
        &&& self.ids_in_range()
        &&& self.nodes_ok()
        &&& self.single_producer()
        &&& self.inputs_resolved()
        &&& self.outputs_resolved()
    }

    /// Tensor `t` is known once the nodes of `done` have run.
    pub open spec fn available(&self, done: Seq<usize>, t: usize) -> bool {
        self.is_source(t) || exists|q: int| 0 <= q < done.len() && self.produces(done[q] as int, t)
    }

    /// Node `i` has not run yet and everything it reads is known once `done` has run.
    pub open spec fn ready(&self, done: Seq<usize>, i: int) -> bool {
        &&& 0 <= i < self.num_nodes()
        &&& !done.contains(i as usize)
        &&& forall|k: int|
            0 <= k < self.nodes@[i].inputs@.len() ==> self.available(done, self.nodes@[i].inputs@[k])
    }

    /// Each node of `order` is ready when its turn comes.
    pub open spec fn is_partial_order(&self, order: Seq<usize>) -> bool {
        forall|q: int| 0 <= q < order.len() ==> self.ready(order.take(q), order[q] as int)
    }

    /// A dependency-respecting order of all nodes.
    pub open spec fn is_topological_order(&self, order: Seq<usize>) -> bool {
        self.is_partial_order(order) && order.len() == self.num_nodes()
    }

    /// At every position, the node taken is the first one in declaration order that is ready.
    pub open spec fn takes_first_ready(&self, order: Seq<usize>) -> bool {
        forall|q: int, i: int| 0 <= q < order.len() && 0 <= i < order[q] ==> !self.ready(order.take(q), i)
    }

    pub open spec fn acyclic(&self) -> bool {
        exists|order: Seq<usize>| self.is_topological_order(order)
    }

    /// Some nodes have not run after `done`, and none of them is ready.
    pub open spec fn stuck(&self, done: Seq<usize>) -> bool {
        &&& self.is_partial_order(done)
        &&& done.len() < self.num_nodes()
        &&& forall|i: int| 0 <= i < self.num_nodes() ==> !self.ready(done, i)
    }
}

/// The nodes of a partial order are distinct node indices.
proof fn lemma_partial_order_distinct(g: &Graph, order: Seq<usize>)
    requires
        g.is_partial_order(order),
    ensures
        order.no_duplicates(),
        forall|q: int| 0 <= q < order.len() ==> order[q] < g.num_nodes(),
{
    assert forall|a: int, b: int| 0 <= a < b < order.len() implies order[a] != order[b] by {
        assert(g.ready(order.take(b), order[b] as int));
        assert(order.take(b)[a] == order[a]);
    }
    assert forall|q: int| 0 <= q < order.len() implies order[q] < g.num_nodes() by {
        assert(g.ready(order.take(q), order[q] as int));
    }
}

/// The first index of `s` whose element is not in `p`, given that one exists at or after `from`.
proof fn lemma_first_outside(s: Seq<usize>, p: Seq<usize>, from: int, w: int) -> (q: int)
    requires
        0 <= from <= w < s.len(),
        !p.contains(s[w]),
        forall|r: int| 0 <= r < from ==> p.contains(s[r]),
    ensures
        0 <= q <= w,
        !p.contains(s[q]),
        forall|r: int| 0 <= r < q ==> p.contains(s[r]),
    decreases w - from,
{
    if !p.contains(s[from]) {
        from
    } else {
        lemma_first_outside(s, p, from + 1, w)
    }
}

/// A graph on which the scheduler gets stuck has no dependency-respecting order of its nodes.
pub proof fn lemma_stuck_not_acyclic(g: &Graph, done: Seq<usize>)
    requires
        g.stuck(done),
    ensures
        !g.acyclic(),
{
    if g.acyclic() {
        let s = choose|s: Seq<usize>| g.is_topological_order(s);
        lemma_partial_order_distinct(g, s);
        lemma_partial_order_distinct(g, done);
        s.unique_seq_to_set();
        done.unique_seq_to_set();
        let w_exists = exists|w: int| 0 <= w < s.len() && !done.contains(s[w]);
        if !w_exists {
            assert(s.to_set().subset_of(done.to_set())) by {
                assert forall|x: usize| s.to_set().contains(x) implies done.to_set().contains(x) by {
                    let w = choose|w: int| 0 <= w < s.len() && s[w] == x;
                }
            }
            vstd::set_lib::lemma_len_subset(s.to_set(), done.to_set());
            assert(false);
        }
        let w = choose|w: int| 0 <= w < s.len() && !done.contains(s[w]);
        let q = lemma_first_outside(s, done, 0, w);
        let i = s[q] as int;
        assert(g.ready(s.take(q), i));
        assert forall|k: int| 0 <= k < g.nodes@[i].inputs@.len() implies g.available(
            done,
            g.nodes@[i].inputs@[k],
        ) by {
            let t = g.nodes@[i].inputs@[k];
            assert(g.available(s.take(q), t));
            if !g.is_source(t) {
                let r = choose|r: int| 0 <= r < s.take(q).len() && g.produces(s.take(q)[r] as int, t);
                assert(done.contains(s[r]));
                let d = choose|d: int| 0 <= d < done.len() && done[d] == s[r];
                assert(g.produces(done[d] as int, t));
            }
        }
        assert(g.ready(done, i));
    }
}

/// Whether `v` holds `x`.
pub fn vec_contains(v: &Vec<usize>, x: usize) -> (r: bool)
    ensures
        r == v@.contains(x),
{
    let mut i: usize = 0;
    while i < v.len()
        invariant
            0 <= i <= v@.len(),
            forall|j: int| 0 <= j < i ==> v@[j] != x,
        decreases v@.len() - i,
    {
        if v[i] == x {
            return true;
        }
        i = i + 1;
    }
    false
}

/// Whether tensor `t` is known once the nodes of `done` have run.
fn is_available(g: &Graph, done: &Vec<usize>, t: usize) -> (r: bool)
    requires
        forall|q: int| 0 <= q < done@.len() ==> done@[q] < g.num_nodes(),
    ensures
        r == g.available(done@, t),
{
    if vec_contains(&g.inputs, t) || vec_contains(&g.constants, t) {
        return true;
    }
    let mut q: usize = 0;
    while q < done.len()
        invariant
            forall|p: int| 0 <= p < done@.len() ==> done@[p] < g.num_nodes(),
            0 <= q <= done@.len(),
            forall|p: int| 0 <= p < q ==> !g.produces(done@[p] as int, t),
        decreases done@.len() - q,
    {
        if vec_contains(&g.nodes[done[q]].outputs, t) {
            return true;
        }
        q = q + 1;
    }
    false
}

/// Whether every tensor that node `i` reads is known once the nodes of `done` have run.
fn inputs_available(g: &Graph, done: &Vec<usize>, i: usize) -> (r: bool)
    requires
        i < g.num_nodes(),
        forall|q: int| 0 <= q < done@.len() ==> done@[q] < g.num_nodes(),
    ensures
        r == forall|k: int|
            0 <= k < g.nodes@[i as int].inputs@.len() ==> g.available(done@, #[trigger] g.nodes@[i as int].inputs@[k]),
{
    let node = &g.nodes[i];
    let mut k: usize = 0;
    while k < node.inputs.len()
        invariant
            node == g.nodes@[i as int],
            forall|q: int| 0 <= q < done@.len() ==> done@[q] < g.num_nodes(),
            0 <= k <= node.inputs@.len(),
            forall|j: int| 0 <= j < k ==> g.available(done@, #[trigger] node.inputs@[j]),
        decreases node.inputs@.len() - k,
    {
        if !is_available(g, done, node.inputs[k]) {
            return false;
        }
        k = k + 1;
    }
    true
}

/// Orders the nodes so that each runs after the writers of everything it reads, taking at every
/// step the first ready node in declaration order. Fails exactly when no such order exists.
pub fn topological_order(g: &Graph) -> (r: Result<Vec<usize>, IrError>)
    ensures
        r is Ok <==> g.acyclic(),
        r matches Ok(order) ==> g.is_topological_order(order@) && g.takes_first_ready(order@),
        r matches Err(e) ==> e == IrError::Cycle,
{
    let n = g.nodes.len();
    let mut done: Vec<bool> = Vec::new();
    let mut i: usize = 0;
    while i < n
        invariant
            n == g.num_nodes(),
            0 <= i <= n,
            done@.len() == i,
            forall|j: int| 0 <= j < i ==> !done@[j],
        decreases n - i,
    {
        done.push(false);
        i = i + 1;
    }
    let mut order: Vec<usize> = Vec::new();
    while order.len() < n
        invariant
            n == g.num_nodes(),
            order@.len() <= n,
            g.is_partial_order(order@),
            g.takes_first_ready(order@),
            done@.len() == n,
            forall|j: int| 0 <= j < n ==> done@[j] == order@.contains(j as usize),
        decreases n - order@.len(),
    {
        proof {
            lemma_partial_order_distinct(g, order@);
        }
        let mut i: usize = 0;
        let mut found = false;
        while i < n && !found
            invariant
                n == g.num_nodes(),
                forall|q: int| 0 <= q < order@.len() ==> order@[q] < n,
                done@.len() == n,
                forall|j: int| 0 <= j < n ==> done@[j] == order@.contains(j as usize),
                0 <= i <= n,
                found ==> i < n && g.ready(order@, i as int),
                forall|j: int| 0 <= j < i ==> !g.ready(order@, j),
            decreases n - i + (if found { 0int } else { 1int }),
        {
            if !done[i] && inputs_available(g, &order, i) {
                found = true;
            } else {
                i = i + 1;
            }
        }
        if !found {
            proof {
                lemma_stuck_not_acyclic(g, order@);
            }
            return Err(IrError::Cycle);
        }
        let ghost old_order = order@;
        order.push(i);
        proof {
            assert forall|q: int| 0 <= q < order@.len() implies g.ready(order@.take(q), order@[q] as int) by {
                if q < old_order.len() {
                    assert(order@.take(q) =~= old_order.take(q));
                } else {
                    assert(order@.take(q) =~= old_order);
                }
            }
            assert forall|q: int, j: int| 0 <= q < order@.len() && 0 <= j < order@[q] implies !g.ready(order@.take(q), j) by {
                if q < old_order.len() {
                    assert(order@.take(q) =~= old_order.take(q));
                } else {
                    assert(order@.take(q) =~= old_order);
                }
            }
        }
        done.set(i, true);
        proof {
            assert forall|j: int| 0 <= j < n implies done@[j] == order@.contains(j as usize) by {
                if old_order.contains(j as usize) {
                    let q = choose|q: int| 0 <= q < old_order.len() && old_order[q] == j as usize;
                    assert(order@[q] == j as usize);
                }
                if order@.contains(j as usize) && j != i {
                    let q = choose|q: int| 0 <= q < order@.len() && order@[q] == j as usize;
                    assert(old_order[q] == j as usize);
                }
                if j == i {
                    assert(order@[old_order.len() as int] == i);
                }
            }
        }
    }
    assert(g.is_topological_order(order@));
    Ok(order)
}

/// The first element of `v` that is not below `bound`, if any.
fn first_not_below(v: &Vec<usize>, bound: usize) -> (r: Option<usize>)
    ensures
        r is None <==> forall|k: int| 0 <= k < v@.len() ==> v@[k] < bound,
        r matches Some(t) ==> v@.contains(t) && t >= bound,
{
    let mut k: usize = 0;
    while k < v.len()
        invariant
            0 <= k <= v@.len(),
            forall|j: int| 0 <= j < k ==> v@[j] < bound,
        decreases v@.len() - k,
    {
        if v[k] >= bound {
            return Some(v[k]);
        }
        k = k + 1;
    }
    None
}

/// Whether some node writes tensor `t`.
fn find_producer(g: &Graph, t: usize) -> (r: bool)
    ensures
        r == g.has_producer(t),
{
    let mut j: usize = 0;
    while j < g.nodes.len()
        invariant
            0 <= j <= g.num_nodes(),
            forall|p: int| 0 <= p < j ==> !g.produces(p, t),
        decreases g.num_nodes() - j,
    {
        if vec_contains(&g.nodes[j].outputs, t) {
            assert(g.produces(j as int, t));
            return true;
        }
        j = j + 1;
    }
    false
}

impl Graph {
    /// Checks that every tensor index lies within the tensor table.
    fn check_ids(&self) -> (r: Result<(), IrError>)
        ensures
            r is Ok <==> self.ids_in_range(),
            r matches Err(e) ==> e matches IrError::UnknownTensor(t) && t >= self.num_tensors(),
    {
        let nt = self.tensors.len();
        let mut i: usize = 0;
        while i < self.nodes.len()
            invariant
                nt == self.num_tensors(),
                0 <= i <= self.num_nodes(),
                forall|a: int, k: int|
                    0 <= a < i && 0 <= k < self.nodes@[a].inputs@.len()
                        ==> #[trigger] self.nodes@[a].inputs@[k] < nt,
                forall|a: int, k: int|
                    0 <= a < i && 0 <= k < self.nodes@[a].outputs@.len()
                        ==> #[trigger] self.nodes@[a].outputs@[k] < nt,
            decreases self.num_nodes() - i,
        {
            if let Some(t) = first_not_below(&self.nodes[i].inputs, nt) {
                return Err(IrError::UnknownTensor(t));
            }
            if let Some(t) = first_not_below(&self.nodes[i].outputs, nt) {
                return Err(IrError::UnknownTensor(t));
            }
            i = i + 1;
        }
        if let Some(t) = first_not_below(&self.inputs, nt) {
            return Err(IrError::UnknownTensor(t));
        }
        if let Some(t) = first_not_below(&self.outputs, nt) {
            return Err(IrError::UnknownTensor(t));
        }
        if let Some(t) = first_not_below(&self.constants, nt) {
            return Err(IrError::UnknownTensor(t));
        }
        Ok(())
    }

    /// Checks the arity and attributes of every node.
    fn check_nodes(&self) -> (r: Result<(), IrError>)
        ensures
            r is Ok <==> self.nodes_ok(),
            r matches Err(e) ==> e matches IrError::InvalidNode(i) && i < self.num_nodes() && !self.node_ok(i as int),
    {
        let mut i: usize = 0;
        while i < self.nodes.len()
            invariant
                0 <= i <= self.num_nodes(),
                forall|j: int| 0 <= j < i ==> #[trigger] self.node_ok(j),
            decreases self.num_nodes() - i,
        {
            let node = &self.nodes[i];
            if !(arity_ok_exec(node.op, node.inputs.len(), node.outputs.len()) && attributes_ok_exec(node.op)) {
                assert(!self.node_ok(i as int));
                return Err(IrError::InvalidNode(i));
            }
            i = i + 1;
        }
        Ok(())
    }

    /// Checks that no tensor has two writers, and that no model input or constant has one.
    fn check_single_producer(&self) -> (r: Result<(), IrError>)
        ensures
            r is Ok <==> self.single_producer(),
            r matches Err(e) ==> e matches IrError::DuplicateProducer(_),
    {
        let n = self.nodes.len();
        let mut i: usize = 0;
        while i < n
            invariant
                n == self.num_nodes(),
                0 <= i <= n,
                forall|a: int, b: int, t: usize|
                    0 <= a < i && a < b && self.produces(a, t) ==> !self.produces(b, t),
                forall|a: int, t: usize| 0 <= a < i && self.produces(a, t) ==> !self.is_source(t),
            decreases n - i,
        {
            let outs = &self.nodes[i].outputs;
            let mut k: usize = 0;
            while k < outs.len()
                invariant
                    n == self.num_nodes(),
                    0 <= i < n,
                    outs == self.nodes@[i as int].outputs,
                    0 <= k <= outs@.len(),
                    forall|a: int, b: int, t: usize|
                        0 <= a < i && a < b && self.produces(a, t) ==> !self.produces(b, t),
                    forall|a: int, t: usize| 0 <= a < i && self.produces(a, t) ==> !self.is_source(t),
                    forall|c: int, b: int|
                        0 <= c < k && i < b ==> !#[trigger] self.produces(b, outs@[c]),
                    forall|c: int| 0 <= c < k ==> !self.is_source(#[trigger] outs@[c]),
                decreases outs@.len() - k,
            {
                let t = outs[k];
                if vec_contains(&self.inputs, t) || vec_contains(&self.constants, t) {
                    assert(self.produces(i as int, t));
                    return Err(IrError::DuplicateProducer(t));
                }
                let mut j: usize = i + 1;
                while j < n
                    invariant
                        n == self.num_nodes(),
                        0 <= i < n,
                        i < j <= n,
                        outs == self.nodes@[i as int].outputs,
                        k < outs@.len(),
                        t == outs@[k as int],
                        forall|b: int| i < b < j ==> !self.produces(b, t),
                    decreases n - j,
                {
                    if vec_contains(&self.nodes[j].outputs, t) {
                        assert(self.produces(i as int, t) && self.produces(j as int, t));
                        return Err(IrError::DuplicateProducer(t));
                    }
                    j = j + 1;
                }
                k = k + 1;
            }
            proof {
                assert forall|a: int, b: int, t: usize|
                    0 <= a < i + 1 && a < b && self.produces(a, t) implies !self.produces(b, t) by {
                    if a == i {
                        let c = choose|c: int| 0 <= c < outs@.len() && outs@[c] == t;
                    }
                }
                assert forall|a: int, t: usize| 0 <= a < i + 1 && self.produces(a, t) implies !self.is_source(t) by {
                    if a == i {
                        let c = choose|c: int| 0 <= c < outs@.len() && outs@[c] == t;
                    }
                }
            }
            i = i + 1;
        }
        Ok(())
    }

    /// Checks that everything the nodes read and every declared output has a source.
    fn check_resolved(&self) -> (r: Result<(), IrError>)
        ensures
            r is Ok <==> self.inputs_resolved() && self.outputs_resolved(),
            r matches Err(e) ==> match e {
                IrError::UndeclaredInput(t) => !self.inputs_resolved() && !self.is_source(t)
                    && !self.has_producer(t),
                IrError::UnresolvedOutput(t) => self.inputs_resolved() && !self.outputs_resolved()
                    && self.outputs@.contains(t),
                _ => false,
            },
    {
        let n = self.nodes.len();
        let mut i: usize = 0;
        while i < n
            invariant
                n == self.num_nodes(),
                0 <= i <= n,
                forall|a: int, k: int|
                    0 <= a < i && 0 <= k < self.nodes@[a].inputs@.len() ==> {
                        let t = #[trigger] self.nodes@[a].inputs@[k];
                        self.is_source(t) || self.has_producer(t)
                    },
            decreases n - i,
        {
            let ins = &self.nodes[i].inputs;
            let mut k: usize = 0;
            while k < ins.len()
                invariant
                    n == self.num_nodes(),
                    0 <= i < n,
                    ins == self.nodes@[i as int].inputs,
                    0 <= k <= ins@.len(),
                    forall|a: int, k: int|
                        0 <= a < i && 0 <= k < self.nodes@[a].inputs@.len() ==> {
                            let t = #[trigger] self.nodes@[a].inputs@[k];
                            self.is_source(t) || self.has_producer(t)
                        },
                    forall|c: int|
                        0 <= c < k ==> self.is_source(#[trigger] ins@[c]) || self.has_producer(ins@[c]),
                decreases ins@.len() - k,
            {
                let t = ins[k];
                if !(vec_contains(&self.inputs, t) || vec_contains(&self.constants, t) || find_producer(self, t)) {
                    assert(self.nodes@[i as int].inputs@[k as int] == t);
                    return Err(IrError::UndeclaredInput(t));
                }
                k = k + 1;
            }
            i = i + 1;
        }
        let mut k: usize = 0;
        while k < self.outputs.len()
            invariant
                self.inputs_resolved(),
                0 <= k <= self.outputs@.len(),
                forall|c: int|
                    0 <= c < k ==> self.is_source(#[trigger] self.outputs@[c]) || self.has_producer(self.outputs@[c]),
            decreases self.outputs@.len() - k,
        {
            let t = self.outputs[k];
            if !(vec_contains(&self.inputs, t) || vec_contains(&self.constants, t) || find_producer(self, t)) {
                assert(self.outputs@[k as int] == t);
                return Err(IrError::UnresolvedOutput(t));
            }
            k = k + 1;
        }
        Ok(())
    }

    /// Checks a graph description: tensor indices in range, one writer per tensor, every read
    /// and every declared output resolved, and no cycle. Returns the description unchanged when
    /// it passes.
    pub fn build(self) -> (r: Result<Graph, IrError>)
        ensures
            r is Ok <==> self.well_formed() && self.acyclic(),
            r matches Ok(g) ==> g == self,
            r matches Err(e) ==> match e {
                IrError::UnknownTensor(t) => !self.ids_in_range() && t >= self.num_tensors(),
                IrError::InvalidNode(i) => self.ids_in_range() && i < self.num_nodes() && !self.node_ok(i as int),
                IrError::DuplicateProducer(_) => self.ids_in_range() && self.nodes_ok() && !self.single_producer(),
                IrError::UndeclaredInput(t) => self.ids_in_range() && self.nodes_ok() && self.single_producer()
                    && !self.inputs_resolved() && !self.is_source(t) && !self.has_producer(t),
                IrError::UnresolvedOutput(t) => self.ids_in_range() && self.nodes_ok() && self.single_producer()
                    && self.inputs_resolved() && !self.outputs_resolved() && self.outputs@.contains(t),
                IrError::Cycle => self.well_formed() && !self.acyclic(),
            },
    {
        self.check_ids()?;
        self.check_nodes()?;
        self.check_single_producer()?;
        self.check_resolved()?;
        match topological_order(&self) {
            Ok(_) => Ok(self),
            Err(e) => Err(e),
        }
    }
}

} // verus!
