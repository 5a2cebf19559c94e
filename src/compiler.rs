use vstd::prelude::*;
use crate::ir::{Graph, IrError, Node, OpKind, topological_order};
use crate::utils::{DataType, element_count, elem_size, lemma_product_nonneg, shape_product, spec_elem_size};

verus! {

/// Invocations in one workgroup of every generated shader.
pub const WORKGROUP_SIZE: u64 = 256;

/// What the target device allows.
#[derive(Clone, Copy, Debug, PartialEq, Eq, Structural)]
pub struct DeviceLimits {
    /// Largest buffer, in bytes.
    pub max_buffer_size: u64,
    /// Largest workgroup count along one dimension of a dispatch.
    pub max_workgroups: u64,
}

/// Why a graph cannot be compiled.
#[derive(Clone, Copy, Debug, PartialEq, Eq, Structural)]
pub enum CompileError {
    /// The graph itself is invalid.
    Ir(IrError),
    /// No lowering exists for the requested opset version.
    UnsupportedOpset(i64),
    /// A tensor bound to a shader has an element type the shader backend cannot hold.
    UnsupportedType(usize),
    /// A tensor needs a buffer larger than the device allows.
    BufferTooLarge(usize),
    /// A node needs more workgroups than one dispatch allows.
    DispatchTooLarge(usize),
}

/// How a step uses a buffer.
#[derive(Clone, Copy, Debug, PartialEq, Eq, Structural)]
pub enum Access {
    ReadOnly,
    ReadWrite,
}

/// One buffer bound to a step; buffers are numbered as the tensors they hold.
#[derive(Clone, Copy, Debug, PartialEq, Eq, Structural)]
pub struct Binding {
    pub buffer: usize,
    pub access: Access,
}

/// One dispatch: the shader of a node, its bindings, and its workgroup count.
#[derive(Clone, Debug)]
pub struct Step {
    pub node: usize,
    pub shader: OpKind,
    pub binds: Vec<Binding>,
    pub workgroups: u64,
}

/// A compiled graph: the dispatches in the order they run, and the byte size of the buffer
/// that holds each tensor.
#[derive(Clone, Debug)]
pub struct Program {
    pub steps: Vec<Step>,
    /// Indexed like the tensor table.
    pub buffer_sizes: Vec<u64>,
}

/// A tensor slot of operator `op` accepts elements of type `t`: shaders work on 32-bit floats,
/// except the target shape of a reshape, which is read when the step is recorded.
pub open spec fn slot_accepts(op: OpKind, is_input: bool, k: int, t: DataType) -> bool {
    t == DataType::F32 || (is_input && k >= 1 && op == OpKind::Reshape)
}

pub open spec fn node_types_ok(g: &Graph, i: int) -> bool {
    let node = g.nodes@[i];
    &&& forall|k: int|
        0 <= k < node.inputs@.len() ==> slot_accepts(
            node.op,
            true,
            k,
            g.tensors@[#[trigger] node.inputs@[k] as int].dtype,
        )
    &&& forall|k: int|
        0 <= k < node.outputs@.len() ==> slot_accepts(
            node.op,
            false,
            k,
            g.tensors@[#[trigger] node.outputs@[k] as int].dtype,
        )
}

pub open spec fn types_ok(g: &Graph) -> bool {
    forall|i: int| 0 <= i < g.num_nodes() ==> node_types_ok(g, i)
}

/// Bytes needed by tensor `t`.
pub open spec fn byte_size(g: &Graph, t: int) -> int {
    shape_product(g.tensors@[t].shape@) * spec_elem_size(g.tensors@[t].dtype)
}

pub open spec fn sizes_ok(g: &Graph, limits: DeviceLimits) -> bool {
    forall|t: int| 0 <= t < g.num_tensors() ==> #[trigger] byte_size(g, t) <= limits.max_buffer_size
}

/// Workgroups needed to cover every element of the node's first output.
pub open spec fn workgroups_for(g: &Graph, i: int) -> int {
    let node = g.nodes@[i];
    if node.outputs@.len() == 0 {
        0
    } else {
        let n = shape_product(g.tensors@[node.outputs@[0] as int].shape@);
        (n + WORKGROUP_SIZE - 1) / (WORKGROUP_SIZE as int)
    }
}

pub open spec fn dispatch_ok(g: &Graph, limits: DeviceLimits) -> bool {
    forall|i: int| 0 <= i < g.num_nodes() ==> #[trigger] workgroups_for(g, i) <= limits.max_workgroups
}

/// The bindings of a node: each input read-only, then each output read-write.
pub open spec fn binds_of(node: Node) -> Seq<Binding> {
    node.inputs@.map_values(|t: usize| Binding { buffer: t, access: Access::ReadOnly })
        + node.outputs@.map_values(|t: usize| Binding { buffer: t, access: Access::ReadWrite })
}

/// A step records node `i` of `g`.
pub open spec fn step_of(g: &Graph, s: Step, i: int) -> bool {
    &&& s.node == i
    &&& s.shader == g.nodes@[i].op
    &&& s.binds@ == binds_of(g.nodes@[i])
    &&& s.workgroups == workgroups_for(g, i)
}

pub open spec fn step_nodes(p: &Program) -> Seq<usize> {
    p.steps@.map_values(|s: Step| s.node)
}

/// `p` is a compilation of `g`: one step per node in the first-ready topological order, each
/// recording its node, and one buffer size per tensor.
pub open spec fn compiled_from(g: &Graph, p: &Program) -> bool {
    &&& p.steps@.len() == g.num_nodes()
    &&& g.is_topological_order(step_nodes(p))
    &&& g.takes_first_ready(step_nodes(p))
    &&& forall|q: int| 0 <= q < p.steps@.len() ==> step_of(g, #[trigger] p.steps@[q], p.steps@[q].node as int)
    &&& p.buffer_sizes@.len() == g.num_tensors()
    &&& forall|t: int| 0 <= t < g.num_tensors() ==> p.buffer_sizes@[t] == byte_size(g, t)
}

/// Two orders that both take the first ready node at every position are the same.
proof fn lemma_first_ready_unique(g: &Graph, a: Seq<usize>, b: Seq<usize>, q: int)
    requires
        g.is_partial_order(a),
        g.is_partial_order(b),
        g.takes_first_ready(a),
        g.takes_first_ready(b),
        0 <= q <= a.len(),
        q <= b.len(),
    ensures
        a.take(q) == b.take(q),
    decreases q,
{
    if q > 0 {
        lemma_first_ready_unique(g, a, b, q - 1);
        let p = a.take(q - 1);
        assert(b.take(q - 1) == p);
        assert(g.ready(p, a[q - 1] as int));
        assert(g.ready(b.take(q - 1), b[q - 1] as int));
        if a[q - 1] < b[q - 1] {
            assert(!g.ready(b.take(q - 1), a[q - 1] as int));
        }
        if b[q - 1] < a[q - 1] {
            assert(!g.ready(a.take(q - 1), b[q - 1] as int));
        }
        assert(a.take(q) =~= p.push(a[q - 1]));
        assert(b.take(q) =~= p.push(b[q - 1]));
    }
}

/// Compiling one graph twice gives the same steps, in the same order, with the same shaders,
/// bindings and workgroup counts, and the same buffer sizes.
pub proof fn lemma_compile_deterministic(g: &Graph, p1: &Program, p2: &Program)
    requires
        compiled_from(g, p1),
        compiled_from(g, p2),
    ensures
        step_nodes(p1) == step_nodes(p2),
        forall|q: int|
            0 <= q < p1.steps@.len() ==> {
                let s1 = #[trigger] p1.steps@[q];
                let s2 = p2.steps@[q];
                s1.node == s2.node && s1.shader == s2.shader && s1.binds@ == s2.binds@ && s1.workgroups
                    == s2.workgroups
            },
        p1.buffer_sizes@ == p2.buffer_sizes@,
{
    let a = step_nodes(p1);
    let b = step_nodes(p2);
    lemma_first_ready_unique(g, a, b, a.len() as int);
    assert(a =~= a.take(a.len() as int));
    assert(b =~= b.take(b.len() as int));
    assert forall|q: int| 0 <= q < p1.steps@.len() implies {
        let s1 = #[trigger] p1.steps@[q];
        let s2 = p2.steps@[q];
        s1.node == s2.node && s1.shader == s2.shader && s1.binds@ == s2.binds@ && s1.workgroups
            == s2.workgroups
    } by {
        assert(a[q] == p1.steps@[q].node);
        assert(b[q] == p2.steps@[q].node);
        assert(step_of(g, p2.steps@[q], p2.steps@[q].node as int));
    }
    assert forall|t: int| 0 <= t < p1.buffer_sizes@.len() implies p1.buffer_sizes@[t] == p2.buffer_sizes@[t] by {
        assert(p1.buffer_sizes@[t] == byte_size(g, t));
        assert(p2.buffer_sizes@[t] == byte_size(g, t));
    }
    assert(p1.buffer_sizes@ =~= p2.buffer_sizes@);
}

/// Whether a tensor slot of `op` accepts elements of type `t`.
fn slot_accepts_exec(op: OpKind, is_input: bool, k: usize, t: DataType) -> (r: bool)
    ensures
        r == slot_accepts(op, is_input, k as int, t),
{
    t == DataType::F32 || (is_input && k >= 1 && op == OpKind::Reshape)
}

/// The first tensor of `ts` that a slot of `op` does not accept, if any.
fn first_rejected(g: &Graph, op: OpKind, is_input: bool, ts: &Vec<usize>) -> (r: Option<usize>)
    requires
        forall|k: int| 0 <= k < ts@.len() ==> ts@[k] < g.num_tensors(),
    ensures
        r is None <==> forall|k: int|
            0 <= k < ts@.len() ==> slot_accepts(op, is_input, k, g.tensors@[#[trigger] ts@[k] as int].dtype),
{
    let mut k: usize = 0;
    while k < ts.len()
        invariant
            forall|k: int| 0 <= k < ts@.len() ==> ts@[k] < g.num_tensors(),
            0 <= k <= ts@.len(),
            forall|j: int|
                0 <= j < k ==> slot_accepts(op, is_input, j, g.tensors@[#[trigger] ts@[j] as int].dtype),
        decreases ts@.len() - k,
    {
        if !slot_accepts_exec(op, is_input, k, g.tensors[ts[k]].dtype) {
            return Some(ts[k]);
        }
        k = k + 1;
    }
    None
}

/// Checks that every tensor bound to a shader has an element type its slot accepts.
fn check_types(g: &Graph) -> (r: Result<(), CompileError>)
    requires
        g.ids_in_range(),
    ensures
        r is Ok <==> types_ok(g),
        r matches Err(e) ==> e matches CompileError::UnsupportedType(_),
{
    let mut i: usize = 0;
    while i < g.nodes.len()
        invariant
            g.ids_in_range(),
            0 <= i <= g.num_nodes(),
            forall|j: int| 0 <= j < i ==> node_types_ok(g, j),
        decreases g.num_nodes() - i,
    {
        let node = &g.nodes[i];
        assert(forall|k: int| 0 <= k < node.inputs@.len() ==> node.inputs@[k] < g.num_tensors());
        assert(forall|k: int| 0 <= k < node.outputs@.len() ==> node.outputs@[k] < g.num_tensors());
        if let Some(t) = first_rejected(g, node.op, true, &node.inputs) {
            assert(!node_types_ok(g, i as int));
            return Err(CompileError::UnsupportedType(t));
        }
        if let Some(t) = first_rejected(g, node.op, false, &node.outputs) {
            assert(!node_types_ok(g, i as int));
            return Err(CompileError::UnsupportedType(t));
        }
        i = i + 1;
    }
    Ok(())
}

/// Bytes needed by each tensor, or the first tensor that does not fit the device.
fn plan_buffers(g: &Graph, limits: &DeviceLimits) -> (r: Result<Vec<u64>, CompileError>)
    ensures
        r is Ok <==> sizes_ok(g, *limits),
        r matches Ok(sizes) ==> sizes@.len() == g.num_tensors() && forall|t: int|
            0 <= t < g.num_tensors() ==> sizes@[t] == byte_size(g, t),
        r matches Err(e) ==> e matches CompileError::BufferTooLarge(_),
{
    let mut sizes: Vec<u64> = Vec::new();
    let mut t: usize = 0;
    while t < g.tensors.len()
        invariant
            0 <= t <= g.num_tensors(),
            sizes@.len() == t,
            forall|u: int| 0 <= u < t ==> sizes@[u] == byte_size(g, u),
            forall|u: int| 0 <= u < t ==> #[trigger] byte_size(g, u) <= limits.max_buffer_size,
        decreases g.num_tensors() - t,
    {
        let desc = &g.tensors[t];
        let es = elem_size(desc.dtype);
        proof {
            lemma_product_nonneg(desc.shape@);
        }
        match element_count(&desc.shape) {
            None => {
                proof {
                    let n = shape_product(desc.shape@);
                    assert(n * es >= n) by (nonlinear_arith)
                        requires
                            n >= 0,
                            es >= 1,
                    ;
                    assert(byte_size(g, t as int) > limits.max_buffer_size);
                }
                return Err(CompileError::BufferTooLarge(t));
            },
            Some(n) => {
                match n.checked_mul(es) {
                    Some(b) if b <= limits.max_buffer_size => {
                        sizes.push(b);
                    },
                    _ => {
                        assert(byte_size(g, t as int) > limits.max_buffer_size);
                        return Err(CompileError::BufferTooLarge(t));
                    },
                }
            },
        }
        t = t + 1;
    }
    Ok(sizes)
}

/// Workgroups for each node, or the first node that needs more than one dispatch allows.
fn plan_dispatch(g: &Graph, limits: &DeviceLimits, sizes: &Vec<u64>) -> (r: Result<Vec<u64>, CompileError>)
    requires
        g.ids_in_range(),
        sizes@.len() == g.num_tensors(),
        forall|t: int| 0 <= t < g.num_tensors() ==> sizes@[t] == byte_size(g, t),
    ensures
        r is Ok <==> dispatch_ok(g, *limits),
        r matches Ok(w) ==> w@.len() == g.num_nodes() && forall|i: int|
            0 <= i < g.num_nodes() ==> w@[i] == workgroups_for(g, i),
        r matches Err(e) ==> e matches CompileError::DispatchTooLarge(_),
{
    let mut w: Vec<u64> = Vec::new();
    let mut i: usize = 0;
    while i < g.nodes.len()
        invariant
            g.ids_in_range(),
            sizes@.len() == g.num_tensors(),
            forall|t: int| 0 <= t < g.num_tensors() ==> sizes@[t] == byte_size(g, t),
            0 <= i <= g.num_nodes(),
            w@.len() == i,
            forall|j: int| 0 <= j < i ==> w@[j] == workgroups_for(g, j),
            forall|j: int| 0 <= j < i ==> #[trigger] workgroups_for(g, j) <= limits.max_workgroups,
        decreases g.num_nodes() - i,
    {
        let node = &g.nodes[i];
        let count: u64 = if node.outputs.len() == 0 {
            0
        } else {
            let t = node.outputs[0];
            assert(t < g.num_tensors());
            let es = elem_size(g.tensors[t].dtype);
            proof {
                let n = shape_product(g.tensors@[t as int].shape@);
                assert(byte_size(g, t as int) == n * es);
                lemma_product_nonneg(g.tensors@[t as int].shape@);
                assert(sizes@[t as int] == n * es);
                assert(n == (n * es) / (es as int)) by (nonlinear_arith)
                    requires
                        n >= 0,
                        es >= 1,
                ;
            }
            let n = sizes[t] / es;
            let c = n / WORKGROUP_SIZE + if n % WORKGROUP_SIZE == 0 { 0 } else { 1 };
            proof {
                let ni = n as int;
                assert(c == (ni + 255) / 256) by (nonlinear_arith)
                    requires
                        ni >= 0,
                        c == ni / 256 + if ni % 256 == 0 { 0int } else { 1int },
                ;
            }
            c
        };
        assert(count == workgroups_for(g, i as int));
        if count > limits.max_workgroups {
            return Err(CompileError::DispatchTooLarge(i));
        }
        w.push(count);
        i = i + 1;
    }
    Ok(w)
}

/// Copies the tensor indices of `ts` into bindings with the given access.
fn bind_all(ts: &Vec<usize>, access: Access, out: &mut Vec<Binding>)
    ensures
        final(out)@ == old(out)@ + ts@.map_values(|t: usize| Binding { buffer: t, access: access }),
{
    let ghost start = out@;
    let mut k: usize = 0;
    while k < ts.len()
        invariant
            0 <= k <= ts@.len(),
            out@ == start + ts@.take(k as int).map_values(|t: usize| Binding { buffer: t, access: access }),
        decreases ts@.len() - k,
    {
        out.push(Binding { buffer: ts[k], access });
        proof {
            assert(ts@.take(k + 1).map_values(|t: usize| Binding { buffer: t, access: access })
                =~= ts@.take(k as int).map_values(|t: usize| Binding { buffer: t, access: access }).push(
                Binding { buffer: ts@[k as int], access: access },
            ));
        }
        k = k + 1;
    }
    proof {
        assert(ts@.take(ts@.len() as int) =~= ts@);
    }
}

/// Lowers a graph to a program: one step per node, in the graph's topological order with
/// declaration order breaking ties, and one buffer per tensor.
pub fn compile(g: &Graph, limits: &DeviceLimits, opset_version: i64) -> (r: Result<Program, CompileError>)
    requires
        g.ids_in_range(),
    ensures
        r is Ok <==> opset_version >= 1 && types_ok(g) && sizes_ok(g, *limits) && dispatch_ok(g, *limits)
            && g.acyclic(),
        r matches Ok(p) ==> compiled_from(g, &p),
        r matches Err(e) ==> match e {
            CompileError::UnsupportedOpset(v) => v == opset_version && opset_version < 1,
            CompileError::UnsupportedType(_) => !types_ok(g),
            CompileError::BufferTooLarge(_) => !sizes_ok(g, *limits),
            CompileError::DispatchTooLarge(_) => !dispatch_ok(g, *limits),
            CompileError::Ir(ie) => ie == IrError::Cycle && !g.acyclic(),
        },
{
    if opset_version < 1 {
        return Err(CompileError::UnsupportedOpset(opset_version));
    }
    check_types(g)?;
    let sizes = plan_buffers(g, limits)?;
    let w = plan_dispatch(g, limits, &sizes)?;
    let order = match topological_order(g) {
        Ok(o) => o,
        Err(e) => {
            return Err(CompileError::Ir(e));
        },
    };
    let mut steps: Vec<Step> = Vec::new();
    let mut q: usize = 0;
    while q < order.len()
        invariant
            g.is_topological_order(order@),
            w@.len() == g.num_nodes(),
            forall|i: int| 0 <= i < g.num_nodes() ==> w@[i] == workgroups_for(g, i),
            0 <= q <= order@.len(),
            steps@.len() == q,
            forall|p: int| 0 <= p < q ==> steps@[p].node == order@[p],
            forall|p: int| 0 <= p < q ==> step_of(g, #[trigger] steps@[p], steps@[p].node as int),
        decreases order@.len() - q,
    {
        let i = order[q];
        proof {
            assert(g.ready(order@.take(q as int), i as int));
        }
        let node = &g.nodes[i];
        let mut binds: Vec<Binding> = Vec::new();
        bind_all(&node.inputs, Access::ReadOnly, &mut binds);
        bind_all(&node.outputs, Access::ReadWrite, &mut binds);
        proof {
            assert(binds@ =~= binds_of(*node));
        }
        steps.push(Step { node: i, shader: node.op, binds, workgroups: w[i] });
        q = q + 1;
    }
    proof {
        assert(step_nodes(&Program { steps, buffer_sizes: sizes }) =~= order@);
    }
    Ok(Program { steps, buffer_sizes: sizes })
}

} // verus!
