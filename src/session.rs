use vstd::prelude::*;
use crate::compiler::{byte_size, compile, compiled_from, dispatch_ok, node_types_ok, step_of, workgroups_for, sizes_ok, types_ok, CompileError, DeviceLimits, Program};
use crate::ir::{Graph, IrError, Node};
use crate::optimizer::{first_fusible, fully_fused, fuse_closure, fused_in, fused_op, next_fusion, optimized_form, optimized_nodes, lemma_needed_prefix, needed, needed_nodes, needed_prefix, optimize, OptimizerError};
use crate::utils::{shape_product, InputTensor};

verus! {

/// One operator set a model declares: a domain (empty for the standard one) and a version.
#[derive(Clone, Debug)]
pub struct OpsetImport {
    pub domain: String,
    pub version: i64,
}

/// A parsed model: the operator sets it declares and its graph.
#[derive(Clone, Debug)]
pub struct Model {
    pub opset_import: Vec<OpsetImport>,
    pub graph: Graph,
}

/// Why a session could not be built or a run was refused.
#[derive(Clone, Debug)]
pub enum SessionError {
    /// A supplied input name is not among the model's declared inputs.
    InvalidInput(String),
    /// A requested output name is not among the model's declared outputs.
    InvalidOutput(String),
    /// A declared input was not supplied.
    MissingInput(String),
    /// The element count of a supplied input differs from its declared shape.
    ShapeMismatch(String),
    /// The element type of a supplied input differs from its declaration.
    TypeMismatch(String),
    /// Two different versions of the standard operator set were declared.
    DuplicateOnnxOpset(i64, i64),
    /// A non-standard operator set was declared.
    UnknownOpset(String),
    /// No version of the standard operator set was declared.
    UnknownOnnxOpsetVersion,
    IrError(IrError),
    CompileError(CompileError),
    OptimizerError(OptimizerError),
}

/// Scans the declared operator sets from position `i`, given the standard version found so far.
pub open spec fn opset_scan(s: Seq<OpsetImport>, i: int, found: Option<i64>) -> Result<Option<i64>, SessionError>
    decreases s.len() - i,
{
    if i < 0 || i >= s.len() {
        Ok(found)
    } else if s[i].domain@.len() != 0 {
        Err(SessionError::UnknownOpset(s[i].domain))
    } else {
        match found {
            Some(v) => if s[i].version != v {
                Err(SessionError::DuplicateOnnxOpset(v, s[i].version))
            } else {
                opset_scan(s, i + 1, found)
            },
            None => opset_scan(s, i + 1, Some(s[i].version)),
        }
    }
}

proof fn lemma_opset_scan_errors(s: Seq<OpsetImport>, i: int, found: Option<i64>)
    ensures
        opset_scan(s, i, found) matches Err(e) ==> (e is UnknownOpset || e is DuplicateOnnxOpset),
    decreases s.len() - i,
{
    if 0 <= i < s.len() && s[i].domain@.len() == 0 {
        match found {
            Some(v) => {
                lemma_opset_scan_errors(s, i + 1, found);
            },
            None => {
                lemma_opset_scan_errors(s, i + 1, Some(s[i].version));
            },
        }
    }
}

/// The standard operator set version a model declares, or why there is not exactly one.
pub open spec fn opset_version_of(s: Seq<OpsetImport>) -> Result<i64, SessionError> {
    match opset_scan(s, 0, None) {
        Ok(Some(v)) => Ok(v),
        Ok(None) => Err(SessionError::UnknownOnnxOpsetVersion),
        Err(e) => Err(e),
    }
}

/// Finds the one version of the standard operator set that the declarations name.
pub fn resolve_opset_version(imports: &Vec<OpsetImport>) -> (r: Result<i64, SessionError>)
    ensures
        r == opset_version_of(imports@),
{
    let mut found: Option<i64> = None;
    let mut i: usize = 0;
    while i < imports.len()
        invariant
            0 <= i <= imports@.len(),
            opset_scan(imports@, 0, None) == opset_scan(imports@, i as int, found),
        decreases imports@.len() - i,
    {
        let imp = &imports[i];
        if !imp.domain.as_str().is_empty() {
            return Err(SessionError::UnknownOpset(imp.domain.clone()));
        }
        match found {
            Some(v) => {
                if imp.version != v {
                    return Err(SessionError::DuplicateOnnxOpset(v, imp.version));
                }
            },
            None => {
                found = Some(imp.version);
            },
        }
        i = i + 1;
    }
    match found {
        Some(v) => Ok(v),
        None => Err(SessionError::UnknownOnnxOpsetVersion),
    }
}

/// One upload of a run: the supplied entry `source` goes into buffer `buffer`.
#[derive(Clone, Copy, Debug, PartialEq, Eq, Structural)]
pub struct Upload {
    pub buffer: usize,
    pub source: usize,
}

/// What the device does for one run: the uploads, then every step of the program in order,
/// then a read back of each listed buffer as 32-bit floats.
#[derive(Clone, Debug)]
pub struct RunPlan {
    pub uploads: Vec<Upload>,
    pub readback: Vec<usize>,
}

/// What building a session from `model` may give: each stage fails exactly when its input does
/// not pass it (the operator sets, then the graph, then the optimized graph, then the
/// compilation conditions on the optimized graph), and a session holds the compiled optimized
/// graph.
pub open spec fn build_outcome(model: &Model, limits: DeviceLimits, r: Result<Session, SessionError>) -> bool {
    let opset = opset_version_of(model.opset_import@);
    let valid = model.graph.well_formed() && model.graph.acyclic();
    &&& opset is Err ==> r == Err::<Session, SessionError>(opset->Err_0)
    &&& r is Ok ==> opset is Ok
    &&& (r matches Ok(s) ==> {
        &&& s.opset_version == opset->Ok_0
        &&& s.opset_version >= 1
        &&& valid
        &&& optimized_form(&model.graph, &s.graph)
        &&& s.graph.acyclic()
        &&& types_ok(&s.graph)
        &&& sizes_ok(&s.graph, limits)
        &&& dispatch_ok(&s.graph, limits)
        &&& s.compiled()
        &&& s.graph.num_nodes() <= needed_nodes(&model.graph).len()
        &&& fully_fused(&s.graph)
    })
    &&& (r matches Err(SessionError::IrError(_)) ==> !valid)
    &&& (opset is Ok && !valid ==> r matches Err(SessionError::IrError(_)))
    &&& (r matches Err(SessionError::OptimizerError(_)) ==> {
        &&& opset is Ok
        &&& valid
        &&& exists|h: Graph| optimized_form(&model.graph, &h) && !(h.well_formed() && h.acyclic())
    })
    &&& (r matches Err(SessionError::CompileError(_)) ==> {
        &&& opset is Ok
        &&& valid
        &&& exists|h: Graph|
            optimized_form(&model.graph, &h) && h.well_formed() && h.acyclic() && !(opset->Ok_0 >= 1
                && types_ok(&h) && sizes_ok(&h, limits) && dispatch_ok(&h, limits))
    })
    &&& (r matches Err(e) ==> opset is Err || e is IrError || e is OptimizerError || e is CompileError)
}

/// A compiled model, ready to run.
pub struct Session {
    pub graph: Graph,
    pub program: Program,
    pub opset_version: i64,
}

impl Session {
    /// The graph is valid and the program is its compilation.
    pub open spec fn compiled(&self) -> bool {
        &&& self.graph.well_formed()
        &&& compiled_from(&self.graph, &self.program)
    }

    /// Checks the declared operator sets, builds the graph, optimises and compiles it. Each
    /// stage fails exactly when its input does not pass it: the operator sets, then the graph,
    /// then the optimized graph, then the compilation conditions on the optimized graph.
    pub fn from_model(model: Model, limits: DeviceLimits) -> (r: Result<Session, SessionError>)
        ensures
            build_outcome(&model, limits, r),
    {
        proof {
            lemma_opset_scan_errors(model.opset_import@, 0, None);
        }
        let opset_version = resolve_opset_version(&model.opset_import)?;
        let Model { opset_import, graph } = model;
        let graph = match graph.build() {
            Ok(g) => g,
            Err(e) => {
                return Err(SessionError::IrError(e));
            },
        };
        let graph = match optimize(graph) {
            Ok(g) => g,
            Err(e) => {
                return Err(SessionError::OptimizerError(e));
            },
        };
        let program = match compile(&graph, &limits, opset_version) {
            Ok(p) => p,
            Err(e) => {
                assert(optimized_form(&model.graph, &graph));
                return Err(SessionError::CompileError(e));
            },
        };
        Ok(Session { graph, program, opset_version })
    }
}

/// Every node of `nodes` reads what some needed node of `g` reads and writes what some needed
/// node of `g` writes.
pub open spec fn drawn_from_needed(g: &Graph, nodes: Seq<Node>) -> bool {
    forall|k: int|
        0 <= k < nodes.len() ==> {
            &&& exists|i: int|
                0 <= i < g.num_nodes() && needed(g, i) && (#[trigger] nodes[k]).inputs == g.nodes@[i].inputs
            &&& exists|j: int| 0 <= j < g.num_nodes() && needed(g, j) && nodes[k].outputs == g.nodes@[j].outputs
        }
}

proof fn lemma_needed_nodes_drawn(g: &Graph)
    ensures
        drawn_from_needed(g, needed_nodes(g)),
{
    lemma_needed_prefix(g, g.num_nodes());
    let ns = needed_nodes(g);
    assert forall|k: int| 0 <= k < ns.len() implies {
        &&& exists|i: int|
            0 <= i < g.num_nodes() && needed(g, i) && (#[trigger] ns[k]).inputs == g.nodes@[i].inputs
        &&& exists|j: int| 0 <= j < g.num_nodes() && needed(g, j) && ns[k].outputs == g.nodes@[j].outputs
    } by {
        let i = needed_prefix(g, g.num_nodes())[k];
        assert(ns[k] == g.nodes@[i]);
    }
}

proof fn lemma_fused_drawn(g: &Graph, nodes: Seq<Node>, i: int, j: int)
    requires
        drawn_from_needed(g, nodes),
        0 <= i < nodes.len(),
        0 <= j < nodes.len(),
        i != j,
    ensures
        drawn_from_needed(g, fused_in(nodes, i, j)),
{
    let m = Node { op: fused_op(nodes[i].op)->Some_0, inputs: nodes[i].inputs, outputs: nodes[j].outputs };
    let u = nodes.update(i, m);
    let f = fused_in(nodes, i, j);
    assert(f == u.remove(j));
    assert forall|k: int| 0 <= k < f.len() implies {
        &&& exists|a: int|
            0 <= a < g.num_nodes() && needed(g, a) && (#[trigger] f[k]).inputs == g.nodes@[a].inputs
        &&& exists|b: int| 0 <= b < g.num_nodes() && needed(g, b) && f[k].outputs == g.nodes@[b].outputs
    } by {
        let src = if k < j { k } else { k + 1 };
        assert(f[k] == u[src]);
        if src == i {
            assert(f[k].inputs == nodes[i].inputs);
            assert(f[k].outputs == nodes[j].outputs);
            let a = choose|a: int| 0 <= a < g.num_nodes() && needed(g, a) && (#[trigger] nodes[i]).inputs == g.nodes@[a].inputs;
            let b = choose|b: int| 0 <= b < g.num_nodes() && needed(g, b) && (#[trigger] nodes[j]).outputs == g.nodes@[b].outputs;
        } else {
            assert(f[k] == nodes[src]);
        }
    }
}

proof fn lemma_closure_drawn(g: &Graph, nodes: Seq<Node>, outs: Seq<usize>, fuel: nat)
    requires
        drawn_from_needed(g, nodes),
    ensures
        drawn_from_needed(g, fuse_closure(nodes, outs, fuel)),
    decreases fuel,
{
    if fuel > 0 {
        if let Some(p) = next_fusion(nodes, outs) {
            assert(first_fusible(nodes, outs, p.0, p.1));
            lemma_fused_drawn(g, nodes, p.0, p.1);
            lemma_closure_drawn(g, fused_in(nodes, p.0, p.1), outs, (fuel - 1) as nat);
        }
    }
}

/// Every step of a session's program runs a node that reads what a needed node of the model
/// reads and writes what a needed node of the model writes: the results of a node that reaches
/// no declared output are never computed.
pub proof fn lemma_dead_nodes_absent(model: &Graph, s: &Session)
    requires
        s.compiled(),
        optimized_form(model, &s.graph),
    ensures
        forall|q: int|
            0 <= q < s.program.steps@.len() ==> {
                let x = s.graph.nodes@[(#[trigger] s.program.steps@[q]).node as int];
                &&& exists|i: int| 0 <= i < model.num_nodes() && needed(model, i) && x.inputs == model.nodes@[i].inputs
                &&& exists|j: int| 0 <= j < model.num_nodes() && needed(model, j) && x.outputs == model.nodes@[j].outputs
            },
{
    lemma_needed_nodes_drawn(model);
    let ns = needed_nodes(model);
    lemma_closure_drawn(model, ns, model.outputs@, ns.len());
    assert forall|q: int| 0 <= q < s.program.steps@.len() implies {
        let x = s.graph.nodes@[(#[trigger] s.program.steps@[q]).node as int];
        &&& exists|i: int| 0 <= i < model.num_nodes() && needed(model, i) && x.inputs == model.nodes@[i].inputs
        &&& exists|j: int| 0 <= j < model.num_nodes() && needed(model, j) && x.outputs == model.nodes@[j].outputs
    } by {
        let a = crate::compiler::step_nodes(&s.program);
        assert(a[q] == s.program.steps@[q].node);
        assert(s.graph.ready(a.take(q), a[q] as int));
        let k = a[q] as int;
        assert(s.graph.nodes@[k] == optimized_nodes(model)[k]);
    }
}

/// Two graphs with the same tables and node list agree on every property the library checks.
proof fn lemma_same_form(g: &Graph, h1: &Graph, h2: &Graph, limits: DeviceLimits)
    requires
        optimized_form(g, h1),
        optimized_form(g, h2),
    ensures
        h1.well_formed() == h2.well_formed(),
        h1.acyclic() == h2.acyclic(),
        types_ok(h1) == types_ok(h2),
        sizes_ok(h1, limits) == sizes_ok(h2, limits),
        dispatch_ok(h1, limits) == dispatch_ok(h2, limits),
        forall|p: Program| compiled_from(h1, &p) == compiled_from(h2, &p),
{
    assert(h1.ids_in_range() == h2.ids_in_range());
    assert forall|i: int| h1.node_ok(i) == h2.node_ok(i) by {}
    assert(h1.nodes_ok() == h2.nodes_ok());
    assert forall|i: int, t: usize| h1.produces(i, t) == h2.produces(i, t) by {}
    assert(h1.single_producer() == h2.single_producer());
    assert(h1.inputs_resolved() == h2.inputs_resolved());
    assert(h1.outputs_resolved() == h2.outputs_resolved());
    assert forall|o: Seq<usize>| h1.is_topological_order(o) == h2.is_topological_order(o) by {
        assert forall|q: int| 0 <= q < o.len() implies h1.ready(o.take(q), o[q] as int) == h2.ready(o.take(q), o[q] as int) by {
            let d = o.take(q);
            assert forall|t: usize| h1.available(d, t) == h2.available(d, t) by {}
        }
    }
    if h1.acyclic() {
        let o = choose|o: Seq<usize>| h1.is_topological_order(o);
        assert(h2.is_topological_order(o));
    }
    if h2.acyclic() {
        let o = choose|o: Seq<usize>| h2.is_topological_order(o);
        assert(h1.is_topological_order(o));
    }
    assert forall|i: int| node_types_ok(h1, i) == node_types_ok(h2, i) by {}
    assert forall|t: int| byte_size(h1, t) == byte_size(h2, t) by {}
    assert forall|i: int| workgroups_for(h1, i) == workgroups_for(h2, i) by {}
    assert forall|p: Program| compiled_from(h1, &p) == compiled_from(h2, &p) by {
        let o = crate::compiler::step_nodes(&p);
        assert(h1.is_topological_order(o) == h2.is_topological_order(o));
        assert forall|q: int, i: int| h1.ready(o.take(q), i) == h2.ready(o.take(q), i) by {
            assert forall|t: usize| h1.available(o.take(q), t) == h2.available(o.take(q), t) by {}
        }
        assert(h1.takes_first_ready(o) == h2.takes_first_ready(o));
        assert forall|q: int| step_of(h1, p.steps@[q], p.steps@[q].node as int) == step_of(h2, p.steps@[q], p.steps@[q].node as int) by {}
    }
}

/// Building a session twice from one model: when one build succeeds, the other does too, and
/// both programs have the same steps (node, shader, bindings with access modes, workgroup
/// count) in the same order, and the same buffer sizes.
pub proof fn lemma_build_repeatable(
    model: &Model,
    limits: DeviceLimits,
    r1: Result<Session, SessionError>,
    r2: Result<Session, SessionError>,
)
    requires
        build_outcome(model, limits, r1),
        build_outcome(model, limits, r2),
        r1 is Ok,
    ensures
        r2 is Ok,
        crate::compiler::step_nodes(&r1->Ok_0.program) == crate::compiler::step_nodes(&r2->Ok_0.program),
        forall|q: int|
            0 <= q < r1->Ok_0.program.steps@.len() ==> {
                let s1 = #[trigger] r1->Ok_0.program.steps@[q];
                let s2 = r2->Ok_0.program.steps@[q];
                s1.node == s2.node && s1.shader == s2.shader && s1.binds@ == s2.binds@ && s1.workgroups
                    == s2.workgroups
            },
        r1->Ok_0.program.buffer_sizes@ == r2->Ok_0.program.buffer_sizes@,
{
    let s1 = r1->Ok_0;
    match r2 {
        Ok(s2) => {
            lemma_same_form(&model.graph, &s1.graph, &s2.graph, limits);
            assert(compiled_from(&s1.graph, &s2.program));
            crate::compiler::lemma_compile_deterministic(&s1.graph, &s1.program, &s2.program);
        },
        Err(e) => {
            if e is OptimizerError {
                let h = choose|h: Graph| optimized_form(&model.graph, &h) && !(h.well_formed() && h.acyclic());
                lemma_same_form(&model.graph, &s1.graph, &h, limits);
            } else if e is CompileError {
                let h = choose|h: Graph|
                    optimized_form(&model.graph, &h) && h.well_formed() && h.acyclic() && !(
                    opset_version_of(model.opset_import@)->Ok_0 >= 1 && types_ok(&h) && sizes_ok(&h, limits)
                        && dispatch_ok(&h, limits));
                lemma_same_form(&model.graph, &s1.graph, &h, limits);
            }
        },
    }
}

/// Name of the `d`-th declared input.
pub open spec fn input_name(g: &Graph, d: int) -> Seq<char> {
    g.tensors@[g.inputs@[d] as int].name@
}

/// Name of the `d`-th declared output.
pub open spec fn output_name(g: &Graph, d: int) -> Seq<char> {
    g.tensors@[g.outputs@[d] as int].name@
}

pub open spec fn input_declared(g: &Graph, name: Seq<char>) -> bool {
    exists|d: int| 0 <= d < g.inputs@.len() && #[trigger] input_name(g, d) == name
}

pub open spec fn output_declared(g: &Graph, name: Seq<char>) -> bool {
    exists|d: int| 0 <= d < g.outputs@.len() && #[trigger] output_name(g, d) == name
}

/// The data matches every declared input of that name in element type.
pub open spec fn type_matches(g: &Graph, name: Seq<char>, t: InputTensor) -> bool {
    forall|d: int|
        0 <= d < g.inputs@.len() && #[trigger] input_name(g, d) == name
            ==> g.tensors@[g.inputs@[d] as int].dtype == t.spec_dtype()
}

/// The data matches every declared input of that name in element count.
pub open spec fn count_matches(g: &Graph, name: Seq<char>, t: InputTensor) -> bool {
    forall|d: int|
        0 <= d < g.inputs@.len() && #[trigger] input_name(g, d) == name
            ==> shape_product(g.tensors@[g.inputs@[d] as int].shape@) == t.spec_len()
}

/// A supplied input is acceptable: its name is declared and it matches the declaration.
pub open spec fn input_ok(g: &Graph, name: Seq<char>, t: InputTensor) -> bool {
    input_declared(g, name) && type_matches(g, name, t) && count_matches(g, name, t)
}

pub open spec fn supplied(inputs: Seq<(String, InputTensor)>, name: Seq<char>) -> bool {
    exists|k: int| 0 <= k < inputs.len() && (#[trigger] inputs[k]).0@ == name
}

impl Session {
    /// Checks the inputs of a run against the declared inputs and says, for each declared
    /// input in order, which supplied entry feeds it.
    pub fn check_inputs(&self, inputs: &Vec<(String, InputTensor)>) -> (r: Result<Vec<usize>, SessionError>)
        requires
            self.graph.ids_in_range(),
        ensures
            r is Ok <==> (forall|k: int|
                0 <= k < inputs@.len() ==> input_ok(&self.graph, (#[trigger] inputs@[k]).0@, inputs@[k].1))
                && (forall|d: int|
                0 <= d < self.graph.inputs@.len() ==> supplied(inputs@, #[trigger] input_name(&self.graph, d))),
            r matches Ok(plan) ==> {
                &&& plan@.len() == self.graph.inputs@.len()
                &&& forall|d: int| 0 <= d < plan@.len() ==> #[trigger] plan@[d] < inputs@.len()
                &&& forall|d: int|
                    0 <= d < plan@.len() ==> inputs@[plan@[d] as int].0@ == #[trigger] input_name(&self.graph, d)
                &&& forall|d: int, e: int|
                    0 <= d < plan@.len() && 0 <= e < plan@[d] ==> (#[trigger] inputs@[e]).0@ != #[trigger] input_name(
                        &self.graph,
                        d,
                    )
            },
            (exists|k: int| 0 <= k < inputs@.len() && !input_declared(&self.graph, (#[trigger] inputs@[k]).0@))
                ==> r matches Err(SessionError::InvalidInput(_)),
            r matches Err(e) ==> match e {
                SessionError::InvalidInput(n) => exists|k: int|
                    0 <= k < inputs@.len() && (#[trigger] inputs@[k]).0@ == n@ && !input_declared(&self.graph, n@),
                SessionError::TypeMismatch(n) => exists|k: int|
                    0 <= k < inputs@.len() && (#[trigger] inputs@[k]).0@ == n@ && !type_matches(
                        &self.graph,
                        n@,
                        inputs@[k].1,
                    ),
                SessionError::ShapeMismatch(n) => exists|k: int|
                    0 <= k < inputs@.len() && (#[trigger] inputs@[k]).0@ == n@ && !count_matches(
                        &self.graph,
                        n@,
                        inputs@[k].1,
                    ),
                SessionError::MissingInput(n) => exists|d: int|
                    0 <= d < self.graph.inputs@.len() && #[trigger] input_name(&self.graph, d) == n@
                        && !supplied(inputs@, n@),
                _ => false,
            },
    {
        let g = &self.graph;
        let mut k: usize = 0;
        while k < inputs.len()
            invariant
                g == &self.graph,
                g.ids_in_range(),
                0 <= k <= inputs@.len(),
                forall|j: int| 0 <= j < k ==> input_declared(g, (#[trigger] inputs@[j]).0@),
            decreases inputs@.len() - k,
        {
            let name = &inputs[k].0;
            let mut d: usize = 0;
            let mut found = false;
            while d < g.inputs.len() && !found
                invariant
                    g.ids_in_range(),
                    0 <= d <= g.inputs@.len(),
                    found ==> input_declared(g, name@),
                    !found ==> forall|e: int| 0 <= e < d ==> #[trigger] input_name(g, e) != name@,
                decreases g.inputs@.len() - d,
            {
                if g.tensors[g.inputs[d]].name == *name {
                    assert(input_name(g, d as int) == name@);
                    found = true;
                }
                d = d + 1;
            }
            if !found {
                return Err(SessionError::InvalidInput(name.clone()));
            }
            k = k + 1;
        }
        let mut k: usize = 0;
        while k < inputs.len()
            invariant
                g == &self.graph,
                g.ids_in_range(),
                forall|j: int| 0 <= j < inputs@.len() ==> input_declared(g, (#[trigger] inputs@[j]).0@),
                0 <= k <= inputs@.len(),
                forall|j: int| 0 <= j < k ==> input_ok(g, (#[trigger] inputs@[j]).0@, inputs@[j].1),
            decreases inputs@.len() - k,
        {
            let name = &inputs[k].0;
            let data = &inputs[k].1;
            let mut found = false;
            let mut type_ok = true;
            let mut count_ok = true;
            let mut d: usize = 0;
            while d < g.inputs.len()
                invariant
                    g.ids_in_range(),
                    k < inputs@.len(),
                    *name == inputs@[k as int].0,
                    *data == inputs@[k as int].1,
                    0 <= d <= g.inputs@.len(),
                    found == exists|e: int| 0 <= e < d && #[trigger] input_name(g, e) == name@,
                    type_ok == forall|e: int|
                        0 <= e < d && #[trigger] input_name(g, e) == name@
                            ==> g.tensors@[g.inputs@[e] as int].dtype == data.spec_dtype(),
                    count_ok == forall|e: int|
                        0 <= e < d && #[trigger] input_name(g, e) == name@
                            ==> shape_product(g.tensors@[g.inputs@[e] as int].shape@) == data.spec_len(),
                decreases g.inputs@.len() - d,
            {
                let desc = &g.tensors[g.inputs[d]];
                if desc.name == *name {
                    found = true;
                    if desc.dtype != data.dtype() {
                        type_ok = false;
                    }
                    let dl = data.len();
                    let cm = match crate::utils::element_count(&desc.shape) {
                        Some(c) => c as u128 == dl as u128,
                        None => false,
                    };
                    assert(cm == (shape_product(desc.shape@) == data.spec_len())) by {
                        assert(dl as int <= u64::MAX);
                    }
                    if !cm {
                        count_ok = false;
                    }
                }
                proof {
                    assert(input_name(g, d as int) == desc.name@);
                }
                d = d + 1;
            }
            if !found {
                return Err(SessionError::InvalidInput(name.clone()));
            }
            if !type_ok {
                return Err(SessionError::TypeMismatch(name.clone()));
            }
            if !count_ok {
                return Err(SessionError::ShapeMismatch(name.clone()));
            }
            k = k + 1;
        }
        let mut plan: Vec<usize> = Vec::new();
        let mut d: usize = 0;
        while d < g.inputs.len()
            invariant
                g == &self.graph,
                g.ids_in_range(),
                forall|j: int| 0 <= j < inputs@.len() ==> input_ok(g, (#[trigger] inputs@[j]).0@, inputs@[j].1),
                0 <= d <= g.inputs@.len(),
                plan@.len() == d,
                forall|e: int|
                    0 <= e < d ==> #[trigger] plan@[e] < inputs@.len() && inputs@[plan@[e] as int].0@
                        == input_name(g, e),
                forall|e: int| 0 <= e < d ==> supplied(inputs@, #[trigger] input_name(g, e)),
                forall|e: int, c: int|
                    0 <= e < d && 0 <= c < plan@[e] ==> (#[trigger] inputs@[c]).0@ != #[trigger] input_name(g, e),
            decreases g.inputs@.len() - d,
        {
            let name = &g.tensors[g.inputs[d]].name;
            let mut k: usize = 0;
            let mut at: Option<usize> = None;
            while k < inputs.len() && at.is_none()
                invariant
                    0 <= k <= inputs@.len(),
                    at matches Some(j) ==> j < inputs@.len() && inputs@[j as int].0@ == name@ && forall|c: int|
                        0 <= c < j ==> (#[trigger] inputs@[c]).0@ != name@,
                    at is None ==> forall|j: int| 0 <= j < k ==> (#[trigger] inputs@[j]).0@ != name@,
                decreases inputs@.len() - k,
            {
                if inputs[k].0 == *name {
                    at = Some(k);
                }
                k = k + 1;
            }
            match at {
                Some(j) => {
                    assert(j < inputs@.len());
                    let ghost before = plan@;
                    plan.push(j);
                    proof {
                        assert(input_name(g, d as int) == name@);
                        assert(plan@[d as int] == j);
                        assert forall|e: int|
                            0 <= e < d + 1 implies #[trigger] plan@[e] < inputs@.len() && inputs@[plan@[e] as int].0@
                                == input_name(g, e) by {
                            if e < d {
                                assert(plan@[e] == before[e]);
                                assert(before[e] < inputs@.len());
                            }
                        }
                        assert(supplied(inputs@, input_name(g, d as int)));
                        assert forall|e: int, c: int|
                            0 <= e < d + 1 && 0 <= c < plan@[e] implies (#[trigger] inputs@[c]).0@
                                != #[trigger] input_name(g, e) by {
                            if e < d {
                                assert(plan@[e] == before[e]);
                            }
                        }
                    }
                },
                None => {
                    proof {
                        assert(input_name(g, d as int) == name@);
                    }
                    return Err(SessionError::MissingInput(name.clone()));
                },
            }
            d = d + 1;
        }
        Ok(plan)
    }

    /// Plans a run: checks the inputs, uploads each declared input from the entry that names it,
    /// and reads back every declared output.
    pub fn run(&self, inputs: &Vec<(String, InputTensor)>) -> (r: Result<RunPlan, SessionError>)
        requires
            self.graph.ids_in_range(),
        ensures
            r is Ok <==> (forall|k: int|
                0 <= k < inputs@.len() ==> input_ok(&self.graph, (#[trigger] inputs@[k]).0@, inputs@[k].1))
                && (forall|d: int|
                0 <= d < self.graph.inputs@.len() ==> supplied(inputs@, #[trigger] input_name(&self.graph, d))),
            r matches Ok(plan) ==> {
                &&& plan.uploads@.len() == self.graph.inputs@.len()
                &&& forall|d: int|
                    0 <= d < plan.uploads@.len() ==> {
                        let u = #[trigger] plan.uploads@[d];
                        &&& u.buffer == self.graph.inputs@[d]
                        &&& u.source < inputs@.len()
                        &&& inputs@[u.source as int].0@ == input_name(&self.graph, d)
                        &&& forall|c: int| 0 <= c < u.source ==> (#[trigger] inputs@[c]).0@ != input_name(&self.graph, d)
                    }
                &&& plan.readback@ == self.graph.outputs@
            },
            (exists|k: int| 0 <= k < inputs@.len() && !input_declared(&self.graph, (#[trigger] inputs@[k]).0@))
                ==> r matches Err(SessionError::InvalidInput(_)),
            r matches Err(e) ==> match e {
                SessionError::InvalidInput(n) => exists|k: int|
                    0 <= k < inputs@.len() && (#[trigger] inputs@[k]).0@ == n@ && !input_declared(&self.graph, n@),
                SessionError::TypeMismatch(n) => exists|k: int|
                    0 <= k < inputs@.len() && (#[trigger] inputs@[k]).0@ == n@ && !type_matches(
                        &self.graph,
                        n@,
                        inputs@[k].1,
                    ),
                SessionError::ShapeMismatch(n) => exists|k: int|
                    0 <= k < inputs@.len() && (#[trigger] inputs@[k]).0@ == n@ && !count_matches(
                        &self.graph,
                        n@,
                        inputs@[k].1,
                    ),
                SessionError::MissingInput(n) => exists|d: int|
                    0 <= d < self.graph.inputs@.len() && #[trigger] input_name(&self.graph, d) == n@
                        && !supplied(inputs@, n@),
                _ => false,
            },
    {
        let sources = match self.check_inputs(inputs) {
            Ok(v) => v,
            Err(e) => {
                return Err(e);
            },
        };
        let mut uploads: Vec<Upload> = Vec::new();
        let mut d: usize = 0;
        while d < sources.len()
            invariant
                sources@.len() == self.graph.inputs@.len(),
                forall|e: int| 0 <= e < sources@.len() ==> #[trigger] sources@[e] < inputs@.len(),
                forall|e: int|
                    0 <= e < sources@.len() ==> inputs@[sources@[e] as int].0@ == #[trigger] input_name(&self.graph, e),
                0 <= d <= sources@.len(),
                uploads@.len() == d,
                forall|e: int|
                    0 <= e < d ==> {
                        let u = #[trigger] uploads@[e];
                        &&& u.buffer == self.graph.inputs@[e]
                        &&& u.source < inputs@.len()
                        &&& inputs@[u.source as int].0@ == input_name(&self.graph, e)
                        &&& forall|c: int| 0 <= c < u.source ==> (#[trigger] inputs@[c]).0@ != input_name(&self.graph, e)
                    },
                forall|e: int, c: int|
                    0 <= e < sources@.len() && 0 <= c < sources@[e] ==> (#[trigger] inputs@[c]).0@
                        != #[trigger] input_name(&self.graph, e),
            decreases sources@.len() - d,
        {
            proof {
                assert(inputs@[sources@[d as int] as int].0@ == input_name(&self.graph, d as int));
            }
            uploads.push(Upload { buffer: self.graph.inputs[d], source: sources[d] });
            d = d + 1;
        }
        let mut readback: Vec<usize> = Vec::new();
        let mut k: usize = 0;
        while k < self.graph.outputs.len()
            invariant
                0 <= k <= self.graph.outputs@.len(),
                readback@ == self.graph.outputs@.take(k as int),
            decreases self.graph.outputs@.len() - k,
        {
            readback.push(self.graph.outputs[k]);
            proof {
                assert(self.graph.outputs@.take(k + 1) =~= self.graph.outputs@.take(k as int).push(
                    self.graph.outputs@[k as int],
                ));
            }
            k = k + 1;
        }
        proof {
            assert(self.graph.outputs@.take(self.graph.outputs@.len() as int) =~= self.graph.outputs@);
        }
        Ok(RunPlan { uploads, readback })
    }

    /// The tensors behind the requested output names, in the order requested.
    pub fn check_outputs(&self, names: &Vec<String>) -> (r: Result<Vec<usize>, SessionError>)
        requires
            self.graph.ids_in_range(),
        ensures
            r is Ok <==> forall|k: int| 0 <= k < names@.len() ==> output_declared(&self.graph, (#[trigger] names@[k])@),
            r matches Ok(ts) ==> ts@.len() == names@.len() && forall|k: int|
                0 <= k < ts@.len() ==> self.graph.outputs@.contains(#[trigger] ts@[k])
                    && self.graph.tensors@[ts@[k] as int].name@ == names@[k]@,
            r matches Err(e) ==> e matches SessionError::InvalidOutput(n) && exists|k: int|
                0 <= k < names@.len() && (#[trigger] names@[k])@ == n@ && !output_declared(&self.graph, n@),
    {
        let g = &self.graph;
        let mut ts: Vec<usize> = Vec::new();
        let mut k: usize = 0;
        while k < names.len()
            invariant
                g == &self.graph,
                g.ids_in_range(),
                0 <= k <= names@.len(),
                ts@.len() == k,
                forall|j: int| 0 <= j < k ==> output_declared(g, (#[trigger] names@[j])@),
                forall|j: int|
                    0 <= j < k ==> g.outputs@.contains(#[trigger] ts@[j]) && g.tensors@[ts@[j] as int].name@
                        == names@[j]@,
            decreases names@.len() - k,
        {
            let name = &names[k];
            let mut d: usize = 0;
            let mut at: Option<usize> = None;
            while d < g.outputs.len() && at.is_none()
                invariant
                    g.ids_in_range(),
                    0 <= d <= g.outputs@.len(),
                    at matches Some(e) ==> e < g.outputs@.len() && output_name(g, e as int) == name@,
                    at is None ==> forall|e: int| 0 <= e < d ==> #[trigger] output_name(g, e) != name@,
                decreases g.outputs@.len() - d,
            {
                if g.tensors[g.outputs[d]].name == *name {
                    at = Some(d);
                }
                d = d + 1;
            }
            match at {
                Some(e) => {
                    proof {
                        assert(g.outputs@.contains(g.outputs@[e as int]));
                    }
                    ts.push(g.outputs[e]);
                },
                None => {
                    return Err(SessionError::InvalidOutput(name.clone()));
                },
            }
            k = k + 1;
        }
        Ok(ts)
    }
}

} // verus!
