use wonnx::compiler::{compile, Access, CompileError, DeviceLimits, Program, WORKGROUP_SIZE};
use wonnx::ir::{topological_order, Graph, IrError, Node, OpKind, Window};
use wonnx::optimizer::{eliminate_dead_nodes, fuse_all, fuse_once, needed_flags, optimize};
use wonnx::session::{resolve_opset_version, Model, OpsetImport, Upload};
use wonnx::utils::{element_count, tensor, DataType, InputTensor, TensorDesc};
use wonnx::{Session, SessionError};

fn limits() -> DeviceLimits {
    DeviceLimits { max_buffer_size: 1 << 28, max_workgroups: 65535 }
}

fn desc(name: &str, shape: &[u64], dtype: DataType) -> TensorDesc {
    TensorDesc { name: name.to_string(), shape: shape.to_vec(), dtype }
}

fn node(op: OpKind, inputs: &[usize], outputs: &[usize]) -> Node {
    Node { op, inputs: inputs.to_vec(), outputs: outputs.to_vec() }
}

fn opset(domain: &str, version: i64) -> OpsetImport {
    OpsetImport { domain: domain.to_string(), version }
}

/// x -> Relu -> y, on two elements.
fn relu_graph() -> Graph {
    Graph {
        tensors: vec![desc("x", &[2], DataType::F32), desc("y", &[2], DataType::F32)],
        nodes: vec![node(OpKind::Relu, &[0], &[1])],
        inputs: vec![0],
        outputs: vec![1],
        constants: vec![],
    }
}

/// A small classifier over a 28x28 image with ten classes.
fn classifier_graph() -> Graph {
    let w = Window { kernel: 5, stride: 1, pad: 2 };
    let p = Window { kernel: 2, stride: 2, pad: 0 };
    Graph {
        tensors: vec![
            desc("Input3", &[1, 1, 28, 28], DataType::F32),
            desc("conv_w", &[8, 1, 5, 5], DataType::F32),
            desc("conv_out", &[1, 8, 28, 28], DataType::F32),
            desc("relu_out", &[1, 8, 28, 28], DataType::F32),
            desc("pool_out", &[1, 8, 14, 14], DataType::F32),
            desc("shape", &[2], DataType::I64),
            desc("flat", &[1, 1568], DataType::F32),
            desc("fc_w", &[1568, 10], DataType::F32),
            desc("Plus214_Output_0", &[1, 10], DataType::F32),
        ],
        nodes: vec![
            node(OpKind::Conv(w), &[0, 1], &[2]),
            node(OpKind::Relu, &[2], &[3]),
            node(OpKind::MaxPool(p), &[3], &[4]),
            node(OpKind::Reshape, &[4, 5], &[6]),
            node(OpKind::Gemm { trans_a: false, trans_b: false }, &[6, 7], &[8]),
        ],
        inputs: vec![0],
        outputs: vec![8],
        constants: vec![1, 5, 7],
    }
}

fn model(graph: Graph) -> Model {
    Model { opset_import: vec![opset("", 13)], graph }
}

fn steps_of(p: &Program) -> Vec<usize> {
    p.steps.iter().map(|s| s.node).collect()
}

#[test]
fn opset_duplicate_versions_rejected() {
    let r = resolve_opset_version(&vec![opset("", 12), opset("", 13)]);
    assert!(matches!(r, Err(SessionError::DuplicateOnnxOpset(12, 13))));
}

#[test]
fn opset_unknown_domain_rejected() {
    let r = resolve_opset_version(&vec![opset("", 13), opset("ai.custom", 1)]);
    match r {
        Err(SessionError::UnknownOpset(d)) => assert_eq!(d, "ai.custom"),
        _ => panic!("expected an unknown opset"),
    }
}

#[test]
fn opset_missing_rejected() {
    let r = resolve_opset_version(&vec![]);
    assert!(matches!(r, Err(SessionError::UnknownOnnxOpsetVersion)));
}

#[test]
fn opset_repeated_same_version_accepted() {
    let r = resolve_opset_version(&vec![opset("", 13), opset("", 13)]);
    assert!(matches!(r, Ok(13)));
}

#[test]
fn session_reports_opset_errors() {
    let mut m = model(relu_graph());
    m.opset_import = vec![opset("", 12), opset("", 13)];
    assert!(matches!(Session::from_model(m, limits()), Err(SessionError::DuplicateOnnxOpset(12, 13))));
    let mut m = model(relu_graph());
    m.opset_import = vec![];
    assert!(matches!(Session::from_model(m, limits()), Err(SessionError::UnknownOnnxOpsetVersion)));
}

#[test]
fn element_counts() {
    assert_eq!(element_count(&vec![1, 1, 28, 28]), Some(784));
    assert_eq!(element_count(&vec![]), Some(1));
    assert_eq!(element_count(&vec![0, u64::MAX, u64::MAX]), Some(0));
    assert_eq!(element_count(&vec![u64::MAX, 2]), None);
    assert_eq!(element_count(&vec![1 << 32, 1 << 31]), Some(1 << 63));
}

#[test]
fn tensor_descriptor() {
    let t = tensor("x", &[1, 3]);
    assert_eq!(t.name, "x");
    assert_eq!(t.shape, vec![1, 3]);
    assert_eq!(t.dtype, DataType::F32);
}

#[test]
fn input_tensor_len_and_type() {
    let t = InputTensor::F32(vec![0, 0x3f80_0000]);
    assert_eq!(t.len(), 2);
    assert_eq!(t.dtype(), DataType::F32);
    let t = InputTensor::I64(vec![1, 2, 3]);
    assert_eq!(t.len(), 3);
    assert_eq!(t.dtype(), DataType::I64);
}

#[test]
fn build_accepts_valid_graph() {
    let g = classifier_graph().build().unwrap();
    assert_eq!(g.nodes.len(), 5);
}

#[test]
fn build_rejects_unknown_tensor() {
    let mut g = relu_graph();
    g.nodes[0].inputs = vec![7];
    assert_eq!(g.build().err(), Some(IrError::UnknownTensor(7)));
}

#[test]
fn build_rejects_two_producers() {
    let mut g = relu_graph();
    g.nodes.push(node(OpKind::Sigmoid, &[0], &[1]));
    assert_eq!(g.build().err(), Some(IrError::DuplicateProducer(1)));
}

#[test]
fn build_rejects_written_input() {
    let mut g = relu_graph();
    g.nodes[0].outputs = vec![0];
    g.outputs = vec![0];
    assert_eq!(g.build().err(), Some(IrError::DuplicateProducer(0)));
}

#[test]
fn build_rejects_undeclared_input() {
    let mut g = relu_graph();
    g.inputs = vec![];
    assert_eq!(g.build().err(), Some(IrError::UndeclaredInput(0)));
}

#[test]
fn build_rejects_unresolved_output() {
    let mut g = relu_graph();
    g.tensors.push(desc("z", &[2], DataType::F32));
    g.outputs = vec![2];
    assert_eq!(g.build().err(), Some(IrError::UnresolvedOutput(2)));
}

#[test]
fn build_rejects_cycle() {
    let g = Graph {
        tensors: vec![
            desc("x", &[2], DataType::F32),
            desc("a", &[2], DataType::F32),
            desc("b", &[2], DataType::F32),
        ],
        nodes: vec![node(OpKind::Add, &[0, 2], &[1]), node(OpKind::Relu, &[1], &[2])],
        inputs: vec![0],
        outputs: vec![2],
        constants: vec![],
    };
    assert_eq!(g.build().err(), Some(IrError::Cycle));
}

#[test]
fn order_follows_dependencies_then_declaration() {
    // node 0 reads what node 2 writes; nodes 1 and 2 are both ready at once.
    let g = Graph {
        tensors: vec![
            desc("x", &[4], DataType::F32),
            desc("a", &[4], DataType::F32),
            desc("b", &[4], DataType::F32),
            desc("c", &[4], DataType::F32),
        ],
        nodes: vec![
            node(OpKind::Relu, &[3], &[1]),
            node(OpKind::Sigmoid, &[0], &[2]),
            node(OpKind::Tanh, &[0], &[3]),
        ],
        inputs: vec![0],
        outputs: vec![1, 2],
        constants: vec![],
    };
    assert_eq!(topological_order(&g).unwrap(), vec![1, 2, 0]);
}

#[test]
fn dead_node_is_removed() {
    let mut g = relu_graph();
    g.tensors.push(desc("unused", &[2], DataType::F32));
    g.nodes.insert(0, node(OpKind::Sigmoid, &[0], &[2]));
    assert_eq!(needed_flags(&g), vec![false, true]);
    let h = eliminate_dead_nodes(g);
    assert_eq!(h.nodes.len(), 1);
    assert_eq!(h.nodes[0].op, OpKind::Relu);
    assert_eq!(h.tensors.len(), 3);
}

#[test]
fn chain_feeding_output_is_kept() {
    let g = classifier_graph();
    assert_eq!(needed_flags(&g), vec![true; 5]);
    let h = optimize(g).unwrap();
    assert_eq!(h.nodes.len(), 4);
    assert_eq!(h.nodes[0].op, OpKind::ConvRelu(Window { kernel: 5, stride: 1, pad: 2 }));
    assert_eq!(h.nodes[0].inputs, vec![0, 1]);
    assert_eq!(h.nodes[0].outputs, vec![3]);
}

#[test]
fn dead_node_has_no_step() {
    let mut g = classifier_graph();
    g.tensors.push(desc("side", &[1, 8, 28, 28], DataType::F32));
    g.nodes.insert(1, node(OpKind::Sigmoid, &[2], &[9]));
    let s = Session::from_model(model(g), limits()).unwrap();
    assert_eq!(s.program.steps.len(), 4);
    assert!(s.program.steps.iter().all(|st| st.shader != OpKind::Sigmoid));
}

#[test]
fn compile_relu_steps() {
    let g = relu_graph();
    let p = compile(&g, &limits(), 13).unwrap();
    assert_eq!(p.steps.len(), 1);
    let st = &p.steps[0];
    assert_eq!(st.node, 0);
    assert_eq!(st.shader, OpKind::Relu);
    assert_eq!(st.workgroups, 1);
    assert_eq!(st.binds.len(), 2);
    assert_eq!(st.binds[0].buffer, 0);
    assert_eq!(st.binds[0].access, Access::ReadOnly);
    assert_eq!(st.binds[1].buffer, 1);
    assert_eq!(st.binds[1].access, Access::ReadWrite);
    assert_eq!(p.buffer_sizes, vec![8, 8]);
}

#[test]
fn compile_workgroup_counts() {
    let mut g = relu_graph();
    g.tensors[0].shape = vec![1000];
    g.tensors[1].shape = vec![1000];
    let p = compile(&g, &limits(), 13).unwrap();
    assert_eq!(WORKGROUP_SIZE, 256);
    assert_eq!(p.steps[0].workgroups, 4);
    g.tensors[1].shape = vec![512];
    assert_eq!(compile(&g, &limits(), 13).unwrap().steps[0].workgroups, 2);
    g.tensors[1].shape = vec![0];
    assert_eq!(compile(&g, &limits(), 13).unwrap().steps[0].workgroups, 0);
}

#[test]
fn compile_classifier_buffers() {
    let g = classifier_graph();
    let p = compile(&g, &limits(), 13).unwrap();
    assert_eq!(steps_of(&p), vec![0, 1, 2, 3, 4]);
    assert_eq!(p.buffer_sizes[0], 784 * 4);
    assert_eq!(p.buffer_sizes[5], 16);
    assert_eq!(p.buffer_sizes[8], 40);
    assert_eq!(p.steps[3].binds.len(), 3);
}

#[test]
fn compile_rejects_bad_opset() {
    assert_eq!(compile(&relu_graph(), &limits(), 0).err(), Some(CompileError::UnsupportedOpset(0)));
}

#[test]
fn compile_rejects_integer_shader_operand() {
    let mut g = relu_graph();
    g.tensors[0].dtype = DataType::I64;
    assert_eq!(compile(&g, &limits(), 13).err(), Some(CompileError::UnsupportedType(0)));
}

#[test]
fn compile_rejects_large_buffer() {
    let small = DeviceLimits { max_buffer_size: 7, max_workgroups: 65535 };
    assert_eq!(compile(&relu_graph(), &small, 13).err(), Some(CompileError::BufferTooLarge(0)));
    let mut g = relu_graph();
    g.tensors[0].shape = vec![u64::MAX, 3];
    assert_eq!(compile(&g, &limits(), 13).err(), Some(CompileError::BufferTooLarge(0)));
}

#[test]
fn compile_rejects_large_dispatch() {
    let narrow = DeviceLimits { max_buffer_size: 1 << 28, max_workgroups: 3 };
    let mut g = relu_graph();
    g.tensors[0].shape = vec![1000];
    g.tensors[1].shape = vec![1000];
    assert_eq!(compile(&g, &narrow, 13).err(), Some(CompileError::DispatchTooLarge(0)));
}

#[test]
fn compile_rejects_cycle() {
    let g = Graph {
        tensors: vec![desc("a", &[2], DataType::F32), desc("b", &[2], DataType::F32)],
        nodes: vec![node(OpKind::Relu, &[1], &[0]), node(OpKind::Relu, &[0], &[1])],
        inputs: vec![],
        outputs: vec![1],
        constants: vec![],
    };
    assert_eq!(compile(&g, &limits(), 13).err(), Some(CompileError::Ir(IrError::Cycle)));
}

#[test]
fn compiling_twice_gives_same_program() {
    let g = classifier_graph();
    let a = compile(&g, &limits(), 13).unwrap();
    let b = compile(&g, &limits(), 13).unwrap();
    assert_eq!(steps_of(&a), steps_of(&b));
    for (x, y) in a.steps.iter().zip(b.steps.iter()) {
        assert_eq!(x.shader, y.shader);
        assert_eq!(x.binds, y.binds);
        assert_eq!(x.workgroups, y.workgroups);
    }
    assert_eq!(a.buffer_sizes, b.buffer_sizes);
}

#[test]
fn run_inputs_accepted() {
    let s = Session::from_model(model(relu_graph()), limits()).unwrap();
    let inputs = vec![("x".to_string(), InputTensor::F32(vec![0xbf80_0000, 0x3f80_0000]))];
    assert_eq!(s.check_inputs(&inputs).unwrap(), vec![0]);
    assert_eq!(s.check_outputs(&vec!["y".to_string()]).unwrap(), vec![1]);
}

#[test]
fn run_rejects_wrong_element_count() {
    let s = Session::from_model(model(relu_graph()), limits()).unwrap();
    let inputs = vec![("x".to_string(), InputTensor::F32(vec![0, 0, 0]))];
    match s.check_inputs(&inputs) {
        Err(SessionError::ShapeMismatch(n)) => assert_eq!(n, "x"),
        _ => panic!("expected a shape mismatch"),
    }
}

#[test]
fn run_rejects_wrong_type() {
    let s = Session::from_model(model(relu_graph()), limits()).unwrap();
    let inputs = vec![("x".to_string(), InputTensor::I64(vec![1, 2]))];
    assert!(matches!(s.check_inputs(&inputs), Err(SessionError::TypeMismatch(_))));
}

#[test]
fn run_rejects_unknown_input_name() {
    let s = Session::from_model(model(relu_graph()), limits()).unwrap();
    let inputs = vec![("nope".to_string(), InputTensor::F32(vec![0, 0]))];
    match s.check_inputs(&inputs) {
        Err(SessionError::InvalidInput(n)) => assert_eq!(n, "nope"),
        _ => panic!("expected an invalid input"),
    }
}

#[test]
fn run_rejects_missing_input() {
    let s = Session::from_model(model(relu_graph()), limits()).unwrap();
    match s.check_inputs(&vec![]) {
        Err(SessionError::MissingInput(n)) => assert_eq!(n, "x"),
        _ => panic!("expected a missing input"),
    }
}

#[test]
fn run_rejects_unknown_output_name() {
    let s = Session::from_model(model(relu_graph()), limits()).unwrap();
    match s.check_outputs(&vec!["y".to_string(), "z".to_string()]) {
        Err(SessionError::InvalidOutput(n)) => assert_eq!(n, "z"),
        _ => panic!("expected an invalid output"),
    }
}

#[test]
fn zero_image_runs_through_classifier() {
    let s = Session::from_model(model(classifier_graph()), limits()).unwrap();
    let inputs = vec![("Input3".to_string(), InputTensor::F32(vec![0; 784]))];
    assert_eq!(s.check_inputs(&inputs).unwrap(), vec![0]);
    let outs = s.check_outputs(&vec!["Plus214_Output_0".to_string()]).unwrap();
    assert_eq!(outs, vec![8]);
    assert_eq!(s.program.buffer_sizes[8] / 4, 10);
}

#[test]
fn single_relu_session() {
    let s = Session::from_model(model(relu_graph()), limits()).unwrap();
    assert_eq!(s.opset_version, 13);
    assert_eq!(s.program.steps.len(), 1);
    assert_eq!(s.program.steps[0].shader, OpKind::Relu);
    assert_eq!(s.program.buffer_sizes[1], 8);
}

/// x, w -> Add -> s -> Relu -> y
fn add_relu_graph() -> Graph {
    Graph {
        tensors: vec![
            desc("x", &[4], DataType::F32),
            desc("w", &[4], DataType::F32),
            desc("s", &[4], DataType::F32),
            desc("y", &[4], DataType::F32),
        ],
        nodes: vec![node(OpKind::Relu, &[2], &[3]), node(OpKind::Add, &[0, 1], &[2])],
        inputs: vec![0],
        outputs: vec![3],
        constants: vec![1],
    }
}

#[test]
fn fusion_merges_rectifier() {
    let (h, changed) = fuse_once(add_relu_graph());
    assert!(changed);
    assert_eq!(h.nodes.len(), 1);
    assert_eq!(h.nodes[0].op, OpKind::AddRelu);
    assert_eq!(h.nodes[0].inputs, vec![0, 1]);
    assert_eq!(h.nodes[0].outputs, vec![3]);
    let (h2, changed) = fuse_once(h);
    assert!(!changed);
    assert_eq!(h2.nodes.len(), 1);
}

#[test]
fn fusion_skips_declared_intermediate() {
    let mut g = add_relu_graph();
    g.outputs = vec![3, 2];
    let (h, changed) = fuse_once(g);
    assert!(!changed);
    assert_eq!(h.nodes.len(), 2);
}

#[test]
fn fusion_skips_shared_intermediate() {
    let mut g = add_relu_graph();
    g.tensors.push(desc("z", &[4], DataType::F32));
    g.nodes.push(node(OpKind::Sigmoid, &[2], &[4]));
    g.outputs.push(4);
    let h = fuse_all(g);
    assert_eq!(h.nodes.len(), 3);
    assert_eq!(h.nodes[1].op, OpKind::Add);
}

#[test]
fn fusion_skips_unfusable_producer() {
    let mut g = add_relu_graph();
    g.nodes[1].op = OpKind::Mul;
    let h = fuse_all(g);
    assert_eq!(h.nodes.len(), 2);
}

#[test]
fn fused_session_dispatches_once() {
    let s = Session::from_model(model(add_relu_graph()), limits()).unwrap();
    assert_eq!(s.program.steps.len(), 1);
    assert_eq!(s.program.steps[0].shader, OpKind::AddRelu);
    assert_eq!(s.program.steps[0].workgroups, 1);
}

#[test]
fn build_rejects_wrong_arity() {
    let mut g = relu_graph();
    g.nodes[0].inputs = vec![0, 0];
    assert_eq!(g.build().err(), Some(IrError::InvalidNode(0)));
    let mut g = relu_graph();
    g.nodes[0].op = OpKind::Add;
    assert_eq!(g.build().err(), Some(IrError::InvalidNode(0)));
}

#[test]
fn build_rejects_zero_stride() {
    let mut g = classifier_graph();
    g.nodes[2].op = OpKind::MaxPool(Window { kernel: 2, stride: 0, pad: 0 });
    assert_eq!(g.build().err(), Some(IrError::InvalidNode(2)));
}

#[test]
fn build_accepts_optional_bias() {
    let mut g = classifier_graph();
    g.tensors.push(desc("fc_b", &[10], DataType::F32));
    g.constants.push(9);
    g.nodes[4].inputs = vec![6, 7, 9];
    assert!(g.build().is_ok());
}

#[test]
fn run_plans_uploads_and_readback() {
    let s = Session::from_model(model(relu_graph()), limits()).unwrap();
    let inputs = vec![("x".to_string(), InputTensor::F32(vec![0xbf80_0000, 0x3f80_0000]))];
    let plan = s.run(&inputs).unwrap();
    assert_eq!(plan.uploads, vec![Upload { buffer: 0, source: 0 }]);
    assert_eq!(plan.readback, vec![1]);
}

#[test]
fn run_picks_entry_by_name() {
    let g = Graph {
        tensors: vec![
            desc("a", &[2], DataType::F32),
            desc("b", &[2], DataType::F32),
            desc("sum", &[2], DataType::F32),
        ],
        nodes: vec![node(OpKind::Add, &[0, 1], &[2])],
        inputs: vec![0, 1],
        outputs: vec![2],
        constants: vec![],
    };
    let s = Session::from_model(model(g), limits()).unwrap();
    let inputs = vec![
        ("b".to_string(), InputTensor::F32(vec![1, 2])),
        ("a".to_string(), InputTensor::F32(vec![3, 4])),
    ];
    let plan = s.run(&inputs).unwrap();
    assert_eq!(plan.uploads, vec![Upload { buffer: 0, source: 1 }, Upload { buffer: 1, source: 0 }]);
    assert_eq!(plan.readback, vec![2]);
}

#[test]
fn run_rejects_bad_inputs() {
    let s = Session::from_model(model(classifier_graph()), limits()).unwrap();
    let short = vec![("Input3".to_string(), InputTensor::F32(vec![0; 783]))];
    assert!(matches!(s.run(&short), Err(SessionError::ShapeMismatch(_))));
    let unknown = vec![("Input4".to_string(), InputTensor::F32(vec![0; 784]))];
    assert!(matches!(s.run(&unknown), Err(SessionError::InvalidInput(_))));
    let zeros = vec![("Input3".to_string(), InputTensor::F32(vec![0; 784]))];
    assert_eq!(s.run(&zeros).unwrap().readback, vec![8]);
}

#[test]
fn run_reports_undeclared_name_before_other_faults() {
    let s = Session::from_model(model(relu_graph()), limits()).unwrap();
    let inputs = vec![
        ("x".to_string(), InputTensor::F32(vec![0, 0, 0])),
        ("stray".to_string(), InputTensor::F32(vec![0, 0])),
    ];
    match s.run(&inputs) {
        Err(SessionError::InvalidInput(n)) => assert_eq!(n, "stray"),
        _ => panic!("expected an invalid input"),
    }
    match s.check_inputs(&inputs) {
        Err(SessionError::InvalidInput(n)) => assert_eq!(n, "stray"),
        _ => panic!("expected an invalid input"),
    }
}

#[test]
fn run_uploads_first_entry_of_a_name() {
    let s = Session::from_model(model(relu_graph()), limits()).unwrap();
    let inputs = vec![
        ("x".to_string(), InputTensor::F32(vec![1, 2])),
        ("x".to_string(), InputTensor::F32(vec![3, 4])),
    ];
    assert_eq!(s.run(&inputs).unwrap().uploads, vec![Upload { buffer: 0, source: 0 }]);
}

#[test]
fn building_twice_gives_same_program() {
    let a = Session::from_model(model(classifier_graph()), limits()).unwrap();
    let b = Session::from_model(model(classifier_graph()), limits()).unwrap();
    assert_eq!(steps_of(&a.program), steps_of(&b.program));
    for (x, y) in a.program.steps.iter().zip(b.program.steps.iter()) {
        assert_eq!(x.shader, y.shader);
        assert_eq!(x.binds, y.binds);
        assert_eq!(x.workgroups, y.workgroups);
    }
    assert_eq!(a.program.buffer_sizes, b.program.buffer_sizes);
}

#[test]
fn session_rejects_integer_operand() {
    let mut g = relu_graph();
    g.tensors[0].dtype = DataType::I64;
    g.tensors[1].dtype = DataType::I64;
    assert!(matches!(
        Session::from_model(model(g), limits()),
        Err(SessionError::CompileError(CompileError::UnsupportedType(_)))
    ));
}

#[test]
fn session_rejects_bad_opset_version() {
    let mut m = model(relu_graph());
    m.opset_import = vec![opset("", 0)];
    assert!(matches!(
        Session::from_model(m, limits()),
        Err(SessionError::CompileError(CompileError::UnsupportedOpset(0)))
    ));
}
