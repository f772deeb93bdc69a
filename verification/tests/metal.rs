use pie::collective::{
    all_gather, all_reduce, reduce_scatter, Collective, Recorder, TensorType, Traced,
};
use pie::ltx_2::{skus, Contract, Model, Template, Trace, ARCH};
use pie::metal::kquant::{lm_head, matmul, scheme, Dtype, Scheme, Tensor, Why};
use pie::metal::streamed::{
    emit_streamed_region, op_step_kind, reduce_dispatch_levels, reduce_levels, step_kind,
    step_node, streamed_step, EmitError, OpText, Runtime, Stage, StageOp, StepKind,
};
use pie::metal::wide::{
    direct_wide, value_ptr, AliasTable, Dimension, Intrinsic, OpTag, OpView, Predicate, Slots,
    ValueType,
};

#[test]
fn the_tree_has_the_levels_the_runtime_walks() {
    assert_eq!(reduce_levels(0), 1);
    assert_eq!(reduce_levels(1), 1);
    assert_eq!(reduce_levels(32), 1);
    assert_eq!(reduce_levels(33), 2);
    assert_eq!(reduce_levels(1024), 2);
    assert_eq!(reduce_levels(1025), 3);
    assert_eq!(reduce_levels(248_320), 4);
}

#[test]
fn a_step_round_trips() {
    let step = streamed_step(41, StepKind::Reduce);
    assert_eq!(step_node(step), 41);
    assert_eq!(step_kind(step), Some(StepKind::Reduce));
    assert_eq!(step_kind(0xFF), None);
}

#[test]
fn the_walks_with_state_stay_on_one_threadgroup() {
    assert_eq!(op_step_kind(OpTag::Exp, Predicate::Other, false), StepKind::Wide);
    assert_eq!(op_step_kind(OpTag::Cumsum, Predicate::Other, false), StepKind::Single);
    assert_eq!(op_step_kind(OpTag::PivotThreshold, Predicate::CummassLe, false), StepKind::Single);
    assert_eq!(op_step_kind(OpTag::PivotThreshold, Predicate::ProbGe, false), StepKind::Wide);
    assert_eq!(op_step_kind(OpTag::ReduceSum, Predicate::Other, false), StepKind::Reduce);
    assert_eq!(op_step_kind(OpTag::ReduceArgmax, Predicate::Other, true), StepKind::Argmax);
    assert_eq!(op_step_kind(OpTag::ReduceArgmax, Predicate::Other, false), StepKind::Single);
}

#[test]
fn a_reduction_is_dispatched_two_levels_at_a_time() {
    assert_eq!(reduce_dispatch_levels(1), vec![0]);
    assert_eq!(reduce_dispatch_levels(1024), vec![0]);
    assert_eq!(reduce_dispatch_levels(248_320), vec![0, 2]);
}

fn op(tag: OpTag, args: Vec<u32>) -> OpView {
    OpView {
        tag,
        code: 7,
        args,
        results: 1,
        intr: Intrinsic::Other,
        pred: Predicate::Other,
        chan: 0,
        lit_bits: 5,
        lit_dtype: 2,
    }
}

fn value(dtype: u8) -> ValueType {
    ValueType { dtype: Some(dtype), dims: vec![Dimension::Static(8)] }
}

fn slots() -> Slots {
    Slots {
        a0: "A".to_string(),
        a1: "B".to_string(),
        a2: "C".to_string(),
        o0: "O".to_string(),
        o1: "nullptr".to_string(),
    }
}

#[test]
fn direct_forms_are_written_out() {
    let types = vec![value(0), value(0), value(0)];
    let alias = AliasTable::new();
    let (pre, inner) = direct_wide(&op(OpTag::Exp, vec![0]), 3, 1, &slots(), &types, &alias)
        .expect("a unary float op has a direct form");
    assert_eq!(
        pre,
        "    const uint m4_n_3 = descriptors[1].len;\n    const uint sx_3 = descriptors[0].len == 1u ? 0u : 1u;\n"
    );
    assert_eq!(
        inner,
        "      if (i < m4_n_3) {\n        const float x_3 = m1_load_f(A, i * sx_3, 0u);\n        m1_store_f(O, i, precise::exp(x_3));\n      }\n"
    );
    let (_, literal) =
        direct_wide(&op(OpTag::Const, vec![]), 0, 0, &slots(), &types, &alias).unwrap();
    assert_eq!(literal, "      if (i < m4_n_0) {\n        m1_store_u(O, i, 5u);\n      }\n");
    assert!(direct_wide(&op(OpTag::TopK, vec![0]), 0, 0, &slots(), &types, &alias).is_none());
    let untyped = vec![ValueType { dtype: None, dims: vec![] }];
    assert!(direct_wide(&op(OpTag::Exp, vec![0]), 0, 0, &slots(), &untyped, &alias).is_none());
    assert_eq!(value_ptr(4), "scratch + offsets[4]");
}

fn text() -> OpText {
    OpText { slots: slots(), gather: String::new(), argmax: String::new() }
}

fn runtime() -> Runtime {
    Runtime {
        template: "template".to_string(),
        preamble: "preamble\n".to_string(),
        region_threads: 256,
        threads_exceeded: 0x2A,
    }
}

fn stage() -> Stage {
    Stage {
        library_valid: true,
        intrinsics_bindable: true,
        ops: vec![
            StageOp { op: op(OpTag::Iota, vec![]), base: 0, covers: false },
            StageOp { op: op(OpTag::Neg, vec![0]), base: 1, covers: true },
            StageOp { op: op(OpTag::ReduceSum, vec![1]), base: 2, covers: false },
        ],
        value_types: vec![value(2), value(2), value(2)],
        nodes: vec![0, 1, 2],
        escapes: vec![2],
        channel_count: 1,
    }
}

#[test]
fn a_region_becomes_one_kernel_with_its_dispatch_table() {
    let texts = vec![text(), text(), text()];
    let (source, steps) =
        emit_streamed_region("region_0", &stage(), &texts, &runtime()).ok().unwrap();
    assert!(source.starts_with("template\npreamble\nstruct M4Step {\n"));
    assert!(source.contains("kernel void region_0(\n"));
    assert!(source.contains("if (m3_threads > 256u)"));
    assert!(source.contains("m1_fault(status, 0x2Au)"));
    assert!(source.contains("const uint dense_0 ="));
    assert!(!source.contains("const uint dense_1 ="));
    assert!(source.contains("  switch (step.index) {\n  case 0u: {\n"));
    assert!(source.contains("m4_reduce_two_levels(7u, A, O, temporary"));
    assert!(source.ends_with("  default: return;\n  }\n}\n"));
    assert!(!source.contains('$'));
    let kinds: Vec<Option<StepKind>> = steps.iter().map(|s| step_kind(*s)).collect();
    assert_eq!(kinds.first(), Some(&Some(StepKind::Wide)));
    assert_eq!(kinds.last(), Some(&Some(StepKind::Reduce)));
    assert_eq!(step_node(*steps.last().unwrap()), 2);
}

#[test]
fn a_region_is_refused_for_the_first_reason() {
    let texts = vec![text(), text(), text()];
    let mut s = stage();
    s.nodes = vec![0, 9];
    assert_eq!(
        emit_streamed_region("r", &s, &texts, &runtime()).err(),
        Some(EmitError::RegionNodeOutOfRange)
    );
    s.intrinsics_bindable = false;
    assert_eq!(
        emit_streamed_region("r", &s, &texts, &runtime()).err(),
        Some(EmitError::IntrinsicUnbindable)
    );
    s.library_valid = false;
    assert_eq!(
        emit_streamed_region("r", &s, &texts, &runtime()).err(),
        Some(EmitError::LibraryRegionAbiInvalid)
    );
}

#[test]
fn a_row_width_names_its_scheme() {
    assert_eq!(scheme("op", 512, 168).ok(), Some(Scheme::Q2k));
    assert_eq!(scheme("op", 512, 220).ok(), Some(Scheme::Q3k));
    assert_eq!(scheme("op", 512, 288).ok(), Some(Scheme::Q4k));
    assert_eq!(scheme("op", 512, 352).ok(), Some(Scheme::Q5k));
    assert_eq!(scheme("op", 512, 420).ok(), Some(Scheme::Q6k));
    let refusal = scheme("op", 512, 421).err().unwrap();
    assert_eq!(refusal.op, "op");
    assert_eq!(
        refusal.message().unwrap(),
        "a 421-byte weight row is none of the five K-quant widths over a 512-wide contraction (2 super-blocks)"
    );
}

fn tensor(rows: u32, width: u32, dtype: Dtype) -> Tensor {
    Tensor { handle: 1, rows, width, dtype }
}

#[test]
fn a_projection_launches_or_says_why_not() {
    let act = tensor(3, 256, Dtype::Bf16);
    let w = tensor(10, 144, Dtype::U8);
    let y = tensor(3, 10, Dtype::Bf16);
    let launch = matmul(act, w, y).ok().unwrap().unwrap();
    assert_eq!(launch.entry, "kquant_matmul_q4k_bfloat16_r_4");
    assert_eq!(launch.lanes, [96, 3, 1]);
    assert_eq!(launch.group, [32, 4, 1]);
    assert_eq!((launch.n, launch.k), (10, 256));
    assert!(lm_head(tensor(0, 256, Dtype::F16), w, y).ok().unwrap().is_none());
    let why = |act: Tensor, w: Tensor, y: Tensor| matmul(act, w, y).err().unwrap().why;
    assert_eq!(why(tensor(3, 256, Dtype::Other), w, y), Why::Dtype);
    assert_eq!(why(act, w, tensor(3, 0, Dtype::Bf16)), Why::ZeroAxis);
    assert_eq!(why(tensor(3, 300, Dtype::F16), w, y), Why::Contraction { k: 300 });
    assert_eq!(
        why(act, tensor(10, 145, Dtype::U8), y),
        Why::Width { row_bytes: 145, k: 256 }
    );
    assert_eq!(
        why(tensor(u32::MAX, 256, Dtype::F16), w, y),
        Why::Tokens { m: u32::MAX }
    );
    let refusal = lm_head(tensor(3, 300, Dtype::F16), w, y).err().unwrap();
    assert_eq!(refusal.op, "linear.kquant.lm_head");
    assert_eq!(
        refusal.message().unwrap(),
        "K is 300, not a whole number of 256-element K-quant super-blocks"
    );
}

#[test]
fn scattering_undoes_gathering() {
    let ty = TensorType { rows: 4, width: 8, dtype: 1 };
    let mut rec = Recorder { values: vec![ty], records: vec![] };
    let x = Traced { id: 0, ty };
    let gathered = all_gather(&mut rec, &x, 4);
    assert_eq!(gathered.ty.width, 32);
    let back = reduce_scatter(&mut rec, &gathered, 4);
    assert_eq!(back.ty, ty);
    let summed = all_reduce(&mut rec, &back);
    assert_eq!(summed.ty, ty);
    assert_eq!(
        rec.records,
        vec![
            (Collective::AllGather { x: 0, y: 1 }, 0),
            (Collective::ReduceScatter { x: 1, y: 2 }, 1),
            (Collective::AllReduce { buf: 2, buf_out: 3 }, 2),
        ]
    );
}

#[test]
fn the_flagship_comes_first() {
    let rows = skus();
    assert_eq!(ARCH, "ltx_2");
    assert_eq!(rows.len(), 2);
    assert_eq!((rows[0].text, rows[0].model), ("ltx25", Model::Ltx25));
    assert_eq!((rows[1].text, rows[1].model), ("ltx25-mini", Model::Mini));
    assert_eq!(rows[1].generative, Some(Model::Mini));
    for row in &rows {
        assert_eq!((row.world, row.compute), (1, pie::ltx_2::Dtype::Bf16));
        assert_eq!(row.weights, vec![pie::ltx_2::Dtype::Bf16]);
        assert_eq!((row.trace, row.template), (Trace::Hybrid, Template::Instruct));
        assert_eq!(row.tokenizer, Contract::Ltx2);
    }
}
