use mmm_core::im2col::VirtualInputSpec;
use mmm_core::mmm::mmm;
use mmm_core::mmm::DType;
use mmm_core::mmm::FusedOp;
use mmm_core::mmm::OperandStore;
use mmm_core::pack::Packer;
use mmm_core::rounding::RoundingPolicy;
use mmm_core::tensor::Tensor;
use mmm_core::CoreError;

#[test]
fn pack_is_idempotent() {
    let t = Tensor::new(vec![2, 3], vec![1, 2, 3, 4, 5, 6]).unwrap();
    let p = Packer::new(4, 16);
    let mut b1: Vec<i32> = Vec::new();
    let mut b2: Vec<i32> = Vec::new();
    p.pack(&mut b1, &t, 2, 3);
    p.pack(&mut b2, &t, 2, 3);
    assert_eq!(b1, b2);
    assert_eq!(b1, vec![1, 2, 3, 0, 4, 5, 6, 0]);
}

#[test]
fn pack_len_and_alignment() {
    let p = Packer::new(4, 32);
    assert_eq!(p.alignment(), 32);
    assert_eq!(p.len(2, 3), 8);
    assert_eq!(p.len(2, 9), 24);
    assert_eq!(p.len(0, 5), 0);
}

#[test]
fn test1() {
    // A 1x1 single-channel input against a 1x1x1x1 filter of value -1
    // must yield output = -input, through the virtual operand path.
    let kernel = mmm(DType::I32, DType::I32, DType::I32, None, None, None).unwrap();
    let filt = Tensor::new(vec![1, 1], vec![-1]).unwrap();
    let packer_a = kernel.pack_info_a();
    assert_eq!(packer_a.alignment(), 32);
    let mut abuf: Vec<i32> = Vec::new();
    packer_a.pack(&mut abuf, &filt, 1, 1);
    let a = kernel.a_packed(DType::I32, abuf, 1, 1).unwrap();
    let src = Tensor::new(vec![1, 1, 1], vec![5]).unwrap();
    let rule = VirtualInputSpec { kernel_h: 1, kernel_w: 1 };
    let b = kernel.b_virtual_input(DType::I32, rule, src, 1).unwrap();
    let ops = vec![FusedOp::AddMatMul { k: 1, a, b }, FusedOp::Store];
    let mut out = vec![0i32];
    kernel.run(1, 1, &ops, &mut out).unwrap();
    assert_eq!(out, vec![-5]);
}

#[test]
fn test2() {
    // The on-demand path must produce exactly the packer's image of the
    // materialized im2col operand, over the full extent and sub-blocks.
    let data: Vec<i32> = (0..32).map(|x| x as i32 - 7).collect();
    let src = Tensor::new(vec![2, 4, 4], data).unwrap();
    let rule = VirtualInputSpec { kernel_h: 3, kernel_w: 3 };
    let v = rule.wrap(src).unwrap();
    let kk = v.k_extent_exec();
    let nn = v.n_extent_exec();
    assert_eq!(kk, 18);
    assert_eq!(nn, 4);
    let mat = v.materialized();
    let matt = Tensor::new(vec![kk, nn], mat.clone()).unwrap();
    let packer = Packer::new(4, 32);
    let mut pb: Vec<i32> = Vec::new();
    packer.pack(&mut pb, &matt, kk, nn);
    let mut vb: Vec<i32> = Vec::new();
    v.input(&packer, &mut vb, 0, kk, 0, nn);
    assert_eq!(pb, vb);

    let mut sub: Vec<i32> = Vec::new();
    for row in 2..7 {
        for col in 0..nn {
            sub.push(mat[row * nn + col]);
        }
    }
    let subt = Tensor::new(vec![5, nn], sub).unwrap();
    let mut pb2: Vec<i32> = Vec::new();
    packer.pack(&mut pb2, &subt, 5, nn);
    let mut vb2: Vec<i32> = Vec::new();
    v.input(&packer, &mut vb2, 2, 7, 0, nn);
    assert_eq!(pb2, vb2);
}

#[test]
fn virtual_entries_read_window_offsets() {
    // One channel, 3x3 image, 2x2 window: the operand's first column
    // reads the window anchored at the image's top-left corner.
    let data: Vec<i32> = vec![1, 2, 3, 4, 5, 6, 7, 8, 9];
    let src = Tensor::new(vec![1, 3, 3], data).unwrap();
    let rule = VirtualInputSpec { kernel_h: 2, kernel_w: 2 };
    let v = rule.wrap(src).unwrap();
    assert_eq!(v.k_extent_exec(), 4);
    assert_eq!(v.n_extent_exec(), 4);
    // k decomposes as (kernel row, kernel col, channel); n as (out row,
    // out col): entry (k, 0) walks the window at the origin.
    assert_eq!(v.entry(0, 0), 1);
    assert_eq!(v.entry(1, 0), 2);
    assert_eq!(v.entry(2, 0), 4);
    assert_eq!(v.entry(3, 0), 5);
    // column 3 is the window anchored at (1, 1).
    assert_eq!(v.entry(0, 3), 5);
    assert_eq!(v.entry(3, 3), 9);
}

fn packed_store_from(kernel_r: usize, dtype: DType, rows: Vec<Vec<i32>>) -> OperandStore {
    let k = rows.len();
    let mn = rows[0].len();
    let flat: Vec<i32> = rows.into_iter().flatten().collect();
    let t = Tensor::new(vec![k, mn], flat).unwrap();
    let p = Packer::new(kernel_r, 16);
    let mut buf: Vec<i32> = Vec::new();
    p.pack(&mut buf, &t, k, mn);
    OperandStore::Packed { dtype, buf, k, mn, r: kernel_r }
}

#[test]
fn fusion_split_accumulates_identically() {
    let kernel = mmm(DType::I32, DType::I32, DType::I32, None, None, None).unwrap();
    let a = packed_store_from(kernel.mr, DType::I32, vec![vec![2], vec![3]]);
    let b = packed_store_from(kernel.nr, DType::I32, vec![vec![4], vec![5]]);
    let ops_one = vec![FusedOp::AddMatMul { k: 2, a, b }, FusedOp::Store];
    let mut out_one = vec![0i32];
    kernel.run(1, 1, &ops_one, &mut out_one).unwrap();
    assert_eq!(out_one, vec![23]);

    let a1 = packed_store_from(kernel.mr, DType::I32, vec![vec![2]]);
    let a2 = packed_store_from(kernel.mr, DType::I32, vec![vec![3]]);
    let b1 = packed_store_from(kernel.nr, DType::I32, vec![vec![4]]);
    let b2 = packed_store_from(kernel.nr, DType::I32, vec![vec![5]]);
    let ops_two = vec![
        FusedOp::AddMatMul { k: 1, a: a1, b: b1 },
        FusedOp::AddMatMul { k: 1, a: a2, b: b2 },
        FusedOp::Store,
    ];
    let mut out_two = vec![0i32];
    kernel.run(1, 1, &ops_two, &mut out_two).unwrap();
    assert_eq!(out_one, out_two);
}

#[test]
fn matmul_two_by_two() {
    // A = [[1, 2], [3, 4]] (stored k-major), B = [[5, 6], [7, 8]]:
    // A * B = [[19, 22], [43, 50]].
    let kernel = mmm(DType::I32, DType::I32, DType::I32, None, None, None).unwrap();
    let a = packed_store_from(kernel.mr, DType::I32, vec![vec![1, 3], vec![2, 4]]);
    let b = packed_store_from(kernel.nr, DType::I32, vec![vec![5, 6], vec![7, 8]]);
    let ops = vec![FusedOp::AddMatMul { k: 2, a, b }, FusedOp::Store];
    let mut out = vec![0i32; 4];
    kernel.run(2, 2, &ops, &mut out).unwrap();
    assert_eq!(out, vec![19, 22, 43, 50]);
}

#[test]
fn qscale_rescales_the_accumulator() {
    // Accumulate 3, then rescale by 2^30 at shift 0: Zero truncates the
    // tie to 1, Away rounds it to 2.
    let kernel = mmm(DType::I32, DType::I32, DType::I32, None, None, None).unwrap();
    for (policy, expected) in [(RoundingPolicy::Zero, 1), (RoundingPolicy::Away, 2)] {
        let a = OperandStore::Scalar { dtype: DType::I32, value: 3, k: 1, mn: 1 };
        let b = OperandStore::Scalar { dtype: DType::I32, value: 1, k: 1, mn: 1 };
        let ops = vec![
            FusedOp::AddMatMul { k: 1, a, b },
            FusedOp::QScale { mult: 1 << 30, shift: 0, policy },
            FusedOp::Store,
        ];
        let mut out = vec![0i32];
        kernel.run(1, 1, &ops, &mut out).unwrap();
        assert_eq!(out, vec![expected]);
    }
}

#[test]
fn dispatch_is_deterministic_and_hint_driven() {
    let k1 = mmm(DType::I32, DType::I32, DType::I32, None, None, None).unwrap();
    let k2 = mmm(DType::I32, DType::I32, DType::I32, None, None, None).unwrap();
    assert_eq!(k1, k2);
    let small = mmm(DType::I32, DType::I32, DType::I32, Some(1), Some(64), Some(2)).unwrap();
    assert_eq!(small.mr, 1);
    assert_eq!(small.nr, 1);
    assert_eq!(small.dt_c, DType::I32);
    let big = mmm(DType::I32, DType::I32, DType::I32, Some(100), None, Some(2)).unwrap();
    assert_eq!(big.mr, 4);
    let quant = mmm(DType::I8, DType::I8, DType::I32, None, None, None).unwrap();
    assert_eq!(quant.mr, 8);
}

#[test]
fn dispatch_rejects_unsupported_combinations() {
    assert_eq!(
        mmm(DType::I8, DType::I32, DType::I32, None, None, None),
        Err(CoreError::NotSupported)
    );
    assert_eq!(
        mmm(DType::I32, DType::I32, DType::I8, None, None, None),
        Err(CoreError::NotSupported)
    );
}

#[test]
fn run_rejects_shape_mismatch() {
    let kernel = mmm(DType::I32, DType::I32, DType::I32, None, None, None).unwrap();
    let a = OperandStore::Scalar { dtype: DType::I32, value: 1, k: 2, mn: 1 };
    let b = OperandStore::Scalar { dtype: DType::I32, value: 1, k: 1, mn: 1 };
    let ops = vec![FusedOp::AddMatMul { k: 1, a, b }, FusedOp::Store];
    let mut out = vec![0i32];
    assert_eq!(kernel.run(1, 1, &ops, &mut out), Err(CoreError::ShapeMismatch));
    assert_eq!(out, vec![0]);

    let a2 = OperandStore::Scalar { dtype: DType::I32, value: 1, k: 1, mn: 1 };
    let b2 = OperandStore::Scalar { dtype: DType::I32, value: 1, k: 1, mn: 1 };
    let ops2 = vec![FusedOp::AddMatMul { k: 1, a: a2, b: b2 }, FusedOp::Store];
    let mut out_short: Vec<i32> = Vec::new();
    assert_eq!(kernel.run(1, 1, &ops2, &mut out_short), Err(CoreError::ShapeMismatch));
}

#[test]
fn run_rejects_type_mismatch() {
    let kernel = mmm(DType::I8, DType::I8, DType::I32, None, None, None).unwrap();
    let a = OperandStore::Scalar { dtype: DType::I32, value: 1, k: 1, mn: 1 };
    let b = OperandStore::Scalar { dtype: DType::I8, value: 1, k: 1, mn: 1 };
    let ops = vec![FusedOp::AddMatMul { k: 1, a, b }, FusedOp::Store];
    let mut out = vec![0i32];
    assert_eq!(kernel.run(1, 1, &ops, &mut out), Err(CoreError::TypeMismatch));
    assert_eq!(out, vec![0]);
}

#[test]
fn binding_validates_buffers() {
    let kernel = mmm(DType::I32, DType::I32, DType::I32, None, None, None).unwrap();
    // A 1 x 1 operand at panel width 4 needs 4 elements, not 1.
    assert!(matches!(
        kernel.a_packed(DType::I32, vec![7], 1, 1),
        Err(CoreError::ShapeMismatch)
    ));
    assert!(kernel.a_packed(DType::I32, vec![7, 0, 0, 0], 1, 1).is_ok());
    assert!(matches!(
        kernel.b_packed(DType::I32, vec![1, 2, 3], 1, 4),
        Err(CoreError::ShapeMismatch)
    ));
    let src = Tensor::new(vec![1, 1, 1], vec![4]).unwrap();
    let rule = VirtualInputSpec { kernel_h: 2, kernel_w: 2 };
    assert!(matches!(
        kernel.b_virtual_input(DType::I32, rule, src, 1),
        Err(CoreError::ShapeMismatch)
    ));
}

#[test]
fn tensor_construction_checks_volume() {
    assert!(matches!(Tensor::new(vec![2, 2], vec![1, 2, 3]), Err(CoreError::ShapeMismatch)));
    let t = Tensor::new(vec![2, 2], vec![1, 2, 3, 4]).unwrap();
    assert_eq!(t.rank(), 2);
    assert_eq!(t.at(&vec![0, 1]), 2);
    assert_eq!(t.at(&vec![1, 0]), 3);
    let empty = Tensor::new(vec![3, 0], Vec::new()).unwrap();
    assert_eq!(empty.rank(), 2);
}
