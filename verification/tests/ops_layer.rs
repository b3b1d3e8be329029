use mmm_core::ops::Op;
use mmm_core::ops::QueuesBuffer;
use mmm_core::ops::UnimplementedOp;
use mmm_core::resize::resize_bilinear;
use mmm_core::resize::CoordTransformer;
use mmm_core::resize::Resize;
use mmm_core::tensor::Tensor;
use mmm_core::tensor::TensorView;
use mmm_core::CoreError;

fn view_of(data: Vec<i32>) -> TensorView {
    let len = data.len();
    TensorView::Owned(Tensor::new(vec![len], data).unwrap())
}

#[test]
fn tensor_view_sharing() {
    let mut v = view_of(vec![1, 2, 3]);
    assert!(matches!(v, TensorView::Owned(_)));
    let shared = v.share();
    assert!(matches!(v, TensorView::Shared(_)));
    assert!(matches!(shared, TensorView::Shared(_)));
    assert_eq!(shared.as_tensor().data, vec![1, 2, 3]);
    assert_eq!(v.as_tensor().data, vec![1, 2, 3]);

    let owned_again = shared.into_tensor();
    assert_eq!(owned_again.data, vec![1, 2, 3]);
    assert_eq!(owned_again.shape, vec![3]);

    let w = view_of(vec![9]).into_shared();
    assert!(matches!(w, TensorView::Shared(_)));
    assert_eq!(w.as_tensor().data, vec![9]);
}

#[test]
fn unimplemented_op_refuses_evaluation() {
    let op = UnimplementedOp("Conv3DBackpropFilter".to_string());
    let r = op.eval(vec![view_of(vec![1])]);
    match r {
        Err(CoreError::Unimplemented { op: name }) => {
            assert_eq!(name, "Conv3DBackpropFilter");
        },
        _ => panic!("expected an unimplemented-operation error"),
    }
    let mut buffer = op.new_buffer();
    let s = op.step(vec![(None, Some(view_of(vec![2])))], &mut buffer);
    assert!(matches!(s, Err(CoreError::StreamingUnavailable)));
}

#[test]
fn queues_buffer_append() {
    let mut buf = QueuesBuffer::new(3);
    assert_eq!(buf.iter().len(), 3);
    let mut views = vec![
        (Some(0usize), Some(view_of(vec![1]))),
        (None, None),
    ];
    buf.append(&mut views).unwrap();
    assert!(views[0].1.is_none());
    assert_eq!(buf.iter()[0].len(), 1);
    assert_eq!(buf.iter()[1].len(), 0);
    assert_eq!(buf.iter()[2].len(), 0);
    assert_eq!(buf.iter()[0][0].as_tensor().data, vec![1]);

    let mut too_many = vec![(None, None), (None, None), (None, None), (None, None)];
    assert!(matches!(buf.append(&mut too_many), Err(CoreError::QueueOverflow)));
    assert_eq!(buf.iter()[0].len(), 1);
}

#[test]
fn resize_decisions() {
    let r = resize_bilinear(Some(1));
    assert!(r.align_corners);
    assert_eq!(r.coord_transformer(), CoordTransformer::AlignCorners);
    let r = resize_bilinear(Some(0));
    assert!(!r.align_corners);
    assert_eq!(r.coord_transformer(), CoordTransformer::HalfPixel);
    let r = resize_bilinear(None);
    assert!(!r.align_corners);

    let r = Resize::new(true);
    assert_eq!(r.name(), "Resize");
    assert!(r.rules(2, 1).is_ok());
    assert!(matches!(r.rules(1, 1), Err(CoreError::ShapeMismatch)));
    assert!(matches!(r.rules(2, 2), Err(CoreError::ShapeMismatch)));
}

#[test]
fn tensor_view_equality_and_from() {
    let a = TensorView::from(Tensor::new(vec![2], vec![1, 2]).unwrap());
    let mut b = view_of(vec![1, 2]);
    let b_shared = b.share();
    assert!(a == b_shared);
    let c = view_of(vec![1, 3]);
    assert!(a != c);
    let d = view_of(vec![1, 2, 3]);
    assert!(a != d);
    let arc_view = TensorView::from(std::sync::Arc::new(Tensor::new(vec![1], vec![7]).unwrap()));
    assert!(matches!(arc_view, TensorView::Shared(_)));
    assert_eq!(arc_view.as_tensor().data, vec![7]);
}
