use burn_conv::node::{
    decimal_string, OneHotNode, OnehotNode, ScalarKind, ScalarType, TensorKind, TensorType, Type,
};

#[test]
fn test_codegen_one_hot() {
    let node = OneHotNode::new(
        TensorType::new_int("input", 1),
        ScalarType::new("num_classes", ScalarKind::Int64),
        TensorType::new_int("output", 2),
    );
    assert_eq!(node.forward("input"), "let output = input.one_hot(num_classes as usize);");
    let inputs = node.input_types();
    assert_eq!(inputs.len(), 2);
    assert!(matches!(&inputs[0], Type::Tensor(t) if t.name == "input" && t.dim == 1 && t.kind == TensorKind::Int));
    assert!(matches!(&inputs[1], Type::Scalar(s) if s.name == "num_classes" && s.kind == ScalarKind::Int64));
    let outputs = node.output_types();
    assert_eq!(outputs.len(), 1);
    assert!(matches!(&outputs[0], Type::Tensor(t) if t.name == "output" && t.dim == 2));
}

#[test]
fn test_codegen_onehot() {
    let node = OnehotNode::new(TensorType::new_int("tensor1", 5), TensorType::new_int("tensor2", 5), 3);
    assert_eq!(node.forward("tensor1"), "let tensor2 = tensor1.onehot(3);");
    let inputs = node.input_types();
    assert_eq!(inputs.len(), 1);
    assert!(matches!(&inputs[0], Type::Tensor(t) if t.name == "tensor1" && t.dim == 5));
}

#[test]
fn onehot_output_is_integer() {
    let node = OnehotNode::new(TensorType::new_int("x", 1), TensorType::new_float("y", 2), 10);
    let outputs = node.output_types();
    assert!(matches!(&outputs[0], Type::Tensor(t) if t.name == "y" && t.dim == 2 && t.kind == TensorKind::Int));
    assert_eq!(node.forward("x.clone()"), "let y = x.clone().onehot(10);");
}

#[test]
fn decimal_literals() {
    assert_eq!(decimal_string(0), "0");
    assert_eq!(decimal_string(7), "7");
    assert_eq!(decimal_string(10), "10");
    assert_eq!(decimal_string(12345), "12345");
    assert_eq!(decimal_string(usize::MAX), usize::MAX.to_string());
}
