use vstd::prelude::*;

verus! {

/// Element kind of a tensor in generated code.
#[derive(Clone, Copy, Debug, PartialEq, Eq, Structural)]
pub enum TensorKind {
    Int,
    Float,
    Bool,
}

/// Kind of a scalar in generated code.
#[derive(Clone, Copy, Debug, PartialEq, Eq, Structural)]
pub enum ScalarKind {
    Int32,
    Int64,
    Float32,
    Float64,
    Bool,
}

/// A named tensor of the generated model, with its rank and element kind.
#[derive(Debug)]
pub struct TensorType {
    pub name: String,
    pub dim: usize,
    pub kind: TensorKind,
}

/// A named scalar of the generated model.
#[derive(Debug)]
pub struct ScalarType {
    pub name: String,
    pub kind: ScalarKind,
}

/// A value flowing between nodes of the generated model.
#[derive(Debug)]
pub enum Type {
    Tensor(TensorType),
    Scalar(ScalarType),
}

impl TensorType {
    pub fn new(name: &str, dim: usize, kind: TensorKind) -> (r: TensorType)
        ensures
            r.name@ == name@,
            r.dim == dim,
            r.kind == kind,
    {
        TensorType { name: String::from_str(name), dim, kind }
    }

    pub fn new_int(name: &str, dim: usize) -> (r: TensorType)
        ensures
            r.name@ == name@,
            r.dim == dim,
            r.kind == TensorKind::Int,
    {
        TensorType::new(name, dim, TensorKind::Int)
    }

    pub fn new_float(name: &str, dim: usize) -> (r: TensorType)
        ensures
            r.name@ == name@,
            r.dim == dim,
            r.kind == TensorKind::Float,
    {
        TensorType::new(name, dim, TensorKind::Float)
    }

    /// A copy of this tensor type.
    pub fn duplicate(&self) -> (r: TensorType)
        ensures
            r == *self,
    {
        TensorType { name: self.name.clone(), dim: self.dim, kind: self.kind }
    }
}

impl ScalarType {
    pub fn new(name: &str, kind: ScalarKind) -> (r: ScalarType)
        ensures
            r.name@ == name@,
            r.kind == kind,
    {
        ScalarType { name: String::from_str(name), kind }
    }

    /// A copy of this scalar type.
    pub fn duplicate(&self) -> (r: ScalarType)
        ensures
            r == *self,
    {
        ScalarType { name: self.name.clone(), kind: self.kind }
    }
}

/// Text of the statement `let <output> = <input>.<method>(<argument>);`.
pub open spec fn call_statement(output: Seq<char>, input: Seq<char>, method: Seq<char>, argument: Seq<char>) -> Seq<char> {
    "let "@ + output + " = "@ + input + "."@ + method + "("@ + argument + ");"@
}

fn statement(output: &str, input: &str, method: &str, argument: &str) -> (r: String)
    ensures
        r@ == call_statement(output@, input@, method@, argument@),
{
    let mut r = String::from_str("let ");
    r.append(output);
    r.append(" = ");
    r.append(input);
    r.append(".");
    r.append(method);
    r.append("(");
    r.append(argument);
    r.append(");");
    r
}

/// One-hot encoding whose class count is a scalar input of the model.
#[derive(Debug)]
pub struct OneHotNode {
    pub input: TensorType,
    pub num_classes: ScalarType,
    pub output: TensorType,
}

impl OneHotNode {
    pub fn new(input: TensorType, num_classes: ScalarType, output: TensorType) -> (r: OneHotNode)
        ensures
            r.input == input,
            r.num_classes == num_classes,
            r.output == output,
    {
        OneHotNode { input, num_classes, output }
    }

    /// The node's inputs: the tensor, then the class count.
    pub fn input_types(&self) -> (r: Vec<Type>)
        ensures
            r@ == seq![Type::Tensor(self.input), Type::Scalar(self.num_classes)],
    {
        let mut r: Vec<Type> = Vec::new();
        r.push(Type::Tensor(self.input.duplicate()));
        r.push(Type::Scalar(self.num_classes.duplicate()));
        r
    }

    /// The node's single output tensor.
    pub fn output_types(&self) -> (r: Vec<Type>)
        ensures
            r@ == seq![Type::Tensor(self.output)],
    {
        let mut r: Vec<Type> = Vec::new();
        r.push(Type::Tensor(self.output.duplicate()));
        r
    }

    /// The generated statement, given the expression that reads the input tensor:
    /// `let <output> = <input>.one_hot(<num_classes> as usize);`.
    pub fn forward(&self, input: &str) -> (r: String)
        ensures
            r@ == call_statement(self.output.name@, input@, "one_hot"@, self.num_classes.name@ + " as usize"@),
    {
        let mut argument = self.num_classes.name.clone();
        argument.append(" as usize");
        statement(self.output.name.as_str(), input, "one_hot", argument.as_str())
    }
}

/// Decimal digits of `n`, most significant first.
pub open spec fn decimal(n: nat) -> Seq<char>
    decreases n,
{
    if n < 10 {
        seq![digit_char(n)]
    } else {
        decimal(n / 10) + seq![digit_char(n % 10)]
    }
}

pub open spec fn digit_char(d: nat) -> char {
    if d == 0 { '0' } else if d == 1 { '1' } else if d == 2 { '2' } else if d == 3 { '3' } else if d == 4 { '4' }
    else if d == 5 { '5' } else if d == 6 { '6' } else if d == 7 { '7' } else if d == 8 { '8' } else { '9' }
}

fn digit_str(d: usize) -> (r: &'static str)
    requires
        d < 10,
    ensures
        r@ == seq![digit_char(d as nat)],
{
    proof {
        reveal_strlit("0");
        reveal_strlit("1");
        reveal_strlit("2");
        reveal_strlit("3");
        reveal_strlit("4");
        reveal_strlit("5");
        reveal_strlit("6");
        reveal_strlit("7");
        reveal_strlit("8");
        reveal_strlit("9");
    }
    if d == 0 { "0" } else if d == 1 { "1" } else if d == 2 { "2" } else if d == 3 { "3" } else if d == 4 { "4" }
    else if d == 5 { "5" } else if d == 6 { "6" } else if d == 7 { "7" } else if d == 8 { "8" } else { "9" }
}

/// Decimal text of `n`, as an integer literal of generated code.
pub fn decimal_string(n: usize) -> (r: String)
    ensures
        r@ == decimal(n as nat),
    decreases n,
{
    if n < 10 {
        String::from_str(digit_str(n))
    } else {
        let mut r = decimal_string(n / 10);
        r.append(digit_str(n % 10));
        r
    }
}

/// One-hot encoding whose class count is fixed when the model is generated.
#[derive(Debug)]
pub struct OnehotNode {
    pub input: TensorType,
    pub output: TensorType,
    pub num_classes: usize,
}

impl OnehotNode {
    pub fn new(input: TensorType, output: TensorType, num_classes: usize) -> (r: OnehotNode)
        ensures
            r.input == input,
            r.output == output,
            r.num_classes == num_classes,
    {
        OnehotNode { input, output, num_classes }
    }

    /// The node's single input tensor.
    pub fn input_types(&self) -> (r: Vec<Type>)
        ensures
            r@ == seq![Type::Tensor(self.input)],
    {
        let mut r: Vec<Type> = Vec::new();
        r.push(Type::Tensor(self.input.duplicate()));
        r
    }

    /// The node's output: the declared output tensor, with integer elements.
    pub fn output_types(&self) -> (r: Vec<Type>)
        ensures
            r@ == seq![Type::Tensor((TensorType { name: self.output.name, dim: self.output.dim, kind: TensorKind::Int }))],
    {
        let mut output = self.output.duplicate();
        output.kind = TensorKind::Int;
        let mut r: Vec<Type> = Vec::new();
        r.push(Type::Tensor(output));
        r
    }

    /// The generated statement, given the expression that reads the input tensor:
    /// `let <output> = <input>.onehot(<num_classes>);`, the class count as a literal.
    pub fn forward(&self, input: &str) -> (r: String)
        ensures
            r@ == call_statement(self.output.name@, input@, "onehot"@, decimal(self.num_classes as nat)),
    {
        let argument = decimal_string(self.num_classes);
        statement(self.output.name.as_str(), input, "onehot", argument.as_str())
    }
}

} // verus!
