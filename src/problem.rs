use vstd::prelude::*;

verus! {

/// Storage order of a logical matrix operand.
#[derive(Clone, Copy, Debug, PartialEq, Eq, Structural)]
pub enum MatrixLayout {
    RowMajor,
    ColMajor,
}

/// Parameters of a two-dimensional convolution, per spatial axis `[y, x]`. The kernel
/// computes the convolution over all input channels at once: `groups` is carried for the
/// caller and not applied.
#[derive(Clone, Copy, Debug)]
pub struct ConvOptions {
    pub stride: [usize; 2],
    pub padding: [usize; 2],
    pub dilation: [usize; 2],
    pub groups: usize,
}

/// Description of a convolution to solve as a matrix multiplication,
/// regardless of the actual data.
///
/// Row `r` of the left operand is one output position: `r = (b * out_shape_y + oy) * out_shape_x + ox`.
/// Column `c` of the left operand (row of the right one) is one weight position:
/// `c = (ky * kernel_w + kx) * channels + ci`. Column `o` of the right operand is an output channel.
#[derive(Clone, Copy, Debug)]
pub struct ConvolutionProblem {
    pub m: usize,
    pub n: usize,
    pub k: usize,
    pub lhs_layout: MatrixLayout,
    pub rhs_layout: MatrixLayout,
    pub lhs_line_size: u8,
    pub rhs_line_size: u8,
    pub out_line_size: u8,
    pub kernel_size: (u32, u32),
    pub options: ConvOptions,
    pub out_shape_y: usize,
    pub out_shape_x: usize,
    pub has_bias: bool,
}

/// A plain matrix multiplication problem: `(m x k) * (k x n)`, with optional batch dimensions.
#[derive(Debug)]
pub struct MatmulProblem {
    pub m: usize,
    pub n: usize,
    pub k: usize,
    pub batches: (Vec<usize>, Vec<usize>),
    pub lhs_layout: MatrixLayout,
    pub rhs_layout: MatrixLayout,
    pub lhs_line_size: u8,
    pub rhs_line_size: u8,
    pub out_line_size: u8,
}

impl ConvolutionProblem {
    /// The equivalent matrix multiplication: the same dimensions, layouts and line sizes,
    /// and no batch dimension (the batch is folded into `m`).
    pub fn as_matmul_problem(&self) -> (r: MatmulProblem)
        ensures
            r.m == self.m,
            r.n == self.n,
            r.k == self.k,
            r.batches.0@.len() == 0,
            r.batches.1@.len() == 0,
            r.lhs_layout == self.lhs_layout,
            r.rhs_layout == self.rhs_layout,
            r.lhs_line_size == self.lhs_line_size,
            r.rhs_line_size == self.rhs_line_size,
            r.out_line_size == self.out_line_size,
    {
        MatmulProblem {
            m: self.m,
            n: self.n,
            k: self.k,
            batches: (Vec::new(), Vec::new()),
            lhs_layout: self.lhs_layout,
            rhs_layout: self.rhs_layout,
            lhs_line_size: self.lhs_line_size,
            rhs_line_size: self.rhs_line_size,
            out_line_size: self.out_line_size,
        }
    }
}

} // verus!
