use vstd::prelude::*;

verus! {

/// Element types a tensor may declare.
#[derive(Clone, Copy, Debug, PartialEq, Eq, Structural)]
pub enum DataType {
    F32,
    I64,
}

/// A named tensor with its shape and element type.
#[derive(Clone, Debug)]
pub struct TensorDesc {
    pub name: String,
    pub shape: Vec<u64>,
    pub dtype: DataType,
}

/// Number of elements of a tensor of the given shape: the product of its dimensions.
pub open spec fn shape_product(s: Seq<u64>) -> int
    decreases s.len(),
{
    if s.len() == 0 {
        1
    } else {
        shape_product(s.drop_last()) * s.last()
    }
}

/// Size in bytes of one element of the given type.
pub open spec fn spec_elem_size(t: DataType) -> int {
    match t {
        DataType::F32 => 4,
        DataType::I64 => 8,
    }
}

pub fn elem_size(t: DataType) -> (r: u64)
    ensures
        r == spec_elem_size(t),
{
    match t {
        DataType::F32 => 4,
        DataType::I64 => 8,
    }
}

/// A product of dimensions is never negative.
pub proof fn lemma_product_nonneg(s: Seq<u64>)
    ensures
        shape_product(s) >= 0,
    decreases s.len(),
{
    if s.len() > 0 {
        lemma_product_nonneg(s.drop_last());
        vstd::arithmetic::mul::lemma_mul_nonnegative(shape_product(s.drop_last()), s.last() as int);
    }
}

/// With no zero dimension, a prefix's product never exceeds the whole product.
proof fn lemma_product_prefix_le(s: Seq<u64>, k: int)
    requires
        0 <= k <= s.len(),
        forall|i: int| 0 <= i < s.len() ==> s[i] >= 1,
    ensures
        shape_product(s.subrange(0, k)) <= shape_product(s),
    decreases s.len() - k,
{
    if k < s.len() {
        lemma_product_prefix_le(s, k + 1);
        let p = s.subrange(0, k + 1);
        assert(p.drop_last() =~= s.subrange(0, k));
        lemma_product_nonneg(s.subrange(0, k));
        let a = shape_product(s.subrange(0, k));
        let b = s[k] as int;
        assert(a <= a * b) by (nonlinear_arith)
            requires
                a >= 0,
                b >= 1,
        ;
        assert(shape_product(p) == a * b);
    } else {
        assert(s.subrange(0, k) =~= s);
    }
}

proof fn lemma_product_has_zero(s: Seq<u64>, z: int)
    requires
        0 <= z < s.len(),
        s[z] == 0,
    ensures
        shape_product(s) == 0,
    decreases s.len(),
{
    if z < s.len() - 1 {
        lemma_product_has_zero(s.drop_last(), z);
    }
}

/// Number of elements of a shape, or `None` when it does not fit in a `u64`.
pub fn element_count(shape: &Vec<u64>) -> (r: Option<u64>)
    ensures
        shape_product(shape@) >= 0,
        r == (if shape_product(shape@) <= u64::MAX {
            Some(shape_product(shape@) as u64)
        } else {
            None::<u64>
        }),
{
    proof {
        lemma_product_nonneg(shape@);
    }
    let n = shape.len();
    let mut z: usize = 0;
    while z < n
        invariant
            n == shape@.len(),
            0 <= z <= n,
            forall|i: int| 0 <= i < z ==> shape@[i] >= 1,
        decreases n - z,
    {
        if shape[z] == 0 {
            proof {
                lemma_product_has_zero(shape@, z as int);
            }
            return Some(0);
        }
        z = z + 1;
    }
    let mut acc: u64 = 1;
    let mut i: usize = 0;
    while i < n
        invariant
            n == shape@.len(),
            0 <= i <= n,
            forall|j: int| 0 <= j < n ==> shape@[j] >= 1,
            acc == shape_product(shape@.subrange(0, i as int)),
        decreases n - i,
    {
        proof {
            assert(shape@.subrange(0, i + 1).drop_last() =~= shape@.subrange(0, i as int));
        }
        match acc.checked_mul(shape[i]) {
            Some(v) => {
                acc = v;
            },
            None => {
                proof {
                    lemma_product_prefix_le(shape@, i + 1);
                }
                return None;
            },
        }
        i = i + 1;
    }
    proof {
        assert(shape@.subrange(0, n as int) =~= shape@);
    }
    Some(acc)
}

/// Builds the descriptor of a 32-bit float tensor with the given name and dimensions.
pub fn tensor(name: &str, dimensions: &[u64]) -> (t: TensorDesc)
    ensures
        t.name@ == name@,
        t.shape@ == dimensions@,
        t.dtype == DataType::F32,
{
    let mut shape: Vec<u64> = Vec::new();
    let mut i: usize = 0;
    while i < dimensions.len()
        invariant
            0 <= i <= dimensions@.len(),
            shape@ == dimensions@.subrange(0, i as int),
        decreases dimensions@.len() - i,
    {
        shape.push(dimensions[i]);
        i = i + 1;
    }
    proof {
        assert(dimensions@.subrange(0, dimensions@.len() as int) =~= dimensions@);
    }
    TensorDesc { name: name.to_owned(), shape, dtype: DataType::F32 }
}

/// Tensor data handed to a run. Float elements are carried as their IEEE-754 bit patterns.
#[derive(Clone, Debug)]
pub enum InputTensor {
    F32(Vec<u32>),
    I64(Vec<i64>),
}

impl InputTensor {
    pub open spec fn spec_len(&self) -> int {
        match self {
            InputTensor::F32(v) => v@.len() as int,
            InputTensor::I64(v) => v@.len() as int,
        }
    }

    pub open spec fn spec_dtype(&self) -> DataType {
        match self {
            InputTensor::F32(_) => DataType::F32,
            InputTensor::I64(_) => DataType::I64,
        }
    }

    /// Number of elements held.
    pub fn len(&self) -> (r: usize)
        ensures
            r == self.spec_len(),
    {
        match self {
            InputTensor::F32(v) => v.len(),
            InputTensor::I64(v) => v.len(),
        }
    }

    /// Element type of the data held.
    pub fn dtype(&self) -> (r: DataType)
        ensures
            r == self.spec_dtype(),
    {
        match self {
            InputTensor::F32(_) => DataType::F32,
            InputTensor::I64(_) => DataType::I64,
        }
    }
}

} // verus!
