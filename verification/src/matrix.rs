//! Dense row-major matrices and their product, computed cell by cell: every
//! output cell is one task (a row of the left matrix, a column of the right
//! one and the index of the cell), every task yields one result tagged with
//! that index, and the results are written into the output buffer by their
//! tags.
//!
//! The module `pool` shares the tasks out among workers: `multiply` goes by
//! its `multiply_with`, in which the workers take their shares one after the
//! other, and its `dispatch` and `collect` hand the same tasks to workers on
//! other threads and collect the same results from them.

use crate::pool::{multiply_with, NUM_THREADS};
use crate::vector::{
    dot_computable, dot_product, is_dot_product, is_zero, lemma_dot_prefix_i32,
    lemma_dot_prefix_i64, scalar_ops_specified, sum_of_products, Vector, VectorError,
};
use std::ops::{Add, Mul};
use vstd::arithmetic::div_mod::{
    lemma_fundamental_div_mod, lemma_fundamental_div_mod_converse, lemma_multiply_divide_lt,
};
use vstd::prelude::*;

verus! {

/// A matrix of `row` rows and `col` columns, stored row by row in `data`.
pub struct Matrix<T> {
    pub row: usize,
    pub col: usize,
    pub data: Vec<T>,
}

/// One task: the cell `idx` of a product is the inner product of `row` and
/// `col`.
pub struct MsgInput<T> {
    pub idx: usize,
    pub row: Vector<T>,
    pub col: Vector<T>,
}

/// The result of one task: `value` belongs in cell `idx`.
pub struct MsgOutput<T> {
    pub idx: usize,
    pub value: T,
}

/// One task on its way to a worker, with the sending end of the channel on
/// which the worker answers it.
#[verifier::reject_recursive_types(T)]
pub struct Msg<T> {
    pub input: MsgInput<T>,
    pub sender: oneshot::Sender<MsgOutput<T>>,
}

/// Why a product could not be delivered.
#[derive(Debug, Clone, Copy, PartialEq, Eq, Structural)]
pub enum MatrixError {
    /// The left matrix has not as many columns as the right one has rows.
    DimensionMismatch,
    /// The channel of a task was closed before the task's result was sent.
    ReceiveFailure,
    /// A result arrived that is tagged with a cell outside the product.
    ResultOutOfRange,
}

impl<T> Matrix<T> {
    /// The buffer holds exactly `row * col` elements.
    pub open spec fn wf(&self) -> bool {
        self.data@.len() == self.row * self.col
    }

    /// The element in row `i` and column `j`.
    pub open spec fn at(&self, i: int, j: int) -> T {
        self.data@[i * self.col + j]
    }

    /// Row `i`, from left to right.
    pub open spec fn row_seq(&self, i: int) -> Seq<T> {
        Seq::new(self.col as nat, |k: int| self.at(i, k))
    }

    /// Column `j`, from top to bottom.
    pub open spec fn col_seq(&self, j: int) -> Seq<T> {
        Seq::new(self.row as nat, |k: int| self.at(k, j))
    }

    /// Whether the buffer holds exactly `row * col` elements.
    pub fn well_formed(&self) -> (ok: bool)
        ensures
            ok == self.wf(),
    {
        proof {
            vstd::std_specs::vec::axiom_spec_len(&self.data);
        }
        match self.row.checked_mul(self.col) {
            Some(len) => len == self.data.len(),
            None => false,
        }
    }

    /// A matrix of the given shape over `data`. The length of `data` is not
    /// examined: see `wf` and `well_formed`.
    pub fn new(row: usize, col: usize, data: Vec<T>) -> (m: Self)
        ensures
            m.row == row,
            m.col == col,
            m.data == data,
    {
        Matrix { row, col, data }
    }
}

/// The length of a well-formed matrix's buffer is a machine number, and so
/// is the product of its sides.
pub proof fn lemma_buffer_fits<T>(m: Matrix<T>)
    requires
        m.wf(),
    ensures
        m.row * m.col <= usize::MAX,
{
    vstd::std_specs::vec::axiom_spec_len(&m.data);
}

/// Row `i`, column `j` of a `rows` by `cols` buffer lies at `i * cols + j`,
/// inside the buffer.
pub proof fn lemma_cell_in_buffer(i: int, j: int, rows: int, cols: int)
    requires
        0 <= i < rows,
        0 <= j < cols,
    ensures
        0 <= i * cols <= i * cols + j < rows * cols,
        (i * cols + j) / cols == i,
        (i * cols + j) % cols == j,
{
    assert(i * cols + cols <= rows * cols) by (nonlinear_arith)
        requires
            i + 1 <= rows,
            0 <= cols,
    ;
    assert(0 <= i * cols) by (nonlinear_arith)
        requires
            0 <= i,
            0 <= cols,
    ;
    lemma_fundamental_div_mod_converse(i * cols + j, cols, i, j);
}

/// Position `idx` of a `rows` by `cols` buffer is row `idx / cols`, column
/// `idx % cols`.
pub proof fn lemma_buffer_in_cell(idx: int, rows: int, cols: int)
    requires
        0 <= idx < rows * cols,
        0 <= rows,
        0 <= cols,
    ensures
        0 < cols,
        0 <= idx / cols < rows,
        0 <= idx % cols < cols,
        (idx / cols) * cols + idx % cols == idx,
{
    assert(0 < cols) by (nonlinear_arith)
        requires
            0 <= idx < rows * cols,
            0 <= rows,
            0 <= cols,
    ;
    assert(idx < cols * rows) by (nonlinear_arith)
        requires
            idx < rows * cols,
    ;
    lemma_multiply_divide_lt(idx, cols, rows);
    lemma_fundamental_div_mod(idx, cols);
    assert((idx / cols) * cols == cols * (idx / cols)) by (nonlinear_arith);
}

impl<T: Copy> Matrix<T> {
    /// A copy of row `i`.
    pub fn row_vector(&self, i: usize) -> (v: Vector<T>)
        requires
            self.wf(),
            i < self.row,
        ensures
            v@ == self.row_seq(i as int),
    {
        proof {
            lemma_buffer_fits(*self);
        }
        let mut out: Vec<T> = Vec::new();
        let mut k: usize = 0;
        while k < self.col
            invariant
                self.wf(),
                self.row * self.col <= usize::MAX,
                i < self.row,
                k <= self.col,
                out@.len() == k,
                forall|n: int| 0 <= n < k ==> out@[n] == self.at(i as int, n),
            decreases self.col - k,
        {
            proof {
                lemma_cell_in_buffer(i as int, k as int, self.row as int, self.col as int);
            }
            out.push(self.data[i * self.col + k]);
            k = k + 1;
        }
        assert(out@ =~= self.row_seq(i as int));
        Vector::new(out)
    }

    /// A copy of column `j`: every `col`-th element of the buffer, from
    /// position `j` on.
    pub fn col_vector(&self, j: usize) -> (v: Vector<T>)
        requires
            self.wf(),
            j < self.col,
        ensures
            v@ == self.col_seq(j as int),
    {
        proof {
            lemma_buffer_fits(*self);
        }
        let mut out: Vec<T> = Vec::new();
        let mut k: usize = 0;
        while k < self.row
            invariant
                self.wf(),
                self.row * self.col <= usize::MAX,
                j < self.col,
                k <= self.row,
                out@.len() == k,
                forall|n: int| 0 <= n < k ==> out@[n] == self.at(n, j as int),
            decreases self.row - k,
        {
            proof {
                lemma_cell_in_buffer(k as int, j as int, self.row as int, self.col as int);
            }
            out.push(self.data[k * self.col + j]);
            k = k + 1;
        }
        assert(out@ =~= self.col_seq(j as int));
        Vector::new(out)
    }
}

/// `v` is what belongs in row `i`, column `j` of the product of `a` and `b`:
/// the inner product of row `i` of `a` and column `j` of `b`.
pub open spec fn is_product_cell<T>(a: Matrix<T>, b: Matrix<T>, i: int, j: int, v: T) -> bool where
    T: Default + Add<Output = T> + Mul<Output = T>,
{
    is_dot_product(a.row_seq(i), b.col_seq(j), v)
}

/// `m` is the product of `a` and `b`: it has the rows of `a`, the columns of
/// `b`, and each of its cells is the inner product of that row and that
/// column.
pub open spec fn is_product<T>(a: Matrix<T>, b: Matrix<T>, m: Matrix<T>) -> bool where
    T: Default + Add<Output = T> + Mul<Output = T>,
{
    &&& m.row == a.row
    &&& m.col == b.col
    &&& m.wf()
    &&& forall|i: int, j: int|
        0 <= i < a.row && 0 <= j < b.col ==> is_product_cell(a, b, i, j, #[trigger] m.at(i, j))
}

/// Every cell of the product of `a` and `b` can be computed: no inner
/// product of a row of `a` and a column of `b` leaves the scalar type.
pub open spec fn product_computable<T>(a: Matrix<T>, b: Matrix<T>) -> bool where
    T: Default + Add<Output = T> + Mul<Output = T>,
{
    forall|i: int, j: int|
        0 <= i < a.row && 0 <= j < b.col ==> dot_computable(
            #[trigger] a.row_seq(i),
            #[trigger] b.col_seq(j),
        )
}

/// The two matrices can be multiplied: both are well formed, the left one
/// has as many columns as the right one has rows, and the product has a
/// length.
pub open spec fn compatible<T>(a: Matrix<T>, b: Matrix<T>) -> bool {
    &&& a.wf()
    &&& b.wf()
    &&& a.col == b.row
    &&& a.row * b.col <= usize::MAX
}

impl<T> MsgInput<T> {
    /// The task of computing cell `idx` from `row` and `col`.
    pub fn new(idx: usize, row: Vector<T>, col: Vector<T>) -> (input: Self)
        ensures
            input.idx == idx,
            input.row == row,
            input.col == col,
    {
        MsgInput { idx, row, col }
    }
}

impl<T: Copy + Default + Add<Output = T> + Mul<Output = T>> MsgInput<T> {
    /// Carries the task out: the inner product of its row and its column,
    /// tagged with its index.
    pub fn compute(self) -> (r: Result<MsgOutput<T>, VectorError>)
        requires
            scalar_ops_specified::<T>(),
            self.row@.len() == self.col@.len() ==> dot_computable(self.row@, self.col@),
        ensures
            self.row@.len() != self.col@.len() <==> r == Err::<MsgOutput<T>, VectorError>(
                VectorError::LengthMismatch,
            ),
            self.row@.len() == self.col@.len() <==> r is Ok,
            r matches Ok(output) ==> output.idx == self.idx && is_dot_product(
                self.row@,
                self.col@,
                output.value,
            ),
    {
        let idx = self.idx;
        match dot_product(self.row, self.col) {
            Ok(value) => Ok(MsgOutput { idx, value }),
            Err(e) => Err(e),
        }
    }
}

impl<T> MsgOutput<T> {
    /// Writes the result into the cell of `data` that its index names.
    pub fn place(self, data: &mut Vec<T>)
        requires
            self.idx < old(data)@.len(),
        ensures
            final(data)@ == old(data)@.update(self.idx as int, self.value),
    {
        data[self.idx] = self.value;
    }
}

/// The task for cell `idx` of the product of `a` and `b`, counted row by row:
/// row `idx / b.col` of `a` and column `idx % b.col` of `b`.
pub fn task<T: Copy>(a: &Matrix<T>, b: &Matrix<T>, idx: usize) -> (input: MsgInput<T>)
    requires
        compatible(*a, *b),
        idx < a.row * b.col,
    ensures
        input.idx == idx,
        input.row@ == a.row_seq(idx as int / b.col as int),
        input.col@ == b.col_seq(idx as int % b.col as int),
{
    proof {
        lemma_buffer_in_cell(idx as int, a.row as int, b.col as int);
    }
    let i = idx / b.col;
    let j = idx % b.col;
    MsgInput::new(idx, a.row_vector(i), b.col_vector(j))
}

/// The value of the last of `outputs` that is tagged with cell `k`, if there
/// is one.
pub open spec fn last_tagged<T>(outputs: Seq<MsgOutput<T>>, k: int) -> Option<T>
    decreases outputs.len(),
{
    if outputs.len() == 0 {
        None
    } else if outputs.last().idx == k {
        Some(outputs.last().value)
    } else {
        last_tagged(outputs.drop_last(), k)
    }
}

/// `v` is what cell `k` holds once `outputs` have been written in order into
/// a buffer of default values: the value of the last result tagged with `k`,
/// or a default value where there is none.
pub open spec fn cell_settled<T: Default>(outputs: Seq<MsgOutput<T>>, k: int, v: T) -> bool {
    match last_tagged(outputs, k) {
        Some(x) => v == x,
        None => is_zero(v),
    }
}

/// One of `outputs` is tagged with cell `k`.
pub open spec fn covered<T>(outputs: Seq<MsgOutput<T>>, k: int) -> bool {
    exists|n: int| 0 <= n < outputs.len() && (#[trigger] outputs[n]).idx == k
}

/// `output` is tagged with a cell of the product of `a` and `b`, and its
/// value is what belongs in that cell.
pub open spec fn right_for_tag<T>(a: Matrix<T>, b: Matrix<T>, output: MsgOutput<T>) -> bool where
    T: Default + Add<Output = T> + Mul<Output = T>,
{
    &&& output.idx < a.row * b.col
    &&& is_product_cell(
        a,
        b,
        output.idx as int / b.col as int,
        output.idx as int % b.col as int,
        output.value,
    )
}

/// `m` is what writing `outputs`, in order, into a buffer of default values
/// leaves: every result tagged with a cell of `m`, every cell settled.
pub open spec fn assembled_from<T: Default>(outputs: Seq<MsgOutput<T>>, m: Matrix<T>) -> bool {
    &&& m.wf()
    &&& forall|n: int| 0 <= n < outputs.len() ==> (#[trigger] outputs[n]).idx < m.row * m.col
    &&& forall|k: int| 0 <= k < m.row * m.col ==> cell_settled(outputs, k, #[trigger] m.data@[k])
}

/// Writes `outputs`, in order, into a `row` by `col` buffer of default
/// values, each at the cell that it is tagged with.
pub fn assemble<T: Copy + Default>(row: usize, col: usize, outputs: &Vec<MsgOutput<T>>) -> (m:
    Matrix<T>)
    requires
        row * col <= usize::MAX,
        forall|n: int| 0 <= n < outputs@.len() ==> (#[trigger] outputs@[n]).idx < row * col,
    ensures
        m.row == row,
        m.col == col,
        assembled_from(outputs@, m),
{
    let len = row * col;
    let mut data: Vec<T> = Vec::new();
    let mut k: usize = 0;
    while k < len
        invariant
            k <= len,
            data@.len() == k,
            forall|c: int| 0 <= c < k ==> is_zero(#[trigger] data@[c]),
        decreases len - k,
    {
        data.push(T::default());
        k = k + 1;
    }
    let mut n: usize = 0;
    while n < outputs.len()
        invariant
            n <= outputs@.len(),
            data@.len() == len,
            forall|c: int| 0 <= c < outputs@.len() ==> (#[trigger] outputs@[c]).idx < len,
            forall|c: int|
                0 <= c < len ==> cell_settled(outputs@.take(n as int), c, #[trigger] data@[c]),
        decreases outputs@.len() - n,
    {
        let output = MsgOutput { idx: outputs[n].idx, value: outputs[n].value };
        proof {
            let before = outputs@.take(n as int);
            let after = outputs@.take(n + 1);
            assert(after.drop_last() =~= before);
            assert(after.last() == outputs@[n as int]);
        }
        output.place(&mut data);
        n = n + 1;
    }
    assert(outputs@.take(outputs@.len() as int) =~= outputs@);
    Matrix { row, col, data }
}

impl<T> Msg<T> {
    /// A task together with the channel on which it is to be answered.
    pub fn new(input: MsgInput<T>, sender: oneshot::Sender<MsgOutput<T>>) -> (msg: Self)
        ensures
            msg.input == input,
            msg.sender == sender,
    {
        Msg { input, sender }
    }
}

/// The product of `a` and `b`, or `DimensionMismatch` where `a` has not as
/// many columns as `b` has rows, whatever the buffers hold. Every cell is
/// computed as one task, the tasks are shared out among `NUM_THREADS`
/// workers, and the results are assembled by their tags.
pub fn multiply<T>(a: &Matrix<T>, b: &Matrix<T>) -> (r: Result<Matrix<T>, MatrixError>) where
    T: Copy + Default + Add<Output = T> + Mul<Output = T>,
    requires
        a.col == b.row ==> {
            &&& compatible(*a, *b)
            &&& scalar_ops_specified::<T>()
            &&& product_computable(*a, *b)
        },
    ensures
        a.col != b.row <==> r == Err::<Matrix<T>, MatrixError>(MatrixError::DimensionMismatch),
        a.col == b.row <==> r is Ok,
        r matches Ok(m) ==> is_product(*a, *b, m),
{
    multiply_with(a, b, NUM_THREADS)
}

/// What `last_tagged` finds is the value of one of the results tagged with
/// the cell, and it finds one wherever there is one.
pub proof fn lemma_last_tagged<T>(outputs: Seq<MsgOutput<T>>, k: int)
    ensures
        match last_tagged(outputs, k) {
            Some(v) => exists|n: int|
                0 <= n < outputs.len() && (#[trigger] outputs[n]).idx == k && outputs[n].value
                    == v,
            None => !covered(outputs, k),
        },
    decreases outputs.len(),
{
    if outputs.len() > 0 {
        let rest = outputs.drop_last();
        lemma_last_tagged(rest, k);
        if outputs.last().idx == k {
            assert(outputs[outputs.len() - 1].idx == k);
        } else {
            match last_tagged(rest, k) {
                Some(v) => {
                    let n = choose|n: int|
                        0 <= n < rest.len() && (#[trigger] rest[n]).idx == k && rest[n].value == v;
                    assert(outputs[n] == rest[n]);
                },
                None => {
                    if covered(outputs, k) {
                        let n = choose|n: int|
                            0 <= n < outputs.len() && (#[trigger] outputs[n]).idx == k;
                        assert(rest[n] == outputs[n]);
                    }
                },
            }
        }
    }
}

/// The product does not depend on who computed which cell, nor on the order
/// in which the results came in: where every result is right for its tag and
/// every cell has a result, what is assembled from the results is the
/// product.
pub proof fn lemma_assembled_is_product<T>(
    a: Matrix<T>,
    b: Matrix<T>,
    outputs: Seq<MsgOutput<T>>,
    m: Matrix<T>,
) where T: Default + Add<Output = T> + Mul<Output = T>
    requires
        compatible(a, b),
        m.row == a.row,
        m.col == b.col,
        assembled_from(outputs, m),
        forall|n: int| 0 <= n < outputs.len() ==> right_for_tag(a, b, #[trigger] outputs[n]),
        forall|k: int| 0 <= k < a.row * b.col ==> #[trigger] covered(outputs, k),
    ensures
        is_product(a, b, m),
{
    assert forall|i: int, j: int| 0 <= i < a.row && 0 <= j < b.col implies is_product_cell(
        a,
        b,
        i,
        j,
        #[trigger] m.at(i, j),
    ) by {
        lemma_cell_in_buffer(i, j, a.row as int, b.col as int);
        let k = i * b.col + j;
        lemma_last_tagged(outputs, k);
        assert(covered(outputs, k));
        assert(cell_settled(outputs, k, m.data@[k]));
        let v = last_tagged(outputs, k)->Some_0;
        let n = choose|n: int|
            0 <= n < outputs.len() && (#[trigger] outputs[n]).idx == k && outputs[n].value == v;
        assert(right_for_tag(a, b, outputs[n]));
    }
}

/// On `i32`, a cell of a product whose sums are all defined is the exact
/// integer sum, over the inner dimension, of the products of the elements of
/// its row and its column.
pub proof fn lemma_product_cell_i32(a: Matrix<i32>, b: Matrix<i32>, m: Matrix<i32>, i: int, j: int)
    requires
        compatible(a, b),
        product_computable(a, b),
        is_product(a, b, m),
        0 <= i < a.row,
        0 <= j < b.col,
    ensures
        m.at(i, j) as int == sum_of_products(
            a.row_seq(i).map_values(|x: i32| x as int),
            b.col_seq(j).map_values(|x: i32| x as int),
            a.col as nat,
        ),
{
    assert(is_product_cell(a, b, i, j, m.at(i, j)));
    assert(dot_computable(a.row_seq(i), b.col_seq(j)));
    lemma_dot_prefix_i32(a.row_seq(i), b.col_seq(j), a.col as nat);
}

/// On `i64`, a cell of a product whose sums are all defined is the exact
/// integer sum, over the inner dimension, of the products of the elements of
/// its row and its column.
pub proof fn lemma_product_cell_i64(a: Matrix<i64>, b: Matrix<i64>, m: Matrix<i64>, i: int, j: int)
    requires
        compatible(a, b),
        product_computable(a, b),
        is_product(a, b, m),
        0 <= i < a.row,
        0 <= j < b.col,
    ensures
        m.at(i, j) as int == sum_of_products(
            a.row_seq(i).map_values(|x: i64| x as int),
            b.col_seq(j).map_values(|x: i64| x as int),
            a.col as nat,
        ),
{
    assert(is_product_cell(a, b, i, j, m.at(i, j)));
    assert(dot_computable(a.row_seq(i), b.col_seq(j)));
    lemma_dot_prefix_i64(a.row_seq(i), b.col_seq(j), a.col as nat);
}

/// The default value of `T` is one value: whatever `T::default()` returns is
/// equal to whatever else it returns.
pub open spec fn zero_is_unique<T: Default>() -> bool {
    forall|x: T, y: T| is_zero(x) && is_zero(y) ==> x == y
}

/// `i32` has one default value.
pub proof fn lemma_zero_is_unique_i32()
    ensures
        zero_is_unique::<i32>(),
{
}

/// `i64` has one default value.
pub proof fn lemma_zero_is_unique_i64()
    ensures
        zero_is_unique::<i64>(),
{
}

/// Two matrices do not have two products: where the scalar type has one
/// default value, any two products of `a` and `b` are equal in shape and in
/// every cell.
pub proof fn lemma_product_is_unique<T>(a: Matrix<T>, b: Matrix<T>, m1: Matrix<T>, m2: Matrix<T>) where
    T: Default + Add<Output = T> + Mul<Output = T>,
    requires
        zero_is_unique::<T>(),
        is_product(a, b, m1),
        is_product(a, b, m2),
    ensures
        m1.row == m2.row,
        m1.col == m2.col,
        m1.data@ == m2.data@,
{
    assert forall|k: int| 0 <= k < m1.data@.len() implies m1.data@[k] == m2.data@[k] by {
        lemma_buffer_in_cell(k, a.row as int, b.col as int);
        let i = k / b.col as int;
        let j = k % b.col as int;
        assert(is_product_cell(a, b, i, j, m1.at(i, j)));
        assert(is_product_cell(a, b, i, j, m2.at(i, j)));
    }
    assert(m1.data@ =~= m2.data@);
}

impl<T: Copy + Default + Add<Output = T> + Mul<Output = T>> vstd::std_specs::ops::MulSpecImpl for Matrix<T> {
    /// The operator's result is stated by `is_product`, not as a function of
    /// its operands.
    open spec fn obeys_mul_spec() -> bool {
        false
    }

    /// The operator is for operands that have a product.
    open spec fn mul_req(self, rhs: Matrix<T>) -> bool {
        &&& compatible(self, rhs)
        &&& scalar_ops_specified::<T>()
        &&& product_computable(self, rhs)
    }

    open spec fn mul_spec(self, rhs: Matrix<T>) -> Matrix<T> {
        choose|m: Matrix<T>| is_product(self, rhs, m)
    }
}

impl<T: Copy + Default + Add<Output = T> + Mul<Output = T>> Mul for Matrix<T> {
    type Output = Matrix<T>;

    /// The product of two matrices whose shapes fit.
    fn mul(self, rhs: Matrix<T>) -> (m: Matrix<T>)
        ensures
            is_product(self, rhs, m),
    {
        match multiply(&self, &rhs) {
            Ok(m) => m,
            Err(_) => unreached(),
        }
    }
}

} // verus!
