//! A product shared out among workers.
//!
//! `plan` lists the tasks of a product, each with the worker that it goes
//! to. `dispatch` hands every task of the plan to the queue of its worker,
//! together with the sending end of a channel of its own. A worker answers a
//! task with `Msg::process`. `Pending::collect` waits for the answers in the
//! order in which the tasks were handed out, takes each in with `accept`, and
//! assembles them by their tags. The threads that run the workers are the
//! caller's.
//!
//! `multiply_with` is the product without threads: every worker's `share` is
//! computed in turn, and what is assembled is the product whatever the
//! number of workers.

use crate::channel::{await_reply, enqueue, open_channel, send_reply};
use crate::matrix::{
    assemble, assembled_from, compatible, covered, is_product, lemma_assembled_is_product,
    lemma_buffer_in_cell, product_computable, right_for_tag, task, Matrix, MatrixError, Msg,
    MsgInput, MsgOutput,
};
use crate::vector::{dot_computable, scalar_ops_specified, VectorError};
use std::ops::{Add, Mul};
use std::sync::mpsc;
use vstd::arithmetic::div_mod::lemma_fundamental_div_mod;
use vstd::prelude::*;

verus! {

/// The number of workers among which the cells of one product are shared out.
pub const NUM_THREADS: usize = 4;

/// What `dispatch` leaves behind: the receiving ends of the channels of one
/// product's tasks, in the order in which the tasks were handed out, and the
/// cells whose tasks no queue accepted.
#[verifier::reject_recursive_types(T)]
pub struct Pending<T> {
    row: usize,
    col: usize,
    receivers: Vec<oneshot::Receiver<MsgOutput<T>>>,
    refused: Vec<usize>,
}

/// The worker that cell `idx` goes to when `workers` workers take the cells
/// in turn.
pub fn worker_index(idx: usize, workers: usize) -> (w: usize)
    requires
        workers > 0,
    ensures
        w == idx % workers,
        w < workers,
{
    idx % workers
}

impl<T: Copy + Default + Add<Output = T> + Mul<Output = T>> Msg<T> {
    /// One step of a worker: carries the task out and sends the result on the
    /// task's channel. `Ok(true)` where the result was sent, `Ok(false)` where
    /// nobody was left to receive it. Where the task's row and column differ
    /// in length nothing is sent and the channel is closed.
    pub fn process(self) -> (r: Result<bool, VectorError>)
        requires
            scalar_ops_specified::<T>(),
            self.input.row@.len() == self.input.col@.len() ==> dot_computable(
                self.input.row@,
                self.input.col@,
            ),
        ensures
            self.input.row@.len() != self.input.col@.len() <==> r == Err::<bool, VectorError>(
                VectorError::LengthMismatch,
            ),
            self.input.row@.len() == self.input.col@.len() <==> r is Ok,
    {
        match self.input.compute() {
            Ok(output) => match send_reply(self.sender, output) {
                Ok(()) => Ok(true),
                Err(_) => Ok(false),
            },
            Err(e) => Err(e),
        }
    }
}

impl<T> Pending<T> {
    /// As many results are awaited as the product has cells.
    #[verifier::type_invariant]
    spec fn wf(self) -> bool {
        self.receivers@.len() == self.row * self.col
    }

    /// The number of rows of the product that is awaited.
    pub closed spec fn rows(&self) -> usize {
        self.row
    }

    /// The number of columns of the product that is awaited.
    pub closed spec fn cols(&self) -> usize {
        self.col
    }

    /// The number of results that are awaited.
    pub closed spec fn awaited(&self) -> nat {
        self.receivers@.len()
    }

    /// The cells whose tasks no queue accepted, in ascending order.
    pub closed spec fn refused_cells(&self) -> Seq<usize> {
        self.refused@
    }

    /// The cells whose tasks no queue accepted: no worker will answer them.
    pub fn refused(&self) -> (cells: &Vec<usize>)
        ensures
            cells@ == self.refused_cells(),
    {
        &self.refused
    }
}

/// The tasks of the product of `a` and `b` in the order in which they are
/// handed out, each with the worker that it goes to: task `k` is for cell
/// `k`, counted row by row, and goes to worker `k % workers`.
pub fn plan<T: Copy>(a: &Matrix<T>, b: &Matrix<T>, workers: usize) -> (tasks: Vec<
    (usize, MsgInput<T>),
>)
    requires
        compatible(*a, *b),
        workers > 0,
    ensures
        tasks@.len() == a.row * b.col,
        forall|k: int|
            0 <= k < tasks@.len() ==> {
                &&& (#[trigger] tasks@[k]).0 == k % (workers as int)
                &&& tasks@[k].1.idx == k
                &&& tasks@[k].1.row@ == a.row_seq(k / b.col as int)
                &&& tasks@[k].1.col@ == b.col_seq(k % b.col as int)
            },
{
    let len = a.row * b.col;
    let mut tasks: Vec<(usize, MsgInput<T>)> = Vec::new();
    let mut idx: usize = 0;
    while idx < len
        invariant
            compatible(*a, *b),
            workers > 0,
            len == a.row * b.col,
            idx <= len,
            tasks@.len() == idx,
            forall|k: int|
                0 <= k < idx ==> {
                    &&& (#[trigger] tasks@[k]).0 == k % (workers as int)
                    &&& tasks@[k].1.idx == k
                    &&& tasks@[k].1.row@ == a.row_seq(k / b.col as int)
                    &&& tasks@[k].1.col@ == b.col_seq(k % b.col as int)
                },
        decreases len - idx,
    {
        tasks.push((worker_index(idx, workers), task(a, b, idx)));
        idx = idx + 1;
    }
    tasks
}

/// Hands out the tasks of the product of `a` and `b` as `plan` lists them:
/// each with a fresh channel, appended to the queue of its worker. A task
/// whose queue no longer accepts it is dropped, which closes its channel, and
/// its cell is noted as refused. Nothing is handed out where the shapes do
/// not fit.
pub fn dispatch<T: Copy>(a: &Matrix<T>, b: &Matrix<T>, queues: &Vec<mpsc::Sender<Msg<T>>>) -> (r:
    Result<Pending<T>, MatrixError>)
    requires
        queues@.len() > 0,
        a.col == b.row ==> compatible(*a, *b),
    ensures
        a.col != b.row <==> r == Err::<Pending<T>, MatrixError>(MatrixError::DimensionMismatch),
        a.col == b.row <==> r is Ok,
        r matches Ok(pending) ==> {
            &&& pending.rows() == a.row
            &&& pending.cols() == b.col
            &&& pending.awaited() == a.row * b.col
            &&& forall|i: int|
                0 <= i < pending.refused_cells().len() ==> (#[trigger] pending.refused_cells()[i])
                    < a.row * b.col
            &&& forall|i: int, j: int|
                0 <= i < j < pending.refused_cells().len() ==> (
                #[trigger] pending.refused_cells()[i]) < (#[trigger] pending.refused_cells()[j])
        },
{
    if a.col != b.row {
        return Err(MatrixError::DimensionMismatch);
    }
    let tasks = plan(a, b, queues.len());
    let ghost planned = tasks@;
    let mut receivers: Vec<oneshot::Receiver<MsgOutput<T>>> = Vec::new();
    let mut refused: Vec<usize> = Vec::new();
    for assigned in it: tasks.into_iter()
        invariant
            it.seq() == planned,
            planned.len() == a.row * b.col,
            forall|k: int|
                0 <= k < planned.len() ==> (#[trigger] planned[k]).0 < queues@.len()
                    && planned[k].1.idx == k,
            receivers@.len() == it.index(),
            forall|i: int| 0 <= i < refused@.len() ==> (#[trigger] refused@[i]) < it.index(),
            forall|i: int, j: int|
                0 <= i < j < refused@.len() ==> (#[trigger] refused@[i]) < (#[trigger] refused@[j]),
    {
        let (worker, input) = assigned;
        let idx = input.idx;
        let (sender, receiver) = open_channel();
        match enqueue(&queues[worker], Msg::new(input, sender)) {
            Ok(()) => {},
            // The task is gone with the error, and with it the sending end of
            // its channel: `collect` will find the channel closed.
            Err(_) => {
                refused.push(idx);
            },
        }
        receivers.push(receiver);
    }
    Ok(Pending { row: a.row, col: b.col, receivers, refused })
}

/// Takes in what one channel gave: a result tagged with one of the `cells`
/// cells joins `outputs`; a result tagged with another cell is a
/// `ResultOutOfRange`, and a channel that was closed without a result a
/// `ReceiveFailure`, and neither changes `outputs`.
pub fn accept<T>(outputs: &mut Vec<MsgOutput<T>>, cells: usize, reply: Option<MsgOutput<T>>) -> (r:
    Result<(), MatrixError>)
    ensures
        reply is None ==> final(outputs)@ == old(outputs)@ && r == Err::<(), MatrixError>(
            MatrixError::ReceiveFailure,
        ),
        reply matches Some(o) ==> (if o.idx < cells {
            final(outputs)@ == old(outputs)@.push(o) && r is Ok
        } else {
            final(outputs)@ == old(outputs)@ && r == Err::<(), MatrixError>(
                MatrixError::ResultOutOfRange,
            )
        }),
{
    match reply {
        None => Err(MatrixError::ReceiveFailure),
        Some(output) => {
            if output.idx < cells {
                outputs.push(output);
                Ok(())
            } else {
                Err(MatrixError::ResultOutOfRange)
            }
        },
    }
}

impl<T: Copy + Default> Pending<T> {
    /// Waits for the results in the order in which their tasks were handed
    /// out, takes each in with `accept`, and assembles them by their tags.
    /// Fails at the first channel that `accept` does not take in. Where
    /// nothing is awaited nothing can fail.
    pub fn collect(self) -> (r: Result<Matrix<T>, MatrixError>)
        ensures
            self.awaited() == 0 ==> r is Ok,
            r matches Ok(m) ==> m.row == self.rows() && m.col == self.cols() && exists|
                outputs: Seq<MsgOutput<T>>,
            | outputs.len() == self.awaited() && assembled_from(outputs, m),
            r matches Err(e) ==> e == MatrixError::ReceiveFailure || e
                == MatrixError::ResultOutOfRange,
    {
        proof {
            use_type_invariant(&self);
        }
        let row = self.row;
        let col = self.col;
        let len = self.receivers.len();
        let mut outputs: Vec<MsgOutput<T>> = Vec::new();
        for receiver in it: self.receivers.into_iter()
            invariant
                len == row * col,
                len == self.awaited(),
                len == it.seq().len(),
                outputs@.len() == it.index(),
                forall|n: int| 0 <= n < outputs@.len() ==> (#[trigger] outputs@[n]).idx < len,
        {
            let reply = match await_reply(receiver) {
                Ok(output) => Some(output),
                Err(_) => None,
            };
            match accept(&mut outputs, len, reply) {
                Ok(()) => {},
                Err(e) => {
                    return Err(e);
                },
            }
        }
        let m = assemble(row, col, &outputs);
        assert(outputs@.len() == self.awaited() && assembled_from(outputs@, m));
        Ok(m)
    }
}

/// Results tagged with cell `k` stay among the results when more are put
/// before or behind them.
pub proof fn lemma_covered_in_concat<T>(
    front: Seq<MsgOutput<T>>,
    back: Seq<MsgOutput<T>>,
    k: int,
)
    requires
        covered(front, k) || covered(back, k),
    ensures
        covered(front + back, k),
{
    let all = front + back;
    if covered(front, k) {
        let n = choose|n: int| 0 <= n < front.len() && (#[trigger] front[n]).idx == k;
        assert(all[n] == front[n]);
    } else {
        let n = choose|n: int| 0 <= n < back.len() && (#[trigger] back[n]).idx == k;
        assert(all[front.len() + n] == back[n]);
    }
}

/// The share of worker `w` of `workers`: the results of the tasks of the
/// cells `w`, `w + workers`, `w + 2 * workers` and so on, in that order, as
/// far as the product of `a` and `b` has cells.
pub fn share<T>(a: &Matrix<T>, b: &Matrix<T>, workers: usize, w: usize) -> (outputs: Vec<
    MsgOutput<T>,
>) where T: Copy + Default + Add<Output = T> + Mul<Output = T>
    requires
        compatible(*a, *b),
        scalar_ops_specified::<T>(),
        product_computable(*a, *b),
        w < workers,
    ensures
        forall|n: int|
            0 <= n < outputs@.len() ==> (#[trigger] outputs@[n]).idx == w + n * workers
                && right_for_tag(*a, *b, outputs@[n]),
        w + outputs@.len() * workers >= a.row * b.col,
        forall|k: int|
            0 <= k < a.row * b.col && k % (workers as int) == w ==> #[trigger] covered(outputs@, k),
{
    let cells = a.row * b.col;
    let mut outputs: Vec<MsgOutput<T>> = Vec::new();
    let mut k: usize = w;
    let mut more = k < cells;
    assert(outputs@.len() * workers == 0) by (nonlinear_arith)
        requires
            outputs@.len() == 0,
    ;
    while more
        invariant
            compatible(*a, *b),
            scalar_ops_specified::<T>(),
            product_computable(*a, *b),
            w < workers,
            cells == a.row * b.col,
            more ==> k < cells && k == w + outputs@.len() * workers,
            !more ==> w + outputs@.len() * workers >= cells,
            forall|n: int|
                0 <= n < outputs@.len() ==> (#[trigger] outputs@[n]).idx == w + n * workers
                    && right_for_tag(*a, *b, outputs@[n]),
        decreases cells - k + (if more { 1int } else { 0int }),
    {
        proof {
            lemma_buffer_in_cell(k as int, a.row as int, b.col as int);
            assert((outputs@.len() + 1) * workers == outputs@.len() * workers + workers)
                by (nonlinear_arith);
        }
        let output = match task(a, b, k).compute() {
            Ok(output) => output,
            Err(_) => unreached(),
        };
        outputs.push(output);
        if cells - k > workers {
            k = k + workers;
        } else {
            more = false;
        }
    }
    proof {
        let len = outputs@.len() as int;
        let step = workers as int;
        assert forall|c: int| 0 <= c < cells && c % step == w implies #[trigger] covered(
            outputs@,
            c,
        ) by {
            let n = c / step;
            lemma_fundamental_div_mod(c, step);
            assert(c == w + n * step) by (nonlinear_arith)
                requires
                    c == step * n + w,
            ;
            assert(0 <= n) by (nonlinear_arith)
                requires
                    0 <= c,
                    n == c / step,
                    0 < step,
            ;
            assert(n < len) by (nonlinear_arith)
                requires
                    w + n * step < cells,
                    w + len * step >= cells,
                    0 < step,
            ;
            assert(outputs@[n].idx == c);
        }
    }
    outputs
}

/// The product of `a` and `b` as `workers` workers compute it, each taking
/// its share of the cells: the same product whatever the number of workers,
/// and `DimensionMismatch` where `a` has not as many columns as `b` has
/// rows.
pub fn multiply_with<T>(a: &Matrix<T>, b: &Matrix<T>, workers: usize) -> (r: Result<
    Matrix<T>,
    MatrixError,
>) where T: Copy + Default + Add<Output = T> + Mul<Output = T>
    requires
        workers > 0,
        a.col == b.row ==> {
            &&& compatible(*a, *b)
            &&& scalar_ops_specified::<T>()
            &&& product_computable(*a, *b)
        },
    ensures
        a.col != b.row <==> r == Err::<Matrix<T>, MatrixError>(MatrixError::DimensionMismatch),
        a.col == b.row <==> r is Ok,
        r matches Ok(m) ==> is_product(*a, *b, m),
{
    if a.col != b.row {
        return Err(MatrixError::DimensionMismatch);
    }
    let cells = a.row * b.col;
    let mut outputs: Vec<MsgOutput<T>> = Vec::new();
    let mut w: usize = 0;
    while w < workers && w < cells
        invariant
            compatible(*a, *b),
            scalar_ops_specified::<T>(),
            product_computable(*a, *b),
            cells == a.row * b.col,
            w <= workers,
            w <= cells,
            forall|n: int| 0 <= n < outputs@.len() ==> right_for_tag(*a, *b, #[trigger] outputs@[n]),
            forall|k: int|
                0 <= k < cells && k % (workers as int) < w ==> #[trigger] covered(outputs@, k),
        decreases workers - w,
    {
        let mut part = share(a, b, workers, w);
        let ghost front = outputs@;
        let ghost back = part@;
        outputs.append(&mut part);
        proof {
            assert(outputs@ =~= front + back);
            assert forall|k: int| 0 <= k < cells && k % (workers as int) < w + 1 implies #[trigger] covered(
                outputs@,
                k,
            ) by {
                if k % (workers as int) == w {
                    assert(covered(back, k));
                } else {
                    assert(covered(front, k));
                }
                lemma_covered_in_concat(front, back, k);
            }
        }
        w = w + 1;
    }
    let m = assemble(a.row, b.col, &outputs);
    proof {
        assert forall|k: int| 0 <= k < cells implies #[trigger] covered(outputs@, k) by {
            lemma_small_mod_bound(k, workers as int);
        }
        lemma_assembled_is_product(*a, *b, outputs@, m);
    }
    Ok(m)
}

/// The remainder of a number is neither larger than the number nor as large
/// as the divisor.
proof fn lemma_small_mod_bound(k: int, d: int)
    requires
        0 <= k,
        0 < d,
    ensures
        0 <= k % d < d,
        k % d <= k,
{
    lemma_fundamental_div_mod(k, d);
    assert(0 <= d * (k / d)) by (nonlinear_arith)
        requires
            0 <= k,
            0 < d,
            k == d * (k / d) + (k % d),
            0 <= k % d < d,
    ;
}

} // verus!
