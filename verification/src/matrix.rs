//! Square test matrices and their parallel sum.
use vstd::prelude::*;
use rayon::iter::{IntoParallelRefIterator, ParallelIterator};

verus! {

/// The entry at row `i`, column `j` of a generated matrix.
pub open spec fn entry(i: int, j: int) -> u32 {
    ((i + j) % 100) as u32
}

/// The entry at row `i`, column `j` is the last two decimal digits of `i + j`:
/// `(i + j) % 100`, below 100, the same across the diagonal, and repeating every
/// 100 rows and every 100 columns.
pub proof fn lemma_entry_is_sum_mod_100(i: int, j: int)
    requires
        0 <= i,
        0 <= j,
    ensures
        entry(i, j) == ((i + j) % 100) as u32,
        entry(i, j) < 100,
        entry(i, j) == entry(j, i),
        entry(i + 100, j) == entry(i, j),
        entry(i, j + 100) == entry(i, j),
        i + j < 100 ==> entry(i, j) == i + j,
{
}

/// The sum of a row.
pub open spec fn row_total(row: Seq<u32>) -> int
    decreases row.len(),
{
    if row.len() == 0 {
        0
    } else {
        row_total(row.drop_last()) + row.last()
    }
}

/// The sum of all entries of a matrix.
pub open spec fn matrix_total(m: Seq<Seq<u32>>) -> int
    decreases m.len(),
{
    if m.len() == 0 {
        0
    } else {
        matrix_total(m.drop_last()) + row_total(m.last())
    }
}

/// A `size` by `size` matrix whose entry at row `i`, column `j` is `(i + j) % 100`.
pub fn generate_matrix(size: usize) -> (m: Vec<Vec<u32>>)
    ensures
        m@.len() == size,
        forall|i: int| 0 <= i < size ==> (#[trigger] m@[i])@.len() == size,
        forall|i: int, j: int| 0 <= i < size && 0 <= j < size ==> #[trigger] m@[i]@[j] == entry(i, j),
        forall|i: int, j: int| 0 <= i < size && 0 <= j < size ==> #[trigger] m@[i]@[j] == ((i + j) % 100) as u32,
        matrix_total(m.deep_view()) <= 99 * size * size,
{
    let mut matrix: Vec<Vec<u32>> = Vec::new();
    let mut i: usize = 0;
    while i < size
        invariant
            i <= size,
            matrix@.len() == i,
            forall|a: int| 0 <= a < i ==> (#[trigger] matrix@[a])@.len() == size,
            forall|a: int, b: int| 0 <= a < i && 0 <= b < size ==> #[trigger] matrix@[a]@[b] == entry(a, b),
        decreases size - i,
    {
        let mut row: Vec<u32> = Vec::new();
        let mut j: usize = 0;
        while j < size
            invariant
                i < size,
                j <= size,
                row@.len() == j,
                forall|b: int| 0 <= b < j ==> row@[b] == entry(i as int, b),
            decreases size - j,
        {
            let v = ((i % 100 + j % 100) % 100) as u32;
            assert(((i % 100 + j % 100) % 100) == (i + j) % 100) by (nonlinear_arith);
            row.push(v);
            j = j + 1;
        }
        matrix.push(row);
        i = i + 1;
    }
    proof {
        let d = matrix.deep_view();
        assert forall|a: int| 0 <= a < size implies (#[trigger] d[a]).len() == size by {
            assert(d[a] == matrix@[a]@);
        }
        assert forall|a: int, b: int| 0 <= a < size && 0 <= b < size implies #[trigger] d[a][b] == entry(a, b) by {
            assert(d[a] == matrix@[a]@);
        }
        lemma_generated_total_bound(d, size as nat);
    }
    matrix
}

proof fn lemma_row_total_bound(row: Seq<u32>)
    requires forall|j: int| 0 <= j < row.len() ==> row[j] < 100,
    ensures row_total(row) <= 99 * row.len(),
    decreases row.len(),
{
    if row.len() > 0 {
        lemma_row_total_bound(row.drop_last());
        assert(row.last() == row[row.len() - 1]);
    }
}

/// The entries of a generated matrix are below 100, so a `size` by `size` one sums
/// to at most `99 * size * size`.
pub proof fn lemma_generated_total_bound(m: Seq<Seq<u32>>, size: nat)
    requires
        m.len() == size,
        forall|i: int| 0 <= i < size ==> (#[trigger] m[i]).len() == size,
        forall|i: int, j: int| 0 <= i < size && 0 <= j < size ==> #[trigger] m[i][j] == entry(i, j),
    ensures matrix_total(m) <= 99 * size * size,
{
    lemma_rows_total_bound(m, size);
    assert(m.len() * (99 * size) == 99 * size * size) by (nonlinear_arith)
        requires m.len() == size;
}

proof fn lemma_rows_total_bound(m: Seq<Seq<u32>>, size: nat)
    requires
        forall|i: int| 0 <= i < m.len() ==> (#[trigger] m[i]).len() == size,
        forall|i: int, j: int| 0 <= i < m.len() && 0 <= j < size ==> #[trigger] m[i][j] == entry(i, j),
    ensures matrix_total(m) <= m.len() * (99 * size),
    decreases m.len(),
{
    if m.len() > 0 {
        let init = m.drop_last();
        assert forall|i: int, j: int| 0 <= i < init.len() && 0 <= j < size implies #[trigger] init[i][j] == entry(i, j) by {
            assert(init[i] == m[i]);
        }
        assert forall|i: int| 0 <= i < init.len() implies (#[trigger] init[i]).len() == size by {
            assert(init[i] == m[i]);
        }
        lemma_rows_total_bound(init, size);
        let last = m.last();
        assert(last == m[m.len() - 1]);
        assert forall|j: int| 0 <= j < last.len() implies last[j] < 100 by {
            assert(last[j] == entry(m.len() - 1, j));
        }
        lemma_row_total_bound(last);
        assert((m.len() - 1) * (99 * size) + 99 * size == m.len() * (99 * size)) by (nonlinear_arith);
    }
}

/// The sum of a row, its entries added in parallel (`rayon`'s `sum`, whose result
/// for integers does not depend on the order in which it adds).
#[verifier::external_body]
fn parallel_row_total(row: &Vec<u32>) -> (r: u64)
    requires row_total(row@) <= u64::MAX,
    ensures r == row_total(row@),
{
    row.par_iter().map(|&value| u64::from(value)).sum::<u64>()
}

/// The sum of one row.
fn row_sum(row: &Vec<u32>) -> (r: u64)
    requires row_total(row@) <= u64::MAX,
    ensures r == row_total(row@),
{
    parallel_row_total(row)
}

/// The sum of the row sums, added in parallel (`rayon`'s `sum`).
#[verifier::external_body]
fn parallel_rows_total(matrix: &Vec<Vec<u32>>) -> (r: u64)
    requires matrix_total(matrix.deep_view()) <= u64::MAX,
    ensures r == matrix_total(matrix.deep_view()),
{
    matrix.par_iter().map(|row| row_sum(row)).sum::<u64>()
}

/// The sum of all entries of `matrix`, rows and their entries added in parallel.
pub fn parallel_matrix_sum(matrix: &Vec<Vec<u32>>) -> (r: u64)
    requires matrix_total(matrix.deep_view()) <= u64::MAX,
    ensures r == matrix_total(matrix.deep_view()),
{
    parallel_rows_total(matrix)
}

}
