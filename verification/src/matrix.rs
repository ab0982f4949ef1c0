//! Dense product of square matrices, and the product of two matrices with
//! fixed, formula-given entries.
use vstd::arithmetic::div_mod::{
    lemma_fundamental_div_mod_converse_div, lemma_fundamental_div_mod_converse_mod,
};
use vstd::prelude::*;
use crate::raster::lemma_pixel_coordinates;

verus! {

/// The first `terms` terms of the inner product of row `i` of `left` with
/// column `j` of `right`, both row-major `size` by `size` matrices.
pub open spec fn inner_product(
    left: Seq<u8>,
    right: Seq<u8>,
    size: int,
    i: int,
    j: int,
    terms: nat,
) -> int
    decreases terms,
{
    if terms == 0 {
        0
    } else {
        let k = terms - 1;
        inner_product(left, right, size, i, j, k as nat) + left[i * size + k] * right[k * size + j]
    }
}

/// Entry number `idx` of the row-major product of `left` and `right`.
pub open spec fn product_of(left: Seq<u8>, right: Seq<u8>, size: int, idx: int) -> int {
    inner_product(left, right, size, idx / size, idx % size, size as nat)
}

/// Entry `(i, j)` of the left factor.
pub open spec fn left_entry(i: int, j: int) -> int {
    (i + j) % 10
}

/// Entry `(i, j)` of the right factor.
pub open spec fn right_entry(i: int, j: int) -> int {
    (i * j) % 10
}

/// Entry number `idx` of a row-major factor, the right one or the left one.
pub open spec fn factor_entry(size: int, right: bool, idx: int) -> int {
    if right {
        right_entry(idx / size, idx % size)
    } else {
        left_entry(idx / size, idx % size)
    }
}

/// The first `terms` terms of the inner product of row `i` of the left
/// factor with column `j` of the right factor.
pub open spec fn dot(i: int, j: int, terms: nat) -> int
    decreases terms,
{
    if terms == 0 {
        0
    } else {
        dot(i, j, (terms - 1) as nat) + left_entry(i, terms - 1) * right_entry(terms - 1, j)
    }
}

/// Entry number `idx` of the row-major product of the two `size` by `size` factors.
pub open spec fn product_entry(size: int, idx: int) -> int {
    dot(idx / size, idx % size, size as nat)
}

/// Cell `(i, j)` of a row-major `size` by `size` matrix has index
/// `i * size + j`, and can be told from the index.
proof fn lemma_cell(size: int, i: int, j: int)
    requires
        0 <= i < size,
        0 <= j < size,
    ensures
        0 <= i * size + j < size * size,
        (i * size + j) / size == i,
        (i * size + j) % size == j,
{
    assert(0 <= i * size && i * size + j < size * size) by (nonlinear_arith)
        requires
            0 <= i < size,
            0 <= j < size,
    ;
    lemma_fundamental_div_mod_converse_div(i * size + j, size, i, j);
    lemma_fundamental_div_mod_converse_mod(i * size + j, size, i, j);
}

/// On the two factors, the inner product is the sum of the entry formulas.
proof fn lemma_inner_product_of_factors(
    left: Seq<u8>,
    right: Seq<u8>,
    size: int,
    i: int,
    j: int,
    terms: nat,
)
    requires
        left.len() == size * size,
        right.len() == size * size,
        forall|q: int| 0 <= q < size * size ==> #[trigger] left[q] == factor_entry(size, false, q),
        forall|q: int| 0 <= q < size * size ==> #[trigger] right[q] == factor_entry(size, true, q),
        0 <= i < size,
        0 <= j < size,
        terms <= size,
    ensures
        inner_product(left, right, size, i, j, terms) == dot(i, j, terms),
    decreases terms,
{
    if terms > 0 {
        let k = terms - 1;
        lemma_inner_product_of_factors(left, right, size, i, j, k as nat);
        lemma_cell(size, i, k);
        lemma_cell(size, k, j);
    }
}

/// Index of cell `(i, j)` in a row-major `size` by `size` matrix.
fn cell(size: usize, i: usize, j: usize) -> (idx: usize)
    requires
        i < size,
        j < size,
        size * size <= usize::MAX,
    ensures
        idx == i * size + j,
        idx < size * size,
{
    proof {
        lemma_cell(size as int, i as int, j as int);
    }
    i * size + j
}

/// Builds one of the two factors, row-major.
fn factor(size: usize, right: bool) -> (m: Vec<u8>)
    requires
        size * size <= usize::MAX,
        size <= u32::MAX,
    ensures
        m.len() == size * size,
        forall|idx: int|
            0 <= idx < size * size ==> #[trigger] m[idx] == factor_entry(size as int, right, idx),
{
    let count = size * size;
    let mut m: Vec<u8> = Vec::new();
    let mut idx: usize = 0;
    while idx < count
        invariant
            count == size * size,
            size <= u32::MAX,
            idx <= count,
            m.len() == idx,
            forall|q: int| 0 <= q < idx ==> #[trigger] m[q] == factor_entry(size as int, right, q),
        decreases count - idx,
    {
        proof {
            lemma_pixel_coordinates(size as int, size as int, idx as int);
        }
        let i = (idx / size) as u64;
        let j = (idx % size) as u64;
        let entry = if right {
            assert(0 <= i * j <= 0xffff_ffff * 0xffff_ffff) by (nonlinear_arith)
                requires
                    0 <= i <= 0xffff_ffff,
                    0 <= j <= 0xffff_ffff,
            ;
            (i * j) % 10
        } else {
            (i + j) % 10
        };
        m.push(entry as u8);
        idx += 1;
    }
    m
}

/// Multiplies two row-major `size` by `size` matrices of bytes by the
/// standard triple loop and returns the product row by row. The sums are
/// exact: an entry is at most `255 * 255 * size`.
pub fn multiply_square(left: &Vec<u8>, right: &Vec<u8>, size: usize) -> (product: Vec<u64>)
    requires
        left.len() == size * size,
        right.len() == size * size,
    ensures
        product.len() == size * size,
        forall|idx: int|
            0 <= idx < size * size ==> #[trigger] product[idx] == product_of(
                left@,
                right@,
                size as int,
                idx,
            ),
{
    let count = left.len();
    assert(size <= 0xffff_ffff_ffff_ffff && (size > 0xffff_ffff ==> size * size > usize::MAX))
        by (nonlinear_arith)
        requires
            0 <= size <= usize::MAX,
            usize::MAX <= 0xffff_ffff_ffff_ffff,
    ;
    let mut product: Vec<u64> = Vec::new();
    let mut idx: usize = 0;
    while idx < count
        invariant
            count == size * size,
            size <= 0xffff_ffff,
            left.len() == count,
            right.len() == count,
            idx <= count,
            product.len() == idx,
            forall|q: int|
                0 <= q < idx ==> #[trigger] product[q] == product_of(
                    left@,
                    right@,
                    size as int,
                    q,
                ),
        decreases count - idx,
    {
        proof {
            lemma_pixel_coordinates(size as int, size as int, idx as int);
        }
        let i = idx / size;
        let j = idx % size;
        let mut sum: u64 = 0;
        let mut k: usize = 0;
        while k < size
            invariant
                count == size * size,
                size <= 0xffff_ffff,
                left.len() == count,
                right.len() == count,
                i < size,
                j < size,
                k <= size,
                sum == inner_product(left@, right@, size as int, i as int, j as int, k as nat),
                sum <= 65025 * k,
            decreases size - k,
        {
            let a = left[cell(size, i, k)] as u64;
            let b = right[cell(size, k, j)] as u64;
            assert(0 <= a * b <= 65025) by (nonlinear_arith)
                requires
                    0 <= a <= 255,
                    0 <= b <= 255,
            ;
            sum = sum + a * b;
            k += 1;
        }
        product.push(sum);
        idx += 1;
    }
    product
}

/// Multiplies the `size` by `size` matrices with entries `(i + j) % 10` and
/// `(i * j) % 10` and returns the product row by row.
pub fn matrix_multiply(size: u32) -> (product: Vec<u64>)
    requires
        size * size <= usize::MAX,
    ensures
        product.len() == size * size,
        forall|idx: int|
            0 <= idx < size * size ==> #[trigger] product[idx] == product_entry(size as int, idx),
{
    let n = size as usize;
    let left = factor(n, false);
    let right = factor(n, true);
    let product = multiply_square(&left, &right, n);
    assert forall|idx: int| 0 <= idx < size * size implies #[trigger] product[idx]
        == product_entry(size as int, idx) by {
        lemma_pixel_coordinates(n as int, n as int, idx);
        lemma_inner_product_of_factors(
            left@,
            right@,
            n as int,
            idx / (n as int),
            idx % (n as int),
            n as nat,
        );
    }
    product
}

} // verus!
