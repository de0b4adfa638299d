//! Row-major matrices: their axes, their transpose, and a transform applied
//! lane by lane.

use vstd::prelude::*;

verus! {

/// The direction along which a matrix is walked.
#[derive(Debug, Clone, PartialEq, Eq, Structural, Hash, Copy, Default)]
pub enum Axis {
    /// Along each row.
    #[default]
    Row,
    /// Along each column.
    Column,
}

/// The transpose of a row-major matrix, itself row-major with rows of
/// `width` cells; the matrix that is read has `width` rows.
pub open spec fn transposed<T>(input: Seq<T>, width: int) -> Seq<T> {
    let height = (input.len() as int) / width;
    Seq::new(input.len(), |i: int| input[(i % width) * height + i / width])
}

/// Transposes a row-major matrix of `width` rows into one with rows of
/// `width` cells.
pub fn transpose<T: Copy>(input: &[T], width: usize) -> (out: Vec<T>)
    requires
        width > 0,
        (input@.len() as int) % (width as int) == 0,
    ensures
        out@ == transposed(input@, width as int),
{
    let len = input.len();
    let height = len / width;
    proof {
        vstd::arithmetic::div_mod::lemma_fundamental_div_mod(len as int, width as int);
        assert(width * height == height * width) by (nonlinear_arith);
    }
    let mut out: Vec<T> = Vec::new();
    let mut i: usize = 0;
    while i < len
        invariant
            width > 0,
            len == input@.len(),
            height == len / width,
            len == height * width,
            i <= len,
            out@.len() == i,
            forall|j: int| 0 <= j < i ==> out@[j] == transposed(input@, width as int)[j],
        decreases len - i,
    {
        let r = i / width;
        let c = i % width;
        proof {
            lemma_transposed_index(i as int, width as int, height as int);
        }
        out.push(input[c * height + r]);
        i += 1;
    }
    assert(out@ =~= transposed(input@, width as int));
    out
}

/// Lane `k` of a row-major matrix with rows of `width` cells: row `k` along
/// the rows, column `k` along the columns.
pub open spec fn lane<T>(matrix: Seq<T>, width: int, axis: Axis, k: int) -> Seq<T> {
    match axis {
        Axis::Row => matrix.subrange(k * width, k * width + width),
        Axis::Column => Seq::new(
            ((matrix.len() as int) / width) as nat,
            |r: int| matrix[r * width + k],
        ),
    }
}

/// Number of lanes that a matrix of `len` cells with rows of `width` cells
/// has along `axis`.
pub open spec fn lane_count(len: int, width: int, axis: Axis) -> int {
    match axis {
        Axis::Row => len / width,
        Axis::Column => width,
    }
}

/// Number of cells in each lane of such a matrix.
pub open spec fn lane_length(len: int, width: int, axis: Axis) -> int {
    match axis {
        Axis::Row => width,
        Axis::Column => len / width,
    }
}

/// Whether `after` is a value that `transform` may give for `before`.
pub open spec fn relates<T, F: Fn(&[T]) -> Vec<T>>(
    transform: F,
    before: Seq<T>,
    after: Seq<T>,
) -> bool {
    exists|x: &[T], y: Vec<T>|
        x@ == before && y@ == after && #[trigger] call_ensures(transform, (x,), y)
}

/// Applies `transform` to every row of a row-major matrix with rows of
/// `width` cells.
fn over_rows<T: Copy, F: Fn(&[T]) -> Vec<T>>(input: &[T], width: usize, transform: &F) -> (out:
    Vec<T>)
    requires
        width > 0,
        (input@.len() as int) % (width as int) == 0,
        forall|x: &[T]| x@.len() == width ==> call_requires(*transform, (x,)),
        forall|x: &[T], y: Vec<T>| call_ensures(*transform, (x,), y) ==> y@.len() == x@.len(),
    ensures
        out@.len() == input@.len(),
        forall|k: int|
            0 <= k < (input@.len() as int) / (width as int) ==> relates(
                *transform,
                #[trigger] lane(input@, width as int, Axis::Row, k),
                lane(out@, width as int, Axis::Row, k),
            ),
{
    let len = input.len();
    let height = len / width;
    proof {
        vstd::arithmetic::div_mod::lemma_fundamental_div_mod(len as int, width as int);
        assert(width * height == height * width) by (nonlinear_arith);
    }
    let mut out: Vec<T> = Vec::new();
    let mut k: usize = 0;
    while k < height
        invariant
            width > 0,
            len == input@.len(),
            height == len / width,
            len == height * width,
            k <= height,
            out@.len() == k * width,
            forall|x: &[T]| x@.len() == width ==> call_requires(*transform, (x,)),
            forall|x: &[T], y: Vec<T>| call_ensures(*transform, (x,), y) ==> y@.len() == x@.len(),
            forall|j: int|
                0 <= j < k ==> relates(
                    *transform,
                    #[trigger] lane(input@, width as int, Axis::Row, j),
                    out@.subrange(j * width, j * width + width),
                ),
        decreases height - k,
    {
        proof {
            lemma_row_inside(k as int, width as int, height as int);
        }
        let before = &input[k * width..k * width + width];
        let after = transform(before);
        let ghost done = out@;
        let mut c: usize = 0;
        while c < width
            invariant
                after@.len() == width,
                c <= width,
                out@ == done + after@.subrange(0, c as int),
            decreases width - c,
        {
            out.push(after[c]);
            c += 1;
            assert(out@ =~= done + after@.subrange(0, c as int));
        }
        proof {
            assert(after@.subrange(0, width as int) =~= after@);
            assert(k * width + width == (k + 1) * width) by (nonlinear_arith);
            assert(out@.subrange(k * width, k * width + width) =~= after@);
            assert forall|j: int| 0 <= j < k + 1 implies relates(
                *transform,
                #[trigger] lane(input@, width as int, Axis::Row, j),
                out@.subrange(j * width, j * width + width),
            ) by {
                if j < k {
                    lemma_row_inside(j, width as int, k as int);
                    assert(out@.subrange(j * width, j * width + width) =~= done.subrange(
                        j * width,
                        j * width + width,
                    ));
                } else {
                    assert(call_ensures(*transform, (before,), after));
                }
            }
        }
        k += 1;
    }
    out
}

/// Applies `transform` to every lane of a row-major matrix with rows of
/// `width` cells, along `axis`, and sets what it gives in the lane's place.
/// A matrix without a cell, or with rows of no cell, gives the empty one.
pub fn over_matrix<T: Copy, F: Fn(&[T]) -> Vec<T>>(
    input: &[T],
    width: usize,
    axis: Axis,
    transform: F,
) -> (out: Vec<T>)
    requires
        width > 0 ==> (input@.len() as int) % (width as int) == 0,
        forall|x: &[T]|
            x@.len() == lane_length(input@.len() as int, width as int, axis) ==> call_requires(
                transform,
                (x,),
            ),
        forall|x: &[T], y: Vec<T>| call_ensures(transform, (x,), y) ==> y@.len() == x@.len(),
    ensures
        width == 0 ==> out@.len() == 0,
        width > 0 ==> out@.len() == input@.len(),
        width > 0 && input@.len() > 0 ==> forall|k: int|
            0 <= k < lane_count(input@.len() as int, width as int, axis) ==> relates(
                transform,
                #[trigger] lane(input@, width as int, axis, k),
                lane(out@, width as int, axis, k),
            ),
{
    if input.len() == 0 || width == 0 {
        return Vec::new();
    }
    match axis {
        Axis::Row => over_rows(input, width, &transform),
        Axis::Column => {
            let len = input.len();
            let height = len / width;
            proof {
                vstd::arithmetic::div_mod::lemma_fundamental_div_mod(len as int, width as int);
                assert(width * height == height * width) by (nonlinear_arith);
                assert(height > 0) by (nonlinear_arith)
                    requires
                        len == height * width,
                        len > 0,
                ;
                vstd::arithmetic::div_mod::lemma_fundamental_div_mod_converse(
                    len as int,
                    height as int,
                    width as int,
                    0,
                );
            }
            let turned = transpose(input, height);
            let passed = over_rows(turned.as_slice(), height, &transform);
            let out = transpose(passed.as_slice(), width);
            proof {
                assert forall|k: int| 0 <= k < width implies relates(
                    transform,
                    #[trigger] lane(input@, width as int, Axis::Column, k),
                    lane(out@, width as int, Axis::Column, k),
                ) by {
                    let before = lane(turned@, height as int, Axis::Row, k);
                    let after = lane(passed@, height as int, Axis::Row, k);
                    assert(relates(transform, before, after));
                    lemma_row_inside(k, height as int, width as int);
                    assert forall|r: int| 0 <= r < height implies before[r] == input@[r * width
                        + k] && after[r] == out@[r * width + k] by {
                        lemma_turned_cell(r, k, width as int, height as int);
                    }
                    assert(before =~= lane(input@, width as int, Axis::Column, k));
                    assert(after =~= lane(out@, width as int, Axis::Column, k));
                }
            }
            out
        },
    }
}

/// Row `k` of a matrix with `height` rows of `width` cells lies inside it.
proof fn lemma_row_inside(k: int, width: int, height: int)
    requires
        0 <= k < height,
        0 < width,
    ensures
        0 <= k * width,
        k * width + width <= height * width,
{
    assert(0 <= k * width && k * width + width <= height * width) by (nonlinear_arith)
        requires
            0 <= k < height,
            0 < width,
    ;
}

/// Cell `(r, k)` of a matrix with `height` rows of `width` cells is cell
/// `(k, r)` of its transpose, whichever of the two is transposed.
proof fn lemma_turned_cell(r: int, k: int, width: int, height: int)
    requires
        0 <= r < height,
        0 <= k < width,
    ensures
        0 <= k * height + r < height * width,
        0 <= r * width + k < height * width,
        (k * height + r) % height == r,
        (k * height + r) / height == k,
        (r * width + k) % width == k,
        (r * width + k) / width == r,
{
    vstd::arithmetic::div_mod::lemma_fundamental_div_mod_converse(k * height + r, height, k, r);
    vstd::arithmetic::div_mod::lemma_fundamental_div_mod_converse(r * width + k, width, r, k);
    assert(0 <= k * height + r < height * width && 0 <= r * width + k < height * width)
        by (nonlinear_arith)
        requires
            0 <= r < height,
            0 <= k < width,
    ;
}

/// The cell that the transpose takes for place `i` lies inside the matrix.
proof fn lemma_transposed_index(i: int, width: int, height: int)
    requires
        width > 0,
        0 <= i < height * width,
    ensures
        0 <= i / width < height,
        0 <= i % width < width,
        0 <= (i % width) * height <= (i % width) * height + i / width < height * width,
{
    let r = i / width;
    let c = i % width;
    vstd::arithmetic::div_mod::lemma_fundamental_div_mod(i, width);
    assert(r < height) by (nonlinear_arith)
        requires
            i == width * r + c,
            0 <= c,
            i < height * width,
            width > 0,
    ;
    assert(0 <= r) by (nonlinear_arith)
        requires
            i == width * r + c,
            c < width,
            0 <= i,
            width > 0,
    ;
    assert(0 <= c * height && c * height + r < height * width) by (nonlinear_arith)
        requires
            0 <= c < width,
            0 <= r < height,
    ;
}

} // verus!
