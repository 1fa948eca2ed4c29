//! The selection engine: restricting an array or a tabular value to an
//! explicit ordered list of positions along the first (row) or second
//! (column) axis.  Arrays are flat and row-major, so a selection is a gather
//! over computed flat positions.

use vstd::prelude::*;
use vstd::arithmetic::div_mod::{lemma_fundamental_div_mod_converse, lemma_div_multiples_vanish};
use vstd::pervasive::VecAdditionalExecFns;
use vstd::arithmetic::mul::{lemma_mul_inequality, lemma_mul_is_distributive_add_other_way};

use crate::values::{
    ArrV, ArrayV, CatV, CategoricalArray, DataFrameData, DenseArray, DynArray, FrameV,
    clone_copy_vec, clone_string_vec, shape_product,
};
use crate::errors::{AnnError, AnnResult};

verus! {

/// The product of a shape's extents is never negative.
pub broadcast proof fn lemma_shape_product_nonneg(shape: Seq<usize>)
    ensures
        #[trigger] shape_product(shape) >= 0,
    decreases shape.len(),
{
    if shape.len() > 0 {
        lemma_shape_product_nonneg(shape.skip(1));
        vstd::arithmetic::mul::lemma_mul_nonnegative(shape[0] as int, shape_product(shape.skip(1)));
    }
}

/// Replacing the first extent leaves the span of one row unchanged.
pub proof fn lemma_update0_keeps_row_size(shape: Seq<usize>, n: usize)
    requires
        shape.len() >= 1,
    ensures
        shape.update(0, n).skip(1) == shape.skip(1),
        shape_product(shape.update(0, n)) == n * shape_product(shape.skip(1)),
{
    assert(shape.update(0, n).skip(1) =~= shape.skip(1));
}

/// A two-dimensional shape spans exactly rows times columns elements.
pub proof fn lemma_shape_product_2d(shape: Seq<usize>)
    requires
        shape.len() == 2,
    ensures
        shape_product(shape.skip(1)) == shape[1],
        shape_product(shape) == shape[0] * shape[1],
{
    assert(shape.skip(1).skip(1) =~= shape.skip(2));
    assert(shape.skip(2).len() == 0);
    assert(shape_product(shape.skip(2)) == 1);
    assert(shape.skip(1)[0] == shape[1]);
    assert(shape_product(shape.skip(1)) == shape[1] * 1);
}

/// The flat source position of flat destination position `k` after the rows
/// named by `idx` are selected from an array whose rows span `rs` elements.
pub open spec fn sel_rows_src(idx: Seq<usize>, rs: int, k: int) -> int {
    idx[k / rs] * rs + k % rs
}

/// The flat source position of flat destination position `k` after the
/// columns named by `idx` are selected from a two-dimensional array with
/// `nc` columns.
pub open spec fn sel_cols_src(nc: int, idx: Seq<usize>, k: int) -> int {
    (k / idx.len() as int) * nc + idx[k % idx.len() as int]
}

/// The flat source positions for a row selection, in destination order.
fn rows_positions(idx: &Vec<usize>, n0: usize, rs: usize) -> (pos: Vec<usize>)
    requires
        forall|k: int| 0 <= k < idx@.len() ==> (#[trigger] idx@[k]) < n0,
        n0 * rs <= usize::MAX,
    ensures
        pos@.len() == idx@.len() * rs,
        forall|k: int| 0 <= k < pos@.len() ==> (#[trigger] pos@[k]) == sel_rows_src(idx@, rs as int, k),
        forall|k: int| 0 <= k < pos@.len() ==> (#[trigger] pos@[k]) < n0 * rs,
{
    let mut pos: Vec<usize> = Vec::new();
    let mut i: usize = 0;
    while i < idx.len()
        invariant
            forall|k: int| 0 <= k < idx@.len() ==> (#[trigger] idx@[k]) < n0,
            n0 * rs <= usize::MAX,
            i <= idx@.len(),
            pos@.len() == i * rs,
            forall|k: int| 0 <= k < pos@.len() ==> (#[trigger] pos@[k]) == sel_rows_src(idx@, rs as int, k),
            forall|k: int| 0 <= k < pos@.len() ==> (#[trigger] pos@[k]) < n0 * rs,
        decreases idx@.len() - i,
    {
        let row = idx[i];
        proof {
            lemma_mul_inequality(row + 1, n0 as int, rs as int);
            lemma_mul_is_distributive_add_other_way(rs as int, row as int, 1);
        }
        let base: usize = row * rs;
        let mut j: usize = 0;
        while j < rs
            invariant
                forall|k: int| 0 <= k < idx@.len() ==> (#[trigger] idx@[k]) < n0,
                n0 * rs <= usize::MAX,
                i < idx@.len(),
                row == idx@[i as int],
                base == row * rs,
                base + rs <= n0 * rs,
                j <= rs,
                pos@.len() == i * rs + j,
                forall|k: int| 0 <= k < pos@.len() ==> (#[trigger] pos@[k]) == sel_rows_src(idx@, rs as int, k),
                forall|k: int| 0 <= k < pos@.len() ==> (#[trigger] pos@[k]) < n0 * rs,
            decreases rs - j,
        {
            proof {
                lemma_fundamental_div_mod_converse(
                    i as int * rs as int + j as int,
                    rs as int,
                    i as int,
                    j as int,
                );
            }
            pos.push(base + j);
            j += 1;
        }
        i += 1;
        proof {
            lemma_mul_is_distributive_add_other_way(rs as int, i as int - 1, 1);
        }
    }
    pos
}

/// The flat source positions for a column selection on a two-dimensional
/// array, in destination order.
fn cols_positions(n0: usize, nc: usize, idx: &Vec<usize>) -> (pos: Vec<usize>)
    requires
        forall|k: int| 0 <= k < idx@.len() ==> (#[trigger] idx@[k]) < nc,
        n0 * nc <= usize::MAX,
    ensures
        pos@.len() == n0 * idx@.len(),
        forall|k: int| 0 <= k < pos@.len() ==> (#[trigger] pos@[k]) == sel_cols_src(nc as int, idx@, k),
        forall|k: int| 0 <= k < pos@.len() ==> (#[trigger] pos@[k]) < n0 * nc,
{
    let k2 = idx.len();
    let mut pos: Vec<usize> = Vec::new();
    let mut i: usize = 0;
    while i < n0
        invariant
            forall|k: int| 0 <= k < idx@.len() ==> (#[trigger] idx@[k]) < nc,
            n0 * nc <= usize::MAX,
            k2 == idx@.len(),
            i <= n0,
            pos@.len() == i * k2,
            forall|k: int| 0 <= k < pos@.len() ==> (#[trigger] pos@[k]) == sel_cols_src(nc as int, idx@, k),
            forall|k: int| 0 <= k < pos@.len() ==> (#[trigger] pos@[k]) < n0 * nc,
        decreases n0 - i,
    {
        proof {
            lemma_mul_inequality(i as int + 1, n0 as int, nc as int);
            lemma_mul_is_distributive_add_other_way(nc as int, i as int, 1);
        }
        let base: usize = i * nc;
        let mut j: usize = 0;
        while j < k2
            invariant
                forall|k: int| 0 <= k < idx@.len() ==> (#[trigger] idx@[k]) < nc,
                n0 * nc <= usize::MAX,
                k2 == idx@.len(),
                i < n0,
                base == i * nc,
                base + nc <= n0 * nc,
                j <= k2,
                pos@.len() == i * k2 + j,
                forall|k: int| 0 <= k < pos@.len() ==> (#[trigger] pos@[k]) == sel_cols_src(nc as int, idx@, k),
                forall|k: int| 0 <= k < pos@.len() ==> (#[trigger] pos@[k]) < n0 * nc,
            decreases k2 - j,
        {
            proof {
                lemma_fundamental_div_mod_converse(
                    i as int * k2 as int + j as int,
                    k2 as int,
                    i as int,
                    j as int,
                );
            }
            pos.push(base + idx[j]);
            j += 1;
        }
        i += 1;
        proof {
            lemma_mul_is_distributive_add_other_way(k2 as int, i as int - 1, 1);
        }
    }
    pos
}

/// Gathers plainly copyable elements at the given positions.
pub(crate) fn gather_copy<T: Copy>(v: &Vec<T>, pos: &Vec<usize>) -> (r: Vec<T>)
    requires
        forall|k: int| 0 <= k < pos@.len() ==> (#[trigger] pos@[k]) < v@.len(),
    ensures
        r@.len() == pos@.len(),
        forall|k: int| 0 <= k < r@.len() ==> (#[trigger] r@[k]) == v@[pos@[k] as int],
{
    let mut r: Vec<T> = Vec::new();
    let mut i: usize = 0;
    while i < pos.len()
        invariant
            forall|k: int| 0 <= k < pos@.len() ==> (#[trigger] pos@[k]) < v@.len(),
            i <= pos@.len(),
            r@.len() == i,
            forall|k: int| 0 <= k < i ==> (#[trigger] r@[k]) == v@[pos@[k] as int],
        decreases pos@.len() - i,
    {
        r.push(v[pos[i]]);
        i += 1;
    }
    r
}

/// Gathers strings at the given positions; each copy holds the same
/// character sequence as its source.
pub(crate) fn gather_strings(v: &Vec<String>, pos: &Vec<usize>) -> (r: Vec<String>)
    requires
        forall|k: int| 0 <= k < pos@.len() ==> (#[trigger] pos@[k]) < v@.len(),
    ensures
        r@.len() == pos@.len(),
        forall|k: int| 0 <= k < r@.len() ==> (#[trigger] r@[k])@ == v@[pos@[k] as int]@,
{
    let mut r: Vec<String> = Vec::new();
    let mut i: usize = 0;
    while i < pos.len()
        invariant
            forall|k: int| 0 <= k < pos@.len() ==> (#[trigger] pos@[k]) < v@.len(),
            i <= pos@.len(),
            r@.len() == i,
            forall|k: int| 0 <= k < i ==> (#[trigger] r@[k])@ == v@[pos@[k] as int]@,
        decreases pos@.len() - i,
    {
        r.push(v[pos[i]].clone());
        i += 1;
    }
    r
}

/// Model of a row selection: the first extent becomes the number of selected
/// rows and each destination row copies its source row.
pub open spec fn arrv_rows<E>(v: ArrV<E>, idx: Seq<usize>) -> ArrV<E> {
    ArrV {
        shape: v.shape.update(0, idx.len() as usize),
        data: Seq::new((idx.len() * v.row_size()) as nat, |k: int| v.data[sel_rows_src(idx, v.row_size(), k)]),
    }
}

/// Model of a column selection on a two-dimensional array.
pub open spec fn arrv_cols<E>(v: ArrV<E>, idx: Seq<usize>) -> ArrV<E> {
    ArrV {
        shape: v.shape.update(1, idx.len() as usize),
        data: Seq::new(
            (v.shape[0] * idx.len()) as nat,
            |k: int| v.data[sel_cols_src(v.shape[1] as int, idx, k)],
        ),
    }
}


/// Row selection on a dense array of plainly copyable elements.
fn dense_rows_copy<T: Copy>(a: &DenseArray<T>, idx: &Vec<usize>) -> (r: DenseArray<T>)
    requires
        a.wf(),
        a.shape@.len() >= 1,
        forall|k: int| 0 <= k < idx@.len() ==> (#[trigger] idx@[k]) < a.shape@[0],
    ensures
        r.view_plain() == arrv_rows(a.view_plain(), idx@),
        r.wf(),
{
    broadcast use lemma_shape_product_nonneg;

    let ghost rs_g: int = a.view_plain().row_size();
    let n0 = a.shape[0];
    let mut shape = clone_copy_vec(&a.shape);
    shape.set(0, idx.len());
    proof {
        lemma_update0_keeps_row_size(a.shape@, idx@.len() as usize);
    }
    if n0 == 0 {
        let r = DenseArray { shape, data: Vec::new() };
        proof {
            assert(idx@.len() == 0) by {
                if idx@.len() > 0 {
                    assert(idx@[0] < n0);
                }
            }
            vstd::arithmetic::mul::lemma_mul_by_zero_is_zero(a.view_plain().row_size());
            assert(r.view_plain().data =~= arrv_rows(a.view_plain(), idx@).data);
        }
        return r;
    }
    let rs: usize = a.data.len() / n0;
    proof {
        lemma_div_multiples_vanish(rs_g, n0 as int);
    }
    let pos = rows_positions(idx, n0, rs);
    let data = gather_copy(&a.data, &pos);
    let r = DenseArray { shape, data };
    proof {
        assert(r.view_plain().data =~= arrv_rows(a.view_plain(), idx@).data);
    }
    r
}

/// Row selection on a dense array of strings.
fn dense_rows_string(a: &DenseArray<String>, idx: &Vec<usize>) -> (r: DenseArray<String>)
    requires
        a.wf(),
        a.shape@.len() >= 1,
        forall|k: int| 0 <= k < idx@.len() ==> (#[trigger] idx@[k]) < a.shape@[0],
    ensures
        r@ == arrv_rows(a@, idx@),
        r@.wf(),
{
    broadcast use lemma_shape_product_nonneg;

    let ghost rs_g: int = a.view_plain().row_size();
    let n0 = a.shape[0];
    let mut shape = clone_copy_vec(&a.shape);
    shape.set(0, idx.len());
    proof {
        lemma_update0_keeps_row_size(a.shape@, idx@.len() as usize);
        assert(a@.row_size() == rs_g);
        assert(a@.data.len() == a.data@.len());
    }
    if n0 == 0 {
        let r = DenseArray { shape, data: Vec::new() };
        proof {
            assert(idx@.len() == 0) by {
                if idx@.len() > 0 {
                    assert(idx@[0] < n0);
                }
            }
            vstd::arithmetic::mul::lemma_mul_by_zero_is_zero(a@.row_size());
            assert(r@.data =~= arrv_rows(a@, idx@).data);
        }
        return r;
    }
    let rs: usize = a.data.len() / n0;
    proof {
        lemma_div_multiples_vanish(rs_g, n0 as int);
    }
    let pos = rows_positions(idx, n0, rs);
    let data = gather_strings(&a.data, &pos);
    let r = DenseArray { shape, data };
    proof {
        assert(r@.data =~= arrv_rows(a@, idx@).data);
    }
    r
}

/// Column selection on a two-dimensional dense array of plainly copyable
/// elements.
fn dense_cols_copy<T: Copy>(a: &DenseArray<T>, idx: &Vec<usize>) -> (r: DenseArray<T>)
    requires
        a.wf(),
        a.shape@.len() == 2,
        forall|k: int| 0 <= k < idx@.len() ==> (#[trigger] idx@[k]) < a.shape@[1],
    ensures
        r.view_plain() == arrv_cols(a.view_plain(), idx@),
        r.wf(),
{
    let n0 = a.shape[0];
    let nc = a.shape[1];
    let total: usize = a.data.len();
    proof {
        lemma_shape_product_2d(a.shape@);
        assert(n0 * nc == total);
    }
    let pos = cols_positions(n0, nc, idx);
    let data = gather_copy(&a.data, &pos);
    let mut shape = clone_copy_vec(&a.shape);
    shape.set(1, idx.len());
    let r = DenseArray { shape, data };
    proof {
        lemma_shape_product_2d(r.shape@);
        assert(r.view_plain().data =~= arrv_cols(a.view_plain(), idx@).data);
    }
    r
}

/// Column selection on a two-dimensional dense array of strings.
fn dense_cols_string(a: &DenseArray<String>, idx: &Vec<usize>) -> (r: DenseArray<String>)
    requires
        a.wf(),
        a.shape@.len() == 2,
        forall|k: int| 0 <= k < idx@.len() ==> (#[trigger] idx@[k]) < a.shape@[1],
    ensures
        r@ == arrv_cols(a@, idx@),
        r@.wf(),
{
    let n0 = a.shape[0];
    let nc = a.shape[1];
    let total: usize = a.data.len();
    proof {
        lemma_shape_product_2d(a.shape@);
        assert(n0 * nc == total);
        assert(a@.data.len() == a.data@.len());
    }
    let pos = cols_positions(n0, nc, idx);
    let data = gather_strings(&a.data, &pos);
    let mut shape = clone_copy_vec(&a.shape);
    shape.set(1, idx.len());
    let r = DenseArray { shape, data };
    proof {
        lemma_shape_product_2d(r.shape@);
        assert(r@.data =~= arrv_cols(a@, idx@).data);
    }
    r
}

/// Model of a row selection on a categorical array: its codes are gathered,
/// its category table is kept.
pub open spec fn cat_rows(c: CatV, idx: Seq<usize>) -> CatV {
    CatV { codes: Seq::new(idx.len(), |k: int| c.codes[idx[k] as int]), categories: c.categories }
}

/// Model of a row selection on a dynamic array.
pub open spec fn arrayv_rows(v: ArrayV, idx: Seq<usize>) -> ArrayV {
    match v {
        ArrayV::I8(a) => ArrayV::I8(arrv_rows(a, idx)),
        ArrayV::I16(a) => ArrayV::I16(arrv_rows(a, idx)),
        ArrayV::I32(a) => ArrayV::I32(arrv_rows(a, idx)),
        ArrayV::I64(a) => ArrayV::I64(arrv_rows(a, idx)),
        ArrayV::U8(a) => ArrayV::U8(arrv_rows(a, idx)),
        ArrayV::U16(a) => ArrayV::U16(arrv_rows(a, idx)),
        ArrayV::U32(a) => ArrayV::U32(arrv_rows(a, idx)),
        ArrayV::U64(a) => ArrayV::U64(arrv_rows(a, idx)),
        ArrayV::F32(a) => ArrayV::F32(arrv_rows(a, idx)),
        ArrayV::F64(a) => ArrayV::F64(arrv_rows(a, idx)),
        ArrayV::Bool(a) => ArrayV::Bool(arrv_rows(a, idx)),
        ArrayV::Str(a) => ArrayV::Str(arrv_rows(a, idx)),
        ArrayV::Cat(c) => ArrayV::Cat(cat_rows(c, idx)),
    }
}

/// Model of a column selection on a two-dimensional dynamic array.
pub open spec fn arrayv_cols(v: ArrayV, idx: Seq<usize>) -> ArrayV {
    match v {
        ArrayV::I8(a) => ArrayV::I8(arrv_cols(a, idx)),
        ArrayV::I16(a) => ArrayV::I16(arrv_cols(a, idx)),
        ArrayV::I32(a) => ArrayV::I32(arrv_cols(a, idx)),
        ArrayV::I64(a) => ArrayV::I64(arrv_cols(a, idx)),
        ArrayV::U8(a) => ArrayV::U8(arrv_cols(a, idx)),
        ArrayV::U16(a) => ArrayV::U16(arrv_cols(a, idx)),
        ArrayV::U32(a) => ArrayV::U32(arrv_cols(a, idx)),
        ArrayV::U64(a) => ArrayV::U64(arrv_cols(a, idx)),
        ArrayV::F32(a) => ArrayV::F32(arrv_cols(a, idx)),
        ArrayV::F64(a) => ArrayV::F64(arrv_cols(a, idx)),
        ArrayV::Bool(a) => ArrayV::Bool(arrv_cols(a, idx)),
        ArrayV::Str(a) => ArrayV::Str(arrv_cols(a, idx)),
        ArrayV::Cat(c) => v,
    }
}

impl CategoricalArray {
    /// Restricts the codes to the given positions; the category table is kept.
    pub fn select_rows(&self, idx: &Vec<usize>) -> (r: CategoricalArray)
        requires
            forall|k: int| 0 <= k < idx@.len() ==> (#[trigger] idx@[k]) < self.codes@.len(),
        ensures
            r@ == cat_rows(self@, idx@),
    {
        let codes = gather_copy(&self.codes, idx);
        let categories = clone_string_vec(&self.categories);
        let r = CategoricalArray { codes, categories };
        proof {
            assert(r@.codes =~= cat_rows(self@, idx@).codes);
        }
        r
    }
}

impl DynArray {
    /// Restricts the array to the given rows, in the given order.  Every
    /// position must lie below the first extent.
    pub fn select_rows(&self, idx: &Vec<usize>) -> (r: DynArray)
        requires
            self@.wf(),
            self@.shape_spec().len() >= 1,
            forall|k: int| 0 <= k < idx@.len() ==> (#[trigger] idx@[k]) < self@.shape_spec()[0],
        ensures
            r@ == arrayv_rows(self@, idx@),
            r@.wf(),
            r@.shape_spec() == self@.shape_spec().update(0, idx@.len() as usize),
    {
        let r = match self {
            DynArray::I8(a) => DynArray::I8(dense_rows_copy(a, idx)),
            DynArray::I16(a) => DynArray::I16(dense_rows_copy(a, idx)),
            DynArray::I32(a) => DynArray::I32(dense_rows_copy(a, idx)),
            DynArray::I64(a) => DynArray::I64(dense_rows_copy(a, idx)),
            DynArray::U8(a) => DynArray::U8(dense_rows_copy(a, idx)),
            DynArray::U16(a) => DynArray::U16(dense_rows_copy(a, idx)),
            DynArray::U32(a) => DynArray::U32(dense_rows_copy(a, idx)),
            DynArray::U64(a) => DynArray::U64(dense_rows_copy(a, idx)),
            DynArray::F32(a) => DynArray::F32(dense_rows_copy(a, idx)),
            DynArray::F64(a) => DynArray::F64(dense_rows_copy(a, idx)),
            DynArray::Bool(a) => DynArray::Bool(dense_rows_copy(a, idx)),
            DynArray::String(a) => DynArray::String(dense_rows_string(a, idx)),
            DynArray::Categorical(c) => DynArray::Categorical(c.select_rows(idx)),
        };
        proof {
            assert(r@.shape_spec() =~= self@.shape_spec().update(0, idx@.len() as usize));
        }
        r
    }

    /// Restricts a two-dimensional array to the given columns, in the given
    /// order.  Every position must lie below the second extent.
    pub fn select_cols(&self, idx: &Vec<usize>) -> (r: DynArray)
        requires
            self@.wf(),
            self@.shape_spec().len() == 2,
            forall|k: int| 0 <= k < idx@.len() ==> (#[trigger] idx@[k]) < self@.shape_spec()[1],
        ensures
            r@ == arrayv_cols(self@, idx@),
            r@.wf(),
            r@.shape_spec() == self@.shape_spec().update(1, idx@.len() as usize),
    {
        let r = match self {
            DynArray::I8(a) => DynArray::I8(dense_cols_copy(a, idx)),
            DynArray::I16(a) => DynArray::I16(dense_cols_copy(a, idx)),
            DynArray::I32(a) => DynArray::I32(dense_cols_copy(a, idx)),
            DynArray::I64(a) => DynArray::I64(dense_cols_copy(a, idx)),
            DynArray::U8(a) => DynArray::U8(dense_cols_copy(a, idx)),
            DynArray::U16(a) => DynArray::U16(dense_cols_copy(a, idx)),
            DynArray::U32(a) => DynArray::U32(dense_cols_copy(a, idx)),
            DynArray::U64(a) => DynArray::U64(dense_cols_copy(a, idx)),
            DynArray::F32(a) => DynArray::F32(dense_cols_copy(a, idx)),
            DynArray::F64(a) => DynArray::F64(dense_cols_copy(a, idx)),
            DynArray::Bool(a) => DynArray::Bool(dense_cols_copy(a, idx)),
            DynArray::String(a) => DynArray::String(dense_cols_string(a, idx)),
            DynArray::Categorical(_) => vstd::pervasive::unreached(),
        };
        proof {
            assert(r@.shape_spec() =~= self@.shape_spec().update(1, idx@.len() as usize));
        }
        r
    }

    /// Restricts a two-dimensional array to the given rows and columns: the
    /// row selection composed with the column selection.
    pub fn select_both(&self, ridx: &Vec<usize>, cidx: &Vec<usize>) -> (r: DynArray)
        requires
            self@.wf(),
            self@.shape_spec().len() == 2,
            forall|k: int| 0 <= k < ridx@.len() ==> (#[trigger] ridx@[k]) < self@.shape_spec()[0],
            forall|k: int| 0 <= k < cidx@.len() ==> (#[trigger] cidx@[k]) < self@.shape_spec()[1],
        ensures
            r@ == arrayv_cols(arrayv_rows(self@, ridx@), cidx@),
            r@.wf(),
    {
        let t = self.select_rows(ridx);
        t.select_cols(cidx)
    }
}

/// Model of a row selection on a tabular value: every column is restricted to
/// the given rows.
pub open spec fn framev_rows(f: FrameV, idx: Seq<usize>) -> FrameV {
    FrameV { cols: Seq::new(f.cols.len(), |i: int| (f.cols[i].0, arrayv_rows(f.cols[i].1, idx))) }
}

/// Model of a column selection on a tabular value: the named column positions
/// are kept, in the given order.
pub open spec fn framev_cols(f: FrameV, idx: Seq<usize>) -> FrameV {
    FrameV { cols: Seq::new(idx.len(), |j: int| f.cols[idx[j] as int]) }
}

impl FrameV {
    /// Every column is a well-formed one-dimensional array of the common
    /// length; nothing is said of name distinctness.
    pub open spec fn rows_selectable(self) -> bool {
        forall|i: int|
            0 <= i < self.cols.len() ==> {
                &&& (#[trigger] self.cols[i]).1.wf()
                &&& self.cols[i].1.shape_spec().len() == 1
                &&& self.cols[i].1.shape_spec()[0] == self.nrows()
            }
    }
}

impl DataFrameData {
    /// Restricts every column to the given rows, in the given order.
    pub fn select_rows(&self, idx: &Vec<usize>) -> (r: DataFrameData)
        requires
            self@.rows_selectable(),
            forall|k: int| 0 <= k < idx@.len() ==> (#[trigger] idx@[k]) < self@.nrows(),
        ensures
            r@ == framev_rows(self@, idx@),
    {
        let mut columns: Vec<(String, DynArray)> = Vec::new();
        let mut i: usize = 0;
        while i < self.columns.len()
            invariant
                self@.rows_selectable(),
                forall|k: int| 0 <= k < idx@.len() ==> (#[trigger] idx@[k]) < self@.nrows(),
                i <= self.columns@.len(),
                columns@.len() == i,
                forall|j: int| 0 <= j < i ==> {
                    &&& (#[trigger] columns@[j]).0@ == self@.cols[j].0
                    &&& columns@[j].1@ == arrayv_rows(self@.cols[j].1, idx@)
                },
            decreases self.columns@.len() - i,
        {
            let c = &self.columns[i];
            proof {
                assert(self@.cols[i as int].1 == c.1@);
                assert(self@.cols[i as int].1.wf());
            }
            let sel = c.1.select_rows(idx);
            columns.push((c.0.clone(), sel));
            i += 1;
        }
        let r = DataFrameData { columns };
        proof {
            assert(r@.cols =~= framev_rows(self@, idx@).cols);
        }
        r
    }

    /// Keeps the columns at the given positions, in the given order.
    pub fn select_cols(&self, idx: &Vec<usize>) -> (r: DataFrameData)
        requires
            forall|k: int| 0 <= k < idx@.len() ==> (#[trigger] idx@[k]) < self.columns@.len(),
        ensures
            r@ == framev_cols(self@, idx@),
    {
        let mut columns: Vec<(String, DynArray)> = Vec::new();
        let mut i: usize = 0;
        while i < idx.len()
            invariant
                forall|k: int| 0 <= k < idx@.len() ==> (#[trigger] idx@[k]) < self.columns@.len(),
                i <= idx@.len(),
                columns@.len() == i,
                forall|j: int| 0 <= j < i ==> {
                    &&& (#[trigger] columns@[j]).0@ == self@.cols[idx@[j] as int].0
                    &&& columns@[j].1@ == self@.cols[idx@[j] as int].1
                },
            decreases idx@.len() - i,
        {
            let c = &self.columns[idx[i]];
            columns.push((c.0.clone(), c.1.clone()));
            i += 1;
        }
        let r = DataFrameData { columns };
        proof {
            assert(r@.cols =~= framev_cols(self@, idx@).cols);
        }
        r
    }
}


/// A row selection of a well-formed array is well formed and replaces only
/// the first extent.
pub proof fn lemma_arrv_rows_wf<E>(a: ArrV<E>, idx: Seq<usize>)
    requires
        a.wf(),
        a.shape.len() >= 1,
        idx.len() <= usize::MAX,
    ensures
        arrv_rows(a, idx).wf(),
        arrv_rows(a, idx).shape == a.shape.update(0, idx.len() as usize),
{
    broadcast use lemma_shape_product_nonneg;

    lemma_update0_keeps_row_size(a.shape, idx.len() as usize);
    vstd::arithmetic::mul::lemma_mul_nonnegative(idx.len() as int, a.row_size());
    assert(arrv_rows(a, idx).data.len() == idx.len() * a.row_size());
}

/// A column selection of a well-formed two-dimensional array is well formed
/// and replaces only the second extent.
pub proof fn lemma_arrv_cols_wf<E>(a: ArrV<E>, idx: Seq<usize>)
    requires
        a.wf(),
        a.shape.len() == 2,
        idx.len() <= usize::MAX,
    ensures
        arrv_cols(a, idx).wf(),
        arrv_cols(a, idx).shape == a.shape.update(1, idx.len() as usize),
{
    lemma_shape_product_2d(a.shape);
    assert(a.shape.update(1, idx.len() as usize).len() == 2);
    lemma_shape_product_2d(a.shape.update(1, idx.len() as usize));
    vstd::arithmetic::mul::lemma_mul_nonnegative(a.shape[0] as int, idx.len() as int);
    assert(arrv_cols(a, idx).data.len() == a.shape[0] * idx.len());
    assert(a.shape.update(1, idx.len() as usize)[0] == a.shape[0]);
}

/// Row selection preserves well-formedness of a dynamic array.
pub proof fn lemma_arrayv_rows_wf(a: ArrayV, idx: Seq<usize>)
    requires
        a.wf(),
        a.shape_spec().len() >= 1,
        idx.len() <= usize::MAX,
        forall|k: int| 0 <= k < idx.len() ==> (#[trigger] idx[k]) < a.shape_spec()[0],
    ensures
        arrayv_rows(a, idx).wf(),
        arrayv_rows(a, idx).shape_spec() == a.shape_spec().update(0, idx.len() as usize),
{
    match a {
        ArrayV::I8(v) => lemma_arrv_rows_wf(v, idx),
        ArrayV::I16(v) => lemma_arrv_rows_wf(v, idx),
        ArrayV::I32(v) => lemma_arrv_rows_wf(v, idx),
        ArrayV::I64(v) => lemma_arrv_rows_wf(v, idx),
        ArrayV::U8(v) => lemma_arrv_rows_wf(v, idx),
        ArrayV::U16(v) => lemma_arrv_rows_wf(v, idx),
        ArrayV::U32(v) => lemma_arrv_rows_wf(v, idx),
        ArrayV::U64(v) => lemma_arrv_rows_wf(v, idx),
        ArrayV::F32(v) => lemma_arrv_rows_wf(v, idx),
        ArrayV::F64(v) => lemma_arrv_rows_wf(v, idx),
        ArrayV::Bool(v) => lemma_arrv_rows_wf(v, idx),
        ArrayV::Str(v) => lemma_arrv_rows_wf(v, idx),
        ArrayV::Cat(c) => {
            assert(cat_rows(c, idx).wf());
            assert(arrayv_rows(a, idx).shape_spec() =~= a.shape_spec().update(
                0,
                idx.len() as usize,
            ));
        },
    }
}

/// Column selection preserves well-formedness of a two-dimensional dynamic
/// array.
pub proof fn lemma_arrayv_cols_wf(a: ArrayV, idx: Seq<usize>)
    requires
        a.wf(),
        a.shape_spec().len() == 2,
        idx.len() <= usize::MAX,
        forall|k: int| 0 <= k < idx.len() ==> (#[trigger] idx[k]) < a.shape_spec()[1],
    ensures
        arrayv_cols(a, idx).wf(),
        arrayv_cols(a, idx).shape_spec() == a.shape_spec().update(1, idx.len() as usize),
{
    match a {
        ArrayV::I8(v) => lemma_arrv_cols_wf(v, idx),
        ArrayV::I16(v) => lemma_arrv_cols_wf(v, idx),
        ArrayV::I32(v) => lemma_arrv_cols_wf(v, idx),
        ArrayV::I64(v) => lemma_arrv_cols_wf(v, idx),
        ArrayV::U8(v) => lemma_arrv_cols_wf(v, idx),
        ArrayV::U16(v) => lemma_arrv_cols_wf(v, idx),
        ArrayV::U32(v) => lemma_arrv_cols_wf(v, idx),
        ArrayV::U64(v) => lemma_arrv_cols_wf(v, idx),
        ArrayV::F32(v) => lemma_arrv_cols_wf(v, idx),
        ArrayV::F64(v) => lemma_arrv_cols_wf(v, idx),
        ArrayV::Bool(v) => lemma_arrv_cols_wf(v, idx),
        ArrayV::Str(v) => lemma_arrv_cols_wf(v, idx),
        ArrayV::Cat(_) => {},
    }
}

/// Row selection keeps a tabular value uniform: the selected columns are
/// well-formed one-dimensional arrays of the new common length, under the
/// same names.
pub proof fn lemma_framev_rows_uniform(f: FrameV, idx: Seq<usize>)
    requires
        f.rows_selectable(),
        idx.len() <= usize::MAX,
        forall|k: int| 0 <= k < idx.len() ==> (#[trigger] idx[k]) < f.nrows(),
    ensures
        framev_rows(f, idx).rows_selectable(),
        framev_rows(f, idx).cols.len() == f.cols.len(),
        forall|i: int|
            0 <= i < f.cols.len() ==> (#[trigger] framev_rows(f, idx).cols[i]).0 == f.cols[i].0,
{
    let g = framev_rows(f, idx);
    assert forall|i: int| 0 <= i < g.cols.len() implies {
        &&& (#[trigger] g.cols[i]).1.wf()
        &&& g.cols[i].1.shape_spec().len() == 1
        &&& g.cols[i].1.shape_spec()[0] == g.nrows()
    } by {
        assert(f.cols[i].1.wf());
        lemma_arrayv_rows_wf(f.cols[i].1, idx);
        if f.cols.len() > 0 {
            lemma_arrayv_rows_wf(f.cols[0].1, idx);
        }
    }
}

/// Column selection keeps a tabular value uniform when at least one column
/// is kept; every kept column comes from the source value unchanged.
pub proof fn lemma_framev_cols_uniform(f: FrameV, idx: Seq<usize>)
    requires
        f.rows_selectable(),
        forall|k: int| 0 <= k < idx.len() ==> (#[trigger] idx[k]) < f.cols.len(),
    ensures
        framev_cols(f, idx).rows_selectable(),
        framev_cols(f, idx).cols.len() == idx.len(),
{
    let g = framev_cols(f, idx);
    assert forall|i: int| 0 <= i < g.cols.len() implies {
        &&& (#[trigger] g.cols[i]).1.wf()
        &&& g.cols[i].1.shape_spec().len() == 1
        &&& g.cols[i].1.shape_spec()[0] == g.nrows()
    } by {
        assert(g.cols[i] == f.cols[idx[i] as int]);
        assert(f.cols[idx[i] as int].1.wf());
        if idx.len() > 0 {
            assert(g.cols[0] == f.cols[idx[0] as int]);
        }
    }
}

/// Model of stacking two arrays along the first axis.
pub open spec fn arrv_vstack<E>(a: ArrV<E>, b: ArrV<E>) -> ArrV<E> {
    ArrV {
        shape: a.shape.update(0, (a.shape[0] + b.shape[0]) as usize),
        data: a.data + b.data,
    }
}

/// Whether two shapes agree on every axis but the first.
pub open spec fn shapes_stackable(a: Seq<usize>, b: Seq<usize>) -> bool {
    &&& a.len() == b.len()
    &&& a.len() >= 1
    &&& forall|i: int| 1 <= i < a.len() ==> a[i] == b[i]
    &&& a[0] + b[0] <= usize::MAX
}

/// Stacking well-formed stackable arrays yields a well-formed array.
pub proof fn lemma_arrv_vstack_wf<E>(a: ArrV<E>, b: ArrV<E>)
    requires
        a.wf(),
        b.wf(),
        shapes_stackable(a.shape, b.shape),
    ensures
        arrv_vstack(a, b).wf(),
        arrv_vstack(a, b).shape.len() == a.shape.len(),
        arrv_vstack(a, b).shape[0] == a.shape[0] + b.shape[0],
        forall|i: int| 1 <= i < a.shape.len() ==> arrv_vstack(a, b).shape[i] == a.shape[i],
{
    broadcast use lemma_shape_product_nonneg;

    let s = arrv_vstack(a, b).shape;
    lemma_update0_keeps_row_size(a.shape, (a.shape[0] + b.shape[0]) as usize);
    assert(b.shape.skip(1) =~= a.shape.skip(1));
    lemma_mul_is_distributive_add_other_way(
        shape_product(a.shape.skip(1)),
        a.shape[0] as int,
        b.shape[0] as int,
    );
}

/// Stacks two dense arrays of plainly copyable elements along the first
/// axis.
fn dense_vstack_copy<T: Copy>(a: &DenseArray<T>, b: &DenseArray<T>) -> (r: DenseArray<T>)
    requires
        a.wf(),
        b.wf(),
        shapes_stackable(a.shape@, b.shape@),
    ensures
        r.view_plain() == arrv_vstack(a.view_plain(), b.view_plain()),
        r.wf(),
{
    let mut shape = clone_copy_vec(&a.shape);
    shape.set(0, a.shape[0] + b.shape[0]);
    let mut data = clone_copy_vec(&a.data);
    let tail_part = clone_copy_vec(&b.data);
    let mut i: usize = 0;
    let mut rest = tail_part;
    data.append(&mut rest);
    let r = DenseArray { shape, data };
    proof {
        lemma_arrv_vstack_wf(a.view_plain(), b.view_plain());
        assert(r.view_plain().data =~= arrv_vstack(a.view_plain(), b.view_plain()).data);
        assert(r.view_plain().shape =~= arrv_vstack(a.view_plain(), b.view_plain()).shape);
    }
    r
}

/// Stacks two dense string arrays along the first axis.
fn dense_vstack_string(a: &DenseArray<String>, b: &DenseArray<String>) -> (r: DenseArray<String>)
    requires
        a.wf(),
        b.wf(),
        shapes_stackable(a.shape@, b.shape@),
    ensures
        r@ == arrv_vstack(a@, b@),
        r@.wf(),
{
    let mut shape = clone_copy_vec(&a.shape);
    shape.set(0, a.shape[0] + b.shape[0]);
    let mut data = clone_string_vec(&a.data);
    let mut rest = clone_string_vec(&b.data);
    data.append(&mut rest);
    let r = DenseArray { shape, data };
    proof {
        lemma_arrv_vstack_wf(a@, b@);
        assert(r@.data =~= arrv_vstack(a@, b@).data);
        assert(r@.shape =~= arrv_vstack(a@, b@).shape);
        assert(a@.data.len() == a.data@.len());
        assert(b@.data.len() == b.data@.len());
    }
    r
}

/// Model of stacking two dynamic arrays of the same kind along the first
/// axis; arrays of different kinds or categorical arrays do not stack.
pub open spec fn arrayv_vstack(a: ArrayV, b: ArrayV) -> Result<ArrayV, crate::errors::AnnError> {
    match (a, b) {
        (ArrayV::I8(x), ArrayV::I8(y)) => Ok(ArrayV::I8(arrv_vstack(x, y))),
        (ArrayV::I16(x), ArrayV::I16(y)) => Ok(ArrayV::I16(arrv_vstack(x, y))),
        (ArrayV::I32(x), ArrayV::I32(y)) => Ok(ArrayV::I32(arrv_vstack(x, y))),
        (ArrayV::I64(x), ArrayV::I64(y)) => Ok(ArrayV::I64(arrv_vstack(x, y))),
        (ArrayV::U8(x), ArrayV::U8(y)) => Ok(ArrayV::U8(arrv_vstack(x, y))),
        (ArrayV::U16(x), ArrayV::U16(y)) => Ok(ArrayV::U16(arrv_vstack(x, y))),
        (ArrayV::U32(x), ArrayV::U32(y)) => Ok(ArrayV::U32(arrv_vstack(x, y))),
        (ArrayV::U64(x), ArrayV::U64(y)) => Ok(ArrayV::U64(arrv_vstack(x, y))),
        (ArrayV::F32(x), ArrayV::F32(y)) => Ok(ArrayV::F32(arrv_vstack(x, y))),
        (ArrayV::F64(x), ArrayV::F64(y)) => Ok(ArrayV::F64(arrv_vstack(x, y))),
        (ArrayV::Bool(x), ArrayV::Bool(y)) => Ok(ArrayV::Bool(arrv_vstack(x, y))),
        (ArrayV::Str(x), ArrayV::Str(y)) => Ok(ArrayV::Str(arrv_vstack(x, y))),
        _ => Err(crate::errors::AnnError::TypeMismatch),
    }
}

/// Whether two dynamic arrays stack: same plain kind, stackable shapes.
pub open spec fn stackable(a: ArrayV, b: ArrayV) -> bool {
    &&& arrayv_vstack(a, b) is Ok
    &&& shapes_stackable(a.shape_spec(), b.shape_spec())
}

/// Compares every axis but the first.
fn tails_match(a: &Vec<usize>, b: &Vec<usize>) -> (r: bool)
    ensures
        r == (a@.len() == b@.len() && forall|i: int| 1 <= i < a@.len() ==> a@[i] == b@[i]),
{
    if a.len() != b.len() {
        return false;
    }
    let mut i: usize = 1;
    while i < a.len()
        invariant
            a@.len() == b@.len(),
            1 <= i || a@.len() == 0,
            i <= a@.len() || a@.len() == 0,
            forall|j: int| 1 <= j < i ==> a@[j] == b@[j],
        decreases a@.len() - i,
    {
        if a[i] != b[i] {
            return false;
        }
        i += 1;
    }
    true
}

impl DynArray {
    /// Stacks this array atop another along the first axis.  The arrays must
    /// hold the same plain element kind and agree on every other extent;
    /// anything else is a `TypeMismatch`.
    pub fn vstack(&self, other: &DynArray) -> (r: AnnResult<DynArray>)
        requires
            self@.wf(),
            other@.wf(),
            self@.shape_spec()[0] + other@.shape_spec()[0] <= usize::MAX,
        ensures
            match r {
                Ok(v) => {
                    &&& stackable(self@, other@)
                    &&& Ok::<ArrayV, AnnError>(v@) == arrayv_vstack(self@, other@)
                    &&& v@.wf()
                },
                Err(e) => e == AnnError::TypeMismatch && !stackable(self@, other@),
            },
    {
        match (self, other) {
            (DynArray::I8(x), DynArray::I8(y)) => if x.shape.len() >= 1 && tails_match(
                &x.shape,
                &y.shape,
            ) {
                Ok(DynArray::I8(dense_vstack_copy(x, y)))
            } else {
                Err(AnnError::TypeMismatch)
            },
            (DynArray::I16(x), DynArray::I16(y)) => if x.shape.len() >= 1 && tails_match(
                &x.shape,
                &y.shape,
            ) {
                Ok(DynArray::I16(dense_vstack_copy(x, y)))
            } else {
                Err(AnnError::TypeMismatch)
            },
            (DynArray::I32(x), DynArray::I32(y)) => if x.shape.len() >= 1 && tails_match(
                &x.shape,
                &y.shape,
            ) {
                Ok(DynArray::I32(dense_vstack_copy(x, y)))
            } else {
                Err(AnnError::TypeMismatch)
            },
            (DynArray::I64(x), DynArray::I64(y)) => if x.shape.len() >= 1 && tails_match(
                &x.shape,
                &y.shape,
            ) {
                Ok(DynArray::I64(dense_vstack_copy(x, y)))
            } else {
                Err(AnnError::TypeMismatch)
            },
            (DynArray::U8(x), DynArray::U8(y)) => if x.shape.len() >= 1 && tails_match(
                &x.shape,
                &y.shape,
            ) {
                Ok(DynArray::U8(dense_vstack_copy(x, y)))
            } else {
                Err(AnnError::TypeMismatch)
            },
            (DynArray::U16(x), DynArray::U16(y)) => if x.shape.len() >= 1 && tails_match(
                &x.shape,
                &y.shape,
            ) {
                Ok(DynArray::U16(dense_vstack_copy(x, y)))
            } else {
                Err(AnnError::TypeMismatch)
            },
            (DynArray::U32(x), DynArray::U32(y)) => if x.shape.len() >= 1 && tails_match(
                &x.shape,
                &y.shape,
            ) {
                Ok(DynArray::U32(dense_vstack_copy(x, y)))
            } else {
                Err(AnnError::TypeMismatch)
            },
            (DynArray::U64(x), DynArray::U64(y)) => if x.shape.len() >= 1 && tails_match(
                &x.shape,
                &y.shape,
            ) {
                Ok(DynArray::U64(dense_vstack_copy(x, y)))
            } else {
                Err(AnnError::TypeMismatch)
            },
            (DynArray::F32(x), DynArray::F32(y)) => if x.shape.len() >= 1 && tails_match(
                &x.shape,
                &y.shape,
            ) {
                Ok(DynArray::F32(dense_vstack_copy(x, y)))
            } else {
                Err(AnnError::TypeMismatch)
            },
            (DynArray::F64(x), DynArray::F64(y)) => if x.shape.len() >= 1 && tails_match(
                &x.shape,
                &y.shape,
            ) {
                Ok(DynArray::F64(dense_vstack_copy(x, y)))
            } else {
                Err(AnnError::TypeMismatch)
            },
            (DynArray::Bool(x), DynArray::Bool(y)) => if x.shape.len() >= 1 && tails_match(
                &x.shape,
                &y.shape,
            ) {
                Ok(DynArray::Bool(dense_vstack_copy(x, y)))
            } else {
                Err(AnnError::TypeMismatch)
            },
            (DynArray::String(x), DynArray::String(y)) => if x.shape.len() >= 1 && tails_match(
                &x.shape,
                &y.shape,
            ) {
                Ok(DynArray::String(dense_vstack_string(x, y)))
            } else {
                Err(AnnError::TypeMismatch)
            },
            _ => Err(AnnError::TypeMismatch),
        }
    }
}
} // verus!
