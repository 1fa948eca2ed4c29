//! The lazy element cache and selection engine: one container, an optional
//! already-decoded value, and optional row/column selections applied
//! transparently on read.  Subsetting validates its positions, clears the
//! cache and installs the new selection; selections replace one another,
//! always speaking in the coordinates of the stored value.

use vstd::prelude::*;

use crate::backend::{FileV, MemFile, has_child};
use crate::codec::{
    container_data_type, decode, model_of, node_data_type, read_dyn_data, write_dyn_data,
    write_effect,
};
use crate::container::DataContainer;
use crate::errors::{AnnError, AnnResult};
use crate::select::{
    arrayv_cols, arrayv_rows, framev_cols, framev_rows, lemma_arrayv_cols_wf, lemma_arrayv_rows_wf,
    lemma_framev_cols_uniform, lemma_framev_rows_uniform,
};
use crate::values::{ArrayV, DataType, DataV, DynData, FrameV};

verus! {

/// The model of an optional selection: the chosen positions, or the whole
/// axis.
pub open spec fn osel(o: Option<Vec<usize>>) -> Option<Seq<usize>> {
    match o {
        Some(v) => Some(v@),
        None => None,
    }
}

/// The observation (row) count of a decoded value.
pub open spec fn data_nrows(d: DataV) -> int {
    match d {
        DataV::Scalar(_) => 1,
        DataV::Array(a) => if a.shape_spec().len() >= 1 {
            a.shape_spec()[0] as int
        } else {
            1
        },
        DataV::Frame(f) => f.nrows(),
    }
}

/// The variable (column) count of a decoded value.
pub open spec fn data_ncols(d: DataV) -> int {
    match d {
        DataV::Scalar(_) => 1,
        DataV::Array(a) => if a.shape_spec().len() >= 2 {
            a.shape_spec()[1] as int
        } else {
            1
        },
        DataV::Frame(f) => f.cols.len() as int,
    }
}

/// Whether the selection engine can address a decoded value: arrays must be
/// well formed, tabular values must hold uniform one-dimensional columns.
pub open spec fn selectable(d: DataV) -> bool {
    match d {
        DataV::Scalar(_) => true,
        DataV::Array(a) => a.wf(),
        DataV::Frame(f) => f.rows_selectable(),
    }
}

/// What a read under a selection returns.  A selection on a scalar, or a
/// column selection on an array that is not two-dimensional, is a
/// `TypeMismatch`.
pub open spec fn selected_value(
    d: DataV,
    rows: Option<Seq<usize>>,
    cols: Option<Seq<usize>>,
) -> Result<DataV, AnnError> {
    match d {
        DataV::Scalar(_) => if rows is None && cols is None {
            Ok(d)
        } else {
            Err(AnnError::TypeMismatch)
        },
        DataV::Array(a) => {
            let rowed = match rows {
                Some(r) => if a.shape_spec().len() >= 1 {
                    Ok(arrayv_rows(a, r))
                } else {
                    Err(AnnError::TypeMismatch)
                },
                None => Ok(a),
            };
            match rowed {
                Err(e) => Err(e),
                Ok(a2) => match cols {
                    Some(c) => if a2.shape_spec().len() == 2 {
                        Ok(DataV::Array(arrayv_cols(a2, c)))
                    } else {
                        Err(AnnError::TypeMismatch)
                    },
                    None => Ok(DataV::Array(a2)),
                },
            }
        },
        DataV::Frame(f) => {
            let rowed = match rows {
                Some(r) => framev_rows(f, r),
                None => f,
            };
            match cols {
                Some(c) => Ok(DataV::Frame(framev_cols(rowed, c))),
                None => Ok(DataV::Frame(rowed)),
            }
        },
    }
}

/// A type-erased lazy element: a container, its declared runtime type, and an
/// optional already-decoded value.
#[derive(Debug)]
pub struct RawElem {
    pub dtype: DataType,
    pub container: DataContainer,
    pub element: Option<DynData>,
}

impl RawElem {
    /// The element points at a live, decodable container of its declared
    /// type; a cached value, if any, is exactly what the container decodes
    /// to.
    pub open spec fn wf(self, f: FileV) -> bool {
        &&& self.container.wf(f)
        &&& node_data_type(f, self.container.node as int) == Ok::<DataType, AnnError>(self.dtype)
        &&& decode(f, self.container.node as int) is Ok
        &&& selectable(decode(f, self.container.node as int)->Ok_0)
        &&& (self.element matches Some(v) ==> decode(f, self.container.node as int) == Ok::<
            DataV,
            AnnError,
        >(v@))
    }

    /// The value the container decodes to.
    pub open spec fn stored(self, f: FileV) -> DataV {
        decode(f, self.container.node as int)->Ok_0
    }

    /// Decodes the container afresh, bypassing any cache.
    pub fn read_data(&self, file: &MemFile) -> (r: AnnResult<DynData>)
        requires
            file@.wf(),
            self.wf(file@),
        ensures
            r matches Ok(v) && v@ == self.stored(file@),
    {
        match read_dyn_data(file, self.container.node) {
            Ok(v) => Ok(v),
            Err(_) => vstd::pervasive::unreached(),
        }
    }
}

/// A lazy, subsettable matrix element: a type-erased element together with
/// its axis extents and optional row/column selections.
#[derive(Debug)]
pub struct RawMatrixElem {
    pub obs_indices: Option<Vec<usize>>,
    pub var_indices: Option<Vec<usize>>,
    pub nrows: usize,
    pub ncols: usize,
    pub inner: RawElem,
}

impl RawMatrixElem {
    /// Well-formed on top of the inner element: the extents match the stored
    /// value, every selection position lies below its extent, and a cached
    /// value excludes a pending selection.
    pub open spec fn wf(self, f: FileV) -> bool {
        &&& self.inner.wf(f)
        &&& self.nrows == data_nrows(self.inner.stored(f))
        &&& self.ncols == data_ncols(self.inner.stored(f))
        &&& (self.obs_indices matches Some(v) ==> forall|k: int|
            0 <= k < v@.len() ==> (#[trigger] v@[k]) < self.nrows)
        &&& (self.var_indices matches Some(v) ==> forall|k: int|
            0 <= k < v@.len() ==> (#[trigger] v@[k]) < self.ncols)
        &&& (self.inner.element is Some ==> self.obs_indices is None && self.var_indices is None)
    }

    /// What a read of this element returns: the stored value under the
    /// pending selections.
    pub open spec fn read_model(self, f: FileV) -> Result<DataV, AnnError> {
        selected_value(self.inner.stored(f), osel(self.obs_indices), osel(self.var_indices))
    }

    /// The declared runtime type of the stored value.
    pub fn dtype(&self) -> (t: DataType)
        ensures
            t == self.inner.dtype,
    {
        self.inner.dtype
    }
}


/// Whether every position lies below the bound.
pub(crate) fn all_positions_below(idx: &Vec<usize>, bound: usize) -> (r: bool)
    ensures
        r == forall|k: int| 0 <= k < idx@.len() ==> (#[trigger] idx@[k]) < bound,
{
    let mut i: usize = 0;
    while i < idx.len()
        invariant
            i <= idx@.len(),
            forall|k: int| 0 <= k < i ==> (#[trigger] idx@[k]) < bound,
        decreases idx@.len() - i,
    {
        if idx[i] >= bound {
            return false;
        }
        i += 1;
    }
    true
}

/// Whether a tabular value's columns are uniform: each one-dimensional, all
/// of the common length.
fn frame_uniform(fr: &crate::values::DataFrameData) -> (r: bool)
    ensures
        r == forall|i: int|
            0 <= i < fr@.cols.len() ==> (#[trigger] fr@.cols[i]).1.shape_spec().len() == 1
                && fr@.cols[i].1.shape_spec()[0] == fr@.nrows(),
{
    if fr.columns.len() == 0 {
        return true;
    }
    if fr.columns[0].1.ndim() != 1 {
        proof {
            assert(fr@.cols[0].1.shape_spec().len() != 1);
        }
        return false;
    }
    let n0 = fr.columns[0].1.extent(0);
    let mut i: usize = 0;
    while i < fr.columns.len()
        invariant
            fr.columns@.len() > 0,
            fr@.cols[0].1.shape_spec().len() == 1,
            n0 == fr@.nrows(),
            n0 == fr@.cols[0].1.shape_spec()[0],
            i <= fr.columns@.len(),
            forall|j: int|
                0 <= j < i ==> (#[trigger] fr@.cols[j]).1.shape_spec().len() == 1
                    && fr@.cols[j].1.shape_spec()[0] == fr@.nrows(),
        decreases fr.columns@.len() - i,
    {
        let col = &fr.columns[i];
        proof {
            assert(fr@.cols[i as int].1 == col.1@);
        }
        if col.1.ndim() != 1 {
            proof {
                assert(fr@.cols[i as int].1.shape_spec().len() != 1);
            }
            return false;
        }
        if col.1.extent(0) != n0 {
            proof {
                assert(fr@.cols[i as int].1.shape_spec()[0] != fr@.nrows());
            }
            return false;
        }
        i += 1;
    }
    true
}

/// Whether a tabular value's column names are pairwise distinct.
pub(crate) fn frame_names_unique(fr: &crate::values::DataFrameData) -> (r: bool)
    ensures
        r == frame_names_distinct(fr@),
{
    let mut i: usize = 0;
    while i < fr.columns.len()
        invariant
            i <= fr.columns@.len(),
            forall|a: int, b: int|
                0 <= a < b < fr.columns@.len() && b < i ==> (#[trigger] fr@.cols[a]).0 != (
                #[trigger] fr@.cols[b]).0,
        decreases fr.columns@.len() - i,
    {
        let mut j: usize = 0;
        while j < i
            invariant
                j <= i,
                i < fr.columns@.len(),
                forall|a: int| 0 <= a < j ==> (#[trigger] fr@.cols[a]).0 != fr@.cols[i as int].0,
            decreases i - j,
        {
            if fr.columns[j].0.eq(&fr.columns[i].0) {
                proof {
                    assert(fr@.cols[j as int].0 == fr@.cols[i as int].0);
                }
                return false;
            }
            proof {
                assert(fr@.cols[j as int].0 == fr.columns@[j as int].0@);
                assert(fr@.cols[i as int].0 == fr.columns@[i as int].0@);
            }
            j += 1;
        }
        i += 1;
        proof {
            assert forall|a: int, b: int|
                0 <= a < b < fr.columns@.len() && b < i implies (#[trigger] fr@.cols[a]).0 != (
            #[trigger] fr@.cols[b]).0 by {
                if b == i - 1 {
                    assert(fr@.cols[a].0 != fr@.cols[i as int - 1].0);
                }
            }
        }
    }
    true
}

impl RawMatrixElem {
    /// Opens one stored field as a lazy matrix element: reads its declared
    /// type and axis extents, installs no cache and no selection.  A tabular
    /// value whose columns are not uniform one-dimensional arrays is refused
    /// with `TypeMismatch`.
    pub fn new_elem(file: &MemFile, container: DataContainer) -> (r: AnnResult<RawMatrixElem>)
        requires
            file@.wf(),
            container.wf(file@),
        ensures
            match r {
                Ok(e) => {
                    &&& decode(file@, container.node as int) is Ok
                    &&& e.wf(file@)
                    &&& e.inner.container == container
                    &&& e.obs_indices is None
                    &&& e.var_indices is None
                    &&& e.inner.element is None
                },
                Err(e) => match decode(file@, container.node as int) {
                    Ok(d) => !selectable(d) && e == AnnError::TypeMismatch,
                    Err(e2) => e == e2,
                },
            },
    {
        let dtype = match container_data_type(file, container.node) {
            Ok(t) => t,
            Err(e) => {
                return Err(e);
            },
        };
        let v = match read_dyn_data(file, container.node) {
            Ok(v) => v,
            Err(e) => {
                return Err(e);
            },
        };
        let (nrows, ncols): (usize, usize) = match &v {
            DynData::Scalar(_) => (1, 1),
            DynData::Array(a) => {
                let nd = a.ndim();
                let nrows = if nd >= 1 {
                    a.extent(0)
                } else {
                    1
                };
                let ncols = if nd >= 2 {
                    a.extent(1)
                } else {
                    1
                };
                proof {
                    crate::element::lemma_decoded_array_wf(file@, container.node as int);
                }
                (nrows, ncols)
            },
            DynData::DataFrame(fr) => {
                proof {
                    assert(decode(file@, container.node as int) == Ok::<DataV, AnnError>(v@));
                    assert(v@ == DataV::Frame(fr@));
                    crate::element::lemma_decoded_frame_cols_wf(file@, container.node as int);
                }
                if !frame_uniform(fr) {
                    return Err(AnnError::TypeMismatch);
                }
                let nrows = if fr.columns.len() == 0 {
                    0
                } else {
                    proof {
                        assert(fr@.cols[0].1.shape_spec().len() == 1);
                    }
                    fr.columns[0].1.extent(0)
                };
                (nrows, fr.columns.len())
            },
        };
        let inner = RawElem { dtype, container, element: None };
        Ok(RawMatrixElem { obs_indices: None, var_indices: None, nrows, ncols, inner })
    }

    /// Reads the element's value: the cached value when one is present,
    /// otherwise the stored value under the pending selections.
    pub fn read_elem(&self, file: &MemFile) -> (r: AnnResult<DynData>)
        requires
            file@.wf(),
            self.wf(file@),
        ensures
            model_of(r) == self.read_model(file@),
    {
        if let Some(d) = &self.inner.element {
            return Ok(d.clone());
        }
        let v = match read_dyn_data(file, self.inner.container.node) {
            Ok(v) => v,
            Err(_) => vstd::pervasive::unreached(),
        };
        self.apply_selection(file, v)
    }

    /// Applies the pending selections to the stored value.
    fn apply_selection(&self, file: &MemFile, v: DynData) -> (r: AnnResult<DynData>)
        requires
            file@.wf(),
            self.wf(file@),
            v@ == self.inner.stored(file@),
        ensures
            model_of(r) == selected_value(v@, osel(self.obs_indices), osel(self.var_indices)),
    {
        let ghost d = v@;
        match v {
            DynData::Scalar(s) => match (&self.obs_indices, &self.var_indices) {
                (None, None) => Ok(DynData::Scalar(s)),
                _ => Err(AnnError::TypeMismatch),
            },
            DynData::Array(a) => {
                let a2 = match &self.obs_indices {
                    Some(ridx) => {
                        if a.ndim() < 1 {
                            return Err(AnnError::TypeMismatch);
                        }
                        a.select_rows(ridx)
                    },
                    None => a,
                };
                match &self.var_indices {
                    Some(cidx) => {
                        if a2.ndim() != 2 {
                            return Err(AnnError::TypeMismatch);
                        }
                        proof {
                            if self.obs_indices is Some {
                                assert(a2@.shape_spec()[1] == d->Array_0.shape_spec()[1]);
                            }
                        }
                        Ok(DynData::Array(a2.select_cols(cidx)))
                    },
                    None => Ok(DynData::Array(a2)),
                }
            },
            DynData::DataFrame(fr) => {
                proof {
                    assert(d == DataV::Frame(fr@));
                    assert(selectable(d));
                    assert(fr@.rows_selectable());
                    assert(data_nrows(d) == fr@.nrows());
                }
                let fr2 = match &self.obs_indices {
                    Some(ridx) => {
                        let ghost frv = fr@;
                        let rlen = ridx.len();
                        proof {
                            assert(self.nrows as int == data_nrows(d));
                            assert(forall|k: int|
                                0 <= k < ridx@.len() ==> (#[trigger] ridx@[k]) < frv.nrows());
                        }
                        let sel = fr.select_rows(ridx);
                        proof {
                            lemma_framev_rows_uniform(frv, ridx@);
                        }
                        sel
                    },
                    None => fr,
                };
                match &self.var_indices {
                    Some(cidx) => {
                        proof {
                            assert(fr2@.cols.len() == fr2.columns@.len());
                            assert(fr2@.cols.len() == self.ncols);
                            assert(forall|k: int|
                                0 <= k < cidx@.len() ==> (#[trigger] cidx@[k])
                                    < fr2.columns@.len());
                        }
                        Ok(DynData::DataFrame(fr2.select_cols(cidx)))
                    },
                    None => Ok(DynData::DataFrame(fr2)),
                }
            },
        }
    }
}

/// A decoded array value is well formed.
pub proof fn lemma_decoded_array_wf(f: FileV, n: int)
    requires
        f.wf(),
        f.in_bounds(n),
        decode(f, n) matches Ok(DataV::Array(_)),
    ensures
        decode(f, n)->Ok_0->Array_0.wf(),
{
    assert(crate::backend::node_wf(f.nodes[n], n, f.nodes.len() as int));
}

/// Every column of a decoded tabular value is a well-formed array.
pub proof fn lemma_decoded_frame_cols_wf(f: FileV, n: int)
    requires
        f.wf(),
        f.in_bounds(n),
        decode(f, n) matches Ok(DataV::Frame(_)),
    ensures
        forall|i: int|
            0 <= i < decode(f, n)->Ok_0->Frame_0.cols.len() ==> (#[trigger] decode(
                f,
                n,
            )->Ok_0->Frame_0.cols[i]).1.wf(),
{
    crate::codec::lemma_frame_decode_cols_wf(f, n);
}

/// Whether a tabular value's column names are pairwise distinct.
pub open spec fn frame_names_distinct(f: FrameV) -> bool {
    forall|i: int, j: int|
        0 <= i < j < f.cols.len() ==> (#[trigger] f.cols[i]).0 != (#[trigger] f.cols[j]).0
}

/// Whether the column names of a tabular value are pairwise distinct; any
/// other value passes.
pub open spec fn names_unique(d: DataV) -> bool {
    d is Frame ==> frame_names_distinct(d->Frame_0)
}

impl RawMatrixElem {
    /// What a write of this element persists: the cached value when one is
    /// present, otherwise the stored value under the pending selections.
    pub open spec fn write_model(self, f: FileV) -> Result<DataV, AnnError> {
        match self.element_model() {
            Some(v) => Ok(v),
            None => self.read_model(f),
        }
    }

    /// The model of the cached value, if any.
    pub open spec fn element_model(self) -> Option<DataV> {
        match self.inner.element {
            Some(v) => Some(v@),
            None => None,
        }
    }

    /// Writes the element under the given group and name: the cached value
    /// when one is present, otherwise the freshly decoded, selection-applied
    /// value.  Succeeds exactly when the selection applies, the name is free
    /// and the written value's column names are distinct.
    pub fn write_elem(&self, file: &mut MemFile, parent: usize, name: &str) -> (r: AnnResult<
        DataContainer,
    >)
        requires
            old(file)@.wf(),
            self.wf(old(file)@),
            old(file)@.is_group(parent as int),
        ensures
            final(file)@.wf(),
            match r {
                Ok(c) => {
                    &&& self.write_model(old(file)@) matches Ok(d)
                    &&& !has_child(old(file)@.child_seq(parent as int), name@)
                    &&& names_unique(self.write_model(old(file)@)->Ok_0)
                    &&& write_effect(old(file)@, final(file)@, parent as int, name@, c)
                    &&& decode(final(file)@, c.node as int) == self.write_model(old(file)@)
                },
                Err(e) => {
                    ||| (self.write_model(old(file)@) matches Err(e2) && e == e2 && final(file)@
                        == old(file)@)
                    ||| (e == AnnError::AlreadyExists && (has_child(
                        old(file)@.child_seq(parent as int),
                        name@,
                    ) || !names_unique(self.write_model(old(file)@)->Ok_0)))
                },
            },
    {
        let v: DynData = match &self.inner.element {
            Some(d) => d.clone(),
            None => {
                let full = match read_dyn_data(file, self.inner.container.node) {
                    Ok(v) => v,
                    Err(_) => vstd::pervasive::unreached(),
                };
                match self.apply_selection(file, full) {
                    Ok(v) => v,
                    Err(e) => {
                        return Err(e);
                    },
                }
            },
        };
        if let DynData::DataFrame(fr) = &v {
            if !frame_names_unique(fr) {
                return Err(AnnError::AlreadyExists);
            }
        }
        let _row_sel_len: usize = match &self.obs_indices {
            Some(w) => w.len(),
            None => 0,
        };
        let _col_sel_len: usize = match &self.var_indices {
            Some(w) => w.len(),
            None => 0,
        };
        proof {
            assert(v@ == self.write_model(old(file)@)->Ok_0);
            assert(v@.writable()) by {
                match self.element_model() {
                    Some(_) => {
                        assert(selectable(self.inner.stored(old(file)@)));
                        match v@ {
                            DataV::Frame(f2) => {
                                assert(f2.rows_selectable());
                            },
                            _ => {},
                        }
                    },
                    None => {
                        match self.read_model(old(file)@) {
                            Ok(d) => {
                                let stored = self.inner.stored(old(file)@);
                                match stored {
                                    DataV::Frame(f0) => {
                                        lemma_selected_frame_uniform(
                                            f0,
                                            osel(self.obs_indices),
                                            osel(self.var_indices),
                                            self.nrows as int,
                                            self.ncols as int,
                                        );
                                    },
                                    DataV::Array(a0) => {
                                        lemma_selected_array_wf(
                                            a0,
                                            osel(self.obs_indices),
                                            osel(self.var_indices),
                                            self.nrows as int,
                                            self.ncols as int,
                                        );
                                    },
                                    DataV::Scalar(_) => {},
                                }
                            },
                            Err(_) => {
                                assert(false);
                            },
                        }
                    },
                }
            }
        }
        match write_dyn_data(&v, file, parent, name) {
            Ok(c) => Ok(c),
            Err(e) => {
                proof {
                    if e == AnnError::UnsupportedType {
                        assert(false);
                    }
                }
                Err(e)
            },
        }
    }

    /// Returns a new element over the same container restricted to the given
    /// rows, with the cache cleared and any column selection kept.  Every
    /// position must lie below the row count; otherwise nothing is built and
    /// the subset fails with `IndexOutOfBounds`.
    pub fn subset_rows(&self, file: &MemFile, idx: &Vec<usize>) -> (r: AnnResult<RawMatrixElem>)
        requires
            file@.wf(),
            self.wf(file@),
        ensures
            match r {
                Ok(e2) => {
                    &&& forall|k: int| 0 <= k < idx@.len() ==> (#[trigger] idx@[k]) < self.nrows
                    &&& e2.wf(file@)
                    &&& osel(e2.obs_indices) == Some(idx@)
                    &&& osel(e2.var_indices) == osel(self.var_indices)
                    &&& e2.nrows == self.nrows
                    &&& e2.ncols == self.ncols
                    &&& e2.inner.element is None
                    &&& e2.inner.container.node == self.inner.container.node
                },
                Err(e) => {
                    &&& e == AnnError::IndexOutOfBounds
                    &&& exists|k: int| 0 <= k < idx@.len() && (#[trigger] idx@[k]) >= self.nrows
                },
            },
    {
        if !all_positions_below(idx, self.nrows) {
            return Err(AnnError::IndexOutOfBounds);
        }
        let inner = RawElem {
            dtype: self.inner.dtype,
            container: self.inner.container.clone(),
            element: None,
        };
        let var_indices = match &self.var_indices {
            Some(v) => Some(crate::values::clone_copy_vec(v)),
            None => None,
        };
        let e2 = RawMatrixElem {
            obs_indices: Some(crate::values::clone_copy_vec(idx)),
            var_indices,
            nrows: self.nrows,
            ncols: self.ncols,
            inner,
        };
        proof {
            assert(e2.inner.container.wf(file@));
        }
        Ok(e2)
    }

    /// Returns a new element over the same container restricted to the given
    /// columns, with the cache cleared and any row selection kept.  Every
    /// position must lie below the column count; otherwise the subset fails
    /// with `IndexOutOfBounds`.
    pub fn subset_cols(&self, file: &MemFile, idx: &Vec<usize>) -> (r: AnnResult<RawMatrixElem>)
        requires
            file@.wf(),
            self.wf(file@),
        ensures
            match r {
                Ok(e2) => {
                    &&& forall|k: int| 0 <= k < idx@.len() ==> (#[trigger] idx@[k]) < self.ncols
                    &&& e2.wf(file@)
                    &&& osel(e2.var_indices) == Some(idx@)
                    &&& osel(e2.obs_indices) == osel(self.obs_indices)
                    &&& e2.nrows == self.nrows
                    &&& e2.ncols == self.ncols
                    &&& e2.inner.element is None
                    &&& e2.inner.container.node == self.inner.container.node
                },
                Err(e) => {
                    &&& e == AnnError::IndexOutOfBounds
                    &&& exists|k: int| 0 <= k < idx@.len() && (#[trigger] idx@[k]) >= self.ncols
                },
            },
    {
        if !all_positions_below(idx, self.ncols) {
            return Err(AnnError::IndexOutOfBounds);
        }
        let inner = RawElem {
            dtype: self.inner.dtype,
            container: self.inner.container.clone(),
            element: None,
        };
        let obs_indices = match &self.obs_indices {
            Some(v) => Some(crate::values::clone_copy_vec(v)),
            None => None,
        };
        let e2 = RawMatrixElem {
            obs_indices,
            var_indices: Some(crate::values::clone_copy_vec(idx)),
            nrows: self.nrows,
            ncols: self.ncols,
            inner,
        };
        proof {
            assert(e2.inner.container.wf(file@));
        }
        Ok(e2)
    }

    /// Returns a new element over the same container restricted to the given
    /// rows and columns, with the cache cleared.  Both position lists are
    /// validated against their axis; a position at or beyond either extent
    /// fails with `IndexOutOfBounds`.
    pub fn subset(&self, file: &MemFile, ridx: &Vec<usize>, cidx: &Vec<usize>) -> (r: AnnResult<
        RawMatrixElem,
    >)
        requires
            file@.wf(),
            self.wf(file@),
        ensures
            match r {
                Ok(e2) => {
                    &&& forall|k: int| 0 <= k < ridx@.len() ==> (#[trigger] ridx@[k]) < self.nrows
                    &&& forall|k: int| 0 <= k < cidx@.len() ==> (#[trigger] cidx@[k]) < self.ncols
                    &&& e2.wf(file@)
                    &&& osel(e2.obs_indices) == Some(ridx@)
                    &&& osel(e2.var_indices) == Some(cidx@)
                    &&& e2.nrows == self.nrows
                    &&& e2.ncols == self.ncols
                    &&& e2.inner.element is None
                    &&& e2.inner.container.node == self.inner.container.node
                },
                Err(e) => {
                    &&& e == AnnError::IndexOutOfBounds
                    &&& ((exists|k: int|
                        0 <= k < ridx@.len() && (#[trigger] ridx@[k]) >= self.nrows) || (exists|
                    k: int,
                    |
                        0 <= k < cidx@.len() && (#[trigger] cidx@[k]) >= self.ncols))
                },
            },
    {
        if !all_positions_below(ridx, self.nrows) {
            return Err(AnnError::IndexOutOfBounds);
        }
        if !all_positions_below(cidx, self.ncols) {
            return Err(AnnError::IndexOutOfBounds);
        }
        let inner = RawElem {
            dtype: self.inner.dtype,
            container: self.inner.container.clone(),
            element: None,
        };
        let e2 = RawMatrixElem {
            obs_indices: Some(crate::values::clone_copy_vec(ridx)),
            var_indices: Some(crate::values::clone_copy_vec(cidx)),
            nrows: self.nrows,
            ncols: self.ncols,
            inner,
        };
        proof {
            assert(e2.inner.container.wf(file@));
        }
        Ok(e2)
    }
}

/// A selection of a well-formed array yields a well-formed array.
pub proof fn lemma_selected_array_wf(
    a: ArrayV,
    rows: Option<Seq<usize>>,
    cols: Option<Seq<usize>>,
    nrows: int,
    ncols: int,
)
    requires
        a.wf(),
        nrows == (if a.shape_spec().len() >= 1 { a.shape_spec()[0] as int } else { 1 }),
        ncols == (if a.shape_spec().len() >= 2 { a.shape_spec()[1] as int } else { 1 }),
        rows matches Some(v) ==> v.len() <= usize::MAX && forall|k: int|
            0 <= k < v.len() ==> (#[trigger] v[k]) < nrows,
        cols matches Some(v) ==> v.len() <= usize::MAX && forall|k: int|
            0 <= k < v.len() ==> (#[trigger] v[k]) < ncols,
        selected_value(DataV::Array(a), rows, cols) is Ok,
    ensures
        selected_value(DataV::Array(a), rows, cols)->Ok_0->Array_0.wf(),
{
    let rowed = match rows {
        Some(r) => arrayv_rows(a, r),
        None => a,
    };
    if rows is Some {
        lemma_arrayv_rows_wf(a, rows->0);
    }
    if cols is Some {
        lemma_arrayv_cols_wf(rowed, cols->0);
    }
}

/// A selection of a uniform tabular value yields a uniform tabular value
/// whose columns keep their source names.
pub proof fn lemma_selected_frame_uniform(
    f: FrameV,
    rows: Option<Seq<usize>>,
    cols: Option<Seq<usize>>,
    nrows: int,
    ncols: int,
)
    requires
        f.rows_selectable(),
        nrows == f.nrows(),
        ncols == f.cols.len(),
        rows matches Some(v) ==> v.len() <= usize::MAX && forall|k: int|
            0 <= k < v.len() ==> (#[trigger] v[k]) < nrows,
        cols matches Some(v) ==> v.len() <= usize::MAX && forall|k: int|
            0 <= k < v.len() ==> (#[trigger] v[k]) < ncols,
    ensures
        selected_value(DataV::Frame(f), rows, cols) is Ok,
        selectable(selected_value(DataV::Frame(f), rows, cols)->Ok_0),
        forall|i: int|
            0 <= i < selected_value(DataV::Frame(f), rows, cols)->Ok_0->Frame_0.cols.len() ==> (
            #[trigger] selected_value(DataV::Frame(f), rows, cols)->Ok_0->Frame_0.cols[i]).1.wf(),
{
    let rowed = match rows {
        Some(r) => framev_rows(f, r),
        None => f,
    };
    if rows is Some {
        lemma_framev_rows_uniform(f, rows->0);
    }
    if cols is Some {
        lemma_framev_cols_uniform(rowed, cols->0);
    }
    let out = selected_value(DataV::Frame(f), rows, cols)->Ok_0->Frame_0;
    assert forall|i: int| 0 <= i < out.cols.len() implies (#[trigger] out.cols[i]).1.wf() by {
        assert(out.rows_selectable());
    }
}

/// Selecting rows from a decoded value, stated directly: the rows named by
/// `idx`, in that order.
pub open spec fn data_rows(d: DataV, idx: Seq<usize>) -> DataV {
    match d {
        DataV::Scalar(_) => d,
        DataV::Array(a) => DataV::Array(arrayv_rows(a, idx)),
        DataV::Frame(f) => DataV::Frame(framev_rows(f, idx)),
    }
}

/// The subset-read law: on a matrix-like value, a read under a row
/// selection equals selecting those rows from the full read.  Combined with
/// the subset constructors' contracts, an element subset by in-range rows
/// reads exactly the row selection of the unsubset element's read.
pub proof fn lemma_subset_rows_read(d: DataV, idx: Seq<usize>)
    requires
        !(d is Scalar),
        d matches DataV::Array(a) ==> a.shape_spec().len() >= 1,
    ensures
        selected_value(d, Some(idx), None) == Ok::<DataV, AnnError>(data_rows(d, idx)),
{
}

/// The full read is the read under no selection.
pub proof fn lemma_full_read(d: DataV)
    ensures
        selected_value(d, None, None) == Ok::<DataV, AnnError>(d),
{
}
} // verus!
