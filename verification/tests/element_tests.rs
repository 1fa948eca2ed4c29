//! The lazy element: subsetting with validation, selection-applied reads,
//! and write-through.

use anndata_core::backend::MemFile;
use anndata_core::codec::{ReadData, WriteData};
use anndata_core::element::RawMatrixElem;
use anndata_core::errors::AnnError;
use anndata_core::values::{DenseArray, DynArray, DynData, DynScalar};

fn matrix_3x2() -> DynData {
    DynData::Array(DynArray::I32(DenseArray { shape: vec![3, 2], data: vec![1, 2, 3, 4, 5, 6] }))
}

fn elem_over(file: &mut MemFile, v: &DynData) -> RawMatrixElem {
    let c = v.write(file, 0, "X").expect("write");
    RawMatrixElem::new_elem(file, c).expect("new_elem")
}

#[test]
fn new_elem_reports_shape_and_dtype() {
    let mut file = MemFile::new();
    let e = elem_over(&mut file, &matrix_3x2());
    assert_eq!(e.nrows, 3);
    assert_eq!(e.ncols, 2);
    assert!(e.obs_indices.is_none());
    assert!(e.var_indices.is_none());
}

#[test]
fn read_elem_full() {
    let mut file = MemFile::new();
    let v = matrix_3x2();
    let e = elem_over(&mut file, &v);
    assert_eq!(e.read_elem(&file).expect("read"), v);
}

#[test]
fn subset_rows_out_of_bounds_iff() {
    // With three rows, position 3 is out of bounds and position 2 is not.
    let mut file = MemFile::new();
    let e = elem_over(&mut file, &matrix_3x2());
    assert_eq!(e.subset_rows(&file, &vec![0, 3]).err(), Some(AnnError::IndexOutOfBounds));
    assert!(e.subset_rows(&file, &vec![2, 0]).is_ok());
}

#[test]
fn subset_cols_out_of_bounds_iff() {
    let mut file = MemFile::new();
    let e = elem_over(&mut file, &matrix_3x2());
    assert_eq!(e.subset_cols(&file, &vec![2]).err(), Some(AnnError::IndexOutOfBounds));
    assert!(e.subset_cols(&file, &vec![1, 0]).is_ok());
}

#[test]
fn subset_rows_read_equals_row_selection_of_full_read() {
    let mut file = MemFile::new();
    let e = elem_over(&mut file, &matrix_3x2());
    let sub = e.subset_rows(&file, &vec![2, 0]).expect("subset");
    let got = sub.read_elem(&file).expect("read");
    let want = DynData::Array(DynArray::I32(DenseArray {
        shape: vec![2, 2],
        data: vec![5, 6, 1, 2],
    }));
    assert_eq!(got, want);
}

#[test]
fn subset_both_read() {
    let mut file = MemFile::new();
    let e = elem_over(&mut file, &matrix_3x2());
    let sub = e.subset(&file, &vec![1, 2], &vec![1]).expect("subset");
    let got = sub.read_elem(&file).expect("read");
    let want = DynData::Array(DynArray::I32(DenseArray { shape: vec![2, 1], data: vec![4, 6] }));
    assert_eq!(got, want);
}

#[test]
fn selections_replace_not_compose() {
    // A second row subset speaks in the coordinates of the stored value, not
    // of the previous subset.
    let mut file = MemFile::new();
    let e = elem_over(&mut file, &matrix_3x2());
    let sub1 = e.subset_rows(&file, &vec![2, 0]).expect("first");
    let sub2 = sub1.subset_rows(&file, &vec![1]).expect("second");
    let got = sub2.read_elem(&file).expect("read");
    let want = DynData::Array(DynArray::I32(DenseArray { shape: vec![1, 2], data: vec![3, 4] }));
    assert_eq!(got, want);
}

#[test]
fn write_elem_writes_selected_value() {
    let mut file = MemFile::new();
    let e = elem_over(&mut file, &matrix_3x2());
    let sub = e.subset_rows(&file, &vec![0, 2]).expect("subset");
    let c2 = sub.write_elem(&mut file, 0, "Y").expect("write_elem");
    let back = DynData::read(&file, &c2).expect("read");
    let want = DynData::Array(DynArray::I32(DenseArray {
        shape: vec![2, 2],
        data: vec![1, 2, 5, 6],
    }));
    assert_eq!(back, want);
}

#[test]
fn narrowing_to_wrong_type_is_type_mismatch() {
    // A container holding an array refuses to be read as a scalar.
    let mut file = MemFile::new();
    let c = matrix_3x2().write(&mut file, 0, "X").expect("write");
    assert_eq!(DynScalar::read(&file, &c).err(), Some(AnnError::TypeMismatch));
    assert!(DynArray::read(&file, &c).is_ok());
}

#[test]
fn scalar_element_refuses_selection() {
    let mut file = MemFile::new();
    let v = DynData::Scalar(DynScalar::I16(9));
    let e = elem_over(&mut file, &v);
    assert_eq!(e.nrows, 1);
    assert_eq!(e.ncols, 1);
    let sub = e.subset_rows(&file, &vec![0]).expect("subset in range");
    assert_eq!(sub.read_elem(&file).err(), Some(AnnError::TypeMismatch));
}
