//! One witness input per failure kind.

use anndata_core::backend::{AttrValue, MemFile};
use anndata_core::codec::{ReadData, WriteData, container_data_type, read_dyn_data};
use anndata_core::errors::AnnError;
use anndata_core::values::{DataFrameData, DenseArray, DynArray, DynData, DynScalar};
use anndata_core::dataset::AnnDataSet;
use anndata_core::element::RawMatrixElem;
use anndata_core::store::AnnData;

#[test]
fn not_found_on_missing_child_and_attr() {
    let file = MemFile::new();
    assert_eq!(file.get_child(0, "nothing").err(), Some(AnnError::NotFound));
    assert_eq!(file.read_str_attr(0, "nothing").err(), Some(AnnError::NotFound));
}

#[test]
fn untagged_container_is_not_found() {
    let mut file = MemFile::new();
    let g = file.create_group(0, "bare").expect("create");
    assert_eq!(read_dyn_data(&file, g).err(), Some(AnnError::NotFound));
}

#[test]
fn already_exists_on_colliding_write() {
    let mut file = MemFile::new();
    let v = DynData::Scalar(DynScalar::U8(1));
    v.write(&mut file, 0, "s").expect("first write");
    assert_eq!(v.write(&mut file, 0, "s").err(), Some(AnnError::AlreadyExists));
}

#[test]
fn type_mismatch_on_wrong_container_kind() {
    let mut file = MemFile::new();
    let c = DynData::Scalar(DynScalar::U8(1)).write(&mut file, 0, "s").expect("write");
    assert_eq!(c.as_group(&file).err(), Some(AnnError::TypeMismatch));
    assert!(c.as_dataset(&file).is_ok());
}

#[test]
fn unsupported_type_on_unrecognized_tag() {
    let mut file = MemFile::new();
    let g = file.create_group(0, "odd").expect("create");
    file.write_attr(g, "encoding-type", AttrValue::Str(String::from("mystery")));
    assert_eq!(container_data_type(&file, g).err(), Some(AnnError::UnsupportedType));
}

#[test]
fn unsupported_type_on_tabular_column_of_wrong_rank() {
    // A two-dimensional column aborts the tabular write.
    let mut file = MemFile::new();
    let frame = DataFrameData {
        columns: vec![
            (
                String::from("m"),
                DynArray::I32(DenseArray { shape: vec![2, 2], data: vec![1, 2, 3, 4] }),
            ),
        ],
    };
    assert_eq!(frame.write(&mut file, 0, "df").err(), Some(AnnError::UnsupportedType));
}

#[test]
fn index_out_of_bounds_on_subset() {
    let mut file = MemFile::new();
    let v = DynData::Array(DynArray::I64(DenseArray { shape: vec![2, 2], data: vec![1, 2, 3, 4] }));
    let c = v.write(&mut file, 0, "X").expect("write");
    let e = RawMatrixElem::new_elem(&file, c).expect("elem");
    assert_eq!(e.subset(&file, &vec![0], &vec![5]).err(), Some(AnnError::IndexOutOfBounds));
}

#[test]
fn unsupported_backend_on_unknown_medium() {
    let r = AnnDataSet::new(vec![], Some("hdf5"));
    assert_eq!(r.err(), Some(AnnError::UnsupportedBackend));
    assert!(AnnDataSet::new(vec![], Some("memory")).is_ok());
}

#[test]
fn store_closed_on_use_after_close() {
    let mut a = AnnData::new(1, 1);
    a.close().expect("close once");
    assert_eq!(a.close().err(), Some(AnnError::StoreClosed));
    assert_eq!(a.read_x().err(), Some(AnnError::StoreClosed));
    let v = DynData::Scalar(DynScalar::I8(0));
    assert_eq!(a.set_x(&v).err(), Some(AnnError::StoreClosed));
}
