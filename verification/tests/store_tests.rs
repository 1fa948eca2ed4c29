//! The single backed store: the primary matrix, axis names, annotation
//! tables and unstructured metadata.

use anndata_core::errors::AnnError;
use anndata_core::index::DataFrameIndex;
use anndata_core::store::AnnData;
use anndata_core::values::{
    DataFrameData, DenseArray, DynArray, DynData, DynScalar, Mapping,
};

#[test]
fn set_and_read_x() {
    let mut a = AnnData::new(2, 2);
    let v = DynData::Array(DynArray::F64(DenseArray {
        shape: vec![2, 2],
        data: vec![1.0f64.to_bits(), 2.0f64.to_bits(), 3.0f64.to_bits(), 4.0f64.to_bits()],
    }));
    a.set_x(&v).expect("set_x");
    assert_eq!(a.read_x().expect("read"), Some(v));
}

#[test]
fn set_x_overwrites() {
    let mut a = AnnData::new(1, 1);
    let v1 = DynData::Array(DynArray::I32(DenseArray { shape: vec![1, 1], data: vec![1] }));
    let v2 = DynData::Array(DynArray::I32(DenseArray { shape: vec![1, 1], data: vec![2] }));
    a.set_x(&v1).expect("first");
    a.set_x(&v2).expect("second");
    assert_eq!(a.read_x().expect("read"), Some(v2));
}

#[test]
fn set_x_rejects_wrong_shape() {
    let mut a = AnnData::new(2, 2);
    let v = DynData::Array(DynArray::I32(DenseArray { shape: vec![1, 2], data: vec![1, 2] }));
    assert_eq!(a.set_x(&v).err(), Some(AnnError::TypeMismatch));
}

#[test]
fn read_x_selected() {
    let mut a = AnnData::new(2, 3);
    let v = DynData::Array(DynArray::U32(DenseArray {
        shape: vec![2, 3],
        data: vec![1, 2, 3, 4, 5, 6],
    }));
    a.set_x(&v).expect("set_x");
    let got = a.read_x_selected(&vec![1], &vec![0, 2]).expect("read").expect("some");
    assert_eq!(
        got,
        DynData::Array(DynArray::U32(DenseArray { shape: vec![1, 2], data: vec![4, 6] }))
    );
}

#[test]
fn annotation_tables_round_trip() {
    let mut a = AnnData::new(2, 1);
    let obs = DataFrameData {
        columns: vec![
            (String::from("label"), DynArray::String(DenseArray {
                shape: vec![2],
                data: vec![String::from("u"), String::from("v")],
            })),
        ],
    };
    a.set_obs(&obs).expect("set_obs");
    assert_eq!(a.get_obs().expect("get"), Some(obs.clone()));
    let obs2 = DataFrameData {
        columns: vec![
            (String::from("score"), DynArray::I64(DenseArray { shape: vec![2], data: vec![5, 6] })),
        ],
    };
    a.set_obs(&obs2).expect("set_obs again");
    assert_eq!(a.get_obs().expect("get"), Some(obs2));
    assert_eq!(a.get_uns().expect("get_uns"), None);
}

#[test]
fn unstructured_metadata_round_trip() {
    let mut a = AnnData::new(1, 1);
    let m = Mapping(vec![(String::from("note"), DynData::Scalar(DynScalar::String(
        String::from("kept"),
    )))]);
    a.set_uns(&m).expect("set_uns");
    assert_eq!(a.get_uns().expect("get_uns"), Some(m));
}

#[test]
fn renaming_axes_checks_length() {
    let mut a = AnnData::new(2, 1);
    let good = DataFrameIndex::from_names(vec![String::from("x"), String::from("y")]);
    a.set_obs_names(good).expect("rename");
    assert_eq!(a.obs_names.names, vec!["x", "y"]);
    let bad = DataFrameIndex::from_names(vec![String::from("only")]);
    assert_eq!(a.set_obs_names(bad).err(), Some(AnnError::IndexOutOfBounds));
}

#[test]
fn variable_annotations_round_trip() {
    let mut a = AnnData::new(1, 2);
    assert_eq!(a.get_var().expect("empty"), None);
    let var = DataFrameData {
        columns: vec![
            (String::from("kind"), DynArray::U8(DenseArray { shape: vec![2], data: vec![1, 2] })),
        ],
    };
    a.set_var(&var).expect("set_var");
    assert_eq!(a.get_var().expect("get"), Some(var));
}
