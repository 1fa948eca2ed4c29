//! Overwrites: the generic delete-and-rewrite and the in-place tabular
//! overwrite that spares the row index.

use anndata_core::backend::MemFile;
use anndata_core::codec::{ReadData, WriteData};
use anndata_core::index::DataFrameIndex;
use anndata_core::values::{DataFrameData, DenseArray, DynArray, DynData, DynScalar};
use anndata_core::errors::AnnError;

#[test]
fn overwrite_then_read_yields_second_value() {
    let mut file = MemFile::new();
    let v1 = DynData::Scalar(DynScalar::I32(1));
    let v2 = DynData::Array(DynArray::U16(DenseArray { shape: vec![2], data: vec![7, 8] }));
    let c1 = v1.write(&mut file, 0, "field").expect("write");
    let c2 = v2.overwrite(&mut file, &c1).expect("overwrite");
    assert_eq!(DynData::read(&file, &c2).expect("read"), v2);
}

#[test]
fn overwrite_is_idempotent_on_repeat() {
    let mut file = MemFile::new();
    let v1 = DynData::Scalar(DynScalar::Bool(false));
    let v2 = DynData::Scalar(DynScalar::Bool(true));
    let c1 = v1.write(&mut file, 0, "flag").expect("write");
    let c2 = v2.overwrite(&mut file, &c1).expect("first overwrite");
    let c3 = v2.overwrite(&mut file, &c2).expect("second overwrite");
    assert_eq!(DynData::read(&file, &c3).expect("read"), v2);
}

fn two_col_frame() -> DataFrameData {
    DataFrameData {
        columns: vec![
            (String::from("a"), DynArray::I32(DenseArray { shape: vec![2], data: vec![1, 2] })),
            (String::from("b"), DynArray::Bool(DenseArray {
                shape: vec![2],
                data: vec![true, false],
            })),
        ],
    }
}

#[test]
fn tabular_overwrite_replaces_columns_and_keeps_index() {
    let mut file = MemFile::new();
    let frame1 = two_col_frame();
    let c = frame1.write(&mut file, 0, "obs").expect("write frame");

    // Join a row index into the same group, as the persisted layout has it.
    let ix = DataFrameIndex::from_names(vec![String::from("r1"), String::from("r2")]);
    ix.write(&mut file, 0, "obs").expect("write index");

    // Overwrite in place with a different column set.
    let frame2 = DataFrameData {
        columns: vec![
            (String::from("c"), DynArray::U8(DenseArray { shape: vec![2], data: vec![9, 10] })),
        ],
    };
    let c2 = frame2.overwrite(&mut file, &c).expect("overwrite");

    // The columns are exactly the second value's.
    let back = DataFrameData::read(&file, &c2).expect("read frame");
    assert_eq!(back, frame2);
    assert_eq!(back.columns.len(), 1);
    assert_eq!(back.columns[0].0, "c");

    // The row index survived untouched.
    let ix2 = DataFrameIndex::read(&file, &c2).expect("read index");
    assert_eq!(ix2.names, vec!["r1", "r2"]);
    assert_eq!(ix2.index_name, "index");
}

#[test]
fn tabular_overwrite_refuses_column_named_like_index() {
    let mut file = MemFile::new();
    let frame1 = two_col_frame();
    let c = frame1.write(&mut file, 0, "obs").expect("write frame");
    let ix = DataFrameIndex::from_names(vec![String::from("r1"), String::from("r2")]);
    ix.write(&mut file, 0, "obs").expect("write index");
    let clashing = DataFrameData {
        columns: vec![
            (String::from("index"), DynArray::I8(DenseArray { shape: vec![2], data: vec![0, 1] })),
        ],
    };
    assert_eq!(clashing.overwrite(&mut file, &c).err(), Some(AnnError::AlreadyExists));
}

#[test]
fn frame_joins_group_holding_index() {
    // The index may be written first: the tabular write opens the existing
    // group and joins it, leaving the index dataset in place.
    let mut file = MemFile::new();
    let ix = DataFrameIndex::from_names(vec![String::from("r1"), String::from("r2")]);
    let c_ix = ix.write(&mut file, 0, "obs").expect("write index");
    let frame = two_col_frame();
    let c = frame.write(&mut file, 0, "obs").expect("write frame into same group");
    let back = DataFrameData::read(&file, &c).expect("read frame");
    assert_eq!(back, frame);
    let ix2 = DataFrameIndex::read(&file, &c_ix).expect("read index");
    assert_eq!(ix2.names, vec!["r1", "r2"]);
}

#[test]
fn frame_refuses_dataset_name_and_colliding_column() {
    let mut file = MemFile::new();
    DynData::Scalar(DynScalar::I8(1)).write(&mut file, 0, "spot").expect("write scalar");
    let frame = two_col_frame();
    // A dataset already owns the name: wrong container kind.
    assert_eq!(frame.write(&mut file, 0, "spot").err(), Some(AnnError::TypeMismatch));
    // A group owns the name but a column name collides with its child.
    let ix = DataFrameIndex::from_names(vec![String::from("r1"), String::from("r2")]);
    let mut ix2 = ix;
    ix2.index_name = String::from("a");
    ix2.write(&mut file, 0, "obs").expect("write index named like a column");
    assert_eq!(frame.write(&mut file, 0, "obs").err(), Some(AnnError::AlreadyExists));
}
