//! The row/column index: forward and reverse lookup, synthesized names, and
//! the persisted form.

use anndata_core::backend::MemFile;
use anndata_core::codec::{ReadData, WriteData};
use anndata_core::index::DataFrameIndex;

#[test]
fn get_finds_every_unique_name_at_its_position() {
    let names = vec![String::from("alpha"), String::from("beta"), String::from("gamma")];
    let ix = DataFrameIndex::from_names(names.clone());
    assert_eq!(ix.len(), 3);
    assert!(!ix.is_empty());
    for (i, n) in names.iter().enumerate() {
        assert_eq!(ix.get(n), Some(i));
    }
    assert_eq!(ix.get(&String::from("delta")), None);
}

#[test]
fn get_on_duplicate_names_returns_last_position() {
    let ix = DataFrameIndex::from_names(vec![
        String::from("a"),
        String::from("b"),
        String::from("a"),
    ]);
    assert_eq!(ix.get(&String::from("a")), Some(2));
    assert_eq!(ix.get(&String::from("b")), Some(1));
}

#[test]
fn empty_index() {
    let ix = DataFrameIndex::from_names(vec![]);
    assert_eq!(ix.len(), 0);
    assert!(ix.is_empty());
    assert_eq!(ix.get(&String::from("a")), None);
}

#[test]
fn with_length_synthesizes_decimal_names() {
    let ix = DataFrameIndex::with_length(12);
    assert_eq!(ix.len(), 12);
    assert_eq!(ix.names[0], "0");
    assert_eq!(ix.names[9], "9");
    assert_eq!(ix.names[10], "10");
    assert_eq!(ix.names[11], "11");
    assert_eq!(ix.get(&String::from("11")), Some(11));
}

#[test]
fn index_write_read_round_trip_preserves_index_name() {
    let mut ix = DataFrameIndex::from_names(vec![String::from("r1"), String::from("r2")]);
    ix.index_name = String::from("obs_names");
    let mut file = MemFile::new();
    let c = ix.write(&mut file, 0, "obs").expect("write");
    let back = DataFrameIndex::read(&file, &c).expect("read");
    assert_eq!(back.index_name, "obs_names");
    assert_eq!(back.names, ix.names);
    assert_eq!(back.get(&String::from("r2")), Some(1));
}

#[test]
fn index_overwrite_replaces_names() {
    let ix = DataFrameIndex::from_names(vec![String::from("r1"), String::from("r2")]);
    let mut file = MemFile::new();
    let c = ix.write(&mut file, 0, "obs").expect("write");
    let ix2 = DataFrameIndex::from_names(vec![
        String::from("s1"),
        String::from("s2"),
        String::from("s3"),
    ]);
    let c2 = ix2.overwrite(&mut file, &c).expect("overwrite");
    let back = DataFrameIndex::read(&file, &c2).expect("read");
    assert_eq!(back.names, ix2.names);
}
