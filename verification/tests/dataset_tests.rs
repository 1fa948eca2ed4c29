//! The composite store: global-to-local resolution, subsetting with the
//! member-grouped write order, and materialization into one store.

use anndata_core::dataset::AnnDataSet;
use anndata_core::index::DataFrameIndex;
use anndata_core::store::AnnData;
use anndata_core::values::{DenseArray, DynArray, DynData};
use anndata_core::errors::AnnError;
use anndata_core::values::{DynScalar, Mapping};

fn named(names: &[&str]) -> DataFrameIndex {
    DataFrameIndex::from_names(names.iter().map(|s| String::from(*s)).collect())
}

/// Store A: 3 observations, 2 variables, matrix rows [1,2],[3,4],[5,6].
fn store_a() -> AnnData {
    let mut a = AnnData::new_named(named(&["a0", "a1", "a2"]), named(&["g1", "g2"]));
    let x = DynData::Array(DynArray::I32(DenseArray {
        shape: vec![3, 2],
        data: vec![1, 2, 3, 4, 5, 6],
    }));
    a.set_x(&x).expect("set_x A");
    a
}

/// Store B: 2 observations, 2 variables, matrix rows [7,8],[9,10].
fn store_b() -> AnnData {
    let mut b = AnnData::new_named(named(&["b0", "b1"]), named(&["g1", "g2"]));
    let x = DynData::Array(DynArray::I32(DenseArray {
        shape: vec![2, 2],
        data: vec![7, 8, 9, 10],
    }));
    b.set_x(&x).expect("set_x B");
    b
}

fn composite() -> AnnDataSet {
    AnnDataSet::new(
        vec![(String::from("A"), store_a()), (String::from("B"), store_b())],
        None,
    )
    .expect("composite")
}

#[test]
fn composite_shape_is_concatenated() {
    let ds = composite();
    assert_eq!(ds.shape(), (5, 2));
    assert_eq!(ds.n_obs(), 5);
    assert_eq!(ds.n_vars(), 2);
}

#[test]
fn global_positions_resolve_by_prefix_sums() {
    // Counts [3, 2]: global g resolves to member m and local l with
    // l = g - sum of earlier counts, and l below the member's count.
    let ds = composite();
    assert_eq!(ds.resolve_obs(0), Some((0, 0)));
    assert_eq!(ds.resolve_obs(2), Some((0, 2)));
    assert_eq!(ds.resolve_obs(3), Some((1, 0)));
    assert_eq!(ds.resolve_obs(4), Some((1, 1)));
    assert_eq!(ds.resolve_obs(5), None);
}

#[test]
fn concatenated_names() {
    let ds = composite();
    let names = ds.obs_names();
    assert_eq!(names, vec!["a0", "a1", "a2", "b0", "b1"]);
    assert_eq!(ds.var_names(), vec!["g1", "g2"]);
}

#[test]
fn members_must_share_variable_names() {
    let mut odd = AnnData::new_named(named(&["c0"]), named(&["h1", "h2"]));
    let x = DynData::Array(DynArray::I32(DenseArray { shape: vec![1, 2], data: vec![0, 0] }));
    odd.set_x(&x).expect("set_x");
    let r = AnnDataSet::new(
        vec![(String::from("A"), store_a()), (String::from("C"), odd)],
        None,
    );
    assert_eq!(r.err(), Some(AnnError::TypeMismatch));
}

#[test]
fn subset_partitions_by_member_and_reports_permutation() {
    // Requesting rows [4, 0] of the (5, 2) composite: A keeps observation 0,
    // B keeps its local observation 1, and the permutation [1, 0] maps the
    // member-grouped write order back onto the request.
    let ds = composite();
    let (ds2, perm) = ds.subset(&vec![4, 0], None).expect("subset");
    assert_eq!(perm, Some(vec![1, 0]));
    assert_eq!(ds2.anndatas.len(), 2);

    let (key_a, new_a) = &ds2.anndatas[0];
    assert_eq!(key_a, "A");
    assert_eq!(new_a.shape(), (1, 2));
    assert_eq!(new_a.obs_names.names, vec!["a0"]);
    let xa = new_a.read_x().expect("read").expect("some");
    assert_eq!(
        xa,
        DynData::Array(DynArray::I32(DenseArray { shape: vec![1, 2], data: vec![1, 2] }))
    );

    let (key_b, new_b) = &ds2.anndatas[1];
    assert_eq!(key_b, "B");
    assert_eq!(new_b.shape(), (1, 2));
    assert_eq!(new_b.obs_names.names, vec!["b1"]);
    let xb = new_b.read_x().expect("read").expect("some");
    assert_eq!(
        xb,
        DynData::Array(DynArray::I32(DenseArray { shape: vec![1, 2], data: vec![9, 10] }))
    );
}

#[test]
fn subset_in_member_order_returns_no_permutation() {
    let ds = composite();
    let (ds2, perm) = ds.subset(&vec![0, 2, 3], None).expect("subset");
    assert_eq!(perm, None);
    assert_eq!(ds2.anndatas[0].1.shape(), (2, 2));
    assert_eq!(ds2.anndatas[1].1.shape(), (1, 2));
}

#[test]
fn subset_with_variable_selection() {
    let ds = composite();
    let (ds2, _) = ds.subset(&vec![1], Some(&vec![1])).expect("subset");
    assert_eq!(ds2.anndatas[0].1.shape(), (1, 1));
    let x = ds2.anndatas[0].1.read_x().expect("read").expect("some");
    assert_eq!(x, DynData::Array(DynArray::I32(DenseArray { shape: vec![1, 1], data: vec![4] })));
    assert_eq!(ds2.anndatas[0].1.var_names.names, vec!["g2"]);
}

#[test]
fn subset_out_of_bounds() {
    let ds = composite();
    assert_eq!(ds.subset(&vec![5], None).err(), Some(AnnError::IndexOutOfBounds));
    assert_eq!(ds.subset(&vec![0], Some(&vec![2])).err(), Some(AnnError::IndexOutOfBounds));
}

#[test]
fn to_adata_materializes_requested_order() {
    // The single store holds the selected sub-matrix in the requested order,
    // rows drawn across members.
    let ds = composite();
    let a2 = ds.to_adata(&vec![4, 0, 3], None, true).expect("to_adata");
    assert_eq!(a2.shape(), (3, 2));
    assert_eq!(a2.obs_names.names, vec!["b1", "a0", "b0"]);
    assert_eq!(a2.var_names.names, vec!["g1", "g2"]);
    let x = a2.read_x().expect("read").expect("some");
    assert_eq!(
        x,
        DynData::Array(DynArray::I32(DenseArray {
            shape: vec![3, 2],
            data: vec![9, 10, 1, 2, 7, 8],
        }))
    );
}

#[test]
fn to_adata_without_matrix_copy() {
    let ds = composite();
    let a2 = ds.to_adata(&vec![0], None, false).expect("to_adata");
    assert_eq!(a2.read_x().expect("read"), None);
}

#[test]
fn close_lifecycle() {
    let mut ds = composite();
    assert!(!ds.is_closed());
    assert!(ds.isbacked());
    assert_eq!(ds.backend(), "memory");
    ds.close().expect("close");
    assert!(ds.is_closed());
    assert_eq!(ds.close().err(), Some(AnnError::StoreClosed));
    assert_eq!(ds.subset(&vec![0], None).err(), Some(AnnError::StoreClosed));
}

#[test]
fn composite_refuses_closed_member() {
    let mut closed_member = store_a();
    closed_member.close().expect("close");
    let r = AnnDataSet::new(
        vec![(String::from("A"), closed_member), (String::from("B"), store_b())],
        None,
    );
    assert_eq!(r.err(), Some(AnnError::StoreClosed));
}

#[test]
fn metadata_is_carried_into_derived_stores() {
    let mut ds = composite();
    let note = Mapping(vec![(
        String::from("note"),
        DynData::Scalar(DynScalar::String(String::from("kept"))),
    )]);
    ds.set_uns(Some(note.clone()));

    // Subsetting keeps the composite's metadata on the new composite.
    let (ds2, _) = ds.subset(&vec![0], None).expect("subset");
    assert_eq!(ds2.get_uns().as_ref(), Some(&note));

    // Materializing persists it on the single store.
    let a2 = ds.to_adata(&vec![0], None, false).expect("to_adata");
    assert_eq!(a2.get_uns().expect("read uns"), Some(note));
}
