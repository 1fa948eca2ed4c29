//! A single backed store: one backing file owning a primary matrix element,
//! per-axis name indices, annotation tables and unstructured metadata, all
//! persisted as tagged children of the file's root group.  The store is the
//! sole owner of its file; every element addresses nodes inside it.  A closed
//! store refuses further work with the store-closed condition.

use vstd::prelude::*;

use crate::backend::{FileV, MemFile, has_child};
use crate::codec::{ReadData, WriteData, decode, map_decode, read_dyn_data, read_mapping};
use crate::container::{ContainerKind, DataContainer};
use crate::element::{RawMatrixElem, data_ncols, data_nrows};
use crate::errors::{AnnError, AnnResult};
use crate::index::DataFrameIndex;
use crate::values::{DataFrameData, DataV, DynData, Mapping};

verus! {

/// The canonical name of the in-memory storage medium.
pub open spec fn mem_backend_name() -> Seq<char> {
    "memory"@
}

/// A single backed annotated-matrix store.
#[derive(Debug)]
pub struct AnnData {
    pub file: MemFile,
    pub n_obs: usize,
    pub n_vars: usize,
    pub obs_names: DataFrameIndex,
    pub var_names: DataFrameIndex,
    pub x: Option<RawMatrixElem>,
    pub closed: bool,
}

impl AnnData {
    /// The store's file is well formed; the primary matrix element, when
    /// present, is live, carries no pending selection and matches the
    /// store's shape.
    pub open spec fn wf(self) -> bool {
        &&& self.file@.wf()
        &&& self.obs_names.wf()
        &&& self.var_names.wf()
        &&& self.obs_names@.names.len() == self.n_obs
        &&& self.var_names@.names.len() == self.n_vars
        &&& (self.x matches Some(e) ==> {
            &&& e.wf(self.file@)
            &&& e.obs_indices is None
            &&& e.var_indices is None
            &&& e.nrows == self.n_obs
            &&& e.ncols == self.n_vars
            &&& e.inner.container.parent == 0
            &&& e.inner.container.name@ == "X"@
            &&& crate::codec::subtree_above(self.file@, e.inner.container.node as int, 1)
        })
    }

    /// The stored primary matrix value, if one was set.
    pub open spec fn x_value(self) -> Option<DataV> {
        match self.x {
            Some(e) => Some(e.inner.stored(self.file@)),
            None => None,
        }
    }

    /// An empty store of the given shape with the given axis names.
    pub fn new_named(obs_names: DataFrameIndex, var_names: DataFrameIndex) -> (r: AnnData)
        requires
            obs_names.wf(),
            var_names.wf(),
        ensures
            r.wf(),
            !r.closed,
            r.x is None,
            r.n_obs == obs_names@.names.len(),
            r.n_vars == var_names@.names.len(),
            r.obs_names@ == obs_names@,
            r.var_names@ == var_names@,
    {
        let file = MemFile::new();
        let n_obs = obs_names.len();
        let n_vars = var_names.len();
        AnnData { file, n_obs, n_vars, obs_names, var_names, x: None, closed: false }
    }

    /// An empty store of the given shape with synthesized decimal axis
    /// names.
    pub fn new(n_obs: usize, n_vars: usize) -> (r: AnnData)
        ensures
            r.wf(),
            !r.closed,
            r.x is None,
            r.n_obs == n_obs,
            r.n_vars == n_vars,
    {
        AnnData::new_named(DataFrameIndex::with_length(n_obs), DataFrameIndex::with_length(n_vars))
    }

    /// The shape of the primary matrix: observations by variables.
    pub fn shape(&self) -> (r: (usize, usize))
        ensures
            r.0 == self.n_obs,
            r.1 == self.n_vars,
    {
        (self.n_obs, self.n_vars)
    }

    /// Whether the store has been closed.
    pub fn is_closed(&self) -> (r: bool)
        ensures
            r == self.closed,
    {
        self.closed
    }

    /// Closes the store; closing it twice is a store-closed failure.
    pub fn close(&mut self) -> (r: AnnResult<()>)
        ensures
            final(self).closed,
            final(self).file == old(self).file,
            final(self).x == old(self).x,
            final(self).n_obs == old(self).n_obs,
            final(self).n_vars == old(self).n_vars,
            final(self).obs_names == old(self).obs_names,
            final(self).var_names == old(self).var_names,
            match r {
                Ok(()) => !old(self).closed,
                Err(e) => e == AnnError::StoreClosed && old(self).closed,
            },
    {
        if self.closed {
            return Err(AnnError::StoreClosed);
        }
        self.closed = true;
        Ok(())
    }

    /// Sets the primary matrix to the given value, overwriting any earlier
    /// one.  The value's shape must match the store's; a selection-averse
    /// value (a non-uniform tabular value) is refused.
    pub fn set_x(&mut self, data: &DynData) -> (r: AnnResult<()>)
        requires
            old(self).wf(),
            data@.writable(),
        ensures
            match r {
                Ok(()) => {
                    &&& !old(self).closed
                    &&& final(self).wf()
                    &&& final(self).x_value() == Some(data@)
                    &&& final(self).closed == old(self).closed
                    &&& final(self).n_obs == old(self).n_obs
                    &&& final(self).n_vars == old(self).n_vars
                    &&& final(self).obs_names@ == old(self).obs_names@
                    &&& final(self).var_names@ == old(self).var_names@
                },
                Err(e) => {
                    &&& final(self).wf()
                    &&& (old(self).closed ==> e == AnnError::StoreClosed && *final(self) == *old(
                        self,
                    ))
                    &&& (e == AnnError::StoreClosed ==> old(self).closed)
                    &&& (!old(self).closed ==> final(self).x is None)
                    &&& final(self).closed == old(self).closed
                    &&& final(self).obs_names@ == old(self).obs_names@
                    &&& final(self).var_names@ == old(self).var_names@
                    &&& final(self).n_obs == old(self).n_obs
                    &&& final(self).n_vars == old(self).n_vars
                },
            },
            r is Ok <==> !old(self).closed && crate::element::selectable(data@) && data_nrows(
                data@,
            ) == old(self).n_obs && data_ncols(data@) == old(self).n_vars,
    {
        if self.closed {
            return Err(AnnError::StoreClosed);
        }
        let ghost pre_len = self.file@.nodes.len();
        let c = match &self.x {
            Some(e) => {
                let ghost pre = self.file@;
                match data.overwrite(&mut self.file, &e.inner.container) {
                    Ok(c) => c,
                    Err(e2) => {
                        self.x = None;
                        proof {
                            assert(!crate::element::selectable(data@));
                        }
                        return Err(e2);
                    },
                }
            },
            None => {
                match self.file.get_child(0, "X") {
                    Ok(_) => {
                        match self.file.delete_child(0, "X") {
                            Ok(()) => {},
                            Err(_) => vstd::pervasive::unreached(),
                        }
                    },
                    Err(_) => {},
                }
                match data.write(&mut self.file, 0, "X") {
                    Ok(c) => c,
                    Err(e2) => {
                        self.x = None;
                        proof {
                            assert(!crate::element::selectable(data@));
                        }
                        return Err(e2);
                    },
                }
            },
        };
        let elem = match RawMatrixElem::new_elem(&self.file, c) {
            Ok(e) => e,
            Err(e2) => {
                self.x = None;
                return Err(e2);
            },
        };
        let nrows = elem.nrows;
        let ncols = elem.ncols;
        if nrows != self.n_obs || ncols != self.n_vars {
            self.x = None;
            return Err(AnnError::TypeMismatch);
        }
        proof {
            assert(crate::codec::subtree_above(self.file@, elem.inner.container.node as int, 1))
                by {
                let node = elem.inner.container.node as int;
                let f = self.file@;
                assert(crate::codec::subtree_above(f, node, pre_len as int));
                if f.nodes[node].body is Group {
                    assert forall|i: int| 0 <= i < f.child_seq(node).len() implies
                        crate::codec::column_above(f, (#[trigger] f.child_seq(node)[i]).1 as int, 1)
                    by {
                        assert(crate::codec::column_above(f, f.child_seq(node)[i].1 as int, pre_len as int));
                    }
                }
            }
        }
        self.x = Some(elem);
        Ok(())
    }

    /// Reads the primary matrix value; absent when none was set.
    pub fn read_x(&self) -> (r: AnnResult<Option<DynData>>)
        requires
            self.wf(),
        ensures
            match r {
                Ok(opt) => match opt {
                    Some(v) => self.x_value() == Some(v@) && !self.closed,
                    None => self.x_value() is None && !self.closed,
                },
                Err(e) => e == AnnError::StoreClosed && self.closed,
            },
    {
        if self.closed {
            return Err(AnnError::StoreClosed);
        }
        match &self.x {
            Some(e) => {
                let v = match e.read_elem(&self.file) {
                    Ok(v) => v,
                    Err(_) => vstd::pervasive::unreached(),
                };
                Ok(Some(v))
            },
            None => Ok(None),
        }
    }

    /// Reads the primary matrix restricted to the given rows and columns,
    /// validating both position lists.
    pub fn read_x_selected(&self, ridx: &Vec<usize>, cidx: &Vec<usize>) -> (r: AnnResult<
        Option<DynData>,
    >)
        requires
            self.wf(),
        ensures
            r matches Ok(opt) ==> !self.closed && (opt is Some <==> self.x is Some),
            match r {
                Ok(opt) => match opt {
                    Some(v) => self.x_value() matches Some(d) && Ok::<DataV, AnnError>(v@)
                        == crate::element::selected_value(d, Some(ridx@), Some(cidx@)) && (v@
                        matches DataV::Array(a) ==> a.wf()) && (v@ matches DataV::Frame(f)
                        ==> f.rows_selectable()),
                    None => self.x_value() is None,
                },
                Err(e) => {
                    &&& (e == AnnError::StoreClosed <==> self.closed)
                    &&& (e == AnnError::IndexOutOfBounds <==> !self.closed && self.x is Some && ((
                    exists|k: int|
                        0 <= k < ridx@.len() && (#[trigger] ridx@[k]) >= self.n_obs) || (exists|
                    k: int,
                    |
                        0 <= k < cidx@.len() && (#[trigger] cidx@[k]) >= self.n_vars)))
                    &&& (e == AnnError::TypeMismatch <==> !self.closed && (self.x_value() matches
                        Some(d) && (forall|k: int|
                        0 <= k < ridx@.len() ==> (#[trigger] ridx@[k]) < self.n_obs) && (forall|
                    k: int,
                    |
                        0 <= k < cidx@.len() ==> (#[trigger] cidx@[k]) < self.n_vars)
                        && crate::element::selected_value(d, Some(ridx@), Some(cidx@)) is Err))
                    &&& (e == AnnError::StoreClosed || e == AnnError::IndexOutOfBounds || e
                        == AnnError::TypeMismatch)
                },
            },
            r is Ok <==> !self.closed && (self.x is None || ((forall|k: int|
                0 <= k < ridx@.len() ==> (#[trigger] ridx@[k]) < self.n_obs) && (forall|k: int|
                0 <= k < cidx@.len() ==> (#[trigger] cidx@[k]) < self.n_vars)
                && crate::element::selected_value(
                self.x_value()->0,
                Some(ridx@),
                Some(cidx@),
            ) is Ok)),
    {
        if self.closed {
            return Err(AnnError::StoreClosed);
        }
        match &self.x {
            Some(e) => {
                let sub = match e.subset(&self.file, ridx, cidx) {
                    Ok(s) => s,
                    Err(e2) => {
                        return Err(e2);
                    },
                };
                let _rl = ridx.len();
                let _cl = cidx.len();
                match sub.read_elem(&self.file) {
                    Ok(v) => {
                        proof {
                            let d = e.inner.stored(self.file@);
                            match d {
                                DataV::Array(a) => {
                                    crate::element::lemma_selected_array_wf(
                                        a,
                                        Some(ridx@),
                                        Some(cidx@),
                                        self.n_obs as int,
                                        self.n_vars as int,
                                    );
                                },
                                DataV::Frame(f) => {
                                    crate::element::lemma_selected_frame_uniform(
                                        f,
                                        Some(ridx@),
                                        Some(cidx@),
                                        self.n_obs as int,
                                        self.n_vars as int,
                                    );
                                },
                                DataV::Scalar(_) => {},
                            }
                        }
                        Ok(Some(v))
                    },
                    Err(e2) => Err(e2),
                }
            },
            None => Ok(None),
        }
    }
}


impl AnnData {
    /// The decoded value of a named field stored under the root, if the
    /// field exists.
    pub open spec fn field_decode(self, name: Seq<char>) -> Option<Result<DataV, AnnError>> {
        if has_child(self.file@.child_seq(0), name) {
            Some(decode(self.file@, crate::backend::child_id(self.file@.child_seq(0), name) as int))
        } else {
            None
        }
    }

    /// Writes or overwrites a named field under the root.  On a partial
    /// write failure the store keeps its file (with whatever was written)
    /// but drops its primary matrix handle.
    fn set_field(&mut self, name: &str, data: &DynData) -> (r: AnnResult<()>)
        requires
            old(self).wf(),
            !old(self).closed,
            name@ != "X"@,
            data@.writable(),
        ensures
            final(self).wf(),
            final(self).closed == old(self).closed,
            final(self).n_obs == old(self).n_obs,
            final(self).n_vars == old(self).n_vars,
            final(self).obs_names@ == old(self).obs_names@,
            final(self).var_names@ == old(self).var_names@,
            match r {
                Ok(()) => {
                    &&& final(self).field_decode(name@) == Some(Ok::<DataV, AnnError>(data@))
                    &&& final(self).x_value() == old(self).x_value()
                    &&& (final(self).x is Some) == (old(self).x is Some)
                },
                Err(e) => e == AnnError::UnsupportedType && final(self).x is None
                    && !crate::codec::data_writes_cleanly(data@),
            },
            r is Ok <==> crate::codec::data_writes_cleanly(data@),
    {
        let ghost pre = self.file@;
        let existing = match self.file.get_child(0, name) {
            Ok(existing) => Some(existing),
            Err(_) => None,
        };
        let r = match existing {
            Some(existing) => {
                let kind = if self.file.is_group(existing) {
                    ContainerKind::Group
                } else {
                    ContainerKind::Dataset
                };
                let c0 = DataContainer { kind, node: existing, parent: 0, name: name.to_owned() };
                proof {
                    assert(c0.wf(self.file@)) by {
                        assert(crate::backend::node_wf(
                            self.file@.nodes[0],
                            0,
                            self.file@.nodes.len() as int,
                        ));
                    }
                }
                data.overwrite(&mut self.file, &c0)
            },
            None => data.write(&mut self.file, 0, name),
        };
        let c2 = match r {
            Ok(c2) => c2,
            Err(e) => {
                proof {
                    if e == AnnError::AlreadyExists {
                        assert(false);
                    }
                }
                self.x = None;
                return Err(e);
            },
        };
        proof {
            match old(self).x {
                Some(e) => {
                    let och = pre.child_seq(0);
                    let nch = self.file@.child_seq(0);
                    assert(has_child(och, "X"@));
                    let xp = crate::backend::child_pos(och, "X"@);
                    if existing is Some {
                        let rp = crate::backend::child_pos(och, name@);
                        assert(och[rp].0 == name@);
                        assert(och[xp].0 == "X"@);
                        assert(xp != rp);
                        let mid = och.remove(rp);
                        let xp2 = if xp < rp {
                            xp
                        } else {
                            xp - 1
                        };
                        assert(mid[xp2] == och[xp]);
                        assert(nch[xp2] == och[xp]);
                        crate::backend::lemma_child_pos_unique(nch, "X"@, xp2);
                    } else {
                        assert(nch[xp] == och[xp]);
                        crate::backend::lemma_child_pos_unique(nch, "X"@, xp);
                    }
                },
                None => {},
            }
            self.lemma_x_stable(pre);
            crate::backend::lemma_child_pos_unique(
                self.file@.child_seq(0),
                name@,
                crate::backend::child_pos(self.file@.child_seq(0), name@),
            );
        }
        Ok(())
    }

    /// After a write that touched only the root group and fresh nodes, the
    /// primary matrix element is unchanged.
    proof fn lemma_x_stable(self, pre: FileV)
        requires
            pre.wf(),
            self.file@.wf(),
            self.file@.nodes.len() >= pre.nodes.len(),
            forall|m: int| 1 <= m < pre.nodes.len() ==> self.file@.nodes[m] == pre.nodes[m],
            self.file@.is_group(0),
            self.x matches Some(e) ==> {
                &&& e.wf(pre)
                &&& e.inner.container.parent == 0
                &&& has_child(self.file@.child_seq(0), e.inner.container.name@)
                &&& crate::backend::child_id(self.file@.child_seq(0), e.inner.container.name@)
                    == e.inner.container.node
                &&& crate::codec::subtree_above(pre, e.inner.container.node as int, 1)
                &&& e.nrows == data_nrows(e.inner.stored(pre))
                &&& e.ncols == data_ncols(e.inner.stored(pre))
            },
        ensures
            self.x matches Some(e) ==> {
                &&& e.wf(self.file@)
                &&& crate::codec::subtree_above(self.file@, e.inner.container.node as int, 1)
                &&& e.inner.stored(self.file@) == e.inner.stored(pre)
                &&& data_nrows(e.inner.stored(self.file@)) == e.nrows
                &&& data_ncols(e.inner.stored(self.file@)) == e.ncols
            },
    {
        match self.x {
            Some(e) => {
                crate::codec::lemma_decode_stable(
                    pre,
                    self.file@,
                    e.inner.container.node as int,
                    1,
                );
            },
            None => {},
        }
    }

    /// Sets the observation annotation table.
    pub fn set_obs(&mut self, frame: &DataFrameData) -> (r: AnnResult<()>)
        requires
            old(self).wf(),
            frame@.writable(),
        ensures
            final(self).wf(),
            final(self).n_obs == old(self).n_obs,
            final(self).n_vars == old(self).n_vars,
            match r {
                Ok(()) => !old(self).closed && final(self).x_value() == old(self).x_value()
                    && final(self).field_decode("obs"@) == Some(
                    Ok::<DataV, AnnError>(DataV::Frame(frame@)),
                ),
                Err(e) => {
                    &&& (e == AnnError::StoreClosed <==> old(self).closed)
                    &&& (e == AnnError::StoreClosed || e == AnnError::UnsupportedType)
                    &&& (e == AnnError::UnsupportedType ==> !crate::codec::frame_writes_cleanly(
                        frame@,
                    ))
                },
            },
            r is Ok <==> !old(self).closed && crate::codec::frame_writes_cleanly(frame@),
    {
        if self.closed {
            return Err(AnnError::StoreClosed);
        }
        proof {
            reveal_strlit("obs");
            reveal_strlit("X");
            assert("obs"@.len() != "X"@.len());
        }
        self.set_field("obs", &DynData::DataFrame(frame.clone()))
    }

    /// Reads the observation annotation table, if one was set.
    pub fn get_obs(&self) -> (r: AnnResult<Option<DataFrameData>>)
        requires
            self.wf(),
        ensures
            match r {
                Ok(opt) => match opt {
                    Some(f) => self.field_decode("obs"@) == Some(
                        Ok::<DataV, AnnError>(DataV::Frame(f@)),
                    ),
                    None => self.field_decode("obs"@) is None,
                },
                Err(e) => e == AnnError::StoreClosed && self.closed || (self.field_decode("obs"@)
                    matches Some(d) && !(d == Ok::<DataV, AnnError>(d->Ok_0)
                    && d->Ok_0 is Frame)),
            },
            r matches Ok(opt) ==> (opt is None <==> self.field_decode("obs"@) is None),
    {
        if self.closed {
            return Err(AnnError::StoreClosed);
        }
        let g = match self.file.get_child(0, "obs") {
            Ok(g) => g,
            Err(_) => {
                return Ok(None);
            },
        };
        match read_dyn_data(&self.file, g) {
            Ok(DynData::DataFrame(f)) => Ok(Some(f)),
            Ok(_) => Err(AnnError::TypeMismatch),
            Err(e) => Err(e),
        }
    }

    /// Reads the variable annotation table, if one was set.
    pub fn get_var(&self) -> (r: AnnResult<Option<DataFrameData>>)
        requires
            self.wf(),
        ensures
            match r {
                Ok(opt) => match opt {
                    Some(f) => self.field_decode("var"@) == Some(
                        Ok::<DataV, AnnError>(DataV::Frame(f@)),
                    ),
                    None => self.field_decode("var"@) is None,
                },
                Err(e) => e == AnnError::StoreClosed && self.closed || (self.field_decode("var"@)
                    matches Some(d) && !(d == Ok::<DataV, AnnError>(d->Ok_0)
                    && d->Ok_0 is Frame)),
            },
            r matches Ok(opt) ==> (opt is None <==> self.field_decode("var"@) is None),
    {
        if self.closed {
            return Err(AnnError::StoreClosed);
        }
        let g = match self.file.get_child(0, "var") {
            Ok(g) => g,
            Err(_) => {
                return Ok(None);
            },
        };
        match read_dyn_data(&self.file, g) {
            Ok(DynData::DataFrame(f)) => Ok(Some(f)),
            Ok(_) => Err(AnnError::TypeMismatch),
            Err(e) => Err(e),
        }
    }

    /// Sets the variable annotation table.
    pub fn set_var(&mut self, frame: &DataFrameData) -> (r: AnnResult<()>)
        requires
            old(self).wf(),
            frame@.writable(),
        ensures
            final(self).wf(),
            final(self).n_obs == old(self).n_obs,
            final(self).n_vars == old(self).n_vars,
            match r {
                Ok(()) => !old(self).closed && final(self).x_value() == old(self).x_value()
                    && final(self).field_decode("var"@) == Some(
                    Ok::<DataV, AnnError>(DataV::Frame(frame@)),
                ),
                Err(e) => {
                    &&& (e == AnnError::StoreClosed <==> old(self).closed)
                    &&& (e == AnnError::StoreClosed || e == AnnError::UnsupportedType)
                    &&& (e == AnnError::UnsupportedType ==> !crate::codec::frame_writes_cleanly(
                        frame@,
                    ))
                },
            },
            r is Ok <==> !old(self).closed && crate::codec::frame_writes_cleanly(frame@),
    {
        if self.closed {
            return Err(AnnError::StoreClosed);
        }
        proof {
            reveal_strlit("var");
            reveal_strlit("X");
            assert("var"@.len() != "X"@.len());
        }
        self.set_field("var", &DynData::DataFrame(frame.clone()))
    }

    /// Sets the unstructured metadata mapping.
    pub fn set_uns(&mut self, uns: &Mapping) -> (r: AnnResult<()>)
        requires
            old(self).wf(),
            uns.writable(),
        ensures
            final(self).wf(),
            final(self).closed == old(self).closed,
            final(self).n_obs == old(self).n_obs,
            final(self).n_vars == old(self).n_vars,
            final(self).obs_names@ == old(self).obs_names@,
            final(self).var_names@ == old(self).var_names@,
            match r {
                Ok(()) => {
                    &&& !old(self).closed
                    &&& final(self).x_value() == old(self).x_value()
                    &&& has_child(final(self).file@.child_seq(0), "uns"@)
                    &&& map_decode(
                        final(self).file@,
                        crate::backend::child_id(final(self).file@.child_seq(0), "uns"@) as int,
                    ) == Ok::<Seq<(Seq<char>, DataV)>, AnnError>(uns@)
                },
                Err(e) => {
                    &&& (e == AnnError::StoreClosed <==> old(self).closed)
                    &&& (e == AnnError::StoreClosed || e == AnnError::UnsupportedType)
                    &&& (e == AnnError::UnsupportedType ==> !crate::codec::entries_write_cleanly(
                        uns@,
                    ))
                },
            },
            r is Ok <==> !old(self).closed && crate::codec::entries_write_cleanly(uns@),
    {
        if self.closed {
            return Err(AnnError::StoreClosed);
        }
        let ghost pre = self.file@;
        proof {
            reveal_strlit("uns");
            reveal_strlit("X");
            assert("uns"@.len() != "X"@.len());
        }
        let existing = match self.file.get_child(0, "uns") {
            Ok(e) => Some(e),
            Err(_) => None,
        };
        let r = match existing {
            Some(existing) => {
                let kind = if self.file.is_group(existing) {
                    ContainerKind::Group
                } else {
                    ContainerKind::Dataset
                };
                let c0 = DataContainer {
                    kind,
                    node: existing,
                    parent: 0,
                    name: "uns".to_owned(),
                };
                proof {
                    assert(c0.wf(self.file@)) by {
                        assert(crate::backend::node_wf(
                            self.file@.nodes[0],
                            0,
                            self.file@.nodes.len() as int,
                        ));
                    }
                }
                uns.overwrite(&mut self.file, &c0)
            },
            None => uns.write(&mut self.file, 0, "uns"),
        };
        match r {
            Ok(_) => {
                proof {
                    match old(self).x {
                        Some(e) => {
                            let och = pre.child_seq(0);
                            let nch = self.file@.child_seq(0);
                            assert(has_child(och, "X"@));
                            let xp = crate::backend::child_pos(och, "X"@);
                            match existing {
                                Some(_) => {
                                    let rp = crate::backend::child_pos(och, "uns"@);
                                    assert(och[rp].0 == "uns"@);
                                    assert(och[xp].0 == "X"@);
                                    assert(xp != rp);
                                    let xp2 = if xp < rp {
                                        xp
                                    } else {
                                        xp - 1
                                    };
                                    assert(och.remove(rp)[xp2] == och[xp]);
                                    assert(nch[xp2] == och[xp]);
                                    crate::backend::lemma_child_pos_unique(nch, "X"@, xp2);
                                },
                                None => {
                                    assert(nch[xp] == och[xp]);
                                    crate::backend::lemma_child_pos_unique(nch, "X"@, xp);
                                },
                            }
                        },
                        None => {},
                    }
                    self.lemma_x_stable(pre);
                }
                Ok(())
            },
            Err(e) => {
                proof {
                    if e == AnnError::AlreadyExists {
                        assert(false);
                    }
                }
                self.x = None;
                Err(e)
            },
        }
    }

    /// Reads the unstructured metadata mapping, if one was set.
    pub fn get_uns(&self) -> (r: AnnResult<Option<Mapping>>)
        requires
            self.wf(),
        ensures
            match r {
                Ok(opt) => opt matches Some(m) ==> map_decode(
                    self.file@,
                    crate::backend::child_id(self.file@.child_seq(0), "uns"@) as int,
                ) == Ok::<Seq<(Seq<char>, DataV)>, AnnError>(m@),
                Err(e) => e == AnnError::StoreClosed && self.closed || map_decode(
                    self.file@,
                    crate::backend::child_id(self.file@.child_seq(0), "uns"@) as int,
                ) == Err::<Seq<(Seq<char>, DataV)>, AnnError>(e),
            },
            r matches Ok(opt) ==> (opt is None <==> !has_child(self.file@.child_seq(0), "uns"@)),
    {
        if self.closed {
            return Err(AnnError::StoreClosed);
        }
        let g = match self.file.get_child(0, "uns") {
            Ok(g) => g,
            Err(_) => {
                return Ok(None);
            },
        };
        match read_mapping(&self.file, g) {
            Ok(m) => Ok(Some(m)),
            Err(e) => Err(e),
        }
    }

    /// Replaces the observation names.  The new index must carry exactly one
    /// name per observation.
    pub fn set_obs_names(&mut self, names: DataFrameIndex) -> (r: AnnResult<()>)
        requires
            old(self).wf(),
            names.wf(),
        ensures
            final(self).wf(),
            final(self).x_value() == old(self).x_value(),
            final(self).n_obs == old(self).n_obs,
            final(self).n_vars == old(self).n_vars,
            match r {
                Ok(()) => !old(self).closed && names@.names.len() == old(self).n_obs
                    && final(self).obs_names@ == names@,
                Err(e) => {
                    &&& (e == AnnError::StoreClosed <==> old(self).closed)
                    &&& (e == AnnError::IndexOutOfBounds <==> !old(self).closed && names@.names.len()
                        != old(self).n_obs)
                    &&& *final(self) == *old(self)
                },
            },
    {
        if self.closed {
            return Err(AnnError::StoreClosed);
        }
        if names.len() != self.n_obs {
            return Err(AnnError::IndexOutOfBounds);
        }
        self.obs_names = names;
        Ok(())
    }

    /// Replaces the variable names.  The new index must carry exactly one
    /// name per variable.
    pub fn set_var_names(&mut self, names: DataFrameIndex) -> (r: AnnResult<()>)
        requires
            old(self).wf(),
            names.wf(),
        ensures
            final(self).wf(),
            final(self).x_value() == old(self).x_value(),
            final(self).n_obs == old(self).n_obs,
            final(self).n_vars == old(self).n_vars,
            match r {
                Ok(()) => !old(self).closed && names@.names.len() == old(self).n_vars
                    && final(self).var_names@ == names@,
                Err(e) => {
                    &&& (e == AnnError::StoreClosed <==> old(self).closed)
                    &&& (e == AnnError::IndexOutOfBounds <==> !old(self).closed && names@.names.len()
                        != old(self).n_vars)
                    &&& *final(self) == *old(self)
                },
            },
    {
        if self.closed {
            return Err(AnnError::StoreClosed);
        }
        if names.len() != self.n_vars {
            return Err(AnnError::IndexOutOfBounds);
        }
        self.var_names = names;
        Ok(())
    }
}
} // verus!
