//! The container model: a handle to one persisted, type-tagged node (group or
//! dataset) together with where it hangs in its file, so that an overwrite can
//! resolve the parent group and the child name.

use vstd::prelude::*;

use crate::backend::{
    AttrV, AttrValue, FileV, MemFile, child_id, has_child,
};
use crate::errors::{AnnError, AnnResult};

verus! {

/// Whether the node a container points at is a group or a dataset.
#[derive(Clone, Copy, Debug, PartialEq, Eq, Structural)]
pub enum ContainerKind {
    Group,
    Dataset,
}

/// A handle to one persisted node: its arena slot, its kind, and the group
/// and name under which it hangs.
#[derive(Debug)]
pub struct DataContainer {
    pub kind: ContainerKind,
    pub node: usize,
    pub parent: usize,
    pub name: String,
}

impl DataContainer {
    /// The handle points at a live node of its declared kind, linked from its
    /// parent group under its name.
    pub open spec fn wf(self, f: FileV) -> bool {
        &&& self.parent != self.node
        &&& f.is_group(self.parent as int)
        &&& has_child(f.child_seq(self.parent as int), self.name@)
        &&& child_id(f.child_seq(self.parent as int), self.name@) == self.node
        &&& f.in_bounds(self.node as int)
        &&& (self.kind == ContainerKind::Group <==> f.is_group(self.node as int))
    }

    /// The node, if this is a group container; `TypeMismatch` otherwise.
    pub fn as_group(&self, file: &MemFile) -> (r: AnnResult<usize>)
        requires
            file@.wf(),
            self.wf(file@),
        ensures
            match r {
                Ok(n) => n == self.node && file@.is_group(n as int),
                Err(e) => e == AnnError::TypeMismatch && !file@.is_group(self.node as int),
            },
    {
        match self.kind {
            ContainerKind::Group => Ok(self.node),
            ContainerKind::Dataset => Err(AnnError::TypeMismatch),
        }
    }

    /// The node, if this is a dataset container; `TypeMismatch` otherwise.
    pub fn as_dataset(&self, file: &MemFile) -> (r: AnnResult<usize>)
        requires
            file@.wf(),
            self.wf(file@),
        ensures
            match r {
                Ok(n) => n == self.node && !file@.is_group(n as int),
                Err(e) => e == AnnError::TypeMismatch && file@.is_group(self.node as int),
            },
    {
        match self.kind {
            ContainerKind::Dataset => Ok(self.node),
            ContainerKind::Group => Err(AnnError::TypeMismatch),
        }
    }

    /// Reads a string attribute of the node.
    pub fn read_str_attr(&self, file: &MemFile, name: &str) -> (r: AnnResult<String>)
        requires
            file@.wf(),
            self.wf(file@),
        ensures
            match r {
                Ok(s) => file@.attr(self.node as int, name@) == Some(AttrV::Str(s@)),
                Err(e) => {
                    &&& (e == AnnError::NotFound <==> file@.attr(self.node as int, name@) is None)
                    &&& (e == AnnError::TypeMismatch <==> file@.attr(self.node as int, name@)
                        matches Some(AttrV::StrArr(_)))
                    &&& (e == AnnError::NotFound || e == AnnError::TypeMismatch)
                },
            },
    {
        file.read_str_attr(self.node, name)
    }

    /// Writes a string attribute on the node.
    pub fn write_str_attr(&self, file: &mut MemFile, name: &str, value: &str)
        requires
            old(file)@.wf(),
            self.wf(old(file)@),
        ensures
            final(file)@.wf(),
            self.wf(final(file)@),
            final(file)@.nodes.len() == old(file)@.nodes.len(),
            final(file)@.nodes[self.node as int].body == old(file)@.nodes[self.node as int].body,
            final(file)@.attr(self.node as int, name@) == Some(AttrV::Str(value@)),
            forall|other: Seq<char>|
                other != name@ ==> final(file)@.attr(self.node as int, other) == old(file)@.attr(
                    self.node as int,
                    other,
                ),
            forall|m: int|
                0 <= m < old(file)@.nodes.len() && m != self.node ==> final(file)@.nodes[m] == old(
                    file,
                )@.nodes[m],
    {
        let owned = value.to_owned();
        file.write_attr(self.node, name, AttrValue::Str(owned));
        proof {
            if self.parent == self.node {
                assert(final(file)@.nodes[self.node as int].body == old(file)@.nodes[self.node as int].body);
            }
        }
    }

    /// Reads a string-array attribute of the node.
    pub fn read_str_arr_attr(&self, file: &MemFile, name: &str) -> (r: AnnResult<Vec<String>>)
        requires
            file@.wf(),
            self.wf(file@),
        ensures
            match r {
                Ok(v) => file@.attr(self.node as int, name@) == Some(
                    AttrV::StrArr(v@.map_values(|s: String| s@)),
                ),
                Err(e) => {
                    &&& (e == AnnError::NotFound <==> file@.attr(self.node as int, name@) is None)
                    &&& (e == AnnError::TypeMismatch <==> file@.attr(self.node as int, name@)
                        matches Some(AttrV::Str(_)))
                    &&& (e == AnnError::NotFound || e == AnnError::TypeMismatch)
                },
            },
    {
        file.read_str_arr_attr(self.node, name)
    }

    /// Writes a string-array attribute on the node.
    pub fn write_str_arr_attr(&self, file: &mut MemFile, name: &str, value: &Vec<String>)
        requires
            old(file)@.wf(),
            self.wf(old(file)@),
        ensures
            final(file)@.wf(),
            self.wf(final(file)@),
            final(file)@.nodes.len() == old(file)@.nodes.len(),
            final(file)@.nodes[self.node as int].body == old(file)@.nodes[self.node as int].body,
            final(file)@.attr(self.node as int, name@) == Some(
                AttrV::StrArr(value@.map_values(|s: String| s@)),
            ),
            forall|other: Seq<char>|
                other != name@ ==> final(file)@.attr(self.node as int, other) == old(file)@.attr(
                    self.node as int,
                    other,
                ),
            forall|m: int|
                0 <= m < old(file)@.nodes.len() && m != self.node ==> final(file)@.nodes[m] == old(
                    file,
                )@.nodes[m],
    {
        let owned = crate::values::clone_string_vec(value);
        file.write_attr(self.node, name, AttrValue::StrArr(owned));
    }
}


impl Clone for DataContainer {
    /// The copy points at the same node under the same parent and name.
    fn clone(&self) -> (r: Self)
        ensures
            r.kind == self.kind,
            r.node == self.node,
            r.parent == self.parent,
            r.name@ == self.name@,
    {
        DataContainer {
            kind: self.kind,
            node: self.node,
            parent: self.parent,
            name: self.name.clone(),
        }
    }
}
} // verus!
