//! The in-memory storage medium: a flat arena of nodes, each a named group
//! (holding an ordered child list) or a typed dataset (holding one plain
//! n-dimensional array), and each carrying attributes.
//!
//! This realizes the capability contract every medium must satisfy: create,
//! open and delete a named child, list children, read and write typed scalar
//! and string-array attributes, read a typed array under a selection, and
//! report a dataset's declared element kind.  Attributes are written
//! append-and-shadow: a later write of the same name wins; the model of a
//! node's attributes is therefore the last-match lookup.  A deleted child is
//! unlinked from its parent; its arena slot is not reused.

use vstd::prelude::*;

use crate::errors::{AnnError, AnnResult};
use crate::values::{ArrayV, DynArray, ScalarType};

verus! {

/// A typed scalar or one-dimensional string-array attribute.
#[derive(Debug, PartialEq)]
pub enum AttrValue {
    Str(String),
    StrArr(Vec<String>),
}

/// Model of an attribute value.
#[verifier::ext_equal]
pub enum AttrV {
    Str(Seq<char>),
    StrArr(Seq<Seq<char>>),
}

impl View for AttrValue {
    type V = AttrV;

    open spec fn view(&self) -> AttrV {
        match self {
            AttrValue::Str(s) => AttrV::Str(s@),
            AttrValue::StrArr(v) => AttrV::StrArr(v@.map_values(|s: String| s@)),
        }
    }
}

/// What one node holds: a child list or a dataset payload.
#[derive(Debug, PartialEq)]
pub enum NodeBody {
    Group(Vec<(String, usize)>),
    Dataset(DynArray),
}

/// Model of a node body.
#[verifier::ext_equal]
pub enum BodyV {
    Group(Seq<(Seq<char>, usize)>),
    Dataset(ArrayV),
}

impl View for NodeBody {
    type V = BodyV;

    open spec fn view(&self) -> BodyV {
        match self {
            NodeBody::Group(ch) => BodyV::Group(ch@.map_values(|p: (String, usize)| (p.0@, p.1))),
            NodeBody::Dataset(a) => BodyV::Dataset(a@),
        }
    }
}

/// One stored node.
#[derive(Debug, PartialEq)]
pub struct MemNode {
    pub attrs: Vec<(String, AttrValue)>,
    pub body: NodeBody,
}

/// Model of one stored node.
#[verifier::ext_equal]
pub struct NodeV {
    pub attrs: Seq<(Seq<char>, AttrV)>,
    pub body: BodyV,
}

impl View for MemNode {
    type V = NodeV;

    open spec fn view(&self) -> NodeV {
        NodeV { attrs: self.attrs@.map_values(|p: (String, AttrValue)| (p.0@, p.1@)), body: self.body@ }
    }
}

/// One backing file: an arena of nodes whose slot zero is the root group.
#[derive(Debug)]
pub struct MemFile {
    pub nodes: Vec<MemNode>,
}

/// Model of one backing file.
#[verifier::ext_equal]
pub struct FileV {
    pub nodes: Seq<NodeV>,
}

impl View for MemFile {
    type V = FileV;

    open spec fn view(&self) -> FileV {
        FileV { nodes: self.nodes@.map_values(|n: MemNode| n@) }
    }
}

/// The value of the last-written attribute of the given name, if any.
pub open spec fn attr_lookup(attrs: Seq<(Seq<char>, AttrV)>, name: Seq<char>) -> Option<AttrV>
    decreases attrs.len(),
{
    if attrs.len() == 0 {
        None
    } else if attrs.last().0 == name {
        Some(attrs.last().1)
    } else {
        attr_lookup(attrs.drop_last(), name)
    }
}

/// Whether a child list carries the given name.
pub open spec fn has_child(ch: Seq<(Seq<char>, usize)>, name: Seq<char>) -> bool {
    exists|i: int| 0 <= i < ch.len() && (#[trigger] ch[i]).0 == name
}

/// The position of the child of the given name; meaningful when the list has
/// the child and its names are distinct.
pub open spec fn child_pos(ch: Seq<(Seq<char>, usize)>, name: Seq<char>) -> int {
    choose|i: int| 0 <= i < ch.len() && (#[trigger] ch[i]).0 == name
}

/// The node the child of the given name points at.
pub open spec fn child_id(ch: Seq<(Seq<char>, usize)>, name: Seq<char>) -> usize {
    ch[child_pos(ch, name)].1
}

/// Distinct child names.
pub open spec fn children_unique(ch: Seq<(Seq<char>, usize)>) -> bool {
    forall|i: int, j: int| 0 <= i < j < ch.len() ==> (#[trigger] ch[i]).0 != (#[trigger] ch[j]).0
}

/// In a list of distinct names, a position holding the name is the position
/// of the name.
pub proof fn lemma_child_pos_unique(ch: Seq<(Seq<char>, usize)>, name: Seq<char>, i: int)
    requires
        children_unique(ch),
        0 <= i < ch.len(),
        ch[i].0 == name,
    ensures
        child_pos(ch, name) == i,
        has_child(ch, name),
        child_id(ch, name) == ch[i].1,
{
    assert(has_child(ch, name));
    let j = child_pos(ch, name);
    if i != j {
        assert(ch[i].0 != ch[j].0);
    }
}

/// Model of node `me`'s well-formedness within a file of `bound` nodes: a
/// group's child links stay inside the arena and never point back at the
/// group itself.
pub open spec fn node_wf(node: NodeV, me: int, bound: int) -> bool {
    match node.body {
        BodyV::Group(ch) => {
            &&& forall|i: int| 0 <= i < ch.len() ==> (#[trigger] ch[i]).1 < bound && ch[i].1 != me
            &&& children_unique(ch)
        },
        BodyV::Dataset(d) => d.wf() && !d.is_categorical(),
    }
}

impl FileV {
    /// Well-formed: the root is a group, every child link stays inside the
    /// arena, child names are distinct within each group, and every dataset
    /// payload is a well-formed plain array.
    pub open spec fn wf(self) -> bool {
        &&& self.nodes.len() >= 1
        &&& self.nodes[0].body is Group
        &&& forall|n: int| 0 <= n < self.nodes.len() ==> node_wf(#[trigger] self.nodes[n], n, self.nodes.len() as int)
    }

    pub open spec fn in_bounds(self, n: int) -> bool {
        0 <= n < self.nodes.len()
    }

    pub open spec fn is_group(self, n: int) -> bool {
        self.in_bounds(n) && self.nodes[n].body is Group
    }

    pub open spec fn is_dataset(self, n: int) -> bool {
        self.in_bounds(n) && self.nodes[n].body is Dataset
    }

    /// The child list of a group node.
    pub open spec fn child_seq(self, n: int) -> Seq<(Seq<char>, usize)> {
        self.nodes[n].body->Group_0
    }

    /// The payload of a dataset node.
    pub open spec fn dataset_of(self, n: int) -> ArrayV {
        self.nodes[n].body->Dataset_0
    }

    /// The last-written attribute of the given name on a node.
    pub open spec fn attr(self, n: int, name: Seq<char>) -> Option<AttrV> {
        attr_lookup(self.nodes[n].attrs, name)
    }
}

/// Compares a borrowed string slice with an owned string by contents.
pub fn str_eq(a: &str, b: &String) -> (r: bool)
    ensures
        r == (a@ == b@),
{
    let owned = a.to_owned();
    owned.eq(b)
}

impl MemFile {
    /// A fresh file holding only an empty root group.
    pub fn new() -> (f: MemFile)
        ensures
            f@.wf(),
            f@.nodes.len() == 1,
            f@.nodes[0].attrs == Seq::<(Seq<char>, AttrV)>::empty(),
            f@.child_seq(0) == Seq::<(Seq<char>, usize)>::empty(),
    {
        let root = MemNode { attrs: Vec::new(), body: NodeBody::Group(Vec::new()) };
        let f = MemFile { nodes: vec![root] };
        proof {
            assert(f@.nodes.len() == 1);
            assert(f@.nodes[0].attrs =~= Seq::<(Seq<char>, AttrV)>::empty());
            assert(f@.child_seq(0) =~= Seq::<(Seq<char>, usize)>::empty());
        }
        f
    }

    /// The number of nodes in the arena.
    pub fn node_count(&self) -> (n: usize)
        ensures
            n == self@.nodes.len(),
    {
        self.nodes.len()
    }

    /// Whether a node is a group.
    pub fn is_group(&self, n: usize) -> (r: bool)
        requires
            self@.in_bounds(n as int),
        ensures
            r == self@.is_group(n as int),
    {
        match &self.nodes[n].body {
            NodeBody::Group(_) => true,
            NodeBody::Dataset(_) => false,
        }
    }

    /// The position of a name in a group's child list, if present.
    fn find_child(&self, parent: usize, name: &str) -> (r: Option<usize>)
        requires
            self@.wf(),
            self@.is_group(parent as int),
        ensures
            match r {
                Some(i) => {
                    &&& 0 <= i < self@.child_seq(parent as int).len()
                    &&& self@.child_seq(parent as int)[i as int].0 == name@
                    &&& has_child(self@.child_seq(parent as int), name@)
                    &&& child_pos(self@.child_seq(parent as int), name@) == i
                },
                None => !has_child(self@.child_seq(parent as int), name@),
            },
    {
        let ghost chv = self@.child_seq(parent as int);
        let children: &Vec<(String, usize)> = match &self.nodes[parent].body {
            NodeBody::Group(ch) => ch,
            NodeBody::Dataset(_) => vstd::pervasive::unreached(),
        };
        proof {
            assert(chv == children@.map_values(|p: (String, usize)| (p.0@, p.1)));
            assert(children_unique(chv));
        }
        let mut i: usize = 0;
        while i < children.len()
            invariant
                self@.child_seq(parent as int) == chv,
                chv == children@.map_values(|p: (String, usize)| (p.0@, p.1)),
                children_unique(chv),
                i <= children@.len(),
                forall|j: int| 0 <= j < i ==> (#[trigger] chv[j]).0 != name@,
            decreases children@.len() - i,
        {
            if str_eq(name, &children[i].0) {
                proof {
                    assert(chv[i as int] == (children@[i as int].0@, children@[i as int].1));
                    assert(chv[i as int].0 == name@);
                    lemma_child_pos_unique(chv, name@, i as int);
                    assert(self@.child_seq(parent as int) == chv);
                    assert(i < self@.child_seq(parent as int).len());
                    assert(self@.child_seq(parent as int)[i as int].0 == name@);
                    assert(child_pos(self@.child_seq(parent as int), name@) == i);
                }
                return Some(i);
            }
            i += 1;
        }
        proof {
            if has_child(chv, name@) {
                let j = child_pos(chv, name@);
                assert(chv[j].0 != name@);
            }
        }
        None
    }

    /// Opens the child of the given name: its node, whatever its kind.
    pub fn get_child(&self, parent: usize, name: &str) -> (r: AnnResult<usize>)
        requires
            self@.wf(),
            self@.is_group(parent as int),
        ensures
            match r {
                Ok(id) => {
                    &&& has_child(self@.child_seq(parent as int), name@)
                    &&& id == child_id(self@.child_seq(parent as int), name@)
                    &&& self@.in_bounds(id as int)
                },
                Err(e) => {
                    &&& e == AnnError::NotFound
                    &&& !has_child(self@.child_seq(parent as int), name@)
                },
            },
    {
        match self.find_child(parent, name) {
            Some(i) => {
                let children: &Vec<(String, usize)> = match &self.nodes[parent].body {
                    NodeBody::Group(ch) => ch,
                    NodeBody::Dataset(_) => vstd::pervasive::unreached(),
                };
                let id = children[i].1;
                proof {
                    let chv = self@.child_seq(parent as int);
                    assert(chv[i as int].1 == id);
                    assert(chv[i as int].1 < self@.nodes.len());
                }
                Ok(id)
            },
            None => Err(AnnError::NotFound),
        }
    }

    /// Creates an empty child group.  Fails if the name is taken.
    pub fn create_group(&mut self, parent: usize, name: &str) -> (r: AnnResult<usize>)
        requires
            old(self)@.wf(),
            old(self)@.is_group(parent as int),
        ensures
            final(self)@.wf(),
            match r {
                Ok(id) => {
                    &&& !has_child(old(self)@.child_seq(parent as int), name@)
                    &&& id == old(self)@.nodes.len()
                    &&& final(self)@.is_group(parent as int)
                    &&& final(self)@.nodes.len() == old(self)@.nodes.len() + 1
                    &&& final(self)@.nodes[id as int] == (NodeV {
                        attrs: Seq::<(Seq<char>, AttrV)>::empty(),
                        body: BodyV::Group(Seq::<(Seq<char>, usize)>::empty()),
                    })
                    &&& final(self)@.nodes[parent as int].attrs == old(self)@.nodes[parent as int].attrs
                    &&& final(self)@.child_seq(parent as int) == old(self)@.child_seq(
                        parent as int,
                    ).push((name@, id))
                    &&& forall|m: int|
                        0 <= m < old(self)@.nodes.len() && m != parent ==> final(self)@.nodes[m]
                            == old(self)@.nodes[m]
                },
                Err(e) => {
                    &&& e == AnnError::AlreadyExists
                    &&& has_child(old(self)@.child_seq(parent as int), name@)
                    &&& final(self)@ == old(self)@
                },
            },
    {
        if let Some(_) = self.find_child(parent, name) {
            return Err(AnnError::AlreadyExists);
        }
        let id = self.nodes.len();
        let node = self.nodes.remove(parent);
        let MemNode { attrs, body } = node;
        let children = match body {
            NodeBody::Group(mut ch) => {
                ch.push((name.to_owned(), id));
                ch
            },
            NodeBody::Dataset(_) => vstd::pervasive::unreached(),
        };
        self.nodes.insert(parent, MemNode { attrs, body: NodeBody::Group(children) });
        self.nodes.push(MemNode { attrs: Vec::new(), body: NodeBody::Group(Vec::new()) });
        proof {
            let oldn = old(self)@.nodes;
            let pnode = NodeV {
                attrs: oldn[parent as int].attrs,
                body: BodyV::Group(old(self)@.child_seq(parent as int).push((name@, id as usize))),
            };
            let fresh = NodeV {
                attrs: Seq::<(Seq<char>, AttrV)>::empty(),
                body: BodyV::Group(Seq::<(Seq<char>, usize)>::empty()),
            };
            assert(self@.nodes =~~= oldn.update(parent as int, pnode).push(fresh));
            assert(final(self)@.child_seq(parent as int) =~= old(self)@.child_seq(
                parent as int,
            ).push((name@, id as usize)));
            assert forall|n: int| 0 <= n < self@.nodes.len() implies node_wf(
                #[trigger] self@.nodes[n],
                n,
                self@.nodes.len() as int,
            ) by {
                if n < oldn.len() && n != parent {
                    assert(node_wf(oldn[n], n, oldn.len() as int));
                }
                if n == parent {
                    let ch = self@.child_seq(parent as int);
                    let och = old(self)@.child_seq(parent as int);
                    assert(node_wf(oldn[n], n, oldn.len() as int));
                    assert forall|i: int, j: int| 0 <= i < j < ch.len() implies (
                    #[trigger] ch[i]).0 != (#[trigger] ch[j]).0 by {
                        if j < och.len() {
                            assert(och[i] == ch[i] && och[j] == ch[j]);
                        } else {
                            assert(ch[j].0 == name@);
                            assert(!has_child(och, name@));
                            assert(och[i] == ch[i]);
                        }
                    }
                }
            }
        }
        Ok(id)
    }

    /// Creates a child dataset holding the given plain array.  Fails if the
    /// name is taken.
    pub fn create_dataset(&mut self, parent: usize, name: &str, data: DynArray) -> (r: AnnResult<
        usize,
    >)
        requires
            old(self)@.wf(),
            old(self)@.is_group(parent as int),
            data@.wf(),
            !data@.is_categorical(),
        ensures
            final(self)@.wf(),
            match r {
                Ok(id) => {
                    &&& !has_child(old(self)@.child_seq(parent as int), name@)
                    &&& id == old(self)@.nodes.len()
                    &&& final(self)@.is_group(parent as int)
                    &&& final(self)@.nodes.len() == old(self)@.nodes.len() + 1
                    &&& final(self)@.nodes[id as int] == (NodeV {
                        attrs: Seq::<(Seq<char>, AttrV)>::empty(),
                        body: BodyV::Dataset(data@),
                    })
                    &&& final(self)@.nodes[parent as int].attrs == old(self)@.nodes[parent as int].attrs
                    &&& final(self)@.child_seq(parent as int) == old(self)@.child_seq(
                        parent as int,
                    ).push((name@, id))
                    &&& forall|m: int|
                        0 <= m < old(self)@.nodes.len() && m != parent ==> final(self)@.nodes[m]
                            == old(self)@.nodes[m]
                },
                Err(e) => {
                    &&& e == AnnError::AlreadyExists
                    &&& has_child(old(self)@.child_seq(parent as int), name@)
                    &&& final(self)@ == old(self)@
                },
            },
    {
        if let Some(_) = self.find_child(parent, name) {
            return Err(AnnError::AlreadyExists);
        }
        let id = self.nodes.len();
        let node = self.nodes.remove(parent);
        let MemNode { attrs, body } = node;
        let children = match body {
            NodeBody::Group(mut ch) => {
                ch.push((name.to_owned(), id));
                ch
            },
            NodeBody::Dataset(_) => vstd::pervasive::unreached(),
        };
        self.nodes.insert(parent, MemNode { attrs, body: NodeBody::Group(children) });
        self.nodes.push(MemNode { attrs: Vec::new(), body: NodeBody::Dataset(data) });
        proof {
            let oldn = old(self)@.nodes;
            let pnode = NodeV {
                attrs: oldn[parent as int].attrs,
                body: BodyV::Group(old(self)@.child_seq(parent as int).push((name@, id as usize))),
            };
            let fresh = NodeV { attrs: Seq::<(Seq<char>, AttrV)>::empty(), body: BodyV::Dataset(data@) };
            assert(self@.nodes =~~= oldn.update(parent as int, pnode).push(fresh));
            assert(final(self)@.child_seq(parent as int) =~= old(self)@.child_seq(
                parent as int,
            ).push((name@, id as usize)));
            assert forall|n: int| 0 <= n < self@.nodes.len() implies node_wf(
                #[trigger] self@.nodes[n],
                n,
                self@.nodes.len() as int,
            ) by {
                if n < oldn.len() && n != parent {
                    assert(node_wf(oldn[n], n, oldn.len() as int));
                }
                if n == parent {
                    let ch = self@.child_seq(parent as int);
                    let och = old(self)@.child_seq(parent as int);
                    assert(node_wf(oldn[n], n, oldn.len() as int));
                    assert forall|i: int, j: int| 0 <= i < j < ch.len() implies (
                    #[trigger] ch[i]).0 != (#[trigger] ch[j]).0 by {
                        if j < och.len() {
                            assert(och[i] == ch[i] && och[j] == ch[j]);
                        } else {
                            assert(ch[j].0 == name@);
                            assert(!has_child(och, name@));
                            assert(och[i] == ch[i]);
                        }
                    }
                }
            }
        }
        Ok(id)
    }

    /// Unlinks the child of the given name from its group.  The remaining
    /// children keep their order.  Fails if no such child exists.
    pub fn delete_child(&mut self, parent: usize, name: &str) -> (r: AnnResult<()>)
        requires
            old(self)@.wf(),
            old(self)@.is_group(parent as int),
        ensures
            final(self)@.wf(),
            final(self)@.nodes.len() == old(self)@.nodes.len(),
            match r {
                Ok(()) => {
                    &&& has_child(old(self)@.child_seq(parent as int), name@)
                    &&& final(self)@.is_group(parent as int)
                    &&& final(self)@.nodes[parent as int].attrs == old(self)@.nodes[parent as int].attrs
                    &&& final(self)@.child_seq(parent as int) == old(self)@.child_seq(
                        parent as int,
                    ).remove(child_pos(old(self)@.child_seq(parent as int), name@))
                    &&& !has_child(final(self)@.child_seq(parent as int), name@)
                    &&& forall|m: int|
                        0 <= m < old(self)@.nodes.len() && m != parent ==> final(self)@.nodes[m]
                            == old(self)@.nodes[m]
                },
                Err(e) => {
                    &&& e == AnnError::NotFound
                    &&& !has_child(old(self)@.child_seq(parent as int), name@)
                    &&& final(self)@ == old(self)@
                },
            },
    {
        let pos = match self.find_child(parent, name) {
            Some(pos) => pos,
            None => {
                return Err(AnnError::NotFound);
            },
        };
        let node = self.nodes.remove(parent);
        let MemNode { attrs, body } = node;
        let children = match body {
            NodeBody::Group(mut ch) => {
                ch.remove(pos);
                ch
            },
            NodeBody::Dataset(_) => vstd::pervasive::unreached(),
        };
        self.nodes.insert(parent, MemNode { attrs, body: NodeBody::Group(children) });
        proof {
            let oldn = old(self)@.nodes;
            let och = old(self)@.child_seq(parent as int);
            let pnode = NodeV {
                attrs: oldn[parent as int].attrs,
                body: BodyV::Group(och.remove(pos as int)),
            };
            assert(self@.nodes =~~= oldn.update(parent as int, pnode));
            assert(final(self)@.child_seq(parent as int) =~= och.remove(pos as int));
            let ch = self@.child_seq(parent as int);
            assert forall|i: int, j: int| 0 <= i < j < ch.len() implies (#[trigger] ch[i]).0 != (
            #[trigger] ch[j]).0 by {
                let i0 = if i < pos { i } else { i + 1 };
                let j0 = if j < pos { j } else { j + 1 };
                assert(ch[i] == och[i0] && ch[j] == och[j0]);
                assert(och[i0].0 != och[j0].0);
            }
            assert forall|i: int| 0 <= i < ch.len() implies (#[trigger] ch[i]).0 != name@ by {
                let i0 = if i < pos { i } else { i + 1 };
                assert(ch[i] == och[i0]);
                if och[i0].0 == name@ {
                    lemma_child_pos_unique(och, name@, i0);
                }
            }
            assert forall|n: int| 0 <= n < self@.nodes.len() implies node_wf(
                #[trigger] self@.nodes[n],
                n,
                self@.nodes.len() as int,
            ) by {
                assert(node_wf(oldn[n], n, oldn.len() as int));
                if n == parent {
                    assert forall|i: int| 0 <= i < ch.len() implies (#[trigger] ch[i]).1
                        < self@.nodes.len() by {
                        let i0 = if i < pos { i } else { i + 1 };
                        assert(ch[i] == och[i0]);
                    }
                }
            }
        }
        Ok(())
    }

    /// Writes an attribute on a node, replacing any earlier value of the
    /// same name.
    pub fn write_attr(&mut self, n: usize, name: &str, value: AttrValue)
        requires
            old(self)@.wf(),
            old(self)@.in_bounds(n as int),
        ensures
            final(self)@.wf(),
            final(self)@.nodes.len() == old(self)@.nodes.len(),
            final(self)@.nodes[n as int].body == old(self)@.nodes[n as int].body,
            final(self)@.nodes[n as int].attrs == old(self)@.nodes[n as int].attrs.push(
                (name@, value@),
            ),
            final(self)@.attr(n as int, name@) == Some(value@),
            forall|other: Seq<char>|
                other != name@ ==> final(self)@.attr(n as int, other) == old(self)@.attr(
                    n as int,
                    other,
                ),
            forall|m: int|
                0 <= m < old(self)@.nodes.len() && m != n ==> final(self)@.nodes[m] == old(
                    self,
                )@.nodes[m],
    {
        let node = self.nodes.remove(n);
        let MemNode { mut attrs, body } = node;
        attrs.push((name.to_owned(), value));
        self.nodes.insert(n, MemNode { attrs, body });
        proof {
            let oldn = old(self)@.nodes;
            let nnode = NodeV {
                attrs: oldn[n as int].attrs.push((name@, value@)),
                body: oldn[n as int].body,
            };
            assert(self@.nodes =~~= oldn.update(n as int, nnode));
            let newattrs = self@.nodes[n as int].attrs;
            assert(newattrs == oldn[n as int].attrs.push((name@, value@)));
            assert(newattrs.last() == (name@, value@));
            assert(newattrs.drop_last() =~= oldn[n as int].attrs);
            assert forall|n2: int| 0 <= n2 < self@.nodes.len() implies node_wf(
                #[trigger] self@.nodes[n2],
                n2,
                self@.nodes.len() as int,
            ) by {
                assert(node_wf(oldn[n2], n2, oldn.len() as int));
            }
        }
    }

    /// Reads a node attribute; the internal last-match scan.
    fn read_attr(&self, n: usize, name: &str) -> (r: Option<&AttrValue>)
        requires
            self@.wf(),
            self@.in_bounds(n as int),
        ensures
            match r {
                Some(v) => self@.attr(n as int, name@) == Some(v@),
                None => self@.attr(n as int, name@) is None,
            },
    {
        let attrs: &Vec<(String, AttrValue)> = &self.nodes[n].attrs;
        let ghost av = self@.nodes[n as int].attrs;
        proof {
            assert(av == attrs@.map_values(|p: (String, AttrValue)| (p.0@, p.1@)));
            assert(av.take(av.len() as int) =~= av);
        }
        let mut i: usize = attrs.len();
        while i > 0
            invariant
                self@.in_bounds(n as int),
                av == attrs@.map_values(|p: (String, AttrValue)| (p.0@, p.1@)),
                av == self@.nodes[n as int].attrs,
                i <= attrs@.len(),
                attr_lookup(av, name@) == attr_lookup(av.take(i as int), name@),
            decreases i,
        {
            i -= 1;
            if str_eq(name, &attrs[i].0) {
                proof {
                    let t = av.take(i as int + 1);
                    assert(t.last() == av[i as int]);
                    assert(av[i as int].0 == name@);
                    assert(attr_lookup(av, name@) == Some(av[i as int].1));
                    assert(av[i as int].1 == attrs@[i as int].1@);
                }
                return Some(&attrs[i].1);
            }
            proof {
                let t = av.take(i as int + 1);
                assert(t.last() == av[i as int]);
                assert(av[i as int].0 != name@);
                assert(t.drop_last() =~= av.take(i as int));
            }
        }
        proof {
            assert(av.take(0) =~= Seq::<(Seq<char>, AttrV)>::empty());
        }
        None
    }

    /// Reads a string attribute.  Fails with `NotFound` when the node has no
    /// attribute of the name, and with `TypeMismatch` when the attribute is
    /// not a plain string.
    pub fn read_str_attr(&self, n: usize, name: &str) -> (r: AnnResult<String>)
        requires
            self@.wf(),
            self@.in_bounds(n as int),
        ensures
            match r {
                Ok(s) => self@.attr(n as int, name@) == Some(AttrV::Str(s@)),
                Err(e) => {
                    &&& (e == AnnError::NotFound <==> self@.attr(n as int, name@) is None)
                    &&& (e == AnnError::TypeMismatch <==> self@.attr(n as int, name@) matches Some(
                        AttrV::StrArr(_),
                    ))
                    &&& (e == AnnError::NotFound || e == AnnError::TypeMismatch)
                },
            },
    {
        match self.read_attr(n, name) {
            Some(AttrValue::Str(s)) => Ok(s.clone()),
            Some(AttrValue::StrArr(_)) => Err(AnnError::TypeMismatch),
            None => Err(AnnError::NotFound),
        }
    }

    /// Reads a string-array attribute.  Fails with `NotFound` when the node
    /// has no attribute of the name, and with `TypeMismatch` when the
    /// attribute is not a string array.
    pub fn read_str_arr_attr(&self, n: usize, name: &str) -> (r: AnnResult<Vec<String>>)
        requires
            self@.wf(),
            self@.in_bounds(n as int),
        ensures
            match r {
                Ok(v) => self@.attr(n as int, name@) == Some(
                    AttrV::StrArr(v@.map_values(|s: String| s@)),
                ),
                Err(e) => {
                    &&& (e == AnnError::NotFound <==> self@.attr(n as int, name@) is None)
                    &&& (e == AnnError::TypeMismatch <==> self@.attr(n as int, name@) matches Some(
                        AttrV::Str(_),
                    ))
                    &&& (e == AnnError::NotFound || e == AnnError::TypeMismatch)
                },
            },
    {
        match self.read_attr(n, name) {
            Some(AttrValue::StrArr(v)) => {
                let c = crate::values::clone_string_vec(v);
                proof {
                    assert(c@.map_values(|s: String| s@) == v@.map_values(|s: String| s@));
                }
                Ok(c)
            },
            Some(AttrValue::Str(_)) => Err(AnnError::TypeMismatch),
            None => Err(AnnError::NotFound),
        }
    }

    /// Lists a group's child names, in order.
    pub fn list_children(&self, n: usize) -> (r: Vec<String>)
        requires
            self@.wf(),
            self@.is_group(n as int),
        ensures
            r@.len() == self@.child_seq(n as int).len(),
            forall|i: int|
                0 <= i < r@.len() ==> (#[trigger] r@[i])@ == self@.child_seq(n as int)[i].0,
    {
        let children: &Vec<(String, usize)> = match &self.nodes[n].body {
            NodeBody::Group(ch) => ch,
            NodeBody::Dataset(_) => vstd::pervasive::unreached(),
        };
        let ghost chv = self@.child_seq(n as int);
        proof {
            assert(chv == children@.map_values(|p: (String, usize)| (p.0@, p.1)));
        }
        let mut r: Vec<String> = Vec::new();
        let mut i: usize = 0;
        while i < children.len()
            invariant
                chv == children@.map_values(|p: (String, usize)| (p.0@, p.1)),
                i <= children@.len(),
                r@.len() == i,
                forall|j: int| 0 <= j < i ==> (#[trigger] r@[j])@ == chv[j].0,
            decreases children@.len() - i,
        {
            r.push(children[i].0.clone());
            i += 1;
        }
        r
    }

    /// The declared element kind of a dataset.  Fails with `TypeMismatch` on
    /// a group.
    pub fn dataset_dtype(&self, n: usize) -> (r: AnnResult<ScalarType>)
        requires
            self@.wf(),
            self@.in_bounds(n as int),
        ensures
            match r {
                Ok(t) => self@.is_dataset(n as int) && t == self@.dataset_of(n as int).dtype_spec(),
                Err(e) => e == AnnError::TypeMismatch && !self@.is_dataset(n as int),
            },
    {
        match &self.nodes[n].body {
            NodeBody::Dataset(a) => Ok(a.dtype()),
            NodeBody::Group(_) => Err(AnnError::TypeMismatch),
        }
    }

    /// Reads a whole dataset.  Fails with `TypeMismatch` on a group.
    pub fn read_dataset(&self, n: usize) -> (r: AnnResult<DynArray>)
        requires
            self@.wf(),
            self@.in_bounds(n as int),
        ensures
            match r {
                Ok(a) => self@.is_dataset(n as int) && a@ == self@.dataset_of(n as int) && a@.wf(),
                Err(e) => e == AnnError::TypeMismatch && !self@.is_dataset(n as int),
            },
    {
        match &self.nodes[n].body {
            NodeBody::Dataset(a) => Ok(a.clone()),
            NodeBody::Group(_) => Err(AnnError::TypeMismatch),
        }
    }

    /// Unlinks every child of a group except the one of the given name, if
    /// present.  Realizes repeated child deletion in one sweep.
    pub fn delete_children_except(&mut self, parent: usize, keep: &str)
        requires
            old(self)@.wf(),
            old(self)@.is_group(parent as int),
        ensures
            final(self)@.wf(),
            final(self)@.is_group(parent as int),
            final(self)@.nodes.len() == old(self)@.nodes.len(),
            final(self)@.nodes[parent as int].attrs == old(self)@.nodes[parent as int].attrs,
            final(self)@.child_seq(parent as int) == if has_child(
                old(self)@.child_seq(parent as int),
                keep@,
            ) {
                seq![(keep@, child_id(old(self)@.child_seq(parent as int), keep@))]
            } else {
                Seq::<(Seq<char>, usize)>::empty()
            },
            forall|m: int|
                0 <= m < old(self)@.nodes.len() && m != parent ==> final(self)@.nodes[m] == old(
                    self,
                )@.nodes[m],
    {
        let kept = self.find_child(parent, keep);
        let node = self.nodes.remove(parent);
        let MemNode { attrs, body } = node;
        let children = match body {
            NodeBody::Group(ch) => ch,
            NodeBody::Dataset(_) => vstd::pervasive::unreached(),
        };
        let mut newch: Vec<(String, usize)> = Vec::new();
        let ghost och = old(self)@.child_seq(parent as int);
        match kept {
            Some(i) => {
                let id = children[i].1;
                newch.push((keep.to_owned(), id));
                proof {
                    assert(och[i as int].1 == id);
                    assert(newch@.map_values(|p: (String, usize)| (p.0@, p.1)) =~= seq![
                        (keep@, child_id(och, keep@)),
                    ]);
                }
            },
            None => {
                proof {
                    assert(newch@.map_values(|p: (String, usize)| (p.0@, p.1)) =~= Seq::<
                        (Seq<char>, usize),
                    >::empty());
                }
            },
        }
        let ghost newv = newch@.map_values(|p: (String, usize)| (p.0@, p.1));
        self.nodes.insert(parent, MemNode { attrs, body: NodeBody::Group(newch) });
        proof {
            let oldn = old(self)@.nodes;
            let pnode = NodeV { attrs: oldn[parent as int].attrs, body: BodyV::Group(newv) };
            assert(self@.nodes =~~= oldn.update(parent as int, pnode));
            if has_child(och, keep@) {
                let i = child_pos(och, keep@);
                assert(0 <= i < och.len() && och[i].0 == keep@);
                assert(och[i].1 < oldn.len());
            }
            assert forall|n: int| 0 <= n < self@.nodes.len() implies node_wf(
                #[trigger] self@.nodes[n],
                n,
                self@.nodes.len() as int,
            ) by {
                assert(node_wf(oldn[n], n, oldn.len() as int));
            }
        }
    }

    /// The child pair at one position of a group's child list.
    pub fn child_at(&self, n: usize, i: usize) -> (r: (String, usize))
        requires
            self@.wf(),
            self@.is_group(n as int),
            i < self@.child_seq(n as int).len(),
        ensures
            r.0@ == self@.child_seq(n as int)[i as int].0,
            r.1 == self@.child_seq(n as int)[i as int].1,
    {
        let children: &Vec<(String, usize)> = match &self.nodes[n].body {
            NodeBody::Group(ch) => ch,
            NodeBody::Dataset(_) => vstd::pervasive::unreached(),
        };
        let p = &children[i];
        (p.0.clone(), p.1)
    }

    /// The number of children of a group.
    pub fn child_count(&self, n: usize) -> (r: usize)
        requires
            self@.wf(),
            self@.is_group(n as int),
        ensures
            r == self@.child_seq(n as int).len(),
    {
        match &self.nodes[n].body {
            NodeBody::Group(ch) => ch.len(),
            NodeBody::Dataset(_) => vstd::pervasive::unreached(),
        }
    }
}

} // verus!
