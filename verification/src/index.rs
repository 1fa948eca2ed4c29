//! The row/column index of one axis: an ordered sequence of names with its
//! reverse name-to-position mapping, persisted as a group whose `_index`
//! attribute names the child dataset holding the name sequence.

use vstd::prelude::*;
use vstd::string::StringExecFns;

use crate::backend::{AttrV, FileV, MemFile, child_id, has_child};
use crate::codec::{ReadData, WriteData};
use crate::container::{ContainerKind, DataContainer};
use crate::errors::{AnnError, AnnResult};
use crate::values::{ArrayV, DenseArray, DynArray};

verus! {

/// The position the reverse mapping resolves a name to: the last position
/// holding the name, if any.
pub open spec fn index_lookup(names: Seq<Seq<char>>, k: Seq<char>) -> Option<int>
    decreases names.len(),
{
    if names.len() == 0 {
        None
    } else if names.last() == k {
        Some(names.len() - 1)
    } else {
        index_lookup(names.drop_last(), k)
    }
}

/// With distinct names, the reverse mapping resolves every name to its
/// position.
pub proof fn lemma_index_lookup_unique(names: Seq<Seq<char>>, i: int)
    requires
        0 <= i < names.len(),
        forall|a: int, b: int| 0 <= a < b < names.len() ==> names[a] != names[b],
    ensures
        index_lookup(names, names[i]) == Some(i),
    decreases names.len(),
{
    if i == names.len() - 1 {
    } else {
        assert(names.last() != names[i]);
        assert(names.drop_last()[i] == names[i]);
        lemma_index_lookup_unique(names.drop_last(), i);
    }
}

/// Model of a row/column index: the persisted dataset name and the ordered
/// name sequence.  The reverse mapping is derived.
#[verifier::ext_equal]
pub struct IndexV {
    pub index_name: Seq<char>,
    pub names: Seq<Seq<char>>,
}

/// A bidirectional name-position mapping for one axis.  `index_name` is the
/// dataset name under which the name sequence persists, kept verbatim across
/// read and write.  `index_map` is the materialized reverse mapping: the
/// enumeration of `names`, looked up from the back so that a later duplicate
/// shadows an earlier one.
#[derive(Debug, PartialEq)]
pub struct DataFrameIndex {
    pub index_name: String,
    pub names: Vec<String>,
    pub index_map: Vec<(String, usize)>,
}

impl View for DataFrameIndex {
    type V = IndexV;

    open spec fn view(&self) -> IndexV {
        IndexV {
            index_name: self.index_name@,
            names: self.names@.map_values(|s: String| s@),
        }
    }
}

impl DataFrameIndex {
    /// The reverse mapping is exactly the enumeration of the names.
    pub open spec fn wf(&self) -> bool {
        &&& self.index_map@.len() == self.names@.len()
        &&& forall|i: int|
            0 <= i < self.index_map@.len() ==> (#[trigger] self.index_map@[i]).0@ == self@.names[i]
                && self.index_map@[i].1 == i
    }

    /// The number of names on this axis.
    pub fn len(&self) -> (n: usize)
        ensures
            n == self@.names.len(),
    {
        self.names.len()
    }

    /// Whether the axis has no names.
    pub fn is_empty(&self) -> (r: bool)
        ensures
            r == (self@.names.len() == 0),
    {
        self.names.is_empty()
    }

    /// The position of a name: the last position holding it, or nothing.
    pub fn get(&self, k: &String) -> (r: Option<usize>)
        requires
            self.wf(),
        ensures
            match r {
                Some(i) => index_lookup(self@.names, k@) == Some(i as int),
                None => index_lookup(self@.names, k@) is None,
            },
    {
        let ghost nm = self@.names;
        proof {
            assert(nm.take(nm.len() as int) =~= nm);
        }
        let mut i: usize = self.index_map.len();
        while i > 0
            invariant
                self.wf(),
                nm == self@.names,
                i <= self.index_map@.len(),
                index_lookup(nm, k@) == index_lookup(nm.take(i as int), k@),
            decreases i,
        {
            i -= 1;
            if self.index_map[i].0.eq(k) {
                proof {
                    let t = nm.take(i as int + 1);
                    assert(t.last() == nm[i as int]);
                    assert(self.index_map@[i as int].0@ == nm[i as int]);
                    assert(index_lookup(nm, k@) == Some(i as int));
                }
                return Some(self.index_map[i].1);
            }
            proof {
                let t = nm.take(i as int + 1);
                assert(t.last() == nm[i as int]);
                assert(self.index_map@[i as int].0@ == nm[i as int]);
                assert(t.drop_last() =~= nm.take(i as int));
            }
        }
        proof {
            assert(nm.take(0) =~= Seq::<Seq<char>>::empty());
        }
        None
    }

    /// Builds an index from an ordered name list, enumerating the reverse
    /// mapping.  The persisted dataset name defaults to `index`.
    pub fn from_names(names: Vec<String>) -> (r: DataFrameIndex)
        ensures
            r.wf(),
            r@.names == names@.map_values(|s: String| s@),
            r@.index_name == "index"@,
    {
        let mut index_map: Vec<(String, usize)> = Vec::new();
        let mut i: usize = 0;
        while i < names.len()
            invariant
                i <= names@.len(),
                index_map@.len() == i,
                forall|j: int|
                    0 <= j < i ==> (#[trigger] index_map@[j]).0@ == names@[j]@
                        && index_map@[j].1 == j,
            decreases names@.len() - i,
        {
            index_map.push((names[i].clone(), i));
            i += 1;
        }
        let owned: String = "index".to_owned();
        DataFrameIndex { index_name: owned, names, index_map }
    }
}

/// The decimal digit character for one value below ten.
pub open spec fn dec_digit(d: int) -> char {
    if d == 0 {
        '0'
    } else if d == 1 {
        '1'
    } else if d == 2 {
        '2'
    } else if d == 3 {
        '3'
    } else if d == 4 {
        '4'
    } else if d == 5 {
        '5'
    } else if d == 6 {
        '6'
    } else if d == 7 {
        '7'
    } else if d == 8 {
        '8'
    } else {
        '9'
    }
}

/// The decimal rendering of a non-negative value, most significant digit
/// first, without leading zeroes (a lone zero for zero).
pub open spec fn dec_digits(n: int) -> Seq<char>
    decreases n,
{
    if n < 10 {
        seq![dec_digit(n)]
    } else {
        dec_digits(n / 10).push(dec_digit(n % 10))
    }
}

/// One decimal digit as a string.
fn digit_str(d: usize) -> (r: String)
    requires
        d < 10,
    ensures
        r@ == seq![dec_digit(d as int)],
{
    let r: String = match d {
        0 => "0".to_owned(),
        1 => "1".to_owned(),
        2 => "2".to_owned(),
        3 => "3".to_owned(),
        4 => "4".to_owned(),
        5 => "5".to_owned(),
        6 => "6".to_owned(),
        7 => "7".to_owned(),
        8 => "8".to_owned(),
        _ => "9".to_owned(),
    };
    proof {
        reveal_strlit("0");
        reveal_strlit("1");
        reveal_strlit("2");
        reveal_strlit("3");
        reveal_strlit("4");
        reveal_strlit("5");
        reveal_strlit("6");
        reveal_strlit("7");
        reveal_strlit("8");
        reveal_strlit("9");
        assert(r@ =~= seq![dec_digit(d as int)]);
    }
    r
}

/// Renders a value in decimal.
pub fn to_dec_string(n: usize) -> (r: String)
    ensures
        r@ == dec_digits(n as int),
    decreases n,
{
    if n < 10 {
        digit_str(n)
    } else {
        let mut s = to_dec_string(n / 10);
        let d = digit_str(n % 10);
        s.append(d.as_str());
        proof {
            assert(s@ =~= dec_digits(n as int / 10).push(dec_digit(n as int % 10)));
        }
        s
    }
}

impl DataFrameIndex {
    /// Synthesizes an index of the given length with decimal names counting
    /// from zero.
    pub fn with_length(n: usize) -> (r: DataFrameIndex)
        ensures
            r.wf(),
            r@.names.len() == n,
            forall|i: int| 0 <= i < n ==> r@.names[i] == dec_digits(i),
            r@.index_name == "index"@,
    {
        let mut names: Vec<String> = Vec::new();
        let mut i: usize = 0;
        while i < n
            invariant
                i <= n,
                names@.len() == i,
                forall|j: int| 0 <= j < i ==> (#[trigger] names@[j])@ == dec_digits(j),
            decreases n - i,
        {
            names.push(to_dec_string(i));
            i += 1;
        }
        let r = DataFrameIndex::from_names(names);
        r
    }
}

/// The index a group denotes: its `_index` attribute names the child dataset
/// holding the ordered, one-dimensional name sequence.
pub open spec fn index_decode(f: FileV, n: int) -> Result<IndexV, AnnError> {
    match f.attr(n, "_index"@) {
        Option::None => Err(AnnError::NotFound),
        Option::Some(AttrV::StrArr(_)) => Err(AnnError::TypeMismatch),
        Option::Some(AttrV::Str(ix)) => {
            if !f.is_group(n) {
                Err(AnnError::TypeMismatch)
            } else if !has_child(f.child_seq(n), ix) {
                Err(AnnError::NotFound)
            } else if !f.is_dataset(child_id(f.child_seq(n), ix) as int) {
                Err(AnnError::TypeMismatch)
            } else {
                match f.dataset_of(child_id(f.child_seq(n), ix) as int) {
                    ArrayV::Str(a) => if a.shape.len() == 1 {
                        Ok(IndexV { index_name: ix, names: a.data })
                    } else {
                        Err(AnnError::TypeMismatch)
                    },
                    _ => Err(AnnError::TypeMismatch),
                }
            }
        },
    }
}


impl WriteData for DataFrameIndex {
    open spec fn writable(&self) -> bool {
        true
    }

    /// Persists the index: the target group is opened if it already exists
    /// (so an index can join a tabular value already written there) or
    /// created; the `_index` attribute records the dataset name; the name
    /// sequence becomes a fresh one-dimensional string dataset.
    fn write(&self, file: &mut MemFile, parent: usize, name: &str) -> (r: AnnResult<DataContainer>)
        ensures
            match r {
                Ok(c) => {
                    &&& c.parent == parent
                    &&& c.name@ == name@
                    &&& index_decode(final(file)@, c.node as int) == Ok::<IndexV, AnnError>(self@)
                    &&& (has_child(old(file)@.child_seq(parent as int), name@) ==> c.node
                        == child_id(old(file)@.child_seq(parent as int), name@))
                    &&& forall|m: int|
                        0 <= m < old(file)@.nodes.len() && m != parent && m != c.node
                            ==> final(file)@.nodes[m] == old(file)@.nodes[m]
                },
                Err(e) => {
                    &&& (e == AnnError::TypeMismatch || e == AnnError::AlreadyExists)
                    &&& (e == AnnError::TypeMismatch <==> has_child(
                        old(file)@.child_seq(parent as int),
                        name@,
                    ) && !old(file)@.is_group(
                        child_id(old(file)@.child_seq(parent as int), name@) as int,
                    ))
                    &&& (e == AnnError::AlreadyExists <==> has_child(
                        old(file)@.child_seq(parent as int),
                        name@,
                    ) && old(file)@.is_group(
                        child_id(old(file)@.child_seq(parent as int), name@) as int,
                    ) && has_child(
                        old(file)@.child_seq(
                            child_id(old(file)@.child_seq(parent as int), name@) as int,
                        ),
                        self@.index_name,
                    ))
                },
            },
    {
        let g = match file.get_child(parent, name) {
            Ok(id) => {
                if !file.is_group(id) {
                    return Err(AnnError::TypeMismatch);
                }
                id
            },
            Err(_) => match file.create_group(parent, name) {
                Ok(id) => id,
                Err(_) => vstd::pervasive::unreached(),
            },
        };
        let c = DataContainer {
            kind: ContainerKind::Group,
            node: g,
            parent,
            name: name.to_owned(),
        };
        proof {
            let ch = file@.child_seq(parent as int);
            if !has_child(old(file)@.child_seq(parent as int), name@) {
                crate::backend::lemma_child_pos_unique(ch, name@, ch.len() - 1);
            } else {
                assert(g as int != parent as int);
            }
            assert(c.wf(file@));
        }
        c.write_str_attr(file, "_index", self.index_name.as_str());
        let arr = DynArray::String(
            DenseArray {
                shape: vec![self.names.len()],
                data: crate::values::clone_string_vec(&self.names),
            },
        );
        proof {
            crate::codec::lemma_shape_product_1d(self.names@.len() as usize);
            assert(arr@->Str_0.shape =~= seq![self.names@.len() as usize]);
            assert(arr@.wf());
        }
        let ghost pre = file@;
        let _ds = match file.create_dataset(g, self.index_name.as_str(), arr) {
            Ok(id) => id,
            Err(e) => {
                return Err(e);
            },
        };
        proof {
            let f2 = final(file)@;
            let ch = f2.child_seq(g as int);
            crate::backend::lemma_child_pos_unique(ch, self.index_name@, ch.len() - 1);
            assert(f2.attr(g as int, "_index"@) == Some(AttrV::Str(self.index_name@)));
            assert(index_decode(f2, c.node as int) == Ok::<IndexV, AnnError>(self@)) by {
                assert(f2.dataset_of(child_id(ch, self.index_name@) as int)->Str_0.data =~= self@.names);
            }
            assert(c.wf(f2));
        }
        Ok(c)
    }

    /// Rewrites a persisted index in place: the old name dataset is unlinked
    /// and the `_index` attribute and a fresh name dataset are written.
    fn overwrite(&self, file: &mut MemFile, container: &DataContainer) -> (r: AnnResult<
        DataContainer,
    >)
        ensures
            forall|m: int|
                0 <= m < old(file)@.nodes.len() && m != container.node ==> final(file)@.nodes[m]
                    == old(file)@.nodes[m],
            r matches Ok(c2) ==> c2.parent == container.parent && c2.name@ == container.name@
                && c2.node == container.node,
            match old(file)@.attr(container.node as int, "_index"@) {
                Option::None => (r matches Err(e) && e == AnnError::NotFound) && final(file)@
                    == old(file)@,
                Option::Some(AttrV::StrArr(_)) => (r matches Err(e) && e == AnnError::TypeMismatch)
                    && final(file)@ == old(file)@,
                Option::Some(AttrV::Str(ix0)) => {
                    if !old(file)@.is_group(container.node as int) {
                        (r matches Err(e) && e == AnnError::TypeMismatch) && final(file)@ == old(
                            file,
                        )@
                    } else if !has_child(old(file)@.child_seq(container.node as int), ix0) {
                        (r matches Err(e) && e == AnnError::NotFound) && final(file)@ == old(
                            file,
                        )@
                    } else if self@.index_name != ix0 && has_child(
                        old(file)@.child_seq(container.node as int),
                        self@.index_name,
                    ) {
                        r matches Err(e) && e == AnnError::AlreadyExists
                    } else {
                        &&& r is Ok
                        &&& index_decode(final(file)@, container.node as int) == Ok::<
                            IndexV,
                            AnnError,
                        >(self@)
                        &&& final(file)@.child_seq(container.node as int) == old(
                            file,
                        )@.child_seq(container.node as int).remove(
                            crate::backend::child_pos(
                                old(file)@.child_seq(container.node as int),
                                ix0,
                            ),
                        ).push((self@.index_name, old(file)@.nodes.len() as usize))
                        &&& (ix0 != self@.index_name ==> !has_child(
                            final(file)@.child_seq(container.node as int),
                            ix0,
                        ))
                    }
                },
            },
    {
        let old_name = match container.read_str_attr(file, "_index") {
            Ok(s) => s,
            Err(e) => {
                return Err(e);
            },
        };
        let g = match container.as_group(file) {
            Ok(g) => g,
            Err(e) => {
                return Err(e);
            },
        };
        match file.delete_child(g, old_name.as_str()) {
            Ok(()) => {},
            Err(e) => {
                return Err(e);
            },
        }
        proof {
            assert(container.wf(file@)) by {
                assert(file@.nodes[container.parent as int] == old(file)@.nodes[container.parent as int]);
            }
        }
        let c = DataContainer {
            kind: ContainerKind::Group,
            node: container.node,
            parent: container.parent,
            name: container.name.clone(),
        };
        proof {
            assert(c.wf(file@));
        }
        c.write_str_attr(file, "_index", self.index_name.as_str());
        let arr = DynArray::String(
            DenseArray {
                shape: vec![self.names.len()],
                data: crate::values::clone_string_vec(&self.names),
            },
        );
        proof {
            crate::codec::lemma_shape_product_1d(self.names@.len() as usize);
            assert(arr@->Str_0.shape =~= seq![self.names@.len() as usize]);
            assert(arr@.wf());
        }
        let ghost och = old(file)@.child_seq(container.node as int);
        let ghost ix0 = old_name@;
        let ghost mid_ch = file@.child_seq(g as int);
        let _ds = match file.create_dataset(g, self.index_name.as_str(), arr) {
            Ok(id) => id,
            Err(e) => {
                proof {
                    let q = crate::backend::child_pos(mid_ch, self.index_name@);
                    assert(mid_ch[q].0 == self.index_name@);
                    let p0 = crate::backend::child_pos(och, ix0);
                    let q0 = if q < p0 {
                        q
                    } else {
                        q + 1
                    };
                    assert(mid_ch[q] == och[q0]);
                    assert(has_child(och, self.index_name@)) by {
                        assert(och[q0].0 == self.index_name@);
                    }
                    assert(self.index_name@ != ix0) by {
                        if self.index_name@ == ix0 {
                            assert(has_child(mid_ch, ix0));
                        }
                    }
                }
                return Err(e);
            },
        };
        proof {
            let f2 = final(file)@;
            let ch = f2.child_seq(g as int);
            crate::backend::lemma_child_pos_unique(ch, self.index_name@, ch.len() - 1);
            assert(f2.attr(g as int, "_index"@) == Some(AttrV::Str(self.index_name@)));
            assert(index_decode(f2, c.node as int) == Ok::<IndexV, AnnError>(self@)) by {
                assert(f2.dataset_of(child_id(ch, self.index_name@) as int)->Str_0.data =~= self@.names);
            }
            assert(ch == mid_ch.push((self.index_name@, old(file)@.nodes.len() as usize)));
            assert(!(self.index_name@ != ix0 && has_child(och, self.index_name@))) by {
                if self.index_name@ != ix0 && has_child(och, self.index_name@) {
                    let q0 = crate::backend::child_pos(och, self.index_name@);
                    assert(och[q0].0 == self.index_name@);
                    let p0 = crate::backend::child_pos(och, ix0);
                    assert(och[p0].0 == ix0);
                    assert(q0 != p0);
                    let q = if q0 < p0 {
                        q0
                    } else {
                        q0 - 1
                    };
                    assert(mid_ch[q] == och[q0]);
                    assert(has_child(mid_ch, self.index_name@)) by {
                        assert(mid_ch[q].0 == self.index_name@);
                    }
                }
            }
            if ix0 != self.index_name@ {
                assert(!has_child(ch, ix0)) by {
                    if has_child(ch, ix0) {
                        let q = crate::backend::child_pos(ch, ix0);
                        assert(ch[q].0 == ix0);
                        if q < mid_ch.len() {
                            assert(has_child(mid_ch, ix0)) by {
                                assert(mid_ch[q].0 == ix0);
                            }
                        }
                    }
                }
            }
        }
        Ok(c)
    }
}

impl ReadData for DataFrameIndex {
    /// Reconstructs an index: the stored name order is kept, the persisted
    /// dataset name is preserved verbatim, and the reverse mapping is rebuilt
    /// by enumeration.
    fn read(file: &MemFile, container: &DataContainer) -> (r: AnnResult<Self>)
        ensures
            match r {
                Ok(ix) => crate::codec::model_of(r) == index_decode(file@, container.node as int)
                    && ix.wf(),
                Err(_) => crate::codec::model_of(r) == index_decode(
                    file@,
                    container.node as int,
                ),
            },
    {
        let index_name = match container.read_str_attr(file, "_index") {
            Ok(s) => s,
            Err(e) => {
                return Err(e);
            },
        };
        let g = match container.as_group(file) {
            Ok(g) => g,
            Err(e) => {
                return Err(e);
            },
        };
        let ds = match file.get_child(g, index_name.as_str()) {
            Ok(id) => id,
            Err(e) => {
                return Err(e);
            },
        };
        let arr = match file.read_dataset(ds) {
            Ok(a) => a,
            Err(e) => {
                return Err(e);
            },
        };
        let names = match arr {
            DynArray::String(d) => if d.shape.len() == 1 {
                d.data
            } else {
                return Err(AnnError::TypeMismatch);
            },
            _ => {
                return Err(AnnError::TypeMismatch);
            },
        };
        let mut r = DataFrameIndex::from_names(names);
        r.index_name = index_name;
        proof {
            assert(r@ =~~= index_decode(file@, container.node as int)->Ok_0);
        }
        Ok(r)
    }
}
} // verus!
