//! The composite store: an ordered collection of independently backed stores
//! sharing one variable axis, presented as a single table concatenated along
//! the observation axis.  A global observation position resolves to a member
//! and a local position by prefix sums; subsetting partitions a requested
//! selection by member, builds new per-member stores, and reports the
//! permutation that recovers the requested order when it was not already
//! member-grouped.

use vstd::prelude::*;

use crate::element::{all_positions_below, frame_names_unique, selected_value};
use crate::backend::has_child;
use crate::codec::WriteData;
use crate::errors::{AnnError, AnnResult};
use crate::index::DataFrameIndex;
use crate::select::{arrayv_cols, arrayv_rows, arrayv_vstack, gather_strings, stackable};
use crate::store::AnnData;
use crate::values::{ArrayV, DataV, DynArray, DynData, Mapping};

verus! {

/// The observation counts of the members, in member order.
pub open spec fn counts_of(ms: Seq<(String, AnnData)>) -> Seq<usize> {
    ms.map_values(|p: (String, AnnData)| p.1.n_obs)
}

/// The number of observations the first `m` members contribute.
pub open spec fn prefix_sum(counts: Seq<usize>, m: int) -> int
    decreases m,
{
    if m <= 0 {
        0
    } else {
        prefix_sum(counts, m - 1) + counts[m - 1]
    }
}

/// The member a global observation position falls into.
pub open spec fn member_of(counts: Seq<usize>, g: int) -> int
    decreases counts.len(),
{
    if counts.len() == 0 {
        0
    } else if g < counts[0] {
        0
    } else {
        1 + member_of(counts.skip(1), g - counts[0])
    }
}

/// The local positions, in request order, of the requested globals that fall
/// into member `m`.
pub open spec fn locals_spec(counts: Seq<usize>, obs: Seq<usize>, m: int) -> Seq<usize>
    decreases obs.len(),
{
    if obs.len() == 0 {
        Seq::empty()
    } else {
        let prev = locals_spec(counts, obs.drop_last(), m);
        let g = obs.last() as int;
        if member_of(counts, g) == m {
            prev.push((g - prefix_sum(counts, m)) as usize)
        } else {
            prev
        }
    }
}

/// The request positions, in request order, of the requested globals that
/// fall into member `m`.
pub open spec fn positions_spec(counts: Seq<usize>, obs: Seq<usize>, m: int) -> Seq<usize>
    decreases obs.len(),
{
    if obs.len() == 0 {
        Seq::empty()
    } else {
        let prev = positions_spec(counts, obs.drop_last(), m);
        if member_of(counts, obs.last() as int) == m {
            prev.push((obs.len() - 1) as usize)
        } else {
            prev
        }
    }
}

/// The request positions in the member-grouped write order: member by
/// member, each keeping its requested relative order.
pub open spec fn grouped_positions(counts: Seq<usize>, obs: Seq<usize>, m: int) -> Seq<usize>
    decreases m,
{
    if m <= 0 {
        Seq::empty()
    } else {
        grouped_positions(counts, obs, m - 1) + positions_spec(counts, obs, m - 1)
    }
}

/// A virtual concatenation of independent backed stores along the
/// observation axis.
#[derive(Debug)]
pub struct AnnDataSet {
    pub anndatas: Vec<(String, AnnData)>,
    pub uns: Option<Mapping>,
    pub closed: bool,
}

impl AnnDataSet {
    /// All members are well formed, open, and agree on the variable axis:
    /// same count, same names.  The total observation count fits the
    /// machine.
    pub open spec fn wf(self) -> bool {
        &&& forall|m: int|
            0 <= m < self.anndatas@.len() ==> (#[trigger] self.anndatas@[m]).1.wf()
                && !self.anndatas@[m].1.closed
        &&& forall|m: int|
            0 <= m < self.anndatas@.len() ==> (#[trigger] self.anndatas@[m]).1.n_vars
                == self.n_vars_spec()
        &&& forall|m: int|
            0 <= m < self.anndatas@.len() ==> (#[trigger] self.anndatas@[m]).1.var_names@.names
                == self.var_names_spec()
        &&& prefix_sum(counts_of(self.anndatas@), self.anndatas@.len() as int) <= usize::MAX
        &&& (self.uns matches Some(mu) ==> mu.writable()
            && crate::codec::entries_write_cleanly(mu@))
    }

    /// The shared variable count: the first member's, or zero.
    pub open spec fn n_vars_spec(self) -> usize {
        if self.anndatas@.len() == 0 {
            0
        } else {
            self.anndatas@[0].1.n_vars
        }
    }

    /// The shared variable names: the first member's, or none.
    pub open spec fn var_names_spec(self) -> Seq<Seq<char>> {
        if self.anndatas@.len() == 0 {
            Seq::empty()
        } else {
            self.anndatas@[0].1.var_names@.names
        }
    }

    /// The derived total observation count: the sum of the members'.
    pub open spec fn total_obs(self) -> int {
        prefix_sum(counts_of(self.anndatas@), self.anndatas@.len() as int)
    }
}

/// Whether the named medium is the one this build provides: the in-memory
/// medium, or none named.
pub open spec fn backend_supported(backend: Option<&str>) -> bool {
    match backend {
        Some(b) => b@ == crate::store::mem_backend_name(),
        None => true,
    }
}

/// Whether the members agree on the variable axis: every member has the
/// first member's variable count and names.
pub open spec fn members_agree(ms: Seq<(String, AnnData)>) -> bool {
    forall|k: int|
        0 <= k < ms.len() ==> (#[trigger] ms[k]).1.n_vars == ms[0].1.n_vars
            && ms[k].1.var_names@.names == ms[0].1.var_names@.names
}

/// Compares two string vectors by contents.
fn string_vecs_equal(a: &Vec<String>, b: &Vec<String>) -> (r: bool)
    ensures
        r == (a@.map_values(|s: String| s@) == b@.map_values(|s: String| s@)),
{
    if a.len() != b.len() {
        proof {
            assert(a@.map_values(|s: String| s@).len() != b@.map_values(|s: String| s@).len());
        }
        return false;
    }
    let mut i: usize = 0;
    while i < a.len()
        invariant
            a@.len() == b@.len(),
            i <= a@.len(),
            forall|j: int| 0 <= j < i ==> (#[trigger] a@[j])@ == b@[j]@,
        decreases a@.len() - i,
    {
        if !a[i].eq(&b[i]) {
            proof {
                assert(a@.map_values(|s: String| s@)[i as int] != b@.map_values(
                    |s: String| s@,
                )[i as int]);
            }
            return false;
        }
        i += 1;
    }
    proof {
        assert(a@.map_values(|s: String| s@) =~= b@.map_values(|s: String| s@));
    }
    true
}

impl AnnDataSet {
    /// Opens a composite over the given keyed members.  Only the in-memory
    /// medium is provided; naming any other is `UnsupportedBackend`.  Members
    /// must be open and agree on the variable axis; disagreement is a
    /// `TypeMismatch`.
    pub fn new(adatas: Vec<(String, AnnData)>, backend: Option<&str>) -> (r: AnnResult<AnnDataSet>)
        requires
            forall|m: int| 0 <= m < adatas@.len() ==> (#[trigger] adatas@[m]).1.wf(),
            prefix_sum(counts_of(adatas@), adatas@.len() as int) <= usize::MAX,
        ensures
            match r {
                Ok(ds) => {
                    &&& ds.wf()
                    &&& !ds.closed
                    &&& ds.anndatas == adatas
                    &&& ds.uns is None
                },
                Err(e) => {
                    &&& (e == AnnError::UnsupportedBackend || e == AnnError::TypeMismatch || e
                        == AnnError::StoreClosed)
                    &&& (e == AnnError::UnsupportedBackend <==> (backend matches Some(b) && b@
                        != crate::store::mem_backend_name()))
                    &&& (e == AnnError::StoreClosed <==> backend_supported(backend) && (exists|
                    k: int,
                    |
                        0 <= k < adatas@.len() && (#[trigger] adatas@[k]).1.closed))
                    &&& (e == AnnError::TypeMismatch <==> backend_supported(backend) && (forall|
                    k: int,
                    |
                        0 <= k < adatas@.len() ==> !(#[trigger] adatas@[k]).1.closed) && !members_agree(
                        adatas@,
                    ))
                },
            },
            r is Ok <==> backend_supported(backend) && (forall|k: int|
                0 <= k < adatas@.len() ==> !(#[trigger] adatas@[k]).1.closed) && members_agree(
                adatas@,
            ),
    {
        match backend {
            Some(b) => {
                if !crate::backend::str_eq(b, &"memory".to_owned()) {
                    return Err(AnnError::UnsupportedBackend);
                }
            },
            None => {},
        }
        let mut m: usize = 0;
        while m < adatas.len()
            invariant
                backend_supported(backend),
                m <= adatas@.len(),
                forall|k: int| 0 <= k < m ==> !(#[trigger] adatas@[k]).1.closed,
            decreases adatas@.len() - m,
        {
            if adatas[m].1.is_closed() {
                proof {
                    assert(adatas@[m as int].1.closed);
                }
                return Err(AnnError::StoreClosed);
            }
            m += 1;
        }
        let mut m: usize = 0;
        while m < adatas.len()
            invariant
                backend_supported(backend),
                forall|k: int| 0 <= k < adatas@.len() ==> !(#[trigger] adatas@[k]).1.closed,
                forall|k: int| 0 <= k < adatas@.len() ==> (#[trigger] adatas@[k]).1.wf(),
                m <= adatas@.len(),
                forall|k: int|
                    0 <= k < m ==> (#[trigger] adatas@[k]).1.n_vars == adatas@[0].1.n_vars,
                forall|k: int|
                    0 <= k < m ==> (#[trigger] adatas@[k]).1.var_names@.names
                        == adatas@[0].1.var_names@.names,
            decreases adatas@.len() - m,
        {
            let member = &adatas[m].1;
            if member.shape().1 != adatas[0].1.shape().1 {
                proof {
                    assert(!members_agree(adatas@));
                }
                return Err(AnnError::TypeMismatch);
            }
            if !string_vecs_equal(&member.var_names.names, &adatas[0].1.var_names.names) {
                proof {
                    assert(!members_agree(adatas@));
                }
                return Err(AnnError::TypeMismatch);
            }
            m += 1;
        }
        Ok(AnnDataSet { anndatas: adatas, uns: None, closed: false })
    }

    /// The number of members.
    pub fn member_count(&self) -> (n: usize)
        ensures
            n == self.anndatas@.len(),
    {
        self.anndatas.len()
    }

    /// The total number of observations: the sum of the members' counts.
    pub fn n_obs(&self) -> (n: usize)
        requires
            self.wf(),
        ensures
            n == self.total_obs(),
    {
        let mut acc: usize = 0;
        let mut m: usize = 0;
        proof {
            lemma_prefix_sum_bounds(counts_of(self.anndatas@), self.anndatas@.len() as int);
        }
        while m < self.anndatas.len()
            invariant
                self.wf(),
                m <= self.anndatas@.len(),
                acc == prefix_sum(counts_of(self.anndatas@), m as int),
                acc <= self.total_obs(),
            decreases self.anndatas@.len() - m,
        {
            proof {
                lemma_prefix_sum_bounds(counts_of(self.anndatas@), self.anndatas@.len() as int);
                lemma_prefix_sum_mono(counts_of(self.anndatas@), m as int + 1, self.anndatas@.len() as int);
            }
            acc = acc + self.anndatas[m].1.shape().0;
            m += 1;
        }
        acc
    }

    /// The shared variable count.
    pub fn n_vars(&self) -> (n: usize)
        requires
            self.wf(),
        ensures
            n == self.n_vars_spec(),
    {
        if self.anndatas.len() == 0 {
            0
        } else {
            self.anndatas[0].1.shape().1
        }
    }

    /// The shape of the virtual concatenated matrix.
    pub fn shape(&self) -> (r: (usize, usize))
        requires
            self.wf(),
        ensures
            r.0 == self.total_obs(),
            r.1 == self.n_vars_spec(),
    {
        (self.n_obs(), self.n_vars())
    }

    /// Whether the composite is backed; it always is.
    pub fn isbacked(&self) -> (r: bool)
        ensures
            r,
    {
        true
    }

    /// The name of the storage medium the members live in.
    pub fn backend(&self) -> (r: String)
        ensures
            r@ == crate::store::mem_backend_name(),
    {
        "memory".to_owned()
    }

    /// Whether the composite has been closed.
    pub fn is_closed(&self) -> (r: bool)
        ensures
            r == self.closed,
    {
        self.closed
    }

    /// Closes the composite and its members; closing twice is a store-closed
    /// failure.
    pub fn close(&mut self) -> (r: AnnResult<()>)
        ensures
            final(self).closed,
            final(self).anndatas == old(self).anndatas,
            final(self).uns == old(self).uns,
            match r {
                Ok(()) => !old(self).closed,
                Err(e) => e == AnnError::StoreClosed && old(self).closed,
            },
    {
        if self.closed {
            return Err(AnnError::StoreClosed);
        }
        self.closed = true;
        Ok(())
    }

    /// Replaces the composite's unstructured metadata.  The mapping must be
    /// persistable: distinct, writable entries whose tabular values carry
    /// only one-dimensional columns.
    pub fn set_uns(&mut self, uns: Option<Mapping>)
        requires
            uns matches Some(mu) ==> mu.writable() && crate::codec::entries_write_cleanly(mu@),
        ensures
            final(self).anndatas == old(self).anndatas,
            final(self).closed == old(self).closed,
            old(self).wf() ==> final(self).wf(),
            match (final(self).uns, uns) {
                (Some(a), Some(b)) => a == b,
                (None, None) => true,
                _ => false,
            },
    {
        self.uns = uns;
    }

    /// The composite's unstructured metadata, if any.
    pub fn get_uns(&self) -> (r: &Option<Mapping>)
        ensures
            r == self.uns,
    {
        &self.uns
    }

    /// Resolves a global observation position to its member and the local
    /// position inside it: the local position is the global one less the
    /// observation counts of all earlier members, and lies below the
    /// member's count.  A position at or beyond the total count resolves to
    /// nothing.
    pub fn resolve_obs(&self, g: usize) -> (r: Option<(usize, usize)>)
        requires
            self.wf(),
        ensures
            match r {
                Some((m, l)) => {
                    &&& (g as int) < self.total_obs()
                    &&& m == member_of(counts_of(self.anndatas@), g as int)
                    &&& (m as int) < self.anndatas@.len()
                    &&& l == g - prefix_sum(counts_of(self.anndatas@), m as int)
                    &&& 0 <= l < counts_of(self.anndatas@)[m as int]
                },
                None => (g as int) >= self.total_obs(),
            },
    {
        let ghost counts = counts_of(self.anndatas@);
        let mut acc: usize = 0;
        let mut m: usize = 0;
        proof {
            lemma_prefix_sum_bounds(counts, self.anndatas@.len() as int);
            assert(counts.skip(0) =~= counts);
        }
        while m < self.anndatas.len()
            invariant
                self.wf(),
                counts == counts_of(self.anndatas@),
                m <= self.anndatas@.len(),
                acc == prefix_sum(counts, m as int),
                acc <= g,
                g as int - acc as int == g - prefix_sum(counts, m as int),
                member_of(counts, g as int) == m + member_of(counts.skip(m as int), g - acc),
            decreases self.anndatas@.len() - m,
        {
            let cm = self.anndatas[m].1.shape().0;
            proof {
                lemma_prefix_sum_bounds(counts, self.anndatas@.len() as int);
                lemma_prefix_sum_mono(counts, m as int + 1, self.anndatas@.len() as int);
                assert(counts.skip(m as int)[0] == counts[m as int]);
            }
            if g - acc < cm {
                proof {
                    assert(member_of(counts.skip(m as int), g - acc) == 0);
                }
                return Some((m, g - acc));
            }
            proof {
                assert(counts.skip(m as int).skip(1) =~= counts.skip(m as int + 1));
            }
            acc = acc + cm;
            m += 1;
        }
        proof {
            assert(g as int >= prefix_sum(counts, self.anndatas@.len() as int));
        }
        None
    }
}

/// Prefix sums of observation counts are non-negative and monotone.
pub proof fn lemma_prefix_sum_bounds(counts: Seq<usize>, m: int)
    ensures
        prefix_sum(counts, m) >= 0,
    decreases m,
{
    if m > 0 {
        lemma_prefix_sum_bounds(counts, m - 1);
    }
}

/// A shorter prefix contributes no more than a longer one.
pub proof fn lemma_prefix_sum_mono(counts: Seq<usize>, a: int, b: int)
    requires
        0 <= a <= b,
    ensures
        prefix_sum(counts, a) <= prefix_sum(counts, b),
    decreases b - a,
{
    if a < b {
        lemma_prefix_sum_mono(counts, a, b - 1);
    }
}


/// The requested column positions: the given list, or the whole axis in
/// order.
pub open spec fn var_sel_model(var: Option<&Vec<usize>>, n_vars: int) -> Seq<usize> {
    match var {
        Some(v) => v@,
        None => Seq::new(n_vars as nat, |i: int| i as usize),
    }
}

/// Whether one member's primary matrix accepts the given row and column
/// selection: it is absent, or the selection applies, the selected value's
/// column names stay distinct, and its shape is the selection's.
pub open spec fn member_subset_ok(a: AnnData, locals: Seq<usize>, vsel: Seq<usize>) -> bool {
    match a.x_value() {
        Some(d) => {
            &&& selected_value(d, Some(locals), Some(vsel)) is Ok
            &&& crate::element::names_unique(selected_value(d, Some(locals), Some(vsel))->Ok_0)
            &&& crate::element::data_nrows(selected_value(d, Some(locals), Some(vsel))->Ok_0)
                == locals.len()
            &&& crate::element::data_ncols(selected_value(d, Some(locals), Some(vsel))->Ok_0)
                == vsel.len()
        },
        None => true,
    }
}

/// The bounds every composite selection must meet.
pub open spec fn selection_in_bounds(
    ds: AnnDataSet,
    obs: Seq<usize>,
    var_indices: Option<&Vec<usize>>,
) -> bool {
    &&& forall|k: int| 0 <= k < obs.len() ==> (#[trigger] obs[k]) < ds.total_obs()
    &&& (var_indices matches Some(v) ==> forall|k: int|
        0 <= k < v@.len() ==> (#[trigger] v@[k]) < ds.n_vars_spec())
}

/// The axis positions naming a whole axis in order.
fn iota(n: usize) -> (r: Vec<usize>)
    ensures
        r@ == Seq::new(n as nat, |i: int| i as usize),
{
    let mut r: Vec<usize> = Vec::new();
    let mut i: usize = 0;
    while i < n
        invariant
            i <= n,
            r@.len() == i,
            forall|j: int| 0 <= j < i ==> (#[trigger] r@[j]) == j,
        decreases n - i,
    {
        r.push(i);
        i += 1;
    }
    proof {
        assert(r@ =~= Seq::new(n as nat, |i: int| i as usize));
    }
    r
}

impl AnnDataSet {
    /// The concatenated observation names: the members' names, member by
    /// member.
    pub fn obs_names(&self) -> (r: Vec<String>)
        requires
            self.wf(),
        ensures
            r@.len() == self.total_obs(),
            forall|g: int|
                0 <= g < self.total_obs() ==> (#[trigger] r@[g])@ == self.anndatas@[member_of(
                    counts_of(self.anndatas@),
                    g,
                )].1.obs_names@.names[g - prefix_sum(
                    counts_of(self.anndatas@),
                    member_of(counts_of(self.anndatas@), g),
                )],
    {
        let ghost counts = counts_of(self.anndatas@);
        let mut r: Vec<String> = Vec::new();
        let mut m: usize = 0;
        proof {
            lemma_prefix_sum_bounds(counts, self.anndatas@.len() as int);
        }
        while m < self.anndatas.len()
            invariant
                self.wf(),
                counts == counts_of(self.anndatas@),
                m <= self.anndatas@.len(),
                r@.len() == prefix_sum(counts, m as int),
                forall|j: int, l: int|
                    0 <= j < m && 0 <= l < counts[j] ==> r@[prefix_sum(counts, j) + l]@
                        == #[trigger] self.anndatas@[j].1.obs_names@.names[l],
            decreases self.anndatas@.len() - m,
        {
            proof {
                lemma_prefix_sum_bounds(counts, self.anndatas@.len() as int);
                lemma_prefix_sum_mono(counts, m as int + 1, self.anndatas@.len() as int);
            }
            let member = &self.anndatas[m].1;
            let mut part = crate::values::clone_string_vec(&member.obs_names.names);
            r.append(&mut part);
            m += 1;
            proof {
                assert forall|j: int, l: int|
                    0 <= j < m && 0 <= l < counts[j] implies r@[prefix_sum(counts, j) + l]@
                    == #[trigger] self.anndatas@[j].1.obs_names@.names[l] by {
                    lemma_prefix_sum_bounds(counts, j);
                    if j < m - 1 {
                        lemma_prefix_sum_mono(counts, j + 1, m as int - 1);
                    }
                }
            }
        }
        proof {
            assert forall|g: int| 0 <= g < self.total_obs() implies (#[trigger] r@[g])@
                == self.anndatas@[member_of(counts, g)].1.obs_names@.names[g - prefix_sum(
                counts,
                member_of(counts, g),
            )] by {
                lemma_member_of_local_range(counts, g, counts.len() as int);
                let gm = member_of(counts, g);
                let l = g - prefix_sum(counts, gm);
                assert(r@[prefix_sum(counts, gm) + l]@ == self.anndatas@[gm].1.obs_names@.names[l]);
            }
        }
        r
    }

    /// The shared variable names.
    pub fn var_names(&self) -> (r: Vec<String>)
        requires
            self.wf(),
        ensures
            r@.map_values(|s: String| s@) == self.var_names_spec(),
    {
        if self.anndatas.len() == 0 {
            let r: Vec<String> = Vec::new();
            proof {
                assert(r@.map_values(|s: String| s@) =~= self.var_names_spec());
            }
            r
        } else {
            crate::values::clone_string_vec(&self.anndatas[0].1.var_names.names)
        }
    }

    /// Restricts the composite to the requested observations and variables,
    /// writing one new store per member.  Rows are not moved across members:
    /// each new store keeps its rows in their requested relative order, and
    /// the returned permutation maps the member-grouped write order back to
    /// the request positions; it is absent exactly when the request was
    /// already member-grouped.
    #[verifier::rlimit(100)]
    pub fn subset(&self, obs_indices: &Vec<usize>, var_indices: Option<&Vec<usize>>) -> (r:
        AnnResult<(AnnDataSet, Option<Vec<usize>>)>)
        requires
            self.wf(),
        ensures
            ({
                let counts = counts_of(self.anndatas@);
                let nv = self.n_vars_spec() as int;
                let vsel = var_sel_model(var_indices, nv);
                match r {
                    Ok((ds2, permopt)) => {
                        &&& !self.closed
                        &&& forall|k: int|
                            0 <= k < obs_indices@.len() ==> (#[trigger] obs_indices@[k])
                                < self.total_obs()
                        &&& (var_indices matches Some(v) ==> forall|k: int|
                            0 <= k < v@.len() ==> (#[trigger] v@[k]) < nv)
                        &&& ds2.wf()
                        &&& !ds2.closed
                        &&& (match (ds2.uns, self.uns) {
                            (Some(a), Some(b)) => a@ == b@,
                            (None, None) => true,
                            _ => false,
                        })
                        &&& ds2.anndatas@.len() == self.anndatas@.len()
                        &&& forall|m: int|
                            0 <= m < ds2.anndatas@.len() ==> {
                                let locals = locals_spec(counts, obs_indices@, m);
                                let oldm = self.anndatas@[m].1;
                                let newm = (#[trigger] ds2.anndatas@[m]).1;
                                &&& ds2.anndatas@[m].0@ == self.anndatas@[m].0@
                                &&& newm.n_obs == locals.len()
                                &&& newm.n_vars == vsel.len()
                                &&& newm.obs_names@.names == Seq::new(
                                    locals.len(),
                                    |i: int| oldm.obs_names@.names[locals[i] as int],
                                )
                                &&& (oldm.x_value() matches Some(d) ==> newm.x_value() == Some(
                                    selected_value(d, Some(locals), Some(vsel))->Ok_0,
                                ))
                                &&& (oldm.x_value() is None ==> newm.x_value() is None)
                            }
                        &&& match permopt {
                            Some(p) => p@ == grouped_positions(
                                counts,
                                obs_indices@,
                                self.anndatas@.len() as int,
                            ) && p@ != Seq::new(obs_indices@.len(), |i: int| i as usize),
                            None => grouped_positions(
                                counts,
                                obs_indices@,
                                self.anndatas@.len() as int,
                            ) == Seq::new(obs_indices@.len(), |i: int| i as usize),
                        }
                    },
                    Err(e) => {
                        &&& (e == AnnError::StoreClosed <==> self.closed)
                        &&& (e == AnnError::IndexOutOfBounds <==> !self.closed
                            && !selection_in_bounds(*self, obs_indices@, var_indices))
                        &&& ((e == AnnError::TypeMismatch || e == AnnError::AlreadyExists)
                            ==> exists|m: int|
                            0 <= m < self.anndatas@.len() && !member_subset_ok(
                                (#[trigger] self.anndatas@[m]).1,
                                locals_spec(counts, obs_indices@, m),
                                vsel,
                            ))
                        &&& (e == AnnError::AlreadyExists ==> exists|m: int|
                            0 <= m < self.anndatas@.len() && ((#[trigger] self.anndatas@[m]).1.x_value()
                                matches Some(d) && selected_value(
                                d,
                                Some(locals_spec(counts, obs_indices@, m)),
                                Some(vsel),
                            ) is Ok && !crate::element::names_unique(
                                selected_value(
                                    d,
                                    Some(locals_spec(counts, obs_indices@, m)),
                                    Some(vsel),
                                )->Ok_0,
                            )))
                        &&& (e == AnnError::StoreClosed || e == AnnError::IndexOutOfBounds || e
                            == AnnError::TypeMismatch || e == AnnError::AlreadyExists)
                    },
                }
            }),
            r is Ok <==> !self.closed && selection_in_bounds(*self, obs_indices@, var_indices) && (
            forall|m: int|
                0 <= m < self.anndatas@.len() ==> member_subset_ok(
                    (#[trigger] self.anndatas@[m]).1,
                    locals_spec(counts_of(self.anndatas@), obs_indices@, m),
                    var_sel_model(var_indices, self.n_vars_spec() as int),
                )),
    {
        if self.closed {
            return Err(AnnError::StoreClosed);
        }
        let total = self.n_obs();
        if !all_positions_below(obs_indices, total) {
            return Err(AnnError::IndexOutOfBounds);
        }
        let nv = self.n_vars();
        let vsel: Vec<usize> = match var_indices {
            Some(v) => {
                if !all_positions_below(v, nv) {
                    return Err(AnnError::IndexOutOfBounds);
                }
                crate::values::clone_copy_vec(v)
            },
            None => iota(nv),
        };
        let ghost counts = counts_of(self.anndatas@);
        let ghost vselv = var_sel_model(var_indices, nv as int);
        proof {
            assert(vsel@ == vselv);
        }
        let mut members: Vec<(String, AnnData)> = Vec::new();
        let mut perm: Vec<usize> = Vec::new();
        let mut m: usize = 0;
        while m < self.anndatas.len()
            invariant
                self.wf(),
                !self.closed,
                counts == counts_of(self.anndatas@),
                vselv == vsel@,
                forall|k: int|
                    0 <= k < obs_indices@.len() ==> (#[trigger] obs_indices@[k]) < self.total_obs(),
                forall|k: int| 0 <= k < vsel@.len() ==> (#[trigger] vsel@[k]) < self.n_vars_spec(),
                selection_in_bounds(*self, obs_indices@, var_indices),
                vselv == var_sel_model(var_indices, self.n_vars_spec() as int),
                m <= self.anndatas@.len(),
                members@.len() == m,
                forall|j: int|
                    0 <= j < m ==> member_subset_ok(
                        (#[trigger] self.anndatas@[j]).1,
                        locals_spec(counts, obs_indices@, j),
                        vsel@,
                    ),
                perm@ == grouped_positions(counts, obs_indices@, m as int),
                prefix_sum(counts_of(members@), m as int) == perm@.len(),
                forall|j: int|
                    0 <= j < m ==> {
                        let locals = locals_spec(counts, obs_indices@, j);
                        let oldm = self.anndatas@[j].1;
                        let newm = (#[trigger] members@[j]).1;
                        &&& members@[j].0@ == self.anndatas@[j].0@
                        &&& newm.wf()
                        &&& !newm.closed
                        &&& newm.n_obs == locals.len()
                        &&& newm.n_vars == vsel@.len()
                        &&& newm.var_names@.names == Seq::new(
                            vsel@.len(),
                            |i: int| self.var_names_spec()[vsel@[i] as int],
                        )
                        &&& newm.obs_names@.names == Seq::new(
                            locals.len(),
                            |i: int| oldm.obs_names@.names[locals[i] as int],
                        )
                        &&& (oldm.x_value() matches Some(d) ==> newm.x_value() == Some(
                            selected_value(d, Some(locals), Some(vsel@))->Ok_0,
                        ))
                        &&& (oldm.x_value() is None ==> newm.x_value() is None)
                    },
            decreases self.anndatas@.len() - m,
        {
            let mut locals: Vec<usize> = Vec::new();
            let ghost perm_before = perm@;
            let mut k: usize = 0;
            proof {
                assert(locals_spec(counts, obs_indices@.take(0), m as int) =~= Seq::<
                    usize,
                >::empty());
                assert(positions_spec(counts, obs_indices@.take(0), m as int) =~= Seq::<
                    usize,
                >::empty());
            }
            while k < obs_indices.len()
                invariant
                    self.wf(),
                    counts == counts_of(self.anndatas@),
                    (m as int) < self.anndatas@.len(),
                    k <= obs_indices@.len(),
                    forall|k2: int|
                        0 <= k2 < obs_indices@.len() ==> (#[trigger] obs_indices@[k2])
                            < self.total_obs(),
                    locals@ == locals_spec(counts, obs_indices@.take(k as int), m as int),
                    perm@ == perm_before + positions_spec(
                        counts,
                        obs_indices@.take(k as int),
                        m as int,
                    ),
                decreases obs_indices@.len() - k,
            {
                proof {
                    assert(obs_indices@.take(k as int + 1).drop_last() =~= obs_indices@.take(
                        k as int,
                    ));
                    assert(obs_indices@.take(k as int + 1).last() == obs_indices@[k as int]);
                }
                let g = obs_indices[k];
                match self.resolve_obs(g) {
                    Some((mm, l)) => {
                        if mm == m {
                            locals.push(l);
                            perm.push(k);
                        }
                    },
                    None => vstd::pervasive::unreached(),
                }
                k += 1;
            }
            proof {
                assert(obs_indices@.take(obs_indices@.len() as int) =~= obs_indices@);
            }
            let member = &self.anndatas[m].1;
            proof {
                assert(self.anndatas@[m as int].1.wf());
                assert forall|i: int| 0 <= i < locals@.len() implies (#[trigger] locals@[i])
                    < member.obs_names.names@.len() by {
                    lemma_locals_below(counts, obs_indices@, m as int, i);
                }
            }
            let names = gather_strings(&member.obs_names.names, &locals);
            let var_names = gather_strings(&member.var_names.names, &vsel);
            let mut a2 = AnnData::new_named(
                DataFrameIndex::from_names(names),
                DataFrameIndex::from_names(var_names),
            );
            let ghost locs = locals_spec(counts, obs_indices@, m as int);
            match member.read_x_selected(&locals, &vsel) {
                Ok(Some(v)) => {
                    proof {
                        assert(!(v@ is Scalar) && crate::element::selectable(v@)) by {
                            match member.x_value()->0 {
                                DataV::Scalar(_) => {
                                    assert(false);
                                },
                                DataV::Array(_) => {},
                                DataV::Frame(_) => {},
                            }
                        }
                    }
                    if let DynData::DataFrame(fr) = &v {
                        if !frame_names_unique(fr) {
                            proof {
                                assert(v@ == DataV::Frame(fr@));
                                assert(!crate::element::names_unique(v@));
                                assert(!member_subset_ok(self.anndatas@[m as int].1, locs, vsel@));
                            }
                            return Err(AnnError::AlreadyExists);
                        }
                    }
                    match a2.set_x(&v) {
                        Ok(()) => {
                            proof {
                                assert(member_subset_ok(self.anndatas@[m as int].1, locs, vsel@));
                            }
                        },
                        Err(e) => {
                            proof {
                                assert(!member_subset_ok(self.anndatas@[m as int].1, locs, vsel@));
                            }
                            return Err(AnnError::TypeMismatch);
                        },
                    }
                },
                Ok(None) => {
                    proof {
                        assert(member_subset_ok(self.anndatas@[m as int].1, locs, vsel@));
                    }
                },
                Err(e) => {
                    proof {
                        assert(e == AnnError::TypeMismatch);
                        assert(!member_subset_ok(self.anndatas@[m as int].1, locs, vsel@));
                    }
                    return Err(AnnError::TypeMismatch);
                },
            }
            let ghost members_before = members@;
            members.push((self.anndatas[m].0.clone(), a2));
            m += 1;
            proof {
                let newc = counts_of(members@);
                let oldc = counts_of(members_before);
                lemma_prefix_sum_congruence(oldc, newc, m as int - 1);
                assert(prefix_sum(newc, m as int) == prefix_sum(newc, m as int - 1) + newc[m as int
                    - 1]);
                assert(newc[m as int - 1] == locals_spec(counts, obs_indices@, m as int - 1).len());
                lemma_positions_locals_len(counts, obs_indices@, m as int - 1);
            }
        }
        let mut is_id = true;
        let mut i: usize = 0;
        while i < perm.len()
            invariant
                i <= perm@.len(),
                is_id == forall|j: int| 0 <= j < i ==> (#[trigger] perm@[j]) == j,
            decreases perm@.len() - i,
        {
            if perm[i] != i {
                proof {
                    assert(perm@[i as int] != i as int);
                }
                is_id = false;
            }
            i += 1;
        }
        let carried_uns = match &self.uns {
            Some(mu) => Some(mu.clone()),
            None => None,
        };
        let ds2 = AnnDataSet { anndatas: members, uns: carried_uns, closed: false };
        proof {
            assert(ds2.wf()) by {
                if ds2.anndatas@.len() > 0 {
                    assert(ds2.anndatas@[0].1.n_vars == vsel@.len());
                }
            }
        }
        if is_id {
            proof {
                assert(perm@ =~= Seq::new(obs_indices@.len(), |i: int| i as usize)) by {
                    lemma_grouped_positions_len(
                        counts,
                        obs_indices@,
                        self.anndatas@.len() as int,
                    );
                }
            }
            Ok((ds2, None))
        } else {
            proof {
                assert(perm@ != Seq::new(obs_indices@.len(), |i: int| i as usize));
            }
            Ok((ds2, Some(perm)))
        }
    }
}

/// Every local position lies below its member's observation count.
pub proof fn lemma_locals_below(counts: Seq<usize>, obs: Seq<usize>, m: int, i: int)
    requires
        0 <= i < locals_spec(counts, obs, m).len(),
        forall|k: int| 0 <= k < obs.len() ==> (#[trigger] obs[k]) < prefix_sum(counts, counts.len() as int),
        0 <= m < counts.len(),
    ensures
        locals_spec(counts, obs, m)[i] < counts[m],
    decreases obs.len(),
{
    if obs.len() > 0 {
        let prev = locals_spec(counts, obs.drop_last(), m);
        assert(forall|k: int|
            0 <= k < obs.drop_last().len() ==> (#[trigger] obs.drop_last()[k]) == obs[k]);
        if i < prev.len() {
            lemma_locals_below(counts, obs.drop_last(), m, i);
        } else {
            let g = obs.last() as int;
            lemma_member_of_local_range(counts, g, counts.len() as int);
        }
    }
}

/// A global position below the total resolves inside its member: the local
/// position is non-negative and below the member's count.
pub proof fn lemma_member_of_local_range(counts: Seq<usize>, g: int, len: int)
    requires
        0 <= g < prefix_sum(counts, counts.len() as int),
        len == counts.len(),
    ensures
        0 <= member_of(counts, g) < counts.len(),
        prefix_sum(counts, member_of(counts, g)) <= g,
        g - prefix_sum(counts, member_of(counts, g)) < counts[member_of(counts, g)],
    decreases counts.len(),
{
    if counts.len() > 0 {
        if g < counts[0] {
        } else {
            let tail = counts.skip(1);
            lemma_prefix_shift_at(counts, counts.len() as int);
            lemma_member_of_local_range(tail, g - counts[0], tail.len() as int);
            let mt = member_of(tail, g - counts[0]);
            lemma_prefix_shift_at(counts, mt + 1);
        }
    }
}

/// The prefix sums of a count list and of its tail differ by the head.
pub proof fn lemma_prefix_shift_at(counts: Seq<usize>, m: int)
    requires
        counts.len() >= 1,
        1 <= m <= counts.len(),
    ensures
        prefix_sum(counts, m) == counts[0] + prefix_sum(counts.skip(1), m - 1),
    decreases m,
{
    if m == 1 {
        assert(prefix_sum(counts, 1) == prefix_sum(counts, 0) + counts[0]);
        assert(prefix_sum(counts.skip(1), 0) == 0);
    } else {
        lemma_prefix_shift_at(counts, m - 1);
        assert(counts.skip(1)[m - 2] == counts[m - 1]);
        assert(prefix_sum(counts, m) == prefix_sum(counts, m - 1) + counts[m - 1]);
        assert(prefix_sum(counts.skip(1), m - 1) == prefix_sum(counts.skip(1), m - 2)
            + counts.skip(1)[m - 2]);
    }
}

/// The member-grouped position list enumerates every request position
/// exactly once, so its length is the request's.
pub proof fn lemma_grouped_positions_len(counts: Seq<usize>, obs: Seq<usize>, len: int)
    requires
        len == counts.len(),
        forall|k: int|
            0 <= k < obs.len() ==> (#[trigger] obs[k]) < prefix_sum(counts, counts.len() as int),
    ensures
        grouped_positions(counts, obs, len).len() == obs.len(),
    decreases obs.len(),
{
    if obs.len() == 0 {
        assert(obs =~= Seq::<usize>::empty());
        lemma_grouped_positions_empty(counts, len);
    } else {
        assert forall|k: int|
            0 <= k < obs.drop_last().len() implies (#[trigger] obs.drop_last()[k]) < prefix_sum(
            counts,
            counts.len() as int,
        ) by {
            assert(obs.drop_last()[k] == obs[k]);
        }
        lemma_grouped_positions_len(counts, obs.drop_last(), len);
        let g = obs.last() as int;
        assert(obs[obs.len() - 1] < prefix_sum(counts, counts.len() as int));
        lemma_member_of_local_range(counts, g, len);
        let gm = member_of(counts, g);
        assert(0 <= gm < len);
        lemma_grouped_positions_step(counts, obs, len, gm);
        assert(grouped_positions(counts, obs, len).len() == grouped_positions(
            counts,
            obs.drop_last(),
            len,
        ).len() + 1);
        assert(grouped_positions(counts, obs.drop_last(), len).len() == obs.len() - 1);
    }
}

/// With an empty request, every member's position list is empty.
pub proof fn lemma_grouped_positions_empty(counts: Seq<usize>, m: int)
    ensures
        grouped_positions(counts, Seq::<usize>::empty(), m).len() == 0,
    decreases m,
{
    if m > 0 {
        lemma_grouped_positions_empty(counts, m - 1);
    }
}

/// Appending one request position grows exactly its member's position list.
pub proof fn lemma_grouped_positions_step(counts: Seq<usize>, obs: Seq<usize>, m: int, gm: int)
    requires
        obs.len() >= 1,
        gm == member_of(counts, obs.last() as int),
    ensures
        grouped_positions(counts, obs, m).len() == grouped_positions(counts, obs.drop_last(), m).len()
            + (if gm < m && 0 <= gm {
                1int
            } else {
                0int
            }),
    decreases m,
{
    if m > 0 {
        lemma_grouped_positions_step(counts, obs, m - 1, gm);
    }
}

/// Prefix sums agree wherever the count lists agree.
pub proof fn lemma_prefix_sum_congruence(c1: Seq<usize>, c2: Seq<usize>, m: int)
    requires
        forall|j: int| 0 <= j < m ==> c1[j] == c2[j],
    ensures
        prefix_sum(c1, m) == prefix_sum(c2, m),
    decreases m,
{
    if m > 0 {
        lemma_prefix_sum_congruence(c1, c2, m - 1);
    }
}

/// A member's position list and local list are equally long.
pub proof fn lemma_positions_locals_len(counts: Seq<usize>, obs: Seq<usize>, m: int)
    ensures
        positions_spec(counts, obs, m).len() == locals_spec(counts, obs, m).len(),
    decreases obs.len(),
{
    if obs.len() > 0 {
        lemma_positions_locals_len(counts, obs.drop_last(), m);
    }
}

/// The two-dimensional array a member's primary matrix holds, if any.
pub open spec fn member_x_array(a: AnnData) -> Result<ArrayV, AnnError> {
    match a.x_value() {
        Some(DataV::Array(arr)) => if arr.shape_spec().len() == 2 {
            Ok(arr)
        } else {
            Err(AnnError::TypeMismatch)
        },
        Some(_) => Err(AnnError::TypeMismatch),
        None => Err(AnnError::NotFound),
    }
}

/// The first `m` members' primary matrices stacked along the observation
/// axis, or the failure of the first member that cannot join the stack.
pub open spec fn stacked_x_upto(ms: Seq<(String, AnnData)>, m: int) -> Result<ArrayV, AnnError>
    decreases m,
{
    if m <= 0 {
        Err(AnnError::NotFound)
    } else if m == 1 {
        member_x_array(ms[0].1)
    } else {
        match stacked_x_upto(ms, m - 1) {
            Err(e) => Err(e),
            Ok(acc) => match member_x_array(ms[m - 1].1) {
                Err(e) => Err(e),
                Ok(p) => if stackable(acc, p) {
                    Ok(arrayv_vstack(acc, p)->Ok_0)
                } else {
                    Err(AnnError::TypeMismatch)
                },
            },
        }
    }
}

/// A failing stack prefix decides the whole stack.
pub proof fn lemma_stacked_err(ms: Seq<(String, AnnData)>, k: int, len: int)
    requires
        1 <= k <= len,
        stacked_x_upto(ms, k) is Err,
    ensures
        stacked_x_upto(ms, len) == stacked_x_upto(ms, k),
    decreases len - k,
{
    if k < len {
        lemma_stacked_err(ms, k + 1, len);
    }
}

impl AnnDataSet {
    /// Materializes one single store holding the selected sub-matrix in the
    /// requested order, its row and column names, and the composite's
    /// unstructured metadata.  The primary matrix is copied when asked and
    /// when every member holds one; members' matrices must then be
    /// two-dimensional arrays of one shared kind.
    #[verifier::rlimit(100)]
    pub fn to_adata(&self, obs_indices: &Vec<usize>, var_indices: Option<&Vec<usize>>, copy_x: bool)
        -> (r: AnnResult<AnnData>)
        requires
            self.wf(),
        ensures
            ({
                let counts = counts_of(self.anndatas@);
                let nv = self.n_vars_spec() as int;
                let vsel = var_sel_model(var_indices, nv);
                let nm = self.anndatas@.len() as int;
                match r {
                    Ok(a2) => {
                        &&& !self.closed
                        &&& forall|k: int|
                            0 <= k < obs_indices@.len() ==> (#[trigger] obs_indices@[k])
                                < self.total_obs()
                        &&& a2.wf()
                        &&& !a2.closed
                        &&& a2.n_obs == obs_indices@.len()
                        &&& a2.n_vars == vsel.len()
                        &&& a2.var_names@.names == Seq::new(
                            vsel.len(),
                            |i: int| self.var_names_spec()[vsel[i] as int],
                        )
                        &&& forall|i: int|
                            0 <= i < obs_indices@.len() ==> {
                                let g = (#[trigger] obs_indices@[i]) as int;
                                let gm = member_of(counts, g);
                                a2.obs_names@.names[i] == self.anndatas@[gm].1.obs_names@.names[g
                                    - prefix_sum(counts, gm)]
                            }
                        &&& (!copy_x ==> a2.x_value() is None)
                        &&& (copy_x && nm > 0 && stacked_x_upto(self.anndatas@, nm) is Ok
                            ==> a2.x_value() == Some(
                            DataV::Array(
                                arrayv_cols(
                                    arrayv_rows(
                                        stacked_x_upto(self.anndatas@, nm)->Ok_0,
                                        obs_indices@,
                                    ),
                                    vsel,
                                ),
                            ),
                        ))
                        &&& (copy_x && (exists|m: int|
                            0 <= m < nm && (#[trigger] self.anndatas@[m]).1.x is None)
                            ==> a2.x_value() is None)
                        &&& (self.uns matches Some(mu) ==> crate::codec::map_decode(
                            a2.file@,
                            crate::backend::child_id(a2.file@.child_seq(0), "uns"@) as int,
                        ) == Ok::<Seq<(Seq<char>, DataV)>, AnnError>(mu@) && has_child(
                            a2.file@.child_seq(0),
                            "uns"@,
                        ))
                    },
                    Err(e) => {
                        &&& (e == AnnError::StoreClosed <==> self.closed)
                        &&& (e == AnnError::IndexOutOfBounds <==> !self.closed
                            && !selection_in_bounds(*self, obs_indices@, var_indices))
                        &&& (e == AnnError::TypeMismatch <==> !self.closed
                            && selection_in_bounds(*self, obs_indices@, var_indices) && copy_x && nm
                            > 0 && (forall|m: int|
                            0 <= m < nm ==> (#[trigger] self.anndatas@[m]).1.x is Some)
                            && stacked_x_upto(self.anndatas@, nm) is Err)
                        &&& (e == AnnError::StoreClosed || e == AnnError::IndexOutOfBounds || e
                            == AnnError::TypeMismatch)
                    },
                }
            }),
            r is Ok <==> !self.closed && selection_in_bounds(*self, obs_indices@, var_indices) && (
            !copy_x || self.anndatas@.len() == 0 || (exists|m: int|
                0 <= m < self.anndatas@.len() && (#[trigger] self.anndatas@[m]).1.x is None)
                || stacked_x_upto(self.anndatas@, self.anndatas@.len() as int) is Ok),
    {
        if self.closed {
            return Err(AnnError::StoreClosed);
        }
        let total = self.n_obs();
        if !all_positions_below(obs_indices, total) {
            return Err(AnnError::IndexOutOfBounds);
        }
        let nv = self.n_vars();
        let vsel: Vec<usize> = match var_indices {
            Some(v) => {
                if !all_positions_below(v, nv) {
                    return Err(AnnError::IndexOutOfBounds);
                }
                crate::values::clone_copy_vec(v)
            },
            None => iota(nv),
        };
        let ghost counts = counts_of(self.anndatas@);
        proof {
            assert(selection_in_bounds(*self, obs_indices@, var_indices));
        }
        let all_names = self.obs_names();
        let names = gather_strings(&all_names, obs_indices);
        let var_names = gather_strings(&self.var_names(), &vsel);
        let mut a2 = AnnData::new_named(
            DataFrameIndex::from_names(names),
            DataFrameIndex::from_names(var_names),
        );
        if copy_x && self.anndatas.len() > 0 {
            let mut missing = false;
            let mut m: usize = 0;
            while m < self.anndatas.len()
                invariant
                    self.wf(),
                    !self.closed,
                    selection_in_bounds(*self, obs_indices@, var_indices),
                    m <= self.anndatas@.len(),
                    !missing ==> forall|j: int|
                        0 <= j < m ==> (#[trigger] self.anndatas@[j]).1.x is Some,
                    missing ==> exists|j: int|
                        0 <= j < m && (#[trigger] self.anndatas@[j]).1.x is None,
                decreases self.anndatas@.len() - m,
            {
                if matches!(&self.anndatas[m].1.x, Option::None) {
                    missing = true;
                }
                m += 1;
            }
            if missing {
                proof {
                    let j = choose|j: int|
                        0 <= j < self.anndatas@.len() && (#[trigger] self.anndatas@[j]).1.x
                            is None;
                    if j == 0 {
                        assert(stacked_x_upto(self.anndatas@, 1) == Err::<ArrayV, AnnError>(
                            AnnError::NotFound,
                        ));
                        lemma_stacked_err(self.anndatas@, 1, self.anndatas@.len() as int);
                    } else {
                        lemma_stacked_missing(self.anndatas@, j);
                        lemma_stacked_err(self.anndatas@, j + 1, self.anndatas@.len() as int);
                    }
                }
                match &self.uns {
                    Some(mu) => match a2.set_uns(mu) {
                        Ok(()) => {},
                        Err(_) => {
                            proof {
                                assert(false);
                            }
                            vstd::pervasive::unreached()
                        },
                    },
                    None => {},
                }
                return Ok(a2);
            }
            let first = &self.anndatas[0].1;
            let v0 = match first.read_x() {
                Ok(Some(v)) => v,
                _ => vstd::pervasive::unreached(),
            };
            let mut acc: DynArray = match v0 {
                DynData::Array(arr) => {
                    if arr.ndim() != 2 {
                        proof {
                            lemma_stacked_err(self.anndatas@, 1, self.anndatas@.len() as int);
                        }
                        return Err(AnnError::TypeMismatch);
                    }
                    arr
                },
                _ => {
                    proof {
                        lemma_stacked_err(self.anndatas@, 1, self.anndatas@.len() as int);
                    }
                    return Err(AnnError::TypeMismatch);
                },
            };
            proof {
                crate::element::lemma_decoded_array_wf(
                    first.file@,
                    first.x->0.inner.container.node as int,
                );
                let first_s = self.anndatas@[0].1;
                assert(first_s.wf());
                assert(first_s.x->0.nrows == first_s.n_obs);
                assert(first_s.x->0.ncols == first_s.n_vars);
                assert(acc@ == member_x_array(first_s)->Ok_0);
                assert(Ok::<ArrayV, AnnError>(acc@) == stacked_x_upto(self.anndatas@, 1));
                assert(crate::element::data_nrows(first_s.x_value()->0) == acc@.shape_spec()[0]);
                assert(crate::element::data_ncols(first_s.x_value()->0) == acc@.shape_spec()[1]);
                assert(prefix_sum(counts, 1) == prefix_sum(counts, 0) + counts[0]);
                assert(counts[0] == first_s.n_obs);
            }
            let mut m: usize = 1;
            while m < self.anndatas.len()
                invariant
                    self.wf(),
                    !self.closed,
                    copy_x,
                    selection_in_bounds(*self, obs_indices@, var_indices),
                    counts == counts_of(self.anndatas@),
                    1 <= m <= self.anndatas@.len(),
                    forall|j: int| 0 <= j < self.anndatas@.len() ==> (#[trigger] self.anndatas@[j]).1.x is Some,
                    Ok::<ArrayV, AnnError>(acc@) == stacked_x_upto(self.anndatas@, m as int),
                    acc@.wf(),
                    acc@.shape_spec().len() == 2,
                    acc@.shape_spec()[0] == prefix_sum(counts, m as int),
                    acc@.shape_spec()[1] == self.n_vars_spec(),
                decreases self.anndatas@.len() - m,
            {
                let member = &self.anndatas[m].1;
                let vm = match member.read_x() {
                    Ok(Some(v)) => v,
                    _ => vstd::pervasive::unreached(),
                };
                let part: DynArray = match vm {
                    DynData::Array(arr) => {
                        if arr.ndim() != 2 {
                            proof {
                                lemma_stacked_err(
                                    self.anndatas@,
                                    m as int + 1,
                                    self.anndatas@.len() as int,
                                );
                            }
                            return Err(AnnError::TypeMismatch);
                        }
                        arr
                    },
                    _ => {
                        proof {
                            lemma_stacked_err(
                                self.anndatas@,
                                m as int + 1,
                                self.anndatas@.len() as int,
                            );
                        }
                        return Err(AnnError::TypeMismatch);
                    },
                };
                proof {
                    crate::element::lemma_decoded_array_wf(
                        member.file@,
                        member.x->0.inner.container.node as int,
                    );
                    lemma_prefix_sum_bounds(counts, m as int);
                    lemma_prefix_sum_mono(counts, m as int + 1, self.anndatas@.len() as int);
                    assert(part@.shape_spec()[0] == counts[m as int]) by {
                        assert(member.x->0.nrows == member.n_obs);
                    }
                }
                let stacked = match acc.vstack(&part) {
                    Ok(st) => st,
                    Err(_) => {
                        proof {
                            lemma_stacked_err(
                                self.anndatas@,
                                m as int + 1,
                                self.anndatas@.len() as int,
                            );
                        }
                        return Err(AnnError::TypeMismatch);
                    },
                };
                acc = stacked;
                m += 1;
            }
            if acc.ndim() != 2 {
                return Err(AnnError::TypeMismatch);
            }
            proof {
                lemma_prefix_sum_bounds(counts, self.anndatas@.len() as int);
            }
            let picked = acc.select_both(obs_indices, &vsel);
            match a2.set_x(&DynData::Array(picked)) {
                Ok(()) => {},
                Err(_) => {
                    return Err(AnnError::TypeMismatch);
                },
            }
        }
        match &self.uns {
            Some(mu) => match a2.set_uns(mu) {
                Ok(()) => {},
                Err(_) => {
                    proof {
                        assert(false);
                    }
                    vstd::pervasive::unreached()
                },
            },
            None => {},
        }
        Ok(a2)
    }
}

/// A member without a primary matrix fails the stack with `NotFound` by its
/// own turn at the latest.
pub proof fn lemma_stacked_missing(ms: Seq<(String, AnnData)>, j: int)
    requires
        0 < j < ms.len(),
        ms[j].1.x is None,
    ensures
        stacked_x_upto(ms, j + 1) is Err,
{
    if stacked_x_upto(ms, j) is Err {
    } else {
        assert(member_x_array(ms[j].1) == Err::<ArrayV, AnnError>(AnnError::NotFound));
    }
}
} // verus!
