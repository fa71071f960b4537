//! The per-run registry: dense `u16` ids for enum declarations in
//! first-discovery order, and an interning table for resource type
//! instantiations keyed by structural identity.

use vstd::prelude::*;

use crate::types::{tyv_list, ty_list_eq, lemma_tyv_list_len, DefId, Ty, TyV};

verus! {

/// Interning key of a resource type instantiation: the declaration and the
/// ordered list of concrete type arguments.
pub struct ResInfo {
    pub did: DefId,
    pub tps: Vec<Ty>,
}

/// Ghost mirror of [`ResInfo`].
pub struct ResInfoV {
    pub did: DefId,
    pub tps: Seq<TyV>,
}

impl View for ResInfo {
    type V = ResInfoV;

    open spec fn view(&self) -> ResInfoV {
        ResInfoV { did: self.did, tps: tyv_list(self.tps@) }
    }
}

/// Ghost mirrors of a list of interning keys, in order.
pub open spec fn res_list_v(rs: Seq<ResInfo>) -> Seq<ResInfoV>
    decreases rs,
{
    if rs.len() == 0 {
        Seq::empty()
    } else {
        res_list_v(rs.drop_last()).push(rs.last()@)
    }
}

pub broadcast proof fn lemma_res_list_len(rs: Seq<ResInfo>)
    ensures
        #[trigger] res_list_v(rs).len() == rs.len(),
    decreases rs,
{
    if rs.len() > 0 {
        lemma_res_list_len(rs.drop_last());
    }
}

pub broadcast proof fn lemma_res_list_index(rs: Seq<ResInfo>, i: int)
    requires
        0 <= i < rs.len(),
    ensures
        #[trigger] res_list_v(rs)[i] == rs[i]@,
    decreases rs,
{
    lemma_res_list_len(rs);
    if i < rs.len() - 1 {
        lemma_res_list_index(rs.drop_last(), i);
    }
}

pub broadcast proof fn lemma_res_list_push(rs: Seq<ResInfo>, r: ResInfo)
    ensures
        #[trigger] res_list_v(rs.push(r)) == res_list_v(rs).push(r@),
{
    assert(rs.push(r).drop_last() =~= rs);
}

/// The registry carried through one table-generation run: enum declarations
/// in first-discovery order (the position is the tag id), and interned
/// resource instantiations (the position is the resource id).
pub struct Ctxt {
    pub tags: Vec<DefId>,
    pub resources: Vec<ResInfo>,
}

/// Ghost mirror of [`Ctxt`].
pub struct CtxtV {
    pub tags: Seq<DefId>,
    pub resources: Seq<ResInfoV>,
}

impl View for Ctxt {
    type V = CtxtV;

    open spec fn view(&self) -> CtxtV {
        CtxtV { tags: self.tags@, resources: res_list_v(self.resources@) }
    }
}

/// Registry well-formedness: ids are dense `u16` values, so both lists are
/// bounded, and no declaration or interning key occurs twice.
pub open spec fn ctxt_wf(c: CtxtV) -> bool {
    &&& c.tags.len() <= 0xffff
    &&& forall|i: int, j: int|
        0 <= i < j < c.tags.len() ==> c.tags[i] != c.tags[j]
    &&& c.resources.len() <= 0xffff
    &&& forall|i: int, j: int|
        0 <= i < j < c.resources.len() ==> c.resources[i] != c.resources[j]
}

/// One registry growing out of another: everything registered before keeps
/// its id, and nothing is ever removed.
pub open spec fn ctxt_extends(old_c: CtxtV, new_c: CtxtV) -> bool {
    &&& old_c.tags.len() <= new_c.tags.len()
    &&& new_c.tags.subrange(0, old_c.tags.len() as int) == old_c.tags
    &&& old_c.resources.len() <= new_c.resources.len()
    &&& new_c.resources.subrange(0, old_c.resources.len() as int) == old_c.resources
}

pub proof fn lemma_ctxt_extends_trans(a: CtxtV, b: CtxtV, c: CtxtV)
    requires
        ctxt_extends(a, b),
        ctxt_extends(b, c),
    ensures
        ctxt_extends(a, c),
{
    assert(c.tags.subrange(0, a.tags.len() as int) =~= b.tags.subrange(
        0,
        a.tags.len() as int,
    ));
    assert(c.resources.subrange(0, a.resources.len() as int) =~= b.resources.subrange(
        0,
        a.resources.len() as int,
    ));
}

/// A fresh registry for one table-generation run.
pub fn mk_ctxt() -> (r: Ctxt)
    ensures
        r@.tags == Seq::<DefId>::empty(),
        r@.resources == Seq::<ResInfoV>::empty(),
        ctxt_wf(r@),
{
    Ctxt::new()
}

impl Ctxt {
    /// A fresh registry with no enums and no resources.
    pub fn new() -> (r: Ctxt)
        ensures
            r@.tags == Seq::<DefId>::empty(),
            r@.resources == Seq::<ResInfoV>::empty(),
            ctxt_wf(r@),
    {
        Ctxt { tags: Vec::new(), resources: Vec::new() }
    }

    /// The number of registered enum declarations, which is also the next
    /// tag id to be assigned.
    pub fn next_tag_id(&self) -> (r: usize)
        ensures
            r == self@.tags.len(),
    {
        self.tags.len()
    }

    /// Looks up the tag id of `did`, if it has been registered.
    pub fn find_tag(&self, did: DefId) -> (r: Option<u16>)
        requires
            ctxt_wf(self@),
        ensures
            match r {
                Some(id) => id < self@.tags.len() && self@.tags[id as int] == did,
                None => !self@.tags.contains(did),
            },
    {
        let mut i: usize = 0;
        while i < self.tags.len()
            invariant
                ctxt_wf(self@),
                i <= self@.tags.len(),
                forall|j: int| 0 <= j < i ==> self@.tags[j] != did,
            decreases self@.tags.len() - i,
        {
            if self.tags[i] == did {
                return Some(i as u16);
            }
            i = i + 1;
        }
        proof {
            assert(forall|j: int| 0 <= j < self@.tags.len() ==> self@.tags[j] != did);
        }
        None
    }

    /// Looks up the tag id of `did`, registering it with the next dense id
    /// if it is new. Discovery order is the id order.
    pub fn register_tag(&mut self, did: DefId) -> (r: u16)
        requires
            ctxt_wf(old(self)@),
            old(self)@.tags.len() < 0xffff,
        ensures
            ctxt_wf(final(self)@),
            final(self)@.resources == old(self)@.resources,
            r < final(self)@.tags.len(),
            final(self)@.tags[r as int] == did,
            old(self)@.tags.contains(did) ==> final(self)@ == old(self)@,
            !old(self)@.tags.contains(did) ==> final(self)@.tags == old(self)@.tags.push(did)
                && r == old(self)@.tags.len(),
            ctxt_extends(old(self)@, final(self)@),
    {
        let found = self.find_tag(did);
        match found {
            Some(id) => {
                proof {
                    assert(final(self)@.tags.subrange(0, final(self)@.tags.len() as int)
                        =~= final(self)@.tags);
                    assert(final(self)@.resources.subrange(
                        0,
                        final(self)@.resources.len() as int,
                    ) =~= final(self)@.resources);
                    assert(old(self)@.tags.contains(did));
                }
                id
            },
            None => {
                let id = self.tags.len() as u16;
                self.tags.push(did);
                proof {
                    assert(old(self)@.tags.contains(did) == false);
                    assert(final(self)@.tags =~= old(self)@.tags.push(did));
                    assert(final(self)@.tags.subrange(0, old(self)@.tags.len() as int)
                        =~= old(self)@.tags);
                    assert(final(self)@.resources.subrange(
                        0,
                        old(self)@.resources.len() as int,
                    ) =~= final(self)@.resources);
                }
                id
            },
        }
    }

    /// Looks up the resource id of the interning key `ri`, if an identical
    /// key has been interned.
    fn find_resource(&self, ri: &ResInfo) -> (r: Option<u16>)
        requires
            ctxt_wf(self@),
        ensures
            match r {
                Some(id) => id < self@.resources.len() && self@.resources[id as int] == ri@,
                None => !self@.resources.contains(ri@),
            },
    {
        proof {
            lemma_res_list_len(self.resources@);
        }
        let mut i: usize = 0;
        while i < self.resources.len()
            invariant
                ctxt_wf(self@),
                i <= self@.resources.len(),
                self@.resources.len() == self.resources@.len(),
                forall|j: int| 0 <= j < i ==> self@.resources[j] != ri@,
            decreases self@.resources.len() - i,
        {
            let same_did = self.resources[i].did == ri.did;
            let same_tps = if same_did {
                ty_list_eq(&self.resources[i].tps, &ri.tps)
            } else {
                false
            };
            proof {
                lemma_res_list_index(self.resources@, i as int);
            }
            if same_did && same_tps {
                return Some(i as u16);
            }
            i = i + 1;
        }
        proof {
            assert(forall|j: int| 0 <= j < self@.resources.len() ==> self@.resources[j] != ri@);
        }
        None
    }

    /// Interns the key `ri`: returns the id of an identical key if one was
    /// interned before, and assigns the next dense id otherwise.
    pub fn intern_resource(&mut self, ri: ResInfo) -> (r: u16)
        requires
            ctxt_wf(old(self)@),
            old(self)@.resources.len() < 0xffff,
        ensures
            ctxt_wf(final(self)@),
            final(self)@.tags == old(self)@.tags,
            r < final(self)@.resources.len(),
            final(self)@.resources[r as int] == ri@,
            old(self)@.resources.contains(ri@) ==> final(self)@ == old(self)@,
            !old(self)@.resources.contains(ri@) ==> final(self)@.resources == old(
                self,
            )@.resources.push(ri@) && r == old(self)@.resources.len(),
            ctxt_extends(old(self)@, final(self)@),
    {
        let found = self.find_resource(&ri);
        match found {
            Some(id) => {
                proof {
                    assert(old(self)@.resources.contains(ri@));
                    assert(final(self)@.tags.subrange(0, final(self)@.tags.len() as int)
                        =~= final(self)@.tags);
                    assert(final(self)@.resources.subrange(
                        0,
                        final(self)@.resources.len() as int,
                    ) =~= final(self)@.resources);
                }
                id
            },
            None => {
                proof {
                    lemma_res_list_len(self.resources@);
                }
                let id = self.resources.len() as u16;
                let ghost rg = ri;
                self.resources.push(ri);
                proof {
                    lemma_res_list_push(old(self).resources@, rg);
                    assert(final(self)@.resources =~= old(self)@.resources.push(rg@));
                    lemma_res_list_len(final(self).resources@);
                    lemma_res_list_index(final(self).resources@, id as int);
                    assert(final(self)@.resources.subrange(0, old(self)@.resources.len() as int)
                        =~= old(self)@.resources);
                    assert(final(self)@.tags.subrange(0, old(self)@.tags.len() as int)
                        =~= old(self)@.tags);
                }
                id
            },
        }
    }
}

/// The polynomial interning hash over a resource key: base 5381, factor 33,
/// folded over the declaration's two components and then each type
/// argument's canonical numeric identity, with wrapping 64-bit arithmetic.
pub open spec fn hash_res_info_v(did: DefId, ids: Seq<u64>) -> u64
    decreases ids,
{
    if ids.len() == 0 {
        (5381u64.wrapping_mul(33).wrapping_add(did.krate as u64)).wrapping_mul(
            33,
        ).wrapping_add(did.node as u64)
    } else {
        hash_res_info_v(did, ids.drop_last()).wrapping_mul(33).wrapping_add(ids.last())
    }
}

/// Hashes a resource interning key from its declaration and the canonical
/// numeric identities of its type arguments.
pub fn hash_res_info(did: DefId, type_ids: &Vec<u64>) -> (r: u64)
    ensures
        r == hash_res_info_v(did, type_ids@),
{
    let mut h: u64 = 5381;
    h = h.wrapping_mul(33).wrapping_add(did.krate as u64);
    h = h.wrapping_mul(33).wrapping_add(did.node as u64);
    let mut i: usize = 0;
    while i < type_ids.len()
        invariant
            i <= type_ids@.len(),
            h == hash_res_info_v(did, type_ids@.subrange(0, i as int)),
        decreases type_ids@.len() - i,
    {
        h = h.wrapping_mul(33).wrapping_add(type_ids[i]);
        i = i + 1;
        proof {
            assert(type_ids@.subrange(0, i as int).drop_last() =~= type_ids@.subrange(
                0,
                i - 1,
            ));
        }
    }
    proof {
        assert(type_ids@.subrange(0, type_ids@.len() as int) =~= type_ids@);
    }
    h
}

} // verus!
