//! The type-descriptor oracle modelled as a table: every enum declaration the
//! encoder may meet, with its variants, their field types and the number of
//! formal type parameters; and the derived classification of an enum.

use vstd::prelude::*;

use crate::types::{lemma_tyv_list_len, tyv_list, DefId, Ty, TyV};

verus! {

/// One variant of an enum declaration: its name's bytes and the types of the
/// data it carries.
pub struct VariantInfo {
    pub name: Vec<u8>,
    pub args: Vec<Ty>,
}

/// Ghost mirror of [`VariantInfo`].
pub struct VariantInfoV {
    pub name: Seq<u8>,
    pub args: Seq<TyV>,
}

impl View for VariantInfo {
    type V = VariantInfoV;

    open spec fn view(&self) -> VariantInfoV {
        VariantInfoV { name: self.name@, args: tyv_list(self.args@) }
    }
}

pub open spec fn variant_list_v(vs: Seq<VariantInfo>) -> Seq<VariantInfoV>
    decreases vs,
{
    if vs.len() == 0 {
        Seq::empty()
    } else {
        variant_list_v(vs.drop_last()).push(vs.last()@)
    }
}

pub broadcast proof fn lemma_variant_list_len(vs: Seq<VariantInfo>)
    ensures
        #[trigger] variant_list_v(vs).len() == vs.len(),
    decreases vs,
{
    if vs.len() > 0 {
        lemma_variant_list_len(vs.drop_last());
    }
}

pub broadcast proof fn lemma_variant_list_index(vs: Seq<VariantInfo>, i: int)
    requires
        0 <= i < vs.len(),
    ensures
        #[trigger] variant_list_v(vs)[i] == vs[i]@,
    decreases vs,
{
    lemma_variant_list_len(vs);
    if i < vs.len() - 1 {
        lemma_variant_list_index(vs.drop_last(), i);
    }
}

/// One enum declaration: its identity, its variants in declaration order,
/// and how many formal type parameters it has.
pub struct EnumDef {
    pub did: DefId,
    pub variants: Vec<VariantInfo>,
    pub ty_param_count: usize,
}

/// Ghost mirror of [`EnumDef`].
pub struct EnumDefV {
    pub did: DefId,
    pub variants: Seq<VariantInfoV>,
    pub ty_param_count: nat,
}

impl View for EnumDef {
    type V = EnumDefV;

    open spec fn view(&self) -> EnumDefV {
        EnumDefV {
            did: self.did,
            variants: variant_list_v(self.variants@),
            ty_param_count: self.ty_param_count as nat,
        }
    }
}

pub open spec fn enum_def_list_v(ds: Seq<EnumDef>) -> Seq<EnumDefV>
    decreases ds,
{
    if ds.len() == 0 {
        Seq::empty()
    } else {
        enum_def_list_v(ds.drop_last()).push(ds.last()@)
    }
}

pub broadcast proof fn lemma_enum_def_list_len(ds: Seq<EnumDef>)
    ensures
        #[trigger] enum_def_list_v(ds).len() == ds.len(),
    decreases ds,
{
    if ds.len() > 0 {
        lemma_enum_def_list_len(ds.drop_last());
    }
}

pub broadcast proof fn lemma_enum_def_list_index(ds: Seq<EnumDef>, i: int)
    requires
        0 <= i < ds.len(),
    ensures
        #[trigger] enum_def_list_v(ds)[i] == ds[i]@,
    decreases ds,
{
    lemma_enum_def_list_len(ds);
    if i < ds.len() - 1 {
        lemma_enum_def_list_index(ds.drop_last(), i);
    }
}

/// The table of enum declarations consulted during encoding and layout.
pub struct TyCtxt {
    pub enums: Vec<EnumDef>,
}

/// Ghost mirror of [`TyCtxt`].
pub struct TyCtxtV {
    pub enums: Seq<EnumDefV>,
}

impl View for TyCtxt {
    type V = TyCtxtV;

    open spec fn view(&self) -> TyCtxtV {
        TyCtxtV { enums: enum_def_list_v(self.enums@) }
    }
}

/// Table well-formedness: each declaration appears once.
pub open spec fn tcx_wf(tcx: TyCtxtV) -> bool {
    forall|i: int, j: int|
        0 <= i < j < tcx.enums.len() ==> tcx.enums[i].did != tcx.enums[j].did
}

/// Whether the table has a declaration for `did`.
pub open spec fn tcx_has(tcx: TyCtxtV, did: DefId) -> bool {
    exists|i: int| 0 <= i < tcx.enums.len() && tcx.enums[i].did == did
}

/// The declaration of `did`; meaningful when `tcx_has(tcx, did)`.
pub open spec fn enum_def_v(tcx: TyCtxtV, did: DefId) -> EnumDefV {
    tcx.enums[choose|i: int| 0 <= i < tcx.enums.len() && tcx.enums[i].did == did]
}

/// Classification of an enum, derived from its variant list.
#[derive(Clone, Copy, Debug, PartialEq, Eq, Structural)]
pub enum EnumKind {
    /// One variant, no data: a unit value.
    Unit,
    /// Several variants, none with data: a bare discriminant.
    Plain,
    /// One variant carrying data.
    Newtype,
    /// Several variants, at least one carrying data.
    Complex,
}

/// Whether some variant carries data.
pub open spec fn any_variant_has_args(vs: Seq<VariantInfoV>) -> bool {
    exists|i: int| 0 <= i < vs.len() && vs[i].args.len() > 0
}

/// The classification of a variant list.
pub open spec fn enum_kind_v(vs: Seq<VariantInfoV>) -> EnumKind {
    if any_variant_has_args(vs) {
        if vs.len() == 1 {
            EnumKind::Newtype
        } else {
            EnumKind::Complex
        }
    } else {
        if vs.len() <= 1 {
            EnumKind::Unit
        } else {
            EnumKind::Plain
        }
    }
}

/// Whether an enum gets a tag-registry entry and appears in the generated
/// tables: only data-carrying (newtype and complex) enums do.
pub open spec fn is_tagged_kind(k: EnumKind) -> bool {
    k == EnumKind::Newtype || k == EnumKind::Complex
}

impl TyCtxt {
    /// Finds the declaration of `did` in the table.
    pub fn lookup_enum(&self, did: DefId) -> (r: Option<&EnumDef>)
        requires
            tcx_wf(self@),
        ensures
            match r {
                Some(d) => tcx_has(self@, did) && d@ == enum_def_v(self@, did) && d@.did == did,
                None => !tcx_has(self@, did),
            },
    {
        proof {
            lemma_enum_def_list_len(self.enums@);
        }
        let mut i: usize = 0;
        while i < self.enums.len()
            invariant
                tcx_wf(self@),
                i <= self@.enums.len(),
                self@.enums.len() == self.enums@.len(),
                forall|j: int| 0 <= j < i ==> self@.enums[j].did != did,
            decreases self@.enums.len() - i,
        {
            proof {
                lemma_enum_def_list_index(self.enums@, i as int);
            }
            if self.enums[i].did == did {
                proof {
                    assert(tcx_has(self@, did));
                    let w = choose|k: int|
                        0 <= k < self@.enums.len() && self@.enums[k].did == did;
                    assert(self@.enums[w].did == did);
                    assert(w == i as int);
                }
                return Some(&self.enums[i]);
            }
            i = i + 1;
        }
        None
    }
}

/// Classifies the enum declared as `did`.
pub fn enum_kind(tcx: &TyCtxt, did: DefId) -> (r: EnumKind)
    requires
        tcx_wf(tcx@),
        tcx_has(tcx@, did),
    ensures
        r == enum_kind_v(enum_def_v(tcx@, did).variants),
{
    let def = match tcx.lookup_enum(did) {
        Some(d) => d,
        None => {
            proof {
                assert(false);
            }
            unreached()
        },
    };
    let ghost vs = enum_def_v(tcx@, did).variants;
    let mut has_data = false;
    let mut i: usize = 0;
    proof {
        lemma_variant_list_len(def.variants@);
    }
    while i < def.variants.len()
        invariant
            def@.variants == vs,
            def@.variants.len() == def.variants@.len(),
            i <= vs.len(),
            has_data == exists|j: int| 0 <= j < i && vs[j].args.len() > 0,
        decreases vs.len() - i,
    {
        proof {
            lemma_variant_list_index(def.variants@, i as int);
            lemma_tyv_list_len(def.variants@[i as int].args@);
        }
        if def.variants[i].args.len() > 0 {
            has_data = true;
        }
        i = i + 1;
    }
    let n = def.variants.len();
    if has_data {
        if n == 1 {
            EnumKind::Newtype
        } else {
            EnumKind::Complex
        }
    } else {
        if n <= 1 {
            EnumKind::Unit
        } else {
            EnumKind::Plain
        }
    }
}

} // verus!
