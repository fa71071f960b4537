//! The static layout model: byte size and alignment of concrete type
//! descriptors on a target architecture, the recursion-removing type
//! simplifier, and the conservative static size of an enum.

use vstd::prelude::*;

use crate::arch::{word_bytes, word_bytes_v, Arch};
use crate::tcx::{
    enum_def_v, lemma_variant_list_index, lemma_variant_list_len, tcx_has, tcx_wf, EnumDefV,
    TyCtxt, TyCtxtV,
};
use crate::types::{
    lemma_tyv_list_index, lemma_tyv_list_len, lemma_tyv_list_push, subst_list_v, subst_v,
    substitute, tyv, tyv_list, Ty, TyV,
};

verus! {

/// A byte size together with a byte alignment.
#[derive(Clone, Copy, Debug, PartialEq, Eq, Structural)]
pub struct SizeAlign {
    pub size: u16,
    pub align: u8,
}

/// The smallest multiple of `align` that is at least `size`.
pub open spec fn round_up_v(size: nat, align: nat) -> nat
    recommends
        align >= 1,
{
    ((size + align - 1) / align as int * align as int) as nat
}

/// Rounds `size` up to the next multiple of `align`.
pub fn round_up(size: u16, align: u8) -> (r: u16)
    requires
        align >= 1,
        size - 1 + align <= 0xffff,
    ensures
        r == round_up_v(size as nat, align as nat),
        r % (align as u16) == 0,
        size <= r < size + align,
{
    proof {
        let s = size as int;
        let al = align as int;
        assert(((s + al - 1) / al) * al % al == 0) by (nonlinear_arith)
            requires
                al >= 1,
        ;
        assert(s <= ((s + al - 1) / al) * al < s + al) by (nonlinear_arith)
            requires
                al >= 1,
                s >= 0,
        ;
    }
    let a = align as u32;
    let r = ((size as u32) + a - 1) / a * a;
    r as u16
}

/// The simplified, size-equivalent form of a type: every indirection-bearing
/// constructor becomes a fixed-size leaf, so the result is never recursive
/// through the enum table. Functions become two words; a resource becomes a
/// word-sized discriminant paired with its simplified payload.
pub open spec fn simplify_v(t: TyV) -> TyV
    decreases t,
{
    match t {
        TyV::Boxed => TyV::Ptr,
        TyV::Uniq(_) => TyV::Ptr,
        TyV::Vect(_) => TyV::Ptr,
        TyV::Ptr => TyV::Ptr,
        TyV::Func(_) => TyV::Tup(seq![TyV::Ptr, TyV::Ptr]),
        TyV::Res(_, inner, _) => TyV::Tup(seq![TyV::Int, simplify_v(*inner)]),
        TyV::Rptr(inner) => TyV::Rptr(Box::new(simplify_v(*inner))),
        TyV::Tup(ts) => TyV::Tup(simplify_list_v(ts)),
        TyV::Enum(did, tps) => TyV::Enum(did, simplify_list_v(tps)),
        _ => t,
    }
}

pub open spec fn simplify_list_v(ts: Seq<TyV>) -> Seq<TyV>
    decreases ts,
{
    if ts.len() == 0 {
        Seq::empty()
    } else {
        simplify_list_v(ts.drop_last()).push(simplify_v(ts.last()))
    }
}

pub broadcast proof fn lemma_simplify_list_push(ts: Seq<TyV>, t: TyV)
    ensures
        #[trigger] simplify_list_v(ts.push(t)) == simplify_list_v(ts).push(simplify_v(t)),
{
    assert(ts.push(t).drop_last() =~= ts);
}

/// Maps a type to its simplified, size-equivalent form.
pub fn simplify_type(t: &Ty) -> (r: Ty)
    ensures
        r@ == simplify_v(t@),
    decreases *t,
{
    match t {
        Ty::Boxed => Ty::Ptr,
        Ty::Uniq(_) => Ty::Ptr,
        Ty::Vect(_) => Ty::Ptr,
        Ty::Ptr => Ty::Ptr,
        Ty::Func(_) => {
            let fields = vec![Ty::Ptr, Ty::Ptr];
            proof {
                assert(fields@ =~= seq![Ty::Ptr, Ty::Ptr]);
                lemma_tyv_list_len(fields@);
                lemma_tyv_list_index(fields@, 0);
                lemma_tyv_list_index(fields@, 1);
                assert(tyv_list(fields@) =~= seq![TyV::Ptr, TyV::Ptr]);
            }
            Ty::Tup(fields)
        },
        Ty::Res(_, inner, _) => {
            let simp = simplify_type(inner);
            let ghost simp_g = simp;
            let fields = vec![Ty::Int, simp];
            proof {
                assert(fields@ =~= seq![Ty::Int, simp_g]);
                lemma_tyv_list_len(fields@);
                lemma_tyv_list_index(fields@, 0);
                lemma_tyv_list_index(fields@, 1);
                assert(tyv_list(fields@) =~= seq![TyV::Int, simplify_v(inner@)]);
            }
            Ty::Tup(fields)
        },
        Ty::Rptr(inner) => Ty::Rptr(Box::new(simplify_type(inner))),
        Ty::Tup(ts) => Ty::Tup(simplify_list(ts)),
        Ty::Enum(did, tps) => Ty::Enum(*did, simplify_list(tps)),
        other => other.deep_copy(),
    }
}

fn simplify_list(ts: &Vec<Ty>) -> (r: Vec<Ty>)
    ensures
        tyv_list(r@) == simplify_list_v(tyv_list(ts@)),
    decreases *ts,
{
    let mut out: Vec<Ty> = Vec::new();
    let mut i: usize = 0;
    proof {
        lemma_tyv_list_len(ts@);
        assert(tyv_list(ts@).subrange(0, 0) =~= Seq::<TyV>::empty());
    }
    while i < ts.len()
        invariant
            i <= ts@.len(),
            tyv_list(ts@).len() == ts@.len(),
            tyv_list(out@) == simplify_list_v(tyv_list(ts@).subrange(0, i as int)),
        decreases ts@.len() - i,
    {
        let ghost prev = out@;
        let x = simplify_type(&ts[i]);
        let ghost xg = x;
        out.push(x);
        i = i + 1;
        proof {
            lemma_tyv_list_push(prev, xg);
            lemma_tyv_list_index(ts@, i - 1);
            lemma_simplify_list_push(
                tyv_list(ts@).subrange(0, i - 1),
                tyv_list(ts@)[i - 1],
            );
            assert(tyv_list(ts@).subrange(0, i as int) =~= tyv_list(ts@).subrange(
                0,
                i - 1,
            ).push(tyv_list(ts@)[i - 1]));
        }
    }
    proof {
        assert(tyv_list(ts@).subrange(0, ts@.len() as int) =~= tyv_list(ts@));
    }
    out
}

/// Byte size and alignment of a concrete type on the architecture, with a
/// recursion budget for unfolding nominal enums. `None` stands for an
/// unmeasurable type: an unsubstituted parameter, an enum missing from the
/// table, an exhausted budget, or a size beyond the sixteen-bit table
/// format.
pub open spec fn size_align_v(tcx: TyCtxtV, arch: Arch, t: TyV, fuel: nat) -> Option<(nat, nat)>
    decreases fuel, 0int,
{
    let w = word_bytes_v(arch);
    match t {
        TyV::Nil => Some((0, 1)),
        TyV::Bool => Some((1, 1)),
        TyV::U8 => Some((1, 1)),
        TyV::I8 => Some((1, 1)),
        TyV::U16 => Some((2, 2)),
        TyV::I16 => Some((2, 2)),
        TyV::U32 => Some((4, 4)),
        TyV::I32 => Some((4, 4)),
        TyV::F32 => Some((4, 4)),
        TyV::U64 => Some((8, 8)),
        TyV::I64 => Some((8, 8)),
        TyV::F64 => Some((8, 8)),
        TyV::Float => Some((8, 8)),
        TyV::Int => Some((w, w)),
        TyV::Uint => Some((w, w)),
        TyV::Ptr => Some((w, w)),
        TyV::Boxed => Some((w, w)),
        TyV::Str => Some((w, w)),
        TyV::TyDesc => Some((w, w)),
        TyV::SendTyDesc => Some((w, w)),
        TyV::Uniq(_) => Some((w, w)),
        TyV::Rptr(_) => Some((w, w)),
        TyV::Vect(_) => Some((w, w)),
        TyV::Func(_) => Some((2 * w, w)),
        TyV::Param(_) => None,
        TyV::Tup(ts) => if fuel == 0 {
            None
        } else {
            match struct_layout_v(tcx, arch, ts, (fuel - 1) as nat) {
                Some((off, al)) => if round_up_v(off, al) <= 0xffff {
                    Some((round_up_v(off, al), al))
                } else {
                    None
                },
                None => None,
            }
        },
        TyV::Enum(did, tps) => if fuel == 0 || !tcx_has(tcx, did) {
            None
        } else {
            let def = enum_def_v(tcx, did);
            match enum_data_v(tcx, arch, def.variants, tps, (fuel - 1) as nat) {
                Some((data, dal)) => {
                    let size = data + if def.variants.len() > 1 {
                        w
                    } else {
                        0
                    };
                    let align = if def.variants.len() > 1 && dal < w {
                        w
                    } else {
                        dal
                    };
                    if size <= 0xffff {
                        Some((size, align))
                    } else {
                        None
                    }
                },
                None => None,
            }
        },
        TyV::Res(_, inner, _) => if fuel == 0 {
            None
        } else {
            match size_align_v(tcx, arch, *inner, (fuel - 1) as nat) {
                Some((s, a)) => {
                    let off = round_up_v(w, a) + s;
                    let al = if a < w {
                        w
                    } else {
                        a
                    };
                    if round_up_v(off, al) <= 0xffff {
                        Some((round_up_v(off, al), al))
                    } else {
                        None
                    }
                },
                None => None,
            }
        },
    }
}

/// Struct layout of an ordered field list: each field is placed at the next
/// offset aligned for it, and the struct's alignment is the greatest field
/// alignment (at least one). Returns the end offset before tail padding.
pub open spec fn struct_layout_v(tcx: TyCtxtV, arch: Arch, ts: Seq<TyV>, fuel: nat) -> Option<
    (nat, nat),
>
    decreases fuel, ts.len() + 1,
{
    if ts.len() == 0 {
        Some((0, 1))
    } else {
        match struct_layout_v(tcx, arch, ts.drop_last(), fuel) {
            Some((off, al)) => match size_align_v(tcx, arch, ts.last(), fuel) {
                Some((s, a)) => {
                    let noff = round_up_v(off, a) + s;
                    if noff <= 0xffff {
                        Some((noff, if a > al {
                            a
                        } else {
                            al
                        }))
                    } else {
                        None
                    }
                },
                None => None,
            },
            None => None,
        }
    }
}

/// The data part of an enum: the greatest size and greatest alignment over
/// the variants' field tuples, after substituting the instantiation's type
/// arguments and simplifying away indirection.
pub open spec fn enum_data_v(
    tcx: TyCtxtV,
    arch: Arch,
    variants: Seq<crate::tcx::VariantInfoV>,
    tps: Seq<TyV>,
    fuel: nat,
) -> Option<(nat, nat)>
    decreases fuel, variants.len() + 1,
{
    if variants.len() == 0 {
        Some((0, 1))
    } else {
        match enum_data_v(tcx, arch, variants.drop_last(), tps, fuel) {
            Some((ms, ma)) => {
                let simplified = simplify_v(subst_v(tps, TyV::Tup(variants.last().args)));
                match size_align_v(tcx, arch, simplified, fuel) {
                    Some((s, a)) => Some(
                        (
                            if s > ms {
                                s
                            } else {
                                ms
                            },
                            if a > ma {
                                a
                            } else {
                                ma
                            },
                        ),
                    ),
                    None => None,
                }
            },
            None => None,
        }
    }
}

/// Recursion budget used by the layout queries: deeper nominal nesting than
/// this is reported as unmeasurable.
pub const MAX_TYPE_DEPTH: u32 = 64;

/// Every measurable size fits the sixteen-bit table format and every
/// alignment is between one and eight bytes.
pub proof fn lemma_size_align_bounds(tcx: TyCtxtV, arch: Arch, t: TyV, fuel: nat)
    ensures
        size_align_v(tcx, arch, t, fuel) matches Some(p) ==> p.0 <= 0xffff && 1 <= p.1 <= 8,
    decreases fuel, 0int,
{
    match t {
        TyV::Tup(ts) => {
            if fuel > 0 {
                lemma_struct_layout_bounds(tcx, arch, ts, (fuel - 1) as nat);
            }
        },
        TyV::Enum(did, tps) => {
            if fuel > 0 && tcx_has(tcx, did) {
                let def = enum_def_v(tcx, did);
                lemma_enum_data_bounds(tcx, arch, def.variants, tps, (fuel - 1) as nat);
            }
        },
        TyV::Res(_, inner, _) => {
            if fuel > 0 {
                lemma_size_align_bounds(tcx, arch, *inner, (fuel - 1) as nat);
            }
        },
        _ => {},
    }
}

pub proof fn lemma_struct_layout_bounds(tcx: TyCtxtV, arch: Arch, ts: Seq<TyV>, fuel: nat)
    ensures
        struct_layout_v(tcx, arch, ts, fuel) matches Some(p) ==> p.0 <= 0xffff && 1 <= p.1 <= 8,
    decreases fuel, ts.len() + 1,
{
    if ts.len() > 0 {
        lemma_struct_layout_bounds(tcx, arch, ts.drop_last(), fuel);
        lemma_size_align_bounds(tcx, arch, ts.last(), fuel);
    }
}

pub proof fn lemma_enum_data_bounds(
    tcx: TyCtxtV,
    arch: Arch,
    variants: Seq<crate::tcx::VariantInfoV>,
    tps: Seq<TyV>,
    fuel: nat,
)
    ensures
        enum_data_v(tcx, arch, variants, tps, fuel) matches Some(p) ==> p.0 <= 0xffff && 1 <= p.1
            <= 8,
    decreases fuel, variants.len() + 1,
{
    if variants.len() > 0 {
        lemma_enum_data_bounds(tcx, arch, variants.drop_last(), tps, fuel);
        lemma_size_align_bounds(
            tcx,
            arch,
            simplify_v(subst_v(tps, TyV::Tup(variants.last().args))),
            fuel,
        );
    }
}

/// Rounds up without the sixteen-bit cap, for intermediate offsets.
fn round_up_wide(size: u16, align: u8) -> (r: u32)
    requires
        align >= 1,
    ensures
        r == round_up_v(size as nat, align as nat),
        r < size + align,
{
    proof {
        let s = size as int;
        let al = align as int;
        assert(s <= ((s + al - 1) / al) * al < s + al) by (nonlinear_arith)
            requires
                al >= 1,
                s >= 0,
        ;
    }
    let a = align as u32;
    ((size as u32) + a - 1) / a * a
}

/// Measures one descriptor: byte size and alignment, or `None` exactly when
/// the layout model declares the type unmeasurable.
pub fn size_align_of(tcx: &TyCtxt, arch: Arch, t: &Ty, fuel: u32) -> (r: Option<SizeAlign>)
    requires
        tcx_wf(tcx@),
    ensures
        match r {
            Some(sa) => size_align_v(tcx@, arch, t@, fuel as nat) == Some(
                ((sa.size as nat), (sa.align as nat)),
            ),
            None => size_align_v(tcx@, arch, t@, fuel as nat) is None,
        },
    decreases fuel, 0int,
{
    let w = word_bytes(arch);
    let wa = w as u8;
    match t {
        Ty::Nil => Some(SizeAlign { size: 0, align: 1 }),
        Ty::Bool => Some(SizeAlign { size: 1, align: 1 }),
        Ty::U8 => Some(SizeAlign { size: 1, align: 1 }),
        Ty::I8 => Some(SizeAlign { size: 1, align: 1 }),
        Ty::U16 => Some(SizeAlign { size: 2, align: 2 }),
        Ty::I16 => Some(SizeAlign { size: 2, align: 2 }),
        Ty::U32 => Some(SizeAlign { size: 4, align: 4 }),
        Ty::I32 => Some(SizeAlign { size: 4, align: 4 }),
        Ty::F32 => Some(SizeAlign { size: 4, align: 4 }),
        Ty::U64 => Some(SizeAlign { size: 8, align: 8 }),
        Ty::I64 => Some(SizeAlign { size: 8, align: 8 }),
        Ty::F64 => Some(SizeAlign { size: 8, align: 8 }),
        Ty::Float => Some(SizeAlign { size: 8, align: 8 }),
        Ty::Int => Some(SizeAlign { size: w, align: wa }),
        Ty::Uint => Some(SizeAlign { size: w, align: wa }),
        Ty::Ptr => Some(SizeAlign { size: w, align: wa }),
        Ty::Boxed => Some(SizeAlign { size: w, align: wa }),
        Ty::Str => Some(SizeAlign { size: w, align: wa }),
        Ty::TyDesc => Some(SizeAlign { size: w, align: wa }),
        Ty::SendTyDesc => Some(SizeAlign { size: w, align: wa }),
        Ty::Uniq(_) => Some(SizeAlign { size: w, align: wa }),
        Ty::Rptr(_) => Some(SizeAlign { size: w, align: wa }),
        Ty::Vect(_) => Some(SizeAlign { size: w, align: wa }),
        Ty::Func(_) => Some(SizeAlign { size: 2 * w, align: wa }),
        Ty::Param(_) => None,
        Ty::Tup(ts) => {
            if fuel == 0 {
                return None;
            }
            match struct_layout_of(tcx, arch, ts, fuel - 1) {
                Some((off, al)) => {
                    proof {
                        lemma_struct_layout_bounds(
                            tcx@,
                            arch,
                            tyv_list(ts@),
                            (fuel - 1) as nat,
                        );
                    }
                    let rounded = round_up_wide(off, al);
                    if rounded <= 0xffff {
                        Some(SizeAlign { size: rounded as u16, align: al })
                    } else {
                        None
                    }
                },
                None => None,
            }
        },
        Ty::Enum(did, tps) => {
            if fuel == 0 {
                return None;
            }
            let def = match tcx.lookup_enum(*did) {
                Some(d) => d,
                None => {
                    return None;
                },
            };
            proof {
                lemma_variant_list_len(def.variants@);
            }
            match enum_data_of(tcx, arch, &def.variants, tps, fuel - 1) {
                Some((data, dal)) => {
                    let many = def.variants.len() > 1;
                    let size = (data as u32) + if many {
                        w as u32
                    } else {
                        0
                    };
                    let align = if many && dal < wa {
                        wa
                    } else {
                        dal
                    };
                    if size <= 0xffff {
                        Some(SizeAlign { size: size as u16, align })
                    } else {
                        None
                    }
                },
                None => None,
            }
        },
        Ty::Res(_, inner, _) => {
            if fuel == 0 {
                return None;
            }
            match size_align_of(tcx, arch, inner, fuel - 1) {
                Some(sa) => {
                    proof {
                        lemma_size_align_bounds(
                            tcx@,
                            arch,
                            inner@,
                            (fuel - 1) as nat,
                        );
                    }
                    let off = round_up_wide(w, sa.align) + (sa.size as u32);
                    let al = if sa.align < wa {
                        wa
                    } else {
                        sa.align
                    };
                    if off > 0xffff {
                        proof {
                            let o = off as int;
                            let a2 = al as int;
                            assert(o <= ((o + a2 - 1) / a2) * a2) by (nonlinear_arith)
                                requires
                                    a2 >= 1,
                                    o >= 0,
                            ;
                        }
                        return None;
                    }
                    let rounded = round_up_wide(off as u16, al);
                    if rounded <= 0xffff {
                        Some(SizeAlign { size: rounded as u16, align: al })
                    } else {
                        None
                    }
                },
                None => None,
            }
        },
    }
}

fn struct_layout_of(tcx: &TyCtxt, arch: Arch, ts: &Vec<Ty>, fuel: u32) -> (r: Option<(u16, u8)>)
    requires
        tcx_wf(tcx@),
    ensures
        match r {
            Some(p) => struct_layout_v(tcx@, arch, tyv_list(ts@), fuel as nat) == Some(
                ((p.0 as nat), (p.1 as nat)),
            ),
            None => struct_layout_v(tcx@, arch, tyv_list(ts@), fuel as nat) is None,
        },
    decreases fuel, ts@.len() + 1,
{
    let ghost full = tyv_list(ts@);
    proof {
        lemma_tyv_list_len(ts@);
        assert(full.subrange(0, 0) =~= Seq::<TyV>::empty());
    }
    let mut off: u16 = 0;
    let mut al: u8 = 1;
    let mut i: usize = 0;
    while i < ts.len()
        invariant
            tcx_wf(tcx@),
            i <= ts@.len(),
            full == tyv_list(ts@),
            full.len() == ts@.len(),
            struct_layout_v(tcx@, arch, full.subrange(0, i as int), fuel as nat) == Some(
                ((off as nat), (al as nat)),
            ),
            1 <= al <= 8,
        decreases ts@.len() - i,
    {
        proof {
            lemma_tyv_list_index(ts@, i as int);
            assert(full.subrange(0, i + 1).drop_last() =~= full.subrange(0, i as int));
            assert(full.subrange(0, i + 1).last() == full[i as int]);
        }
        let fsa = match size_align_of(tcx, arch, &ts[i], fuel) {
            Some(sa) => sa,
            None => {
                proof {
                    lemma_prefix_none(tcx@, arch, full, i + 1, fuel as nat);
                }
                return None;
            },
        };
        proof {
            lemma_size_align_bounds(tcx@, arch, full[i as int], fuel as nat);
        }
        let noff = round_up_wide(off, fsa.align) + (fsa.size as u32);
        if noff > 0xffff {
            proof {
                lemma_prefix_none(tcx@, arch, full, i + 1, fuel as nat);
            }
            return None;
        }
        off = noff as u16;
        if fsa.align > al {
            al = fsa.align;
        }
        i = i + 1;
    }
    proof {
        assert(full.subrange(0, ts@.len() as int) =~= full);
    }
    Some((off, al))
}

/// Once a field prefix fails to measure, the whole struct fails.
proof fn lemma_prefix_none(tcx: TyCtxtV, arch: Arch, ts: Seq<TyV>, i: int, fuel: nat)
    requires
        0 <= i <= ts.len(),
        struct_layout_v(tcx, arch, ts.subrange(0, i), fuel) is None,
    ensures
        struct_layout_v(tcx, arch, ts, fuel) is None,
    decreases ts.len() - i,
{
    if i == ts.len() {
        assert(ts.subrange(0, i) =~= ts);
    } else {
        assert(ts.subrange(0, i + 1).drop_last() =~= ts.subrange(0, i));
        lemma_prefix_none(tcx, arch, ts, i + 1, fuel);
    }
}

fn enum_data_of(
    tcx: &TyCtxt,
    arch: Arch,
    variants: &Vec<crate::tcx::VariantInfo>,
    tps: &Vec<Ty>,
    fuel: u32,
) -> (r: Option<(u16, u8)>)
    requires
        tcx_wf(tcx@),
    ensures
        match r {
            Some(p) => enum_data_v(
                tcx@,
                arch,
                crate::tcx::variant_list_v(variants@),
                tyv_list(tps@),
                fuel as nat,
            ) == Some(((p.0 as nat), (p.1 as nat))),
            None => enum_data_v(
                tcx@,
                arch,
                crate::tcx::variant_list_v(variants@),
                tyv_list(tps@),
                fuel as nat,
            ) is None,
        },
    decreases fuel, variants@.len() + 1,
{
    let ghost full = crate::tcx::variant_list_v(variants@);
    proof {
        lemma_variant_list_len(variants@);
        assert(full.subrange(0, 0) =~= Seq::<crate::tcx::VariantInfoV>::empty());
    }
    let mut ms: u16 = 0;
    let mut ma: u8 = 1;
    let mut i: usize = 0;
    while i < variants.len()
        invariant
            tcx_wf(tcx@),
            i <= variants@.len(),
            full == crate::tcx::variant_list_v(variants@),
            full.len() == variants@.len(),
            enum_data_v(tcx@, arch, full.subrange(0, i as int), tyv_list(tps@), fuel as nat)
                == Some(((ms as nat), (ma as nat))),
            1 <= ma <= 8,
        decreases variants@.len() - i,
    {
        proof {
            lemma_variant_list_index(variants@, i as int);
            assert(full.subrange(0, i + 1).drop_last() =~= full.subrange(0, i as int));
            assert(full.subrange(0, i + 1).last() == full[i as int]);
        }
        let tup = Ty::Tup(crate::types::deep_copy_list(&variants[i].args));
        let substituted = substitute(tps, &tup);
        let simplified = simplify_type(&substituted);
        proof {
            assert(simplified@ == simplify_v(
                subst_v(tyv_list(tps@), TyV::Tup(full[i as int].args)),
            ));
        }
        let vsa = match size_align_of(tcx, arch, &simplified, fuel) {
            Some(sa) => sa,
            None => {
                proof {
                    lemma_variant_prefix_none(
                        tcx@,
                        arch,
                        full,
                        i + 1,
                        tyv_list(tps@),
                        fuel as nat,
                    );
                }
                return None;
            },
        };
        proof {
            lemma_size_align_bounds(tcx@, arch, simplified@, fuel as nat);
        }
        if vsa.size > ms {
            ms = vsa.size;
        }
        if vsa.align > ma {
            ma = vsa.align;
        }
        i = i + 1;
    }
    proof {
        assert(full.subrange(0, variants@.len() as int) =~= full);
    }
    Some((ms, ma))
}

/// Once a variant prefix fails to measure, the whole enum fails.
proof fn lemma_variant_prefix_none(
    tcx: TyCtxtV,
    arch: Arch,
    vs: Seq<crate::tcx::VariantInfoV>,
    i: int,
    tps: Seq<TyV>,
    fuel: nat,
)
    requires
        0 <= i <= vs.len(),
        enum_data_v(tcx, arch, vs.subrange(0, i), tps, fuel) is None,
    ensures
        enum_data_v(tcx, arch, vs, tps, fuel) is None,
    decreases vs.len() - i,
{
    if i == vs.len() {
        assert(vs.subrange(0, i) =~= vs);
    } else {
        assert(vs.subrange(0, i + 1).drop_last() =~= vs.subrange(0, i));
        lemma_variant_prefix_none(tcx, arch, vs, i + 1, tps, fuel);
    }
}

/// The size/alignment range of one variant: the sum of the sizes and the sum
/// of the alignments of its parameter-free fields, and whether every field
/// was parameter-free. A parameter-dependent field contributes nothing and
/// clears the bounded flag. `None` marks a parameter-free field the layout
/// model cannot measure.
pub open spec fn variant_range_v(tcx: TyCtxtV, arch: Arch, args: Seq<TyV>) -> Option<
    (nat, nat, bool),
>
    decreases args.len(),
{
    if args.len() == 0 {
        Some((0, 0, true))
    } else {
        match variant_range_v(tcx, arch, args.drop_last()) {
            Some((s, a, b)) => if crate::types::has_param_v(args.last()) {
                Some((s, a, false))
            } else {
                match size_align_v(tcx, arch, args.last(), MAX_TYPE_DEPTH as nat) {
                    Some((fs, fa)) => Some((s + fs, a + fa, b)),
                    None => None,
                }
            },
            None => None,
        }
    }
}

/// The range of variant `i` of the enum declared as `did`.
pub open spec fn range_of_variant(tcx: TyCtxtV, arch: Arch, did: crate::types::DefId, i: int) -> Option<
    (nat, nat, bool),
> {
    variant_range_v(tcx, arch, enum_def_v(tcx, did).variants[i].args)
}

/// Whether range `a` upper-bounds range `b` in both size and alignment;
/// only meaningful between bounded ranges.
pub open spec fn range_dominates(a: (nat, nat, bool), b: (nat, nat, bool)) -> bool {
    a.2 && b.2 && a.0 >= b.0 && a.1 >= b.1
}

fn variant_range_of(tcx: &TyCtxt, arch: Arch, args: &Vec<Ty>) -> (r: Option<(u64, u64, bool)>)
    requires
        tcx_wf(tcx@),
        args@.len() <= 0xffff_ffff,
    ensures
        match r {
            Some(p) => variant_range_v(tcx@, arch, tyv_list(args@)) == Some(
                ((p.0 as nat), (p.1 as nat), p.2),
            ),
            None => variant_range_v(tcx@, arch, tyv_list(args@)) is None,
        },
{
    let ghost full = tyv_list(args@);
    proof {
        lemma_tyv_list_len(args@);
        assert(full.subrange(0, 0) =~= Seq::<TyV>::empty());
    }
    let mut s: u64 = 0;
    let mut a: u64 = 0;
    let mut bounded = true;
    let mut i: usize = 0;
    while i < args.len()
        invariant
            tcx_wf(tcx@),
            i <= args@.len(),
            args@.len() <= 0xffff_ffff,
            full == tyv_list(args@),
            full.len() == args@.len(),
            s <= 0xffff * (i as nat),
            a <= 0xffff * (i as nat),
            variant_range_v(tcx@, arch, full.subrange(0, i as int)) == Some(
                ((s as nat), (a as nat), bounded),
            ),
        decreases args@.len() - i,
    {
        proof {
            lemma_tyv_list_index(args@, i as int);
            assert(full.subrange(0, i + 1).drop_last() =~= full.subrange(0, i as int));
            assert(full.subrange(0, i + 1).last() == full[i as int]);
        }
        if crate::types::type_has_params(&args[i]) {
            bounded = false;
        } else {
            match size_align_of(tcx, arch, &args[i], MAX_TYPE_DEPTH) {
                Some(sa) => {
                    proof {
                        lemma_size_align_bounds(
                            tcx@,
                            arch,
                            full[i as int],
                            MAX_TYPE_DEPTH as nat,
                        );
                    }
                    s = s + (sa.size as u64);
                    a = a + (sa.align as u64);
                },
                None => {
                    proof {
                        lemma_range_prefix_none(tcx@, arch, full, i + 1);
                    }
                    return None;
                },
            }
        }
        i = i + 1;
    }
    proof {
        assert(full.subrange(0, args@.len() as int) =~= full);
    }
    Some((s, a, bounded))
}

proof fn lemma_range_prefix_none(tcx: TyCtxtV, arch: Arch, args: Seq<TyV>, i: int)
    requires
        0 <= i <= args.len(),
        variant_range_v(tcx, arch, args.subrange(0, i)) is None,
    ensures
        variant_range_v(tcx, arch, args) is None,
    decreases args.len() - i,
{
    if i == args.len() {
        assert(args.subrange(0, i) =~= args);
    } else {
        assert(args.subrange(0, i + 1).drop_last() =~= args.subrange(0, i));
        lemma_range_prefix_none(tcx, arch, args, i + 1);
    }
}

/// Soundness of a dominant-variant subset: every variant's range is
/// measurable, the kept indices are increasing and in bounds, every
/// unbounded variant is kept, every bounded variant is dominated by some
/// kept variant, and the kept set is an antichain: no kept variant
/// dominates another kept one, so a strictly dominated bounded variant is
/// never kept.
pub open spec fn dominant_set_ok(
    tcx: TyCtxtV,
    arch: Arch,
    did: crate::types::DefId,
    res: Seq<usize>,
) -> bool {
    let vs = enum_def_v(tcx, did).variants;
    &&& forall|i: int|
        0 <= i < vs.len() ==> #[trigger] range_of_variant(tcx, arch, did, i) is Some
    &&& forall|k: int, l: int|
        0 <= k < l < res.len() ==> #[trigger] res[k] < #[trigger] res[l]
    &&& forall|k: int| 0 <= k < res.len() ==> #[trigger] res[k] < vs.len()
    &&& forall|i: int|
        0 <= i < vs.len() && !(#[trigger] range_of_variant(tcx, arch, did, i)->Some_0.2)
            ==> exists|k: int| 0 <= k < res.len() && res[k] == i
    &&& forall|i: int|
        0 <= i < vs.len() && (#[trigger] range_of_variant(tcx, arch, did, i)->Some_0.2)
            ==> exists|k: int|
            0 <= k < res.len() && range_dominates(
                range_of_variant(tcx, arch, did, res[k] as int)->Some_0,
                range_of_variant(tcx, arch, did, i)->Some_0,
            )
    &&& forall|k: int, l: int|
        0 <= k < l < res.len() ==> !range_dominates(
            range_of_variant(tcx, arch, did, #[trigger] res[k] as int)->Some_0,
            range_of_variant(tcx, arch, did, #[trigger] res[l] as int)->Some_0,
        ) && !range_dominates(
            range_of_variant(tcx, arch, did, res[l] as int)->Some_0,
            range_of_variant(tcx, arch, did, res[k] as int)->Some_0,
        )
}

/// The dominant-variant subset of an enum: indices, in increasing order, of
/// variants whose size/alignment range upper-bounds every other variant's.
/// Every unbounded variant is kept; every bounded variant is dominated by
/// some kept bounded variant. `None` reports a variant whose parameter-free
/// fields the layout model cannot measure.
#[verifier::rlimit(100)]
#[verifier::spinoff_prover]
pub fn largest_variants(tcx: &TyCtxt, arch: Arch, did: crate::types::DefId) -> (r: Option<
    Vec<usize>,
>)
    requires
        tcx_wf(tcx@),
        tcx_has(tcx@, did),
        forall|i: int|
            0 <= i < enum_def_v(tcx@, did).variants.len() ==> #[trigger] enum_def_v(
                tcx@,
                did,
            ).variants[i].args.len() <= 0xffff_ffff,
    ensures
        r matches Some(res) ==> dominant_set_ok(tcx@, arch, did, res@),
        r is None ==> exists|i: int|
            0 <= i < enum_def_v(tcx@, did).variants.len() && #[trigger] range_of_variant(
                tcx@,
                arch,
                did,
                i,
            ) is None,
{
    let ghost vs = enum_def_v(tcx@, did).variants;
    let def = match tcx.lookup_enum(did) {
        Some(d) => d,
        None => {
            proof {
                assert(false);
            }
            unreached()
        },
    };
    proof {
        lemma_variant_list_len(def.variants@);
    }
    let n = def.variants.len();

    // Compute every variant's range first; a failure here is an
    // unmeasurable concrete field, an invariant violation upstream.
    let mut ranges: Vec<(u64, u64, bool)> = Vec::new();
    let mut i: usize = 0;
    while i < n
        invariant
            tcx_wf(tcx@),
            tcx_has(tcx@, did),
            vs == enum_def_v(tcx@, did).variants,
            def@.variants == vs,
            def@.variants.len() == def.variants@.len(),
            n == vs.len(),
            forall|k: int|
                0 <= k < vs.len() ==> #[trigger] vs[k].args.len() <= 0xffff_ffff,
            i <= n,
            ranges@.len() == i,
            forall|k: int|
                0 <= k < i ==> range_of_variant(tcx@, arch, did, k) == Some(
                    (
                        (#[trigger] ranges@[k].0 as nat),
                        (ranges@[k].1 as nat),
                        ranges@[k].2,
                    ),
                ),
        decreases n - i,
    {
        proof {
            lemma_variant_list_index(def.variants@, i as int);
            lemma_tyv_list_len(def.variants@[i as int].args@);
            assert(vs[i as int] == def.variants@[i as int]@);
            assert(vs[i as int].args.len() <= 0xffff_ffff);
            assert(vs[i as int].args == tyv_list(def.variants@[i as int].args@));
        }
        match variant_range_of(tcx, arch, &def.variants[i].args) {
            Some(p) => {
                ranges.push(p);
            },
            None => {
                proof {
                    assert(range_of_variant(tcx@, arch, did, i as int) is None);
                }
                return None;
            },
        }
        i = i + 1;
    }

    // Pairwise elimination: a bounded variant dominated by another still-
    // kept bounded variant is dropped.
    let ghost rng = |v: int| range_of_variant(tcx@, arch, did, v)->Some_0;
    let mut cand: Vec<bool> = Vec::new();
    let mut i2: usize = 0;
    while i2 < n
        invariant
            i2 <= n,
            cand@.len() == i2,
            forall|v: int| 0 <= v < i2 ==> #[trigger] cand@[v],
        decreases n - i2,
    {
        cand.push(true);
        i2 = i2 + 1;
    }

    let mut oi: usize = 0;
    while oi < n
        invariant
            tcx_wf(tcx@),
            tcx_has(tcx@, did),
            vs == enum_def_v(tcx@, did).variants,
            n == vs.len(),
            rng == (|v: int| range_of_variant(tcx@, arch, did, v)->Some_0),
            oi <= n,
            cand@.len() == n,
            ranges@.len() == n,
            forall|k: int|
                0 <= k < n ==> range_of_variant(tcx@, arch, did, k) == Some(
                    (
                        (#[trigger] ranges@[k].0 as nat),
                        (ranges@[k].1 as nat),
                        ranges@[k].2,
                    ),
                ),
            forall|v: int| 0 <= v < n && !(#[trigger] cand@[v]) ==> rng(v).2,
            forall|v: int|
                0 <= v < n && !(#[trigger] cand@[v]) ==> exists|w: int|
                    0 <= w < n && cand@[w] && range_dominates(rng(w), rng(v)),
            forall|p: int, q: int|
                0 <= p < q < n && p < oi && #[trigger] cand@[p] && #[trigger] cand@[q]
                    ==> !range_dominates(rng(p), rng(q)) && !range_dominates(rng(q), rng(p)),
        decreases n - oi,
    {
        if cand[oi] {
            let mut j: usize = oi + 1;
            while j < n
                invariant
                    tcx_wf(tcx@),
                    tcx_has(tcx@, did),
                    vs == enum_def_v(tcx@, did).variants,
                    n == vs.len(),
                    rng == (|v: int| range_of_variant(tcx@, arch, did, v)->Some_0),
                    oi < n,
                    oi < j,
                    j <= n,
                    cand@.len() == n,
                    ranges@.len() == n,
                    forall|k: int|
                        0 <= k < n ==> range_of_variant(tcx@, arch, did, k) == Some(
                            (
                                (#[trigger] ranges@[k].0 as nat),
                                (ranges@[k].1 as nat),
                                ranges@[k].2,
                            ),
                        ),
                    forall|v: int| 0 <= v < n && !(#[trigger] cand@[v]) ==> rng(v).2,
                    forall|v: int|
                        0 <= v < n && !(#[trigger] cand@[v]) ==> exists|w: int|
                            0 <= w < n && cand@[w] && range_dominates(rng(w), rng(v)),
                    forall|p: int, q: int|
                        0 <= p < q < n && p < oi && #[trigger] cand@[p] && #[trigger] cand@[q]
                            ==> !range_dominates(rng(p), rng(q)) && !range_dominates(
                            rng(q),
                            rng(p),
                        ),
                    forall|q: int|
                        (oi as int) < q < j && cand@[oi as int] && #[trigger] cand@[q]
                            ==> !range_dominates(rng(oi as int), rng(q)) && !range_dominates(
                            rng(q),
                            rng(oi as int),
                        ),
                decreases n - j,
            {
                if cand[j] && !cand[oi] {
                    // The outer candidate fell inside this pass; later
                    // comparisons for it are moot.
                    j = n;
                } else if cand[j] {
                    let ri = ranges[oi];
                    let rj = ranges[j];
                    if ri.2 && rj.2 {
                        let ghost cand_before = cand@;
                        if ri.0 >= rj.0 && ri.1 >= rj.1 {
                            cand.set(j, false);
                            proof {
                                assert forall|v: int|
                                    0 <= v < n && !(#[trigger] cand@[v]) implies exists|w: int|
                                    0 <= w < n && cand@[w] && range_dominates(
                                        rng(w),
                                        rng(v),
                                    ) by {
                                    if v == j as int {
                                        assert(cand@[oi as int] && range_dominates(
                                            rng(oi as int),
                                            rng(j as int),
                                        ));
                                    } else {
                                        let w0 = choose|w: int|
                                            0 <= w < n && cand_before[w] && range_dominates(
                                                rng(w),
                                                rng(v),
                                            );
                                        if w0 == j as int {
                                            assert(cand@[oi as int] && range_dominates(
                                                rng(oi as int),
                                                rng(v),
                                            ));
                                        } else {
                                            assert(cand@[w0] && range_dominates(
                                                rng(w0),
                                                rng(v),
                                            ));
                                        }
                                    }
                                }
                            }
                        } else if rj.0 >= ri.0 && rj.1 >= ri.1 {
                            cand.set(oi, false);
                            proof {
                                assert forall|v: int|
                                    0 <= v < n && !(#[trigger] cand@[v]) implies exists|w: int|
                                    0 <= w < n && cand@[w] && range_dominates(
                                        rng(w),
                                        rng(v),
                                    ) by {
                                    if v == oi as int {
                                        assert(cand@[j as int] && range_dominates(
                                            rng(j as int),
                                            rng(oi as int),
                                        ));
                                    } else {
                                        let w0 = choose|w: int|
                                            0 <= w < n && cand_before[w] && range_dominates(
                                                rng(w),
                                                rng(v),
                                            );
                                        if w0 == oi as int {
                                            assert(cand@[j as int] && range_dominates(
                                                rng(j as int),
                                                rng(v),
                                            ));
                                        } else {
                                            assert(cand@[w0] && range_dominates(
                                                rng(w0),
                                                rng(v),
                                            ));
                                        }
                                    }
                                }
                            }
                        }
                    }
                    j = j + 1;
                } else {
                    j = j + 1;
                }
            }
        }
        oi = oi + 1;
    }

    // Collect the surviving candidates in index order.
    let mut res: Vec<usize> = Vec::new();
    let mut v: usize = 0;
    while v < n
        invariant
            v <= n,
            cand@.len() == n,
            forall|k: int, l: int|
                0 <= k < l < res@.len() ==> #[trigger] res@[k] < #[trigger] res@[l],
            forall|k: int| 0 <= k < res@.len() ==> (#[trigger] res@[k] as int) < v,
            forall|k: int| 0 <= k < res@.len() ==> cand@[res@[k] as int],
            forall|u: int|
                0 <= u < v && #[trigger] cand@[u] ==> exists|k: int|
                    0 <= k < res@.len() && res@[k] == u,
        decreases n - v,
    {
        if cand[v] {
            let ghost res_before = res@;
            res.push(v);
            proof {
                assert forall|u: int|
                    0 <= u < v + 1 && #[trigger] cand@[u] implies exists|k: int|
                    0 <= k < res@.len() && res@[k] == u by {
                    if u == v as int {
                        assert(res@[res@.len() - 1] == u);
                    } else {
                        let k0 = choose|k: int|
                            0 <= k < res_before.len() && res_before[k] == u;
                        assert(res@[k0] == u);
                    }
                }
            }
        }
        v = v + 1;
    }
    proof {
        assert forall|i3: int|
            0 <= i3 < vs.len() implies #[trigger] range_of_variant(tcx@, arch, did, i3)
            is Some by {
            let p = ranges@[i3];
            assert(range_of_variant(tcx@, arch, did, i3) == Some(
                ((p.0 as nat), (p.1 as nat), p.2),
            ));
        }
        assert(forall|k: int, l: int|
            0 <= k < l < res@.len() ==> #[trigger] res@[k] < #[trigger] res@[l]);
        assert(forall|k: int| 0 <= k < res@.len() ==> #[trigger] res@[k] < vs.len());
        assert forall|i3: int|
            0 <= i3 < vs.len() && !(#[trigger] range_of_variant(
                tcx@,
                arch,
                did,
                i3,
            )->Some_0.2) implies exists|k: int| 0 <= k < res@.len() && res@[k] == i3 by {
            assert(cand@[i3]);
        }
        assert forall|i3: int|
            0 <= i3 < vs.len() && (#[trigger] range_of_variant(
                tcx@,
                arch,
                did,
                i3,
            )->Some_0.2) implies exists|k: int|
            0 <= k < res@.len() && range_dominates(
                range_of_variant(tcx@, arch, did, res@[k] as int)->Some_0,
                range_of_variant(tcx@, arch, did, i3)->Some_0,
            ) by {
            if cand@[i3] {
                let k0 = choose|k: int| 0 <= k < res@.len() && res@[k] == i3;
                assert(range_dominates(
                    range_of_variant(tcx@, arch, did, res@[k0] as int)->Some_0,
                    range_of_variant(tcx@, arch, did, i3)->Some_0,
                ));
            } else {
                let w0 = choose|w: int|
                    0 <= w < n && cand@[w] && range_dominates(rng(w), rng(i3));
                let k0 = choose|k: int| 0 <= k < res@.len() && res@[k] == w0;
                assert(range_dominates(
                    range_of_variant(tcx@, arch, did, res@[k0] as int)->Some_0,
                    range_of_variant(tcx@, arch, did, i3)->Some_0,
                ));
            }
        }
    }
    Some(res)
}

proof fn lemma_simplify_list_props(ts: Seq<TyV>)
    ensures
        simplify_list_v(ts).len() == ts.len(),
        forall|i: int| 0 <= i < ts.len() ==> #[trigger] simplify_list_v(ts)[i] == simplify_v(
            ts[i],
        ),
    decreases ts,
{
    if ts.len() > 0 {
        lemma_simplify_list_props(ts.drop_last());
        assert forall|i: int| 0 <= i < ts.len() implies #[trigger] simplify_list_v(ts)[i]
            == simplify_v(ts[i]) by {
            if i < ts.len() - 1 {
                assert(simplify_list_v(ts.drop_last())[i] == simplify_v(ts.drop_last()[i]));
            }
        }
    }
}

/// Simplifying twice is simplifying once.
pub proof fn lemma_simplify_idempotent(t: TyV)
    ensures
        simplify_v(simplify_v(t)) == simplify_v(t),
    decreases t,
{
    match t {
        TyV::Func(_) => {
            reveal_with_fuel(simplify_list_v, 4);
            assert(seq![TyV::Ptr, TyV::Ptr].drop_last() =~= seq![TyV::Ptr]);
            assert(seq![TyV::Ptr].drop_last() =~= Seq::<TyV>::empty());
            assert(simplify_list_v(seq![TyV::Ptr, TyV::Ptr]) =~= seq![TyV::Ptr, TyV::Ptr]);
        },
        TyV::Res(_, inner, _) => {
            reveal_with_fuel(simplify_list_v, 4);
            lemma_simplify_idempotent(*inner);
            let s = simplify_v(*inner);
            assert(seq![TyV::Int, s].drop_last() =~= seq![TyV::Int]);
            assert(seq![TyV::Int].drop_last() =~= Seq::<TyV>::empty());
            assert(simplify_list_v(seq![TyV::Int, s]) =~= seq![TyV::Int, simplify_v(s)]);
        },
        TyV::Rptr(inner) => lemma_simplify_idempotent(*inner),
        TyV::Tup(ts) => lemma_simplify_list_idempotent(ts),
        TyV::Enum(_, tps) => lemma_simplify_list_idempotent(tps),
        _ => {},
    }
}

pub proof fn lemma_simplify_list_idempotent(ts: Seq<TyV>)
    ensures
        simplify_list_v(simplify_list_v(ts)) == simplify_list_v(ts),
    decreases ts,
{
    if ts.len() > 0 {
        lemma_simplify_list_idempotent(ts.drop_last());
        lemma_simplify_idempotent(ts.last());
        lemma_simplify_list_push(simplify_list_v(ts.drop_last()), simplify_v(ts.last()));
    }
}

/// Simplifying after substitution gives the same result whether or not the
/// substituted arguments were simplified first.
pub proof fn lemma_simplify_subst(m: Seq<TyV>, t: TyV)
    ensures
        simplify_v(subst_v(simplify_list_v(m), t)) == simplify_v(subst_v(m, t)),
    decreases t,
{
    lemma_simplify_list_props(m);
    match t {
        TyV::Param(n) => {
            if n < m.len() {
                lemma_simplify_idempotent(m[n as int]);
            }
        },
        TyV::Rptr(inner) => lemma_simplify_subst(m, *inner),
        TyV::Res(_, inner, args) => {
            lemma_simplify_subst(m, *inner);
        },
        TyV::Tup(ts) => lemma_simplify_subst_list(m, ts),
        TyV::Enum(_, tps) => lemma_simplify_subst_list(m, tps),
        _ => {},
    }
}

pub proof fn lemma_simplify_subst_list(m: Seq<TyV>, ts: Seq<TyV>)
    ensures
        simplify_list_v(subst_list_v(simplify_list_v(m), ts)) == simplify_list_v(
            subst_list_v(m, ts),
        ),
    decreases ts,
{
    if ts.len() > 0 {
        lemma_simplify_subst_list(m, ts.drop_last());
        lemma_simplify_subst(m, ts.last());
        lemma_simplify_list_push(
            subst_list_v(simplify_list_v(m), ts.drop_last()),
            subst_v(simplify_list_v(m), ts.last()),
        );
        lemma_simplify_list_push(subst_list_v(m, ts.drop_last()), subst_v(m, ts.last()));
    }
}

/// The measured size and alignment of a type do not depend on the budget:
/// any two budgets that suffice agree on the result.
pub proof fn lemma_size_fuel_agree(tcx: TyCtxtV, arch: Arch, t: TyV, f1: nat, f2: nat)
    ensures
        size_align_v(tcx, arch, t, f1) is Some && size_align_v(tcx, arch, t, f2) is Some
            ==> size_align_v(tcx, arch, t, f1)->Some_0 == size_align_v(tcx, arch, t, f2)->Some_0,
    decreases f1 + f2, 0int,
{
    match t {
        TyV::Tup(ts) => {
            if f1 > 0 && f2 > 0 {
                lemma_struct_fuel_agree(tcx, arch, ts, (f1 - 1) as nat, (f2 - 1) as nat);
            }
        },
        TyV::Enum(did, tps) => {
            if f1 > 0 && f2 > 0 && tcx_has(tcx, did) {
                lemma_enum_data_fuel_agree(
                    tcx,
                    arch,
                    enum_def_v(tcx, did).variants,
                    tps,
                    (f1 - 1) as nat,
                    (f2 - 1) as nat,
                );
            }
        },
        TyV::Res(_, inner, _) => {
            if f1 > 0 && f2 > 0 {
                lemma_size_fuel_agree(tcx, arch, *inner, (f1 - 1) as nat, (f2 - 1) as nat);
            }
        },
        _ => {},
    }
}

pub proof fn lemma_struct_fuel_agree(tcx: TyCtxtV, arch: Arch, ts: Seq<TyV>, f1: nat, f2: nat)
    ensures
        struct_layout_v(tcx, arch, ts, f1) is Some && struct_layout_v(tcx, arch, ts, f2)
            is Some ==> struct_layout_v(tcx, arch, ts, f1)->Some_0 == struct_layout_v(
            tcx,
            arch,
            ts,
            f2,
        )->Some_0,
    decreases f1 + f2, ts.len() + 1,
{
    if ts.len() > 0 {
        lemma_struct_fuel_agree(tcx, arch, ts.drop_last(), f1, f2);
        lemma_size_fuel_agree(tcx, arch, ts.last(), f1, f2);
    }
}

pub proof fn lemma_enum_data_fuel_agree(
    tcx: TyCtxtV,
    arch: Arch,
    variants: Seq<crate::tcx::VariantInfoV>,
    tps: Seq<TyV>,
    f1: nat,
    f2: nat,
)
    ensures
        enum_data_v(tcx, arch, variants, tps, f1) is Some && enum_data_v(
            tcx,
            arch,
            variants,
            tps,
            f2,
        ) is Some ==> enum_data_v(tcx, arch, variants, tps, f1)->Some_0 == enum_data_v(
            tcx,
            arch,
            variants,
            tps,
            f2,
        )->Some_0,
    decreases f1 + f2, variants.len() + 1,
{
    if variants.len() > 0 {
        lemma_enum_data_fuel_agree(tcx, arch, variants.drop_last(), tps, f1, f2);
        lemma_size_fuel_agree(
            tcx,
            arch,
            simplify_v(subst_v(tps, TyV::Tup(variants.last().args))),
            f1,
            f2,
        );
    }
}

/// Layout of the simplifier's two-word function placeholder.
proof fn lemma_func_placeholder_size(tcx: TyCtxtV, arch: Arch, f2: nat)
    requires
        f2 > 0,
    ensures
        size_align_v(tcx, arch, TyV::Tup(seq![TyV::Ptr, TyV::Ptr]), f2) == Some(
            (((2 * word_bytes_v(arch)) as nat), word_bytes_v(arch)),
        ),
{
    let w = word_bytes_v(arch);
    assert(w == 4 || w == 8);
    let e = Seq::<TyV>::empty();
    let s1 = seq![TyV::Ptr];
    let s2 = seq![TyV::Ptr, TyV::Ptr];
    assert(s2.drop_last() =~= s1);
    assert(s1.drop_last() =~= e);
    assert(s2.last() == TyV::Ptr && s1.last() == TyV::Ptr);
    if w == 4 {
        assert(round_up_v(0, 4) == 0 && round_up_v(4, 4) == 4 && round_up_v(8, 4) == 8);
    } else {
        assert(round_up_v(0, 8) == 0 && round_up_v(8, 8) == 8 && round_up_v(16, 8) == 16);
    }
    let f = (f2 - 1) as nat;
    assert(struct_layout_v(tcx, arch, e, f) == Some((0nat, 1nat)));
    assert(size_align_v(tcx, arch, TyV::Ptr, f) == Some(((w as nat), (w as nat))));
    assert(struct_layout_v(tcx, arch, s1, f) == Some(((w as nat), (w as nat))));
    assert(struct_layout_v(tcx, arch, s2, f) == Some((((2 * w) as nat), (w as nat))));
}

/// Layout of the simplifier's resource placeholder: a word-sized
/// discriminant in front of the simplified payload.
proof fn lemma_res_placeholder_size(tcx: TyCtxtV, arch: Arch, s: TyV, f2: nat)
    requires
        f2 > 0,
    ensures
        ({
            let w = word_bytes_v(arch);
            size_align_v(tcx, arch, TyV::Tup(seq![TyV::Int, s]), f2) matches Some(q)
                ==> size_align_v(tcx, arch, s, (f2 - 1) as nat) matches Some(p) && q == (
            round_up_v(
                round_up_v(w, p.1) + p.0,
                if p.1 < w {
                    w
                } else {
                    p.1
                },
            ),
            if p.1 < w {
                w
            } else {
                p.1
            },
            )
        }),
{
    let w = word_bytes_v(arch);
    assert(w == 4 || w == 8);
    let e = Seq::<TyV>::empty();
    let s1 = seq![TyV::Int];
    let s2 = seq![TyV::Int, s];
    assert(s2.drop_last() =~= s1);
    assert(s1.drop_last() =~= e);
    assert(s2.last() == s && s1.last() == TyV::Int);
    if w == 4 {
        assert(round_up_v(0, 4) == 0);
    } else {
        assert(round_up_v(0, 8) == 0);
    }
    let f = (f2 - 1) as nat;
    assert(struct_layout_v(tcx, arch, e, f) == Some((0nat, 1nat)));
    assert(size_align_v(tcx, arch, TyV::Int, f) == Some(((w as nat), (w as nat))));
    assert(struct_layout_v(tcx, arch, s1, f) == Some(((w as nat), (w as nat))));
    if size_align_v(tcx, arch, TyV::Tup(s2), f2) is Some {
        assert(struct_layout_v(tcx, arch, s2, f) is Some);
        assert(size_align_v(tcx, arch, s, f) is Some);
    }
}

/// The simplifier preserves concrete layout: whenever a type and its
/// simplified form are both measurable, they measure the same byte size and
/// the same alignment, whatever budgets the two measurements used.
#[verifier::rlimit(100)]
#[verifier::spinoff_prover]
pub proof fn lemma_simplify_preserves_size(tcx: TyCtxtV, arch: Arch, t: TyV, f1: nat, f2: nat)
    ensures
        size_align_v(tcx, arch, t, f1) is Some && size_align_v(tcx, arch, simplify_v(t), f2)
            is Some ==> size_align_v(tcx, arch, t, f1)->Some_0 == size_align_v(
            tcx,
            arch,
            simplify_v(t),
            f2,
        )->Some_0,
    decreases f1 + f2, 0int,
{
    let w = word_bytes_v(arch);
    assert(w == 4 || w == 8);
    match t {
        TyV::Func(_) => {
            if f2 > 0 {
                lemma_func_placeholder_size(tcx, arch, f2);
            }
        },
        TyV::Tup(ts) => {
            if f1 > 0 && f2 > 0 {
                lemma_simplify_preserves_struct(tcx, arch, ts, (f1 - 1) as nat, (f2 - 1) as nat);
            }
        },
        TyV::Enum(did, tps) => {
            if f1 > 0 && f2 > 0 && tcx_has(tcx, did) {
                lemma_simplify_preserves_enum_data(
                    tcx,
                    arch,
                    enum_def_v(tcx, did).variants,
                    tps,
                    (f1 - 1) as nat,
                    (f2 - 1) as nat,
                );
            }
        },
        TyV::Res(_, inner, _) => {
            if f1 > 0 && f2 > 0 {
                lemma_simplify_preserves_size(tcx, arch, *inner, (f1 - 1) as nat, (f2 - 1) as nat);
                lemma_res_placeholder_size(tcx, arch, simplify_v(*inner), f2);
            }
        },
        _ => {},
    }
}

pub proof fn lemma_simplify_preserves_struct(
    tcx: TyCtxtV,
    arch: Arch,
    ts: Seq<TyV>,
    f1: nat,
    f2: nat,
)
    ensures
        struct_layout_v(tcx, arch, ts, f1) is Some && struct_layout_v(
            tcx,
            arch,
            simplify_list_v(ts),
            f2,
        ) is Some ==> struct_layout_v(tcx, arch, ts, f1)->Some_0 == struct_layout_v(
            tcx,
            arch,
            simplify_list_v(ts),
            f2,
        )->Some_0,
    decreases f1 + f2, ts.len() + 1,
{
    if ts.len() > 0 {
        lemma_simplify_preserves_struct(tcx, arch, ts.drop_last(), f1, f2);
        lemma_simplify_preserves_size(tcx, arch, ts.last(), f1, f2);
        lemma_simplify_list_push(ts.drop_last(), ts.last());
        assert(ts.drop_last().push(ts.last()) =~= ts);
        assert(simplify_list_v(ts).drop_last() =~= simplify_list_v(ts.drop_last()));
        assert(simplify_list_v(ts).last() == simplify_v(ts.last()));
    } else {
        assert(simplify_list_v(ts) =~= Seq::<TyV>::empty());
    }
}

pub proof fn lemma_simplify_preserves_enum_data(
    tcx: TyCtxtV,
    arch: Arch,
    variants: Seq<crate::tcx::VariantInfoV>,
    tps: Seq<TyV>,
    f1: nat,
    f2: nat,
)
    ensures
        enum_data_v(tcx, arch, variants, tps, f1) is Some && enum_data_v(
            tcx,
            arch,
            variants,
            simplify_list_v(tps),
            f2,
        ) is Some ==> enum_data_v(tcx, arch, variants, tps, f1)->Some_0 == enum_data_v(
            tcx,
            arch,
            variants,
            simplify_list_v(tps),
            f2,
        )->Some_0,
    decreases f1 + f2, variants.len() + 1,
{
    if variants.len() > 0 {
        lemma_simplify_preserves_enum_data(tcx, arch, variants.drop_last(), tps, f1, f2);
        let x = TyV::Tup(variants.last().args);
        lemma_simplify_subst(tps, x);
        lemma_size_fuel_agree(tcx, arch, simplify_v(subst_v(tps, x)), f1, f2);
    }
}

/// Greatest tuple size and alignment over the variants named by the index
/// list `lv`, each variant's fields laid out as a struct.
pub open spec fn largest_tuple_v(
    tcx: TyCtxtV,
    arch: Arch,
    vs: Seq<crate::tcx::VariantInfoV>,
    lv: Seq<usize>,
) -> Option<(nat, nat)>
    decreases lv.len(),
{
    if lv.len() == 0 {
        Some((0, 1))
    } else {
        match largest_tuple_v(tcx, arch, vs, lv.drop_last()) {
            Some((ms, ma)) => match size_align_v(
                tcx,
                arch,
                TyV::Tup(vs[lv.last() as int].args),
                MAX_TYPE_DEPTH as nat,
            ) {
                Some((s, a)) => Some(
                    (
                        if s > ms {
                            s
                        } else {
                            ms
                        },
                        if a > ma {
                            a
                        } else {
                            ma
                        },
                    ),
                ),
                None => None,
            },
            None => None,
        }
    }
}

/// The conservative static size and alignment of a whole enum: the greatest
/// dominant-variant tuple, plus a discriminant word when there is more than
/// one variant.
pub open spec fn static_enum_size_v(
    tcx: TyCtxtV,
    arch: Arch,
    did: crate::types::DefId,
    lv: Seq<usize>,
) -> Option<(nat, nat)> {
    let vs = enum_def_v(tcx, did).variants;
    let w = word_bytes_v(arch);
    match largest_tuple_v(tcx, arch, vs, lv) {
        Some((ms, ma)) => if vs.len() > 1 {
            if ms + w <= 0xffff {
                Some(
                    (
                        ms + w,
                        if ma < w {
                            w
                        } else {
                            ma
                        },
                    ),
                )
            } else {
                None
            }
        } else {
            Some((ms, ma))
        },
        None => None,
    }
}

/// Computes the static size and alignment of the enum declared as `did`
/// from its dominant-variant indices. `None` reports an unmeasurable
/// variant or a size beyond the sixteen-bit table format.
pub fn compute_static_enum_size(
    tcx: &TyCtxt,
    arch: Arch,
    largest: &Vec<usize>,
    did: crate::types::DefId,
) -> (r: Option<SizeAlign>)
    requires
        tcx_wf(tcx@),
        tcx_has(tcx@, did),
        forall|k: int|
            0 <= k < largest@.len() ==> #[trigger] largest@[k] < enum_def_v(
                tcx@,
                did,
            ).variants.len(),
    ensures
        match r {
            Some(sa) => static_enum_size_v(tcx@, arch, did, largest@) == Some(
                ((sa.size as nat), (sa.align as nat)),
            ),
            None => static_enum_size_v(tcx@, arch, did, largest@) is None,
        },
{
    let ghost vs = enum_def_v(tcx@, did).variants;
    let def = match tcx.lookup_enum(did) {
        Some(d) => d,
        None => {
            proof {
                assert(false);
            }
            unreached()
        },
    };
    proof {
        lemma_variant_list_len(def.variants@);
        assert(largest@.subrange(0, 0) =~= Seq::<usize>::empty());
    }
    let mut ms: u16 = 0;
    let mut ma: u8 = 1;
    let mut i: usize = 0;
    while i < largest.len()
        invariant
            tcx_wf(tcx@),
            tcx_has(tcx@, did),
            vs == enum_def_v(tcx@, did).variants,
            def@.variants == vs,
            def@.variants.len() == def.variants@.len(),
            forall|k: int| 0 <= k < largest@.len() ==> #[trigger] largest@[k] < vs.len(),
            i <= largest@.len(),
            largest_tuple_v(tcx@, arch, vs, largest@.subrange(0, i as int)) == Some(
                ((ms as nat), (ma as nat)),
            ),
            1 <= ma <= 8,
        decreases largest@.len() - i,
    {
        let vid = largest[i];
        proof {
            assert(largest@[i as int] < vs.len());
            lemma_variant_list_index(def.variants@, vid as int);
            assert(largest@.subrange(0, i + 1).drop_last() =~= largest@.subrange(0, i as int));
            assert(largest@.subrange(0, i + 1).last() == largest@[i as int]);
        }
        let tup = Ty::Tup(crate::types::deep_copy_list(&def.variants[vid].args));
        proof {
            assert(tup@ == TyV::Tup(vs[vid as int].args));
        }
        let vsa = match size_align_of(tcx, arch, &tup, MAX_TYPE_DEPTH) {
            Some(sa) => sa,
            None => {
                proof {
                    lemma_largest_prefix_none(tcx@, arch, vs, largest@, i + 1);
                }
                return None;
            },
        };
        proof {
            lemma_size_align_bounds(tcx@, arch, tup@, MAX_TYPE_DEPTH as nat);
        }
        if vsa.size > ms {
            ms = vsa.size;
        }
        if vsa.align > ma {
            ma = vsa.align;
        }
        i = i + 1;
    }
    proof {
        assert(largest@.subrange(0, largest@.len() as int) =~= largest@);
    }
    let w = word_bytes(arch);
    let wa = w as u8;
    if def.variants.len() > 1 {
        let total = (ms as u32) + (w as u32);
        if total > 0xffff {
            return None;
        }
        let align = if ma < wa {
            wa
        } else {
            ma
        };
        Some(SizeAlign { size: total as u16, align })
    } else {
        Some(SizeAlign { size: ms, align: ma })
    }
}

proof fn lemma_largest_prefix_none(
    tcx: TyCtxtV,
    arch: Arch,
    vs: Seq<crate::tcx::VariantInfoV>,
    lv: Seq<usize>,
    i: int,
)
    requires
        0 <= i <= lv.len(),
        largest_tuple_v(tcx, arch, vs, lv.subrange(0, i)) is None,
    ensures
        largest_tuple_v(tcx, arch, vs, lv) is None,
    decreases lv.len() - i,
{
    if i == lv.len() {
        assert(lv.subrange(0, i) =~= lv);
    } else {
        assert(lv.subrange(0, i + 1).drop_last() =~= lv.subrange(0, i));
        lemma_largest_prefix_none(tcx, arch, vs, lv, i + 1);
    }
}

/// The static size of the data part of an enum instantiation: the greatest
/// variant payload after substitution and simplification, without the
/// discriminant.
pub fn static_size_of_enum(tcx: &TyCtxt, arch: Arch, t: &Ty) -> (r: Option<u16>)
    requires
        tcx_wf(tcx@),
        t@ is Enum,
        tcx_has(tcx@, t@->Enum_0),
    ensures
        match r {
            Some(size) => enum_data_v(
                tcx@,
                arch,
                enum_def_v(tcx@, t@->Enum_0).variants,
                t@->Enum_1,
                MAX_TYPE_DEPTH as nat,
            ) matches Some(p) && p.0 == size,
            None => enum_data_v(
                tcx@,
                arch,
                enum_def_v(tcx@, t@->Enum_0).variants,
                t@->Enum_1,
                MAX_TYPE_DEPTH as nat,
            ) is None,
        },
{
    match t {
        Ty::Enum(did, tps) => {
            let def = match tcx.lookup_enum(*did) {
                Some(d) => d,
                None => {
                    proof {
                        assert(false);
                    }
                    unreached()
                },
            };
            match enum_data_of(tcx, arch, &def.variants, tps, MAX_TYPE_DEPTH) {
                Some((size, _)) => Some(size),
                None => None,
            }
        },
        _ => {
            proof {
                assert(false);
            }
            unreached()
        },
    }
}

} // verus!
