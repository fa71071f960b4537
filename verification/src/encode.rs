//! The shape encoder: maps one type descriptor to its self-delimiting byte
//! encoding, registering enum and resource types in the context as they are
//! discovered and referencing them by dense ids.

use vstd::prelude::*;

use crate::arch::{
    s_float_v, s_int_v, s_uint_v, Arch, SHAPE_BARE_FN, SHAPE_BOX, SHAPE_BOX_FN, SHAPE_ENUM,
    SHAPE_F32, SHAPE_F64, SHAPE_I16, SHAPE_I32, SHAPE_I64, SHAPE_I8, SHAPE_RES, SHAPE_RPTR,
    SHAPE_SEND_TYDESC, SHAPE_STACK_FN, SHAPE_STRUCT, SHAPE_TYDESC, SHAPE_U16, SHAPE_U32,
    SHAPE_U64, SHAPE_U8, SHAPE_UNIQ, SHAPE_UNIQ_FN, SHAPE_VAR, SHAPE_VEC,
};
use crate::arch::{s_float, s_int, s_uint, s_variant_enum_t};
use crate::buf::{add_bool, add_substr, add_u16, le16, substr_bytes};
use crate::ctxt::{ctxt_extends, ctxt_wf, Ctxt, CtxtV, ResInfo, ResInfoV};
use crate::tcx::{
    enum_def_v, enum_kind, enum_kind_v, is_tagged_kind, tcx_has, tcx_wf, EnumKind, TyCtxt,
    TyCtxtV, VariantInfo,
};
use crate::types::{
    deep_copy_list, lemma_tyv_list_index, lemma_tyv_list_len, pod_v, type_is_pod, tyv, tyv_list,
    DefId, Proto, Ty, TyV,
};

verus! {

/// The tag id of a registered enum declaration: its position in the
/// discovery-order list. Meaningful when the declaration is registered and
/// the registry is well-formed.
pub open spec fn tag_id_of(c: CtxtV, did: DefId) -> int {
    choose|i: int| 0 <= i < c.tags.len() && c.tags[i] == did
}

/// The resource id of an interned key: its position in the interning-order
/// list. Meaningful when the key is interned and the registry is well-formed.
pub open spec fn res_id_of(c: CtxtV, ri: ResInfoV) -> int {
    choose|i: int| 0 <= i < c.resources.len() && c.resources[i] == ri
}

/// The slot of declaration-level type-parameter index `n` in the slot
/// mapping: the position in `map` holding `n`.
pub open spec fn slot_of(map: Seq<usize>, n: nat) -> int {
    choose|i: int| 0 <= i < map.len() && map[i] as nat == n
}

/// Whether the slot mapping has a slot for parameter index `n`.
pub open spec fn map_covers(map: Seq<usize>, n: nat) -> bool {
    exists|i: int| 0 <= i < map.len() && map[i] as nat == n
}

/// Whether every enum declaration that the encoding of `t` consults is
/// present in the table.
pub open spec fn dids_known_v(tcx: TyCtxtV, t: TyV) -> bool
    decreases t,
{
    match t {
        TyV::Uniq(inner) => dids_known_v(tcx, *inner),
        TyV::Rptr(inner) => dids_known_v(tcx, *inner),
        TyV::Vect(inner) => dids_known_v(tcx, *inner),
        TyV::Tup(ts) => dids_known_list_v(tcx, ts),
        TyV::Enum(did, tps) => tcx_has(tcx, did) && (is_tagged_kind(
            enum_kind_v(enum_def_v(tcx, did).variants),
        ) ==> dids_known_list_v(tcx, tps)),
        TyV::Res(_, inner, tps) => dids_known_v(tcx, *inner) && dids_known_list_v(tcx, tps),
        _ => true,
    }
}

pub open spec fn dids_known_list_v(tcx: TyCtxtV, ts: Seq<TyV>) -> bool
    decreases ts,
{
    if ts.len() == 0 {
        true
    } else {
        dids_known_list_v(tcx, ts.drop_last()) && dids_known_v(tcx, ts.last())
    }
}

/// Whether every type-parameter reference that the encoding of `t` resolves
/// has a slot in the mapping.
pub open spec fn params_covered_v(tcx: TyCtxtV, map: Seq<usize>, t: TyV) -> bool
    decreases t,
{
    match t {
        TyV::Param(n) => map_covers(map, n),
        TyV::Uniq(inner) => params_covered_v(tcx, map, *inner),
        TyV::Rptr(inner) => params_covered_v(tcx, map, *inner),
        TyV::Vect(inner) => params_covered_v(tcx, map, *inner),
        TyV::Tup(ts) => params_covered_list_v(tcx, map, ts),
        TyV::Enum(did, tps) => is_tagged_kind(enum_kind_v(enum_def_v(tcx, did).variants))
            ==> params_covered_list_v(tcx, map, tps),
        TyV::Res(_, inner, tps) => params_covered_v(tcx, map, *inner) && params_covered_list_v(
            tcx,
            map,
            tps,
        ),
        _ => true,
    }
}

pub open spec fn params_covered_list_v(tcx: TyCtxtV, map: Seq<usize>, ts: Seq<TyV>) -> bool
    decreases ts,
{
    if ts.len() == 0 {
        true
    } else {
        params_covered_list_v(tcx, map, ts.drop_last()) && params_covered_v(tcx, map, ts.last())
    }
}

/// Number of enum nodes in `t`: an upper bound on how many tag registrations
/// encoding `t` can add.
pub open spec fn enum_nodes_v(t: TyV) -> nat
    decreases t,
{
    match t {
        TyV::Uniq(inner) => enum_nodes_v(*inner),
        TyV::Rptr(inner) => enum_nodes_v(*inner),
        TyV::Vect(inner) => enum_nodes_v(*inner),
        TyV::Tup(ts) => enum_nodes_list_v(ts),
        TyV::Enum(_, tps) => 1 + enum_nodes_list_v(tps),
        TyV::Res(_, inner, tps) => enum_nodes_v(*inner) + enum_nodes_list_v(tps),
        _ => 0,
    }
}

pub open spec fn enum_nodes_list_v(ts: Seq<TyV>) -> nat
    decreases ts,
{
    if ts.len() == 0 {
        0
    } else {
        enum_nodes_list_v(ts.drop_last()) + enum_nodes_v(ts.last())
    }
}

/// Number of resource nodes in `t`: an upper bound on how many interning
/// entries encoding `t` can add.
pub open spec fn res_nodes_v(t: TyV) -> nat
    decreases t,
{
    match t {
        TyV::Uniq(inner) => res_nodes_v(*inner),
        TyV::Rptr(inner) => res_nodes_v(*inner),
        TyV::Vect(inner) => res_nodes_v(*inner),
        TyV::Tup(ts) => res_nodes_list_v(ts),
        TyV::Enum(_, tps) => res_nodes_list_v(tps),
        TyV::Res(_, inner, tps) => 1 + res_nodes_v(*inner) + res_nodes_list_v(tps),
        _ => 0,
    }
}

pub open spec fn res_nodes_list_v(ts: Seq<TyV>) -> nat
    decreases ts,
{
    if ts.len() == 0 {
        0
    } else {
        res_nodes_list_v(ts.drop_last()) + res_nodes_v(ts.last())
    }
}

/// Byte length of the encoding of `t`. It depends only on the structure of
/// the type and on the classification of referenced enums, never on the
/// registry or on the slot mapping.
pub open spec fn shape_len_v(tcx: TyCtxtV, t: TyV) -> nat
    decreases t,
{
    match t {
        TyV::Str => 5,
        TyV::Uniq(inner) => 3 + shape_len_v(tcx, *inner),
        TyV::Rptr(inner) => 3 + shape_len_v(tcx, *inner),
        TyV::Vect(inner) => 4 + shape_len_v(tcx, *inner),
        TyV::Tup(ts) => 3 + shape_len_list_v(tcx, ts),
        TyV::Enum(did, tps) => if is_tagged_kind(enum_kind_v(enum_def_v(tcx, did).variants)) {
            5 + shape_len_args_v(tcx, tps)
        } else {
            1
        },
        TyV::Res(_, inner, tps) => 7 + shape_len_args_v(tcx, tps) + shape_len_v(tcx, *inner),
        TyV::Param(_) => 2,
        _ => 1,
    }
}

/// Total byte length of a concatenation of field encodings.
pub open spec fn shape_len_list_v(tcx: TyCtxtV, ts: Seq<TyV>) -> nat
    decreases ts,
{
    if ts.len() == 0 {
        0
    } else {
        shape_len_list_v(tcx, ts.drop_last()) + shape_len_v(tcx, ts.last())
    }
}

/// Total byte length of a type-argument block: each argument's encoding with
/// its two-byte length prefix.
pub open spec fn shape_len_args_v(tcx: TyCtxtV, ts: Seq<TyV>) -> nat
    decreases ts,
{
    if ts.len() == 0 {
        0
    } else {
        shape_len_args_v(tcx, ts.drop_last()) + 2 + shape_len_v(tcx, ts.last())
    }
}

/// The byte encoding of `t` against registry `c`: one opcode byte per kind,
/// fixed operands for scalars, length-prefixed sub-encodings for composite
/// kinds, and dense-id references for registered enum and resource types.
pub open spec fn shape_v(arch: Arch, tcx: TyCtxtV, c: CtxtV, map: Seq<usize>, t: TyV) -> Seq<u8>
    decreases t,
{
    match t {
        TyV::Nil => seq![SHAPE_U8],
        TyV::Bool => seq![SHAPE_U8],
        TyV::U8 => seq![SHAPE_U8],
        TyV::I8 => seq![SHAPE_I8],
        TyV::U16 => seq![SHAPE_U16],
        TyV::I16 => seq![SHAPE_I16],
        TyV::U32 => seq![SHAPE_U32],
        TyV::I32 => seq![SHAPE_I32],
        TyV::U64 => seq![SHAPE_U64],
        TyV::I64 => seq![SHAPE_I64],
        TyV::F32 => seq![SHAPE_F32],
        TyV::F64 => seq![SHAPE_F64],
        TyV::Int => seq![s_int_v(arch)],
        TyV::Uint => seq![s_uint_v(arch)],
        TyV::Float => seq![s_float_v(arch)],
        TyV::Str => seq![SHAPE_VEC, 1u8] + substr_bytes(seq![SHAPE_U8]),
        TyV::Boxed => seq![SHAPE_BOX],
        TyV::Ptr => seq![s_uint_v(arch)],
        TyV::Uniq(inner) => seq![SHAPE_UNIQ] + substr_bytes(shape_v(arch, tcx, c, map, *inner)),
        TyV::Rptr(inner) => seq![SHAPE_RPTR] + substr_bytes(shape_v(arch, tcx, c, map, *inner)),
        TyV::Vect(inner) => seq![
            SHAPE_VEC,
            if pod_v(*inner) {
                1u8
            } else {
                0u8
            },
        ] + substr_bytes(shape_v(arch, tcx, c, map, *inner)),
        TyV::Tup(ts) => seq![SHAPE_STRUCT] + substr_bytes(shape_concat_v(arch, tcx, c, map, ts)),
        TyV::Enum(did, tps) => if is_tagged_kind(enum_kind_v(enum_def_v(tcx, did).variants)) {
            seq![SHAPE_ENUM] + le16(tag_id_of(c, did) as u16) + le16(tps.len() as u16)
                + shape_args_v(arch, tcx, c, map, tps)
        } else {
            seq![s_int_v(arch)]
        },
        TyV::Res(did, inner, tps) => seq![SHAPE_RES] + le16(
            res_id_of(c, ResInfoV { did, tps }) as u16,
        ) + le16(tps.len() as u16) + shape_args_v(arch, tcx, c, map, tps) + substr_bytes(
            shape_v(arch, tcx, c, map, *inner),
        ),
        TyV::Param(n) => seq![SHAPE_VAR, slot_of(map, n) as u8],
        TyV::Func(Proto::Boxed) => seq![SHAPE_BOX_FN],
        TyV::Func(Proto::Owned) => seq![SHAPE_UNIQ_FN],
        TyV::Func(Proto::Stack) => seq![SHAPE_STACK_FN],
        TyV::Func(Proto::Bare) => seq![SHAPE_BARE_FN],
        TyV::TyDesc => seq![SHAPE_TYDESC],
        TyV::SendTyDesc => seq![SHAPE_SEND_TYDESC],
    }
}

/// Concatenation of the field encodings of a struct body.
pub open spec fn shape_concat_v(
    arch: Arch,
    tcx: TyCtxtV,
    c: CtxtV,
    map: Seq<usize>,
    ts: Seq<TyV>,
) -> Seq<u8>
    decreases ts,
{
    if ts.len() == 0 {
        Seq::empty()
    } else {
        shape_concat_v(arch, tcx, c, map, ts.drop_last()) + shape_v(arch, tcx, c, map, ts.last())
    }
}

/// A type-argument block: each argument's encoding, length-prefixed.
pub open spec fn shape_args_v(
    arch: Arch,
    tcx: TyCtxtV,
    c: CtxtV,
    map: Seq<usize>,
    ts: Seq<TyV>,
) -> Seq<u8>
    decreases ts,
{
    if ts.len() == 0 {
        Seq::empty()
    } else {
        shape_args_v(arch, tcx, c, map, ts.drop_last()) + substr_bytes(
            shape_v(arch, tcx, c, map, ts.last()),
        )
    }
}

/// Registering a new enum declaration: a no-op if it is already known.
pub open spec fn tag_register_v(c: CtxtV, did: DefId) -> CtxtV {
    if c.tags.contains(did) {
        c
    } else {
        CtxtV { tags: c.tags.push(did), resources: c.resources }
    }
}

/// Interning a resource key: a no-op if an identical key is present.
pub open spec fn res_intern_v(c: CtxtV, ri: ResInfoV) -> CtxtV {
    if c.resources.contains(ri) {
        c
    } else {
        CtxtV { tags: c.tags, resources: c.resources.push(ri) }
    }
}

/// The registry after encoding `t` from registry `c`: data-carrying enums
/// are registered before their type arguments are encoded, and resources
/// are interned before theirs.
pub open spec fn register_v(tcx: TyCtxtV, c: CtxtV, t: TyV) -> CtxtV
    decreases t,
{
    match t {
        TyV::Uniq(inner) => register_v(tcx, c, *inner),
        TyV::Rptr(inner) => register_v(tcx, c, *inner),
        TyV::Vect(inner) => register_v(tcx, c, *inner),
        TyV::Tup(ts) => register_list_v(tcx, c, ts),
        TyV::Enum(did, tps) => if is_tagged_kind(enum_kind_v(enum_def_v(tcx, did).variants)) {
            register_list_v(tcx, tag_register_v(c, did), tps)
        } else {
            c
        },
        TyV::Res(did, inner, tps) => register_v(
            tcx,
            register_list_v(tcx, res_intern_v(c, ResInfoV { did, tps }), tps),
            *inner,
        ),
        _ => c,
    }
}

/// The registry after encoding each element of `ts` in order.
pub open spec fn register_list_v(tcx: TyCtxtV, c: CtxtV, ts: Seq<TyV>) -> CtxtV
    decreases ts,
{
    if ts.len() == 0 {
        c
    } else {
        register_v(tcx, register_list_v(tcx, c, ts.drop_last()), ts.last())
    }
}

/// Whether everything the encoding of `t` references by id is present in
/// registry `c`.
pub open spec fn registered_v(tcx: TyCtxtV, c: CtxtV, t: TyV) -> bool
    decreases t,
{
    match t {
        TyV::Uniq(inner) => registered_v(tcx, c, *inner),
        TyV::Rptr(inner) => registered_v(tcx, c, *inner),
        TyV::Vect(inner) => registered_v(tcx, c, *inner),
        TyV::Tup(ts) => registered_list_v(tcx, c, ts),
        TyV::Enum(did, tps) => is_tagged_kind(enum_kind_v(enum_def_v(tcx, did).variants))
            ==> c.tags.contains(did) && registered_list_v(tcx, c, tps),
        TyV::Res(did, inner, tps) => c.resources.contains(ResInfoV { did, tps })
            && registered_list_v(tcx, c, tps) && registered_v(tcx, c, *inner),
        _ => true,
    }
}

pub open spec fn registered_list_v(tcx: TyCtxtV, c: CtxtV, ts: Seq<TyV>) -> bool
    decreases ts,
{
    if ts.len() == 0 {
        true
    } else {
        registered_list_v(tcx, c, ts.drop_last()) && registered_v(tcx, c, ts.last())
    }
}

pub proof fn lemma_ctxt_extends_refl(c: CtxtV)
    ensures
        ctxt_extends(c, c),
{
    assert(c.tags.subrange(0, c.tags.len() as int) =~= c.tags);
    assert(c.resources.subrange(0, c.resources.len() as int) =~= c.resources);
}

pub proof fn lemma_tags_contains_extends(c1: CtxtV, c2: CtxtV, did: DefId)
    requires
        ctxt_extends(c1, c2),
        c1.tags.contains(did),
    ensures
        c2.tags.contains(did),
{
    let i = choose|i: int| 0 <= i < c1.tags.len() && c1.tags[i] == did;
    assert(c2.tags.subrange(0, c1.tags.len() as int)[i] == c2.tags[i]);
    assert(c2.tags[i] == did);
}

pub proof fn lemma_res_contains_extends(c1: CtxtV, c2: CtxtV, ri: ResInfoV)
    requires
        ctxt_extends(c1, c2),
        c1.resources.contains(ri),
    ensures
        c2.resources.contains(ri),
{
    let i = choose|i: int| 0 <= i < c1.resources.len() && c1.resources[i] == ri;
    assert(c2.resources.subrange(0, c1.resources.len() as int)[i] == c2.resources[i]);
    assert(c2.resources[i] == ri);
}

/// The tag id of a registered declaration does not move as the registry
/// grows.
pub proof fn lemma_tag_id_extends(c1: CtxtV, c2: CtxtV, did: DefId)
    requires
        ctxt_extends(c1, c2),
        ctxt_wf(c2),
        c1.tags.contains(did),
    ensures
        c2.tags.contains(did),
        tag_id_of(c2, did) == tag_id_of(c1, did),
        0 <= tag_id_of(c1, did) < c1.tags.len(),
        c1.tags[tag_id_of(c1, did)] == did,
{
    let i1 = tag_id_of(c1, did);
    assert(c1.tags[i1] == did);
    assert(c2.tags.subrange(0, c1.tags.len() as int)[i1] == c2.tags[i1]);
    assert(c2.tags[i1] == did);
    assert(c2.tags.contains(did));
    let i2 = tag_id_of(c2, did);
    assert(c2.tags[i2] == did);
    if i1 != i2 {
        assert(false);
    }
}

/// The resource id of an interned key does not move as the registry grows.
pub proof fn lemma_res_id_extends(c1: CtxtV, c2: CtxtV, ri: ResInfoV)
    requires
        ctxt_extends(c1, c2),
        ctxt_wf(c2),
        c1.resources.contains(ri),
    ensures
        c2.resources.contains(ri),
        res_id_of(c2, ri) == res_id_of(c1, ri),
        0 <= res_id_of(c1, ri) < c1.resources.len(),
        c1.resources[res_id_of(c1, ri)] == ri,
{
    let i1 = res_id_of(c1, ri);
    assert(c1.resources[i1] == ri);
    assert(c2.resources.subrange(0, c1.resources.len() as int)[i1] == c2.resources[i1]);
    assert(c2.resources[i1] == ri);
    assert(c2.resources.contains(ri));
    let i2 = res_id_of(c2, ri);
    assert(c2.resources[i2] == ri);
    if i1 != i2 {
        assert(false);
    }
}

/// Everything registered stays registered as the registry grows.
pub proof fn lemma_registered_extends(tcx: TyCtxtV, c1: CtxtV, c2: CtxtV, t: TyV)
    requires
        registered_v(tcx, c1, t),
        ctxt_extends(c1, c2),
    ensures
        registered_v(tcx, c2, t),
    decreases t,
{
    match t {
        TyV::Uniq(inner) => lemma_registered_extends(tcx, c1, c2, *inner),
        TyV::Rptr(inner) => lemma_registered_extends(tcx, c1, c2, *inner),
        TyV::Vect(inner) => lemma_registered_extends(tcx, c1, c2, *inner),
        TyV::Tup(ts) => lemma_registered_list_extends(tcx, c1, c2, ts),
        TyV::Enum(did, tps) => {
            if is_tagged_kind(enum_kind_v(enum_def_v(tcx, did).variants)) {
                lemma_tags_contains_extends(c1, c2, did);
                lemma_registered_list_extends(tcx, c1, c2, tps);
            }
        },
        TyV::Res(did, inner, tps) => {
            lemma_res_contains_extends(c1, c2, ResInfoV { did, tps });
            lemma_registered_list_extends(tcx, c1, c2, tps);
            lemma_registered_extends(tcx, c1, c2, *inner);
        },
        _ => {},
    }
}

pub proof fn lemma_registered_list_extends(tcx: TyCtxtV, c1: CtxtV, c2: CtxtV, ts: Seq<TyV>)
    requires
        registered_list_v(tcx, c1, ts),
        ctxt_extends(c1, c2),
    ensures
        registered_list_v(tcx, c2, ts),
    decreases ts,
{
    if ts.len() > 0 {
        lemma_registered_list_extends(tcx, c1, c2, ts.drop_last());
        lemma_registered_extends(tcx, c1, c2, ts.last());
    }
}

/// The encoding of a fully registered type reads the same against any larger
/// registry: ids are stable, and nothing else consults the registry.
pub proof fn lemma_shape_stable(
    arch: Arch,
    tcx: TyCtxtV,
    c1: CtxtV,
    c2: CtxtV,
    map: Seq<usize>,
    t: TyV,
)
    requires
        registered_v(tcx, c1, t),
        ctxt_extends(c1, c2),
        ctxt_wf(c2),
    ensures
        shape_v(arch, tcx, c2, map, t) == shape_v(arch, tcx, c1, map, t),
    decreases t,
{
    match t {
        TyV::Uniq(inner) => lemma_shape_stable(arch, tcx, c1, c2, map, *inner),
        TyV::Rptr(inner) => lemma_shape_stable(arch, tcx, c1, c2, map, *inner),
        TyV::Vect(inner) => lemma_shape_stable(arch, tcx, c1, c2, map, *inner),
        TyV::Tup(ts) => lemma_shape_concat_stable(arch, tcx, c1, c2, map, ts),
        TyV::Enum(did, tps) => {
            if is_tagged_kind(enum_kind_v(enum_def_v(tcx, did).variants)) {
                lemma_tag_id_extends(c1, c2, did);
                lemma_shape_args_stable(arch, tcx, c1, c2, map, tps);
            }
        },
        TyV::Res(did, inner, tps) => {
            lemma_res_id_extends(c1, c2, ResInfoV { did, tps });
            lemma_shape_args_stable(arch, tcx, c1, c2, map, tps);
            lemma_shape_stable(arch, tcx, c1, c2, map, *inner);
        },
        _ => {},
    }
}

pub proof fn lemma_shape_concat_stable(
    arch: Arch,
    tcx: TyCtxtV,
    c1: CtxtV,
    c2: CtxtV,
    map: Seq<usize>,
    ts: Seq<TyV>,
)
    requires
        registered_list_v(tcx, c1, ts),
        ctxt_extends(c1, c2),
        ctxt_wf(c2),
    ensures
        shape_concat_v(arch, tcx, c2, map, ts) == shape_concat_v(arch, tcx, c1, map, ts),
    decreases ts,
{
    if ts.len() > 0 {
        lemma_shape_concat_stable(arch, tcx, c1, c2, map, ts.drop_last());
        lemma_shape_stable(arch, tcx, c1, c2, map, ts.last());
    }
}

pub proof fn lemma_shape_args_stable(
    arch: Arch,
    tcx: TyCtxtV,
    c1: CtxtV,
    c2: CtxtV,
    map: Seq<usize>,
    ts: Seq<TyV>,
)
    requires
        registered_list_v(tcx, c1, ts),
        ctxt_extends(c1, c2),
        ctxt_wf(c2),
    ensures
        shape_args_v(arch, tcx, c2, map, ts) == shape_args_v(arch, tcx, c1, map, ts),
    decreases ts,
{
    if ts.len() > 0 {
        lemma_shape_args_stable(arch, tcx, c1, c2, map, ts.drop_last());
        lemma_shape_stable(arch, tcx, c1, c2, map, ts.last());
    }
}

/// Registration grows the registry by at most the node counts, keeps it
/// well-formed, extends it, and leaves the type fully registered.
pub proof fn lemma_register_all(tcx: TyCtxtV, c: CtxtV, t: TyV)
    requires
        ctxt_wf(c),
        c.tags.len() + enum_nodes_v(t) <= 0xffff,
        c.resources.len() + res_nodes_v(t) <= 0xffff,
    ensures
        ctxt_wf(register_v(tcx, c, t)),
        ctxt_extends(c, register_v(tcx, c, t)),
        register_v(tcx, c, t).tags.len() <= c.tags.len() + enum_nodes_v(t),
        register_v(tcx, c, t).resources.len() <= c.resources.len() + res_nodes_v(t),
        registered_v(tcx, register_v(tcx, c, t), t),
    decreases t,
{
    match t {
        TyV::Uniq(inner) => lemma_register_all(tcx, c, *inner),
        TyV::Rptr(inner) => lemma_register_all(tcx, c, *inner),
        TyV::Vect(inner) => lemma_register_all(tcx, c, *inner),
        TyV::Tup(ts) => lemma_register_all_list(tcx, c, ts),
        TyV::Enum(did, tps) => {
            if is_tagged_kind(enum_kind_v(enum_def_v(tcx, did).variants)) {
                let c1 = tag_register_v(c, did);
                lemma_tag_register_props(c, did);
                lemma_register_all_list(tcx, c1, tps);
                let c2 = register_list_v(tcx, c1, tps);
                crate::ctxt::lemma_ctxt_extends_trans(c, c1, c2);
                lemma_tags_contains_extends(c1, c2, did);
            } else {
                lemma_ctxt_extends_refl(c);
            }
        },
        TyV::Res(did, inner, tps) => {
            let ri = ResInfoV { did, tps };
            let c1 = res_intern_v(c, ri);
            lemma_res_intern_props(c, ri);
            lemma_register_all_list(tcx, c1, tps);
            let c2 = register_list_v(tcx, c1, tps);
            lemma_register_all(tcx, c2, *inner);
            let c3 = register_v(tcx, c2, *inner);
            crate::ctxt::lemma_ctxt_extends_trans(c, c1, c2);
            crate::ctxt::lemma_ctxt_extends_trans(c, c2, c3);
            lemma_res_contains_extends(c1, c2, ri);
            lemma_res_contains_extends(c2, c3, ri);
            lemma_registered_list_extends(tcx, c2, c3, tps);
        },
        _ => {
            lemma_ctxt_extends_refl(c);
        },
    }
}

pub proof fn lemma_register_all_list(tcx: TyCtxtV, c: CtxtV, ts: Seq<TyV>)
    requires
        ctxt_wf(c),
        c.tags.len() + enum_nodes_list_v(ts) <= 0xffff,
        c.resources.len() + res_nodes_list_v(ts) <= 0xffff,
    ensures
        ctxt_wf(register_list_v(tcx, c, ts)),
        ctxt_extends(c, register_list_v(tcx, c, ts)),
        register_list_v(tcx, c, ts).tags.len() <= c.tags.len() + enum_nodes_list_v(ts),
        register_list_v(tcx, c, ts).resources.len() <= c.resources.len() + res_nodes_list_v(ts),
        registered_list_v(tcx, register_list_v(tcx, c, ts), ts),
    decreases ts,
{
    if ts.len() == 0 {
        lemma_ctxt_extends_refl(c);
    } else {
        lemma_register_all_list(tcx, c, ts.drop_last());
        let cA = register_list_v(tcx, c, ts.drop_last());
        lemma_register_all(tcx, cA, ts.last());
        let cB = register_v(tcx, cA, ts.last());
        crate::ctxt::lemma_ctxt_extends_trans(c, cA, cB);
        lemma_registered_list_extends(tcx, cA, cB, ts.drop_last());
    }
}

proof fn lemma_tag_register_props(c: CtxtV, did: DefId)
    requires
        ctxt_wf(c),
        c.tags.len() < 0xffff,
    ensures
        ctxt_wf(tag_register_v(c, did)),
        ctxt_extends(c, tag_register_v(c, did)),
        tag_register_v(c, did).tags.len() <= c.tags.len() + 1,
        tag_register_v(c, did).resources == c.resources,
        tag_register_v(c, did).tags.contains(did),
{
    let c1 = tag_register_v(c, did);
    if c.tags.contains(did) {
        lemma_ctxt_extends_refl(c);
    } else {
        assert(c1.tags.subrange(0, c.tags.len() as int) =~= c.tags);
        assert(c1.resources.subrange(0, c.resources.len() as int) =~= c.resources);
        assert(c1.tags[c.tags.len() as int] == did);
        assert forall|i: int, j: int| 0 <= i < j < c1.tags.len() implies c1.tags[i]
            != c1.tags[j] by {
            if j == c1.tags.len() - 1 {
                assert(c1.tags[i] == c.tags[i]);
                if c1.tags[i] == did {
                    assert(c.tags.contains(did));
                }
            }
        }
    }
}

proof fn lemma_res_intern_props(c: CtxtV, ri: ResInfoV)
    requires
        ctxt_wf(c),
        c.resources.len() < 0xffff,
    ensures
        ctxt_wf(res_intern_v(c, ri)),
        ctxt_extends(c, res_intern_v(c, ri)),
        res_intern_v(c, ri).resources.len() <= c.resources.len() + 1,
        res_intern_v(c, ri).tags == c.tags,
        res_intern_v(c, ri).resources.contains(ri),
{
    let c1 = res_intern_v(c, ri);
    if c.resources.contains(ri) {
        lemma_ctxt_extends_refl(c);
    } else {
        assert(c1.tags.subrange(0, c.tags.len() as int) =~= c.tags);
        assert(c1.resources.subrange(0, c.resources.len() as int) =~= c.resources);
        assert(c1.resources[c.resources.len() as int] == ri);
        assert forall|i: int, j: int| 0 <= i < j < c1.resources.len() implies c1.resources[i]
            != c1.resources[j] by {
            if j == c1.resources.len() - 1 {
                assert(c1.resources[i] == c.resources[i]);
                if c1.resources[i] == ri {
                    assert(c.resources.contains(ri));
                }
            }
        }
    }
}

/// Registering an already fully registered type changes nothing: encoding is
/// idempotent on the registry.
pub proof fn lemma_register_noop(tcx: TyCtxtV, c: CtxtV, t: TyV)
    requires
        registered_v(tcx, c, t),
    ensures
        register_v(tcx, c, t) == c,
    decreases t,
{
    match t {
        TyV::Uniq(inner) => lemma_register_noop(tcx, c, *inner),
        TyV::Rptr(inner) => lemma_register_noop(tcx, c, *inner),
        TyV::Vect(inner) => lemma_register_noop(tcx, c, *inner),
        TyV::Tup(ts) => lemma_register_list_noop(tcx, c, ts),
        TyV::Enum(did, tps) => {
            if is_tagged_kind(enum_kind_v(enum_def_v(tcx, did).variants)) {
                lemma_register_list_noop(tcx, c, tps);
            }
        },
        TyV::Res(did, inner, tps) => {
            lemma_register_list_noop(tcx, c, tps);
            lemma_register_noop(tcx, c, *inner);
        },
        _ => {},
    }
}

pub proof fn lemma_register_list_noop(tcx: TyCtxtV, c: CtxtV, ts: Seq<TyV>)
    requires
        registered_list_v(tcx, c, ts),
    ensures
        register_list_v(tcx, c, ts) == c,
    decreases ts,
{
    if ts.len() > 0 {
        lemma_register_list_noop(tcx, c, ts.drop_last());
        lemma_register_noop(tcx, c, ts.last());
    }
}

/// Unfolds each of the list-valued spec functions over a `push`.
pub proof fn lemma_lists_push(
    arch: Arch,
    tcx: TyCtxtV,
    c: CtxtV,
    map: Seq<usize>,
    ts: Seq<TyV>,
    t: TyV,
)
    ensures
        registered_list_v(tcx, c, ts.push(t)) == (registered_list_v(tcx, c, ts) && registered_v(
            tcx,
            c,
            t,
        )),
        register_list_v(tcx, c, ts.push(t)) == register_v(tcx, register_list_v(tcx, c, ts), t),
        shape_args_v(arch, tcx, c, map, ts.push(t)) == shape_args_v(arch, tcx, c, map, ts)
            + substr_bytes(shape_v(arch, tcx, c, map, t)),
        shape_concat_v(arch, tcx, c, map, ts.push(t)) == shape_concat_v(arch, tcx, c, map, ts)
            + shape_v(arch, tcx, c, map, t),
        dids_known_list_v(tcx, ts.push(t)) == (dids_known_list_v(tcx, ts) && dids_known_v(tcx, t)),
        params_covered_list_v(tcx, map, ts.push(t)) == (params_covered_list_v(tcx, map, ts)
            && params_covered_v(tcx, map, t)),
        enum_nodes_list_v(ts.push(t)) == enum_nodes_list_v(ts) + enum_nodes_v(t),
        res_nodes_list_v(ts.push(t)) == res_nodes_list_v(ts) + res_nodes_v(t),
        shape_len_list_v(tcx, ts.push(t)) == shape_len_list_v(tcx, ts) + shape_len_v(tcx, t),
        shape_len_args_v(tcx, ts.push(t)) == shape_len_args_v(tcx, ts) + 2 + shape_len_v(tcx, t),
{
    assert(ts.push(t).drop_last() =~= ts);
}

/// Bounds every structural quantity of a prefix, and of the element at its
/// end, by the quantity of the whole list.
pub proof fn lemma_lists_prefix(tcx: TyCtxtV, ts: Seq<TyV>, i: int)
    requires
        0 <= i <= ts.len(),
    ensures
        enum_nodes_list_v(ts.subrange(0, i)) <= enum_nodes_list_v(ts),
        res_nodes_list_v(ts.subrange(0, i)) <= res_nodes_list_v(ts),
        shape_len_list_v(tcx, ts.subrange(0, i)) <= shape_len_list_v(tcx, ts),
        shape_len_args_v(tcx, ts.subrange(0, i)) <= shape_len_args_v(tcx, ts),
        i < ts.len() ==> enum_nodes_list_v(ts.subrange(0, i)) + enum_nodes_v(ts[i])
            <= enum_nodes_list_v(ts),
        i < ts.len() ==> res_nodes_list_v(ts.subrange(0, i)) + res_nodes_v(ts[i])
            <= res_nodes_list_v(ts),
        i < ts.len() ==> shape_len_list_v(tcx, ts.subrange(0, i)) + shape_len_v(tcx, ts[i])
            <= shape_len_list_v(tcx, ts),
        i < ts.len() ==> shape_len_args_v(tcx, ts.subrange(0, i)) + 2 + shape_len_v(tcx, ts[i])
            <= shape_len_args_v(tcx, ts),
    decreases ts.len() - i,
{
    if i == ts.len() {
        assert(ts.subrange(0, i) =~= ts);
    } else {
        lemma_lists_prefix(tcx, ts, i + 1);
        assert(ts.subrange(0, i + 1) =~= ts.subrange(0, i).push(ts[i]));
        lemma_lists_push(
            Arch::X86,
            tcx,
            CtxtV { tags: Seq::empty(), resources: Seq::empty() },
            Seq::empty(),
            ts.subrange(0, i),
            ts[i],
        );
    }
}

/// Whether every enum the list's encoding consults is known, and every
/// parameter it resolves is covered, element by element.
pub proof fn lemma_list_preds_at(tcx: TyCtxtV, map: Seq<usize>, ts: Seq<TyV>, i: int)
    requires
        0 <= i < ts.len(),
    ensures
        dids_known_list_v(tcx, ts) ==> dids_known_v(tcx, ts[i]),
        params_covered_list_v(tcx, map, ts) ==> params_covered_v(tcx, map, ts[i]),
    decreases ts.len(),
{
    if i == ts.len() - 1 {
    } else {
        lemma_list_preds_at(tcx, map, ts.drop_last(), i);
    }
}

/// A type-argument block is at least two bytes per argument, so the
/// argument count of an encodable block fits in sixteen bits.
pub proof fn lemma_args_count_bound(tcx: TyCtxtV, ts: Seq<TyV>)
    ensures
        shape_len_args_v(tcx, ts) >= 2 * ts.len(),
    decreases ts,
{
    if ts.len() > 0 {
        lemma_args_count_bound(tcx, ts.drop_last());
    }
}

/// The encoding is as long as `shape_len_v` says, whatever the registry and
/// the slot mapping.
pub proof fn lemma_shape_len(arch: Arch, tcx: TyCtxtV, c: CtxtV, map: Seq<usize>, t: TyV)
    ensures
        shape_v(arch, tcx, c, map, t).len() == shape_len_v(tcx, t),
    decreases t,
{
    match t {
        TyV::Uniq(inner) => lemma_shape_len(arch, tcx, c, map, *inner),
        TyV::Rptr(inner) => lemma_shape_len(arch, tcx, c, map, *inner),
        TyV::Vect(inner) => lemma_shape_len(arch, tcx, c, map, *inner),
        TyV::Tup(ts) => lemma_shape_len_concat(arch, tcx, c, map, ts),
        TyV::Enum(did, tps) => {
            if is_tagged_kind(enum_kind_v(enum_def_v(tcx, did).variants)) {
                lemma_shape_len_args(arch, tcx, c, map, tps);
            }
        },
        TyV::Res(_, inner, tps) => {
            lemma_shape_len_args(arch, tcx, c, map, tps);
            lemma_shape_len(arch, tcx, c, map, *inner);
        },
        _ => {},
    }
}

pub proof fn lemma_shape_len_concat(
    arch: Arch,
    tcx: TyCtxtV,
    c: CtxtV,
    map: Seq<usize>,
    ts: Seq<TyV>,
)
    ensures
        shape_concat_v(arch, tcx, c, map, ts).len() == shape_len_list_v(tcx, ts),
    decreases ts,
{
    if ts.len() > 0 {
        lemma_shape_len_concat(arch, tcx, c, map, ts.drop_last());
        lemma_shape_len(arch, tcx, c, map, ts.last());
    }
}

pub proof fn lemma_shape_len_args(
    arch: Arch,
    tcx: TyCtxtV,
    c: CtxtV,
    map: Seq<usize>,
    ts: Seq<TyV>,
)
    ensures
        shape_args_v(arch, tcx, c, map, ts).len() == shape_len_args_v(tcx, ts),
    decreases ts,
{
    if ts.len() > 0 {
        lemma_shape_len_args(arch, tcx, c, map, ts.drop_last());
        lemma_shape_len(arch, tcx, c, map, ts.last());
    }
}

/// Determinism of the encoding: one type, one slot mapping and one registry
/// give one byte string; and once everything the type references is
/// registered, encoding it again changes nothing, so repeated encodings of
/// the same type are byte-identical.
pub proof fn lemma_encode_deterministic(
    arch: Arch,
    tcx: TyCtxtV,
    c: CtxtV,
    map: Seq<usize>,
    t: TyV,
)
    requires
        registered_v(tcx, c, t),
    ensures
        register_v(tcx, c, t) == c,
        shape_v(arch, tcx, register_v(tcx, c, t), map, t) == shape_v(arch, tcx, c, map, t),
{
    lemma_register_noop(tcx, c, t);
}

/// Two instantiations of one registered data-carrying enum declaration
/// share the tag id: their encodings agree on the opcode and the id bytes,
/// and differ only in the argument payload that follows.
pub proof fn lemma_same_declaration_same_tag(
    arch: Arch,
    tcx: TyCtxtV,
    c: CtxtV,
    map: Seq<usize>,
    did: DefId,
    tps1: Seq<TyV>,
    tps2: Seq<TyV>,
)
    requires
        is_tagged_kind(enum_kind_v(enum_def_v(tcx, did).variants)),
    ensures
        shape_v(arch, tcx, c, map, TyV::Enum(did, tps1)).subrange(0, 3) == shape_v(
            arch,
            tcx,
            c,
            map,
            TyV::Enum(did, tps2),
        ).subrange(0, 3),
{
    let s1 = shape_v(arch, tcx, c, map, TyV::Enum(did, tps1));
    let s2 = shape_v(arch, tcx, c, map, TyV::Enum(did, tps2));
    assert(s1.subrange(0, 3) =~= s2.subrange(0, 3));
}

/// The identity slot mapping over `n` parameters: slot `i` holds parameter
/// index `i`.
pub open spec fn identity_map_v(n: nat) -> Seq<usize> {
    Seq::new(n, |i: int| i as usize)
}

pub proof fn lemma_identity_map(n: nat)
    requires
        n <= usize::MAX,
    ensures
        identity_map_v(n).len() == n,
        identity_map_v(n).no_duplicates(),
        forall|k: nat| map_covers(identity_map_v(n), k) <==> k < n,
        forall|k: nat| k < n ==> slot_of(identity_map_v(n), k) == k,
{
    let m = identity_map_v(n);
    assert forall|k: nat| k < n implies map_covers(m, k) && slot_of(m, k) == k by {
        assert(m[k as int] as nat == k);
        let i = slot_of(m, k);
        assert(m[i] as nat == k);
    }
    assert forall|k: nat| map_covers(m, k) implies k < n by {
        let i = choose|i: int| 0 <= i < m.len() && m[i] as nat == k;
    }
}

/// Encodes one type descriptor against the slot mapping, registering the
/// data-carrying enums and the resources it mentions; the resulting bytes
/// are the encoding read against the registry as the call leaves it.
#[verifier::rlimit(100)]
pub fn shape_of(
    arch: Arch,
    tcx: &TyCtxt,
    cx: &mut Ctxt,
    t: &Ty,
    ty_param_map: &Vec<usize>,
) -> (r: Vec<u8>)
    requires
        tcx_wf(tcx@),
        ctxt_wf(old(cx)@),
        dids_known_v(tcx@, t@),
        params_covered_v(tcx@, ty_param_map@, t@),
        ty_param_map@.no_duplicates(),
        ty_param_map@.len() <= 256,
        old(cx)@.tags.len() + enum_nodes_v(t@) <= 0xffff,
        old(cx)@.resources.len() + res_nodes_v(t@) <= 0xffff,
        shape_len_v(tcx@, t@) <= 0xffff,
    ensures
        ctxt_wf(final(cx)@),
        ctxt_extends(old(cx)@, final(cx)@),
        final(cx)@ == register_v(tcx@, old(cx)@, t@),
        registered_v(tcx@, final(cx)@, t@),
        r@ == shape_v(arch, tcx@, final(cx)@, ty_param_map@, t@),
        r@.len() == shape_len_v(tcx@, t@),
    decreases *t,
{
    let simple: Option<u8> = match t {
        Ty::Nil => Some(crate::arch::SHAPE_U8),
        Ty::Bool => Some(crate::arch::SHAPE_U8),
        Ty::U8 => Some(crate::arch::SHAPE_U8),
        Ty::I8 => Some(crate::arch::SHAPE_I8),
        Ty::U16 => Some(crate::arch::SHAPE_U16),
        Ty::I16 => Some(crate::arch::SHAPE_I16),
        Ty::U32 => Some(crate::arch::SHAPE_U32),
        Ty::I32 => Some(crate::arch::SHAPE_I32),
        Ty::U64 => Some(crate::arch::SHAPE_U64),
        Ty::I64 => Some(crate::arch::SHAPE_I64),
        Ty::F32 => Some(crate::arch::SHAPE_F32),
        Ty::F64 => Some(crate::arch::SHAPE_F64),
        Ty::Int => Some(s_int(arch)),
        Ty::Uint => Some(s_uint(arch)),
        Ty::Float => Some(s_float(arch)),
        Ty::Boxed => Some(crate::arch::SHAPE_BOX),
        Ty::Ptr => Some(s_uint(arch)),
        Ty::TyDesc => Some(crate::arch::SHAPE_TYDESC),
        Ty::SendTyDesc => Some(crate::arch::SHAPE_SEND_TYDESC),
        Ty::Func(Proto::Boxed) => Some(crate::arch::SHAPE_BOX_FN),
        Ty::Func(Proto::Owned) => Some(crate::arch::SHAPE_UNIQ_FN),
        Ty::Func(Proto::Stack) => Some(crate::arch::SHAPE_STACK_FN),
        Ty::Func(Proto::Bare) => Some(crate::arch::SHAPE_BARE_FN),
        _ => None,
    };
    match simple {
        Some(op) => {
            proof {
                lemma_ctxt_extends_refl(old(cx)@);
                assert(cx@ == old(cx)@);
                assert(ctxt_extends(old(cx)@, cx@));
            }
            let r = vec![op];
            proof {
                assert(r@ =~= seq![op]);
                assert(r@ =~= shape_v(arch, tcx@, cx@, ty_param_map@, t@));
            }
            r
        },
        None => match t {
            Ty::Str => {
                proof {
                    lemma_ctxt_extends_refl(old(cx)@);
                }
                let mut s = vec![crate::arch::SHAPE_VEC];
                add_bool(&mut s, true);
                let sub = vec![crate::arch::SHAPE_U8];
                proof {
                    assert(sub@ =~= seq![crate::arch::SHAPE_U8]);
                }
                add_substr(&mut s, &sub);
                proof {
                    assert(s@ =~= seq![crate::arch::SHAPE_VEC, 1u8] + substr_bytes(
                        seq![crate::arch::SHAPE_U8],
                    ));
                }
                s
            },
            Ty::Uniq(inner) => {
                proof {
                    assert(enum_nodes_v(t@) == enum_nodes_v(inner@));
                    assert(res_nodes_v(t@) == res_nodes_v(inner@));
                    assert(shape_len_v(tcx@, t@) == 3 + shape_len_v(tcx@, inner@));
                }
                let sub = shape_of(arch, tcx, cx, inner, ty_param_map);
                let mut s = vec![crate::arch::SHAPE_UNIQ];
                add_substr(&mut s, &sub);
                proof {
                    assert(s@ =~= seq![crate::arch::SHAPE_UNIQ] + substr_bytes(sub@));
                }
                s
            },
            Ty::Rptr(inner) => {
                proof {
                    assert(enum_nodes_v(t@) == enum_nodes_v(inner@));
                    assert(res_nodes_v(t@) == res_nodes_v(inner@));
                    assert(shape_len_v(tcx@, t@) == 3 + shape_len_v(tcx@, inner@));
                }
                let sub = shape_of(arch, tcx, cx, inner, ty_param_map);
                let mut s = vec![crate::arch::SHAPE_RPTR];
                add_substr(&mut s, &sub);
                proof {
                    assert(s@ =~= seq![crate::arch::SHAPE_RPTR] + substr_bytes(sub@));
                }
                s
            },
            Ty::Vect(inner) => {
                proof {
                    assert(enum_nodes_v(t@) == enum_nodes_v(inner@));
                    assert(res_nodes_v(t@) == res_nodes_v(inner@));
                    assert(shape_len_v(tcx@, t@) == 4 + shape_len_v(tcx@, inner@));
                }
                let pod = type_is_pod(inner);
                let sub = shape_of(arch, tcx, cx, inner, ty_param_map);
                let mut s = vec![crate::arch::SHAPE_VEC];
                add_bool(&mut s, pod);
                add_substr(&mut s, &sub);
                proof {
                    assert(s@ =~= seq![
                        crate::arch::SHAPE_VEC,
                        (if pod_v(inner@) {
                            1u8
                        } else {
                            0u8
                        }),
                    ] + substr_bytes(sub@));
                }
                s
            },
            Ty::Tup(ts) => {
                let sub = shape_of_fields(arch, tcx, cx, ts, ty_param_map);
                let mut s = vec![crate::arch::SHAPE_STRUCT];
                add_substr(&mut s, &sub);
                proof {
                    assert(s@ =~= seq![crate::arch::SHAPE_STRUCT] + substr_bytes(sub@));
                }
                s
            },
            Ty::Enum(did, tps) => {
                let kind = enum_kind(tcx, *did);
                if kind == EnumKind::Unit || kind == EnumKind::Plain {
                    proof {
                        lemma_ctxt_extends_refl(old(cx)@);
                    }
                    let r = vec![s_variant_enum_t(arch)];
                    proof {
                        assert(r@ =~= seq![s_int_v(arch)]);
                    }
                    r
                } else {
                    let id = cx.register_tag(*did);
                    let ghost c1 = cx@;
                    proof {
                        assert(c1 == tag_register_v(old(cx)@, t@->Enum_0));
                        assert(c1.tags[id as int] == t@->Enum_0);
                        let w = tag_id_of(c1, t@->Enum_0);
                        assert(c1.tags[w] == t@->Enum_0);
                        assert(w == id as int);
                        lemma_args_count_bound(tcx@, t@->Enum_1);
                        lemma_tyv_list_len(tps@);
                    }
                    let mut s = vec![crate::arch::SHAPE_ENUM];
                    add_u16(&mut s, id);
                    add_u16(&mut s, tps.len() as u16);
                    let args = shape_of_args(arch, tcx, cx, tps, ty_param_map);
                    let ghost c2 = cx@;
                    let mut s2 = s;
                    let mut args2 = args;
                    s2.append(&mut args2);
                    proof {
                        lemma_tag_id_extends(c1, c2, t@->Enum_0);
                        crate::ctxt::lemma_ctxt_extends_trans(old(cx)@, c1, c2);
                        assert(s2@ =~= seq![crate::arch::SHAPE_ENUM] + le16(id) + le16(
                            (tps@.len() as u16),
                        ) + shape_args_v(arch, tcx@, c2, ty_param_map@, t@->Enum_1));
                        assert(tag_id_of(c2, t@->Enum_0) as u16 == id);
                        assert(t@->Enum_1.len() as u16 == tps@.len() as u16);
                    }
                    s2
                }
            },
            Ty::Res(did, inner, tps) => {
                let key = ResInfo { did: *did, tps: deep_copy_list(tps) };
                proof {
                    assert(key@ == ResInfoV { did: t@->Res_0, tps: t@->Res_2 });
                }
                let id = cx.intern_resource(key);
                let ghost ri = ResInfoV { did: t@->Res_0, tps: t@->Res_2 };
                let ghost c1 = cx@;
                proof {
                    assert(c1 == res_intern_v(old(cx)@, ri));
                    assert(c1.resources[id as int] == ri);
                    let w = res_id_of(c1, ri);
                    assert(c1.resources[w] == ri);
                    assert(w == id as int);
                    lemma_args_count_bound(tcx@, t@->Res_2);
                    lemma_tyv_list_len(tps@);
                }
                let mut s = vec![crate::arch::SHAPE_RES];
                add_u16(&mut s, id);
                add_u16(&mut s, tps.len() as u16);
                proof {
                    assert(enum_nodes_v(t@) == enum_nodes_v(inner@) + enum_nodes_list_v(
                        t@->Res_2,
                    ));
                    assert(res_nodes_v(t@) == 1 + res_nodes_v(inner@) + res_nodes_list_v(
                        t@->Res_2,
                    ));
                    assert(shape_len_v(tcx@, t@) == 7 + shape_len_args_v(tcx@, t@->Res_2)
                        + shape_len_v(tcx@, inner@));
                }
                let args = shape_of_args(arch, tcx, cx, tps, ty_param_map);
                let ghost c2 = cx@;
                let mut args2 = args;
                s.append(&mut args2);
                let sub = shape_of(arch, tcx, cx, inner, ty_param_map);
                let ghost c3 = cx@;
                add_substr(&mut s, &sub);
                proof {
                    lemma_res_id_extends(c1, c2, ri);
                    lemma_res_id_extends(c2, c3, ri);
                    crate::ctxt::lemma_ctxt_extends_trans(old(cx)@, c1, c2);
                    crate::ctxt::lemma_ctxt_extends_trans(old(cx)@, c2, c3);
                    lemma_registered_list_extends(tcx@, c2, c3, t@->Res_2);
                    lemma_shape_args_stable(arch, tcx@, c2, c3, ty_param_map@, t@->Res_2);
                    assert(s@ =~= seq![crate::arch::SHAPE_RES] + le16(id) + le16(
                        (tps@.len() as u16),
                    ) + shape_args_v(arch, tcx@, c3, ty_param_map@, t@->Res_2) + substr_bytes(
                        sub@,
                    ));
                    assert(res_id_of(c3, ri) as u16 == id);
                }
                s
            },
            Ty::Param(n) => {
                proof {
                    lemma_ctxt_extends_refl(old(cx)@);
                }
                let mut i: usize = 0;
                let nv = *n;
                proof {
                    assert(t@ == TyV::Param(nv as nat));
                }
                while i < ty_param_map.len()
                    invariant
                        i <= ty_param_map@.len(),
                        t@ == TyV::Param(nv as nat),
                        cx@ == old(cx)@,
                        ctxt_wf(cx@),
                        ty_param_map@.no_duplicates(),
                        map_covers(ty_param_map@, nv as nat),
                        forall|j: int| 0 <= j < i ==> ty_param_map@[j] != nv,
                    decreases ty_param_map@.len() - i,
                {
                    if ty_param_map[i] == nv {
                        let r = vec![crate::arch::SHAPE_VAR, i as u8];
                        proof {
                            let w = slot_of(ty_param_map@, nv as nat);
                            assert(exists|k: int|
                                0 <= k < ty_param_map@.len() && ty_param_map@[k] as nat
                                    == nv as nat);
                            assert(0 <= w < ty_param_map@.len() && ty_param_map@[w] as nat
                                == nv as nat);
                            assert(ty_param_map@[i as int] == nv);
                            assert(w == i as int) by {
                                if w != i as int {
                                    assert(ty_param_map@[w] != ty_param_map@[i as int]);
                                    assert(ty_param_map@[w] as nat == ty_param_map@[i as int]
                                        as nat);
                                }
                            }
                            assert(r@ =~= seq![crate::arch::SHAPE_VAR, (w as u8)]);
                            lemma_ctxt_extends_refl(old(cx)@);
                        }
                        return r;
                    }
                    i = i + 1;
                }
                proof {
                    let w = choose|k: int|
                        0 <= k < ty_param_map@.len() && ty_param_map@[k] as nat == nv as nat;
                    assert(ty_param_map@[w] == nv);
                    assert(false);
                }
                unreached()
            },
            _ => {
                proof {
                    assert(false);
                }
                unreached()
            },
        },
    }
}

/// Encodes one enum variant: the concatenation of its field encodings, read
/// against the identity slot mapping over the declaration's formal type
/// parameters.
pub fn shape_of_variant(
    arch: Arch,
    tcx: &TyCtxt,
    cx: &mut Ctxt,
    v: &VariantInfo,
    ty_param_count: usize,
) -> (r: Vec<u8>)
    requires
        tcx_wf(tcx@),
        ctxt_wf(old(cx)@),
        ty_param_count <= 256,
        dids_known_list_v(tcx@, v@.args),
        params_covered_list_v(tcx@, identity_map_v(ty_param_count as nat), v@.args),
        old(cx)@.tags.len() + enum_nodes_list_v(v@.args) <= 0xffff,
        old(cx)@.resources.len() + res_nodes_list_v(v@.args) <= 0xffff,
        shape_len_list_v(tcx@, v@.args) <= 0xffff,
    ensures
        ctxt_wf(final(cx)@),
        ctxt_extends(old(cx)@, final(cx)@),
        final(cx)@ == register_list_v(tcx@, old(cx)@, v@.args),
        registered_list_v(tcx@, final(cx)@, v@.args),
        final(cx)@.tags.len() <= old(cx)@.tags.len() + enum_nodes_list_v(v@.args),
        final(cx)@.resources.len() <= old(cx)@.resources.len() + res_nodes_list_v(v@.args),
        r@ == shape_concat_v(
            arch,
            tcx@,
            final(cx)@,
            identity_map_v(ty_param_count as nat),
            v@.args,
        ),
        r@.len() == shape_len_list_v(tcx@, v@.args),
{
    let mut map: Vec<usize> = Vec::new();
    let mut i: usize = 0;
    proof {
        assert(map@ =~= identity_map_v(0));
    }
    while i < ty_param_count
        invariant
            i <= ty_param_count,
            ty_param_count <= 256,
            map@ == identity_map_v(i as nat),
        decreases ty_param_count - i,
    {
        map.push(i);
        i = i + 1;
        proof {
            assert(map@ =~= identity_map_v(i as nat));
        }
    }
    proof {
        lemma_identity_map(ty_param_count as nat);
    }
    shape_of_fields(arch, tcx, cx, &v.args, &map)
}

/// Encodes a struct body: the concatenation of the field encodings, in
/// order.
fn shape_of_fields(
    arch: Arch,
    tcx: &TyCtxt,
    cx: &mut Ctxt,
    ts: &Vec<Ty>,
    ty_param_map: &Vec<usize>,
) -> (r: Vec<u8>)
    requires
        tcx_wf(tcx@),
        ctxt_wf(old(cx)@),
        dids_known_list_v(tcx@, tyv_list(ts@)),
        params_covered_list_v(tcx@, ty_param_map@, tyv_list(ts@)),
        ty_param_map@.no_duplicates(),
        ty_param_map@.len() <= 256,
        old(cx)@.tags.len() + enum_nodes_list_v(tyv_list(ts@)) <= 0xffff,
        old(cx)@.resources.len() + res_nodes_list_v(tyv_list(ts@)) <= 0xffff,
        shape_len_list_v(tcx@, tyv_list(ts@)) <= 0xffff,
    ensures
        ctxt_wf(final(cx)@),
        ctxt_extends(old(cx)@, final(cx)@),
        final(cx)@ == register_list_v(tcx@, old(cx)@, tyv_list(ts@)),
        registered_list_v(tcx@, final(cx)@, tyv_list(ts@)),
        final(cx)@.tags.len() <= old(cx)@.tags.len() + enum_nodes_list_v(tyv_list(ts@)),
        final(cx)@.resources.len() <= old(cx)@.resources.len() + res_nodes_list_v(tyv_list(ts@)),
        r@ == shape_concat_v(arch, tcx@, final(cx)@, ty_param_map@, tyv_list(ts@)),
        r@.len() == shape_len_list_v(tcx@, tyv_list(ts@)),
    decreases *ts,
{
    let ghost full = tyv_list(ts@);
    proof {
        lemma_tyv_list_len(ts@);
        assert(full.subrange(0, 0) =~= Seq::<TyV>::empty());
        lemma_ctxt_extends_refl(old(cx)@);
    }
    let mut s: Vec<u8> = Vec::new();
    let mut i: usize = 0;
    while i < ts.len()
        invariant
            tcx_wf(tcx@),
            ty_param_map@.no_duplicates(),
            ty_param_map@.len() <= 256,
            dids_known_list_v(tcx@, full),
            params_covered_list_v(tcx@, ty_param_map@, full),
            old(cx)@.tags.len() + enum_nodes_list_v(full) <= 0xffff,
            old(cx)@.resources.len() + res_nodes_list_v(full) <= 0xffff,
            shape_len_list_v(tcx@, full) <= 0xffff,
            full == tyv_list(ts@),
            full.len() == ts@.len(),
            i <= ts@.len(),
            ctxt_wf(cx@),
            ctxt_extends(old(cx)@, cx@),
            cx@ == register_list_v(tcx@, old(cx)@, full.subrange(0, i as int)),
            registered_list_v(tcx@, cx@, full.subrange(0, i as int)),
            cx@.tags.len() <= old(cx)@.tags.len() + enum_nodes_list_v(full.subrange(0, i as int)),
            cx@.resources.len() <= old(cx)@.resources.len() + res_nodes_list_v(
                full.subrange(0, i as int),
            ),
            s@ == shape_concat_v(arch, tcx@, cx@, ty_param_map@, full.subrange(0, i as int)),
            s@.len() == shape_len_list_v(tcx@, full.subrange(0, i as int)),
        decreases ts@.len() - i,
    {
        let ghost prefix = full.subrange(0, i as int);
        let ghost c_before = cx@;
        proof {
            lemma_tyv_list_index(ts@, i as int);
            lemma_lists_prefix(tcx@, full, i as int);
            lemma_list_preds_at(tcx@, ty_param_map@, full, i as int);
        }
        let sub = shape_of(arch, tcx, cx, &ts[i], ty_param_map);
        let mut sub2 = sub;
        s.append(&mut sub2);
        i = i + 1;
        proof {
            let c_after = cx@;
            lemma_registered_list_extends(tcx@, c_before, c_after, prefix);
            lemma_shape_concat_stable(arch, tcx@, c_before, c_after, ty_param_map@, prefix);
            lemma_lists_push(arch, tcx@, c_after, ty_param_map@, prefix, full[i - 1]);
            lemma_lists_push(arch, tcx@, old(cx)@, ty_param_map@, prefix, full[i - 1]);
            lemma_register_all(tcx@, c_before, full[i - 1]);
            assert(full.subrange(0, i as int) =~= prefix.push(full[i - 1]));
            crate::ctxt::lemma_ctxt_extends_trans(old(cx)@, c_before, c_after);
        }
    }
    proof {
        assert(full.subrange(0, ts@.len() as int) =~= full);
    }
    s
}

/// Encodes a type-argument block: each argument's encoding behind its own
/// length prefix, in order.
fn shape_of_args(
    arch: Arch,
    tcx: &TyCtxt,
    cx: &mut Ctxt,
    ts: &Vec<Ty>,
    ty_param_map: &Vec<usize>,
) -> (r: Vec<u8>)
    requires
        tcx_wf(tcx@),
        ctxt_wf(old(cx)@),
        dids_known_list_v(tcx@, tyv_list(ts@)),
        params_covered_list_v(tcx@, ty_param_map@, tyv_list(ts@)),
        ty_param_map@.no_duplicates(),
        ty_param_map@.len() <= 256,
        old(cx)@.tags.len() + enum_nodes_list_v(tyv_list(ts@)) <= 0xffff,
        old(cx)@.resources.len() + res_nodes_list_v(tyv_list(ts@)) <= 0xffff,
        shape_len_args_v(tcx@, tyv_list(ts@)) <= 0xffff,
    ensures
        ctxt_wf(final(cx)@),
        ctxt_extends(old(cx)@, final(cx)@),
        final(cx)@ == register_list_v(tcx@, old(cx)@, tyv_list(ts@)),
        registered_list_v(tcx@, final(cx)@, tyv_list(ts@)),
        final(cx)@.tags.len() <= old(cx)@.tags.len() + enum_nodes_list_v(tyv_list(ts@)),
        final(cx)@.resources.len() <= old(cx)@.resources.len() + res_nodes_list_v(tyv_list(ts@)),
        r@ == shape_args_v(arch, tcx@, final(cx)@, ty_param_map@, tyv_list(ts@)),
        r@.len() == shape_len_args_v(tcx@, tyv_list(ts@)),
    decreases *ts,
{
    let ghost full = tyv_list(ts@);
    proof {
        lemma_tyv_list_len(ts@);
        assert(full.subrange(0, 0) =~= Seq::<TyV>::empty());
        lemma_ctxt_extends_refl(old(cx)@);
    }
    let mut s: Vec<u8> = Vec::new();
    let mut i: usize = 0;
    while i < ts.len()
        invariant
            tcx_wf(tcx@),
            ty_param_map@.no_duplicates(),
            ty_param_map@.len() <= 256,
            dids_known_list_v(tcx@, full),
            params_covered_list_v(tcx@, ty_param_map@, full),
            old(cx)@.tags.len() + enum_nodes_list_v(full) <= 0xffff,
            old(cx)@.resources.len() + res_nodes_list_v(full) <= 0xffff,
            shape_len_args_v(tcx@, full) <= 0xffff,
            full == tyv_list(ts@),
            full.len() == ts@.len(),
            i <= ts@.len(),
            ctxt_wf(cx@),
            ctxt_extends(old(cx)@, cx@),
            cx@ == register_list_v(tcx@, old(cx)@, full.subrange(0, i as int)),
            registered_list_v(tcx@, cx@, full.subrange(0, i as int)),
            cx@.tags.len() <= old(cx)@.tags.len() + enum_nodes_list_v(full.subrange(0, i as int)),
            cx@.resources.len() <= old(cx)@.resources.len() + res_nodes_list_v(
                full.subrange(0, i as int),
            ),
            s@ == shape_args_v(arch, tcx@, cx@, ty_param_map@, full.subrange(0, i as int)),
            s@.len() == shape_len_args_v(tcx@, full.subrange(0, i as int)),
        decreases ts@.len() - i,
    {
        let ghost prefix = full.subrange(0, i as int);
        let ghost c_before = cx@;
        proof {
            lemma_tyv_list_index(ts@, i as int);
            lemma_lists_prefix(tcx@, full, i as int);
            lemma_list_preds_at(tcx@, ty_param_map@, full, i as int);
        }
        let sub = shape_of(arch, tcx, cx, &ts[i], ty_param_map);
        add_substr(&mut s, &sub);
        i = i + 1;
        proof {
            let c_after = cx@;
            lemma_registered_list_extends(tcx@, c_before, c_after, prefix);
            lemma_shape_args_stable(arch, tcx@, c_before, c_after, ty_param_map@, prefix);
            lemma_lists_push(arch, tcx@, c_after, ty_param_map@, prefix, full[i - 1]);
            lemma_lists_push(arch, tcx@, old(cx)@, ty_param_map@, prefix, full[i - 1]);
            lemma_register_all(tcx@, c_before, full[i - 1]);
            assert(full.subrange(0, i as int) =~= prefix.push(full[i - 1]));
            crate::ctxt::lemma_ctxt_extends_trans(old(cx)@, c_before, c_after);
        }
    }
    proof {
        assert(full.subrange(0, ts@.len() as int) =~= full);
    }
    s
}

} // verus!
