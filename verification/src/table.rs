//! The table generator: drives the encoder over every registered enum's
//! variants to a discovery fixpoint, then assembles the global tag-shape
//! table (header, info, data and largest-variant regions with cross-region
//! offsets) and the resource table.

use vstd::prelude::*;

use crate::arch::Arch;
use crate::buf::{add_substr, add_u16, le16, substr_bytes};
use crate::ctxt::{ctxt_extends, ctxt_wf, Ctxt, CtxtV, ResInfoV};
use crate::encode::{
    enum_nodes_list_v, identity_map_v, registered_list_v, res_nodes_list_v, shape_concat_v,
    shape_len_list_v, shape_of_variant,
};
use crate::layout::{
    compute_static_enum_size, dominant_set_ok, largest_variants, range_of_variant,
    static_enum_size_v,
};
use crate::tcx::{enum_def_v, tcx_has, tcx_wf, EnumDefV, TyCtxt, TyCtxtV};
use crate::types::{has_param_list_v, DefId, Ty, TyV};

verus! {

/// The sixteen-bit value stored at byte position `p`, little-endian.
pub open spec fn u16_at(b: Seq<u8>, p: int) -> nat
    recommends
        0 <= p,
        p + 2 <= b.len(),
{
    (b[p] as nat) + 0x100 * (b[p + 1] as nat)
}

pub proof fn lemma_u16_at_le16(v: u16)
    ensures
        u16_at(le16(v), 0) == v,
{
    assert((((v & 0xff) as u8) as u16) + 0x100 * (((v >> 8) as u8) as u16) == v)
        by (bit_vector);
    assert(le16(v)[0] == (v & 0xff) as u8);
    assert(le16(v)[1] == (v >> 8) as u8);
}

/// Self-delimiting encodings: every length prefix the encoder writes
/// declares exactly the byte count of the substructure that follows it, so
/// a decoder can skip any substructure without look-ahead. Each clause
/// reads one prefix of one encoding; the prefixes inside a substructure are
/// this same statement applied to the sub-encoding.
pub proof fn lemma_shape_self_delimiting(
    arch: Arch,
    tcx: TyCtxtV,
    c: CtxtV,
    map: Seq<usize>,
    t: TyV,
)
    requires
        crate::encode::shape_len_v(tcx, t) <= 0xffff,
    ensures
        t matches TyV::Uniq(inner) ==> ({
            let s = crate::encode::shape_v(arch, tcx, c, map, t);
            let sub = crate::encode::shape_v(arch, tcx, c, map, *inner);
            u16_at(s, 1) == sub.len() && s.subrange(3, s.len() as int) == sub
        }),
        t matches TyV::Rptr(inner) ==> ({
            let s = crate::encode::shape_v(arch, tcx, c, map, t);
            let sub = crate::encode::shape_v(arch, tcx, c, map, *inner);
            u16_at(s, 1) == sub.len() && s.subrange(3, s.len() as int) == sub
        }),
        t matches TyV::Vect(inner) ==> ({
            let s = crate::encode::shape_v(arch, tcx, c, map, t);
            let sub = crate::encode::shape_v(arch, tcx, c, map, *inner);
            u16_at(s, 2) == sub.len() && s.subrange(4, s.len() as int) == sub
        }),
        t matches TyV::Tup(ts) ==> ({
            let s = crate::encode::shape_v(arch, tcx, c, map, t);
            let body = shape_concat_v(arch, tcx, c, map, ts);
            u16_at(s, 1) == body.len() && s.subrange(3, s.len() as int) == body
        }),
        t matches TyV::Res(did, inner, tps) ==> ({
            let s = crate::encode::shape_v(arch, tcx, c, map, t);
            let args = crate::encode::shape_args_v(arch, tcx, c, map, tps);
            let sub = crate::encode::shape_v(arch, tcx, c, map, *inner);
            u16_at(s, 5 + args.len() as int) == sub.len() && s.subrange(
                7 + args.len() as int,
                s.len() as int,
            ) == sub
        }),
{
    match t {
        TyV::Uniq(inner) => {
            crate::encode::lemma_shape_len(arch, tcx, c, map, *inner);
            let sub = crate::encode::shape_v(arch, tcx, c, map, *inner);
            lemma_u16_at_le16(sub.len() as u16);
            let s = crate::encode::shape_v(arch, tcx, c, map, t);
            assert(s.subrange(3, s.len() as int) =~= sub);
        },
        TyV::Rptr(inner) => {
            crate::encode::lemma_shape_len(arch, tcx, c, map, *inner);
            let sub = crate::encode::shape_v(arch, tcx, c, map, *inner);
            lemma_u16_at_le16(sub.len() as u16);
            let s = crate::encode::shape_v(arch, tcx, c, map, t);
            assert(s.subrange(3, s.len() as int) =~= sub);
        },
        TyV::Vect(inner) => {
            crate::encode::lemma_shape_len(arch, tcx, c, map, *inner);
            let sub = crate::encode::shape_v(arch, tcx, c, map, *inner);
            lemma_u16_at_le16(sub.len() as u16);
            let s = crate::encode::shape_v(arch, tcx, c, map, t);
            assert(s.subrange(4, s.len() as int) =~= sub);
        },
        TyV::Tup(ts) => {
            crate::encode::lemma_shape_len_concat(arch, tcx, c, map, ts);
            let body = shape_concat_v(arch, tcx, c, map, ts);
            lemma_u16_at_le16(body.len() as u16);
            let s = crate::encode::shape_v(arch, tcx, c, map, t);
            assert(s.subrange(3, s.len() as int) =~= body);
        },
        TyV::Res(did, inner, tps) => {
            crate::encode::lemma_shape_len(arch, tcx, c, map, *inner);
            crate::encode::lemma_shape_len_args(arch, tcx, c, map, tps);
            let args = crate::encode::shape_args_v(arch, tcx, c, map, tps);
            let sub = crate::encode::shape_v(arch, tcx, c, map, *inner);
            lemma_u16_at_le16(sub.len() as u16);
            let s = crate::encode::shape_v(arch, tcx, c, map, t);
            assert(s[5 + args.len() as int] == le16((sub.len() as u16))[0]);
            assert(s[6 + args.len() as int] == le16((sub.len() as u16))[1]);
            assert(s.subrange(7 + args.len() as int, s.len() as int) =~= sub);
        },
        _ => {},
    }
}

/// Byte length of the info record of one enum: variant count, offset of its
/// largest-variant table, static size, static alignment, and one offset per
/// variant.
pub open spec fn info_rec_sz_v(tcx: TyCtxtV, did: DefId) -> nat {
    2 * (enum_def_v(tcx, did).variants.len() + 2) + 3
}

/// Byte offset of enum `k`'s info record within the info region.
pub open spec fn info_off_v(tcx: TyCtxtV, dids: Seq<DefId>, k: int) -> nat
    decreases k,
{
    if k <= 0 {
        0
    } else {
        info_off_v(tcx, dids, k - 1) + info_rec_sz_v(tcx, dids[k - 1])
    }
}

/// Total byte length of the info region.
pub open spec fn info_sz_v(tcx: TyCtxtV, dids: Seq<DefId>) -> nat {
    info_off_v(tcx, dids, dids.len() as int)
}

/// The header region: for each enum in discovery order, the byte offset of
/// its info record from the start of the whole table.
pub open spec fn header_bytes_v(tcx: TyCtxtV, dids: Seq<DefId>, k: int) -> Seq<u8>
    decreases k,
{
    if k <= 0 {
        Seq::empty()
    } else {
        header_bytes_v(tcx, dids, k - 1) + le16(
            ((2 * dids.len() + info_off_v(tcx, dids, k - 1)) as u16),
        )
    }
}

/// One variant's blob in the data region: its length-prefixed shape, then
/// its length-prefixed zero-terminated name.
pub open spec fn variant_blob_v(arch: Arch, tcx: TyCtxtV, c: CtxtV, def: EnumDefV, j: int) -> Seq<
    u8,
> {
    substr_bytes(
        shape_concat_v(arch, tcx, c, identity_map_v(def.ty_param_count), def.variants[j].args),
    ) + substr_bytes(def.variants[j].name.push(0))
}

/// The blobs of one enum's first `j` variants, in order.
pub open spec fn enum_blobs_v(arch: Arch, tcx: TyCtxtV, c: CtxtV, def: EnumDefV, j: int) -> Seq<
    u8,
>
    decreases j,
{
    if j <= 0 {
        Seq::empty()
    } else {
        enum_blobs_v(arch, tcx, c, def, j - 1) + variant_blob_v(arch, tcx, c, def, j - 1)
    }
}

/// The data region: the blobs of the first `k` enums, in discovery order.
pub open spec fn data_bytes_v(arch: Arch, tcx: TyCtxtV, c: CtxtV, dids: Seq<DefId>, k: int) -> Seq<
    u8,
>
    decreases k,
{
    if k <= 0 {
        Seq::empty()
    } else {
        data_bytes_v(arch, tcx, c, dids, k - 1) + enum_blobs_v(
            arch,
            tcx,
            c,
            enum_def_v(tcx, dids[k - 1]),
            enum_def_v(tcx, dids[k - 1]).variants.len() as int,
        )
    }
}

/// Whether the enum's static layout is unknown: some variant still mentions
/// a type parameter.
pub open spec fn enum_dynamic_v(tcx: TyCtxtV, did: DefId) -> bool {
    exists|j: int|
        0 <= j < enum_def_v(tcx, did).variants.len() && has_param_list_v(
            #[trigger] enum_def_v(tcx, did).variants[j].args,
        )
}

/// The static size/alignment stored for an enum: a zero placeholder when
/// its layout is parameter-dependent, the computed conservative bound
/// otherwise.
pub open spec fn enum_size_field_v(
    tcx: TyCtxtV,
    arch: Arch,
    did: DefId,
    lv: Seq<usize>,
) -> (nat, nat) {
    if enum_dynamic_v(tcx, did) {
        (0, 0)
    } else {
        static_enum_size_v(tcx, arch, did, lv)->Some_0
    }
}

/// The largest-variant table of one enum: its index count, then the indices.
pub open spec fn lv_entry_v(lv: Seq<usize>, j: int) -> Seq<u8>
    decreases j,
{
    if j <= 0 {
        le16(lv.len() as u16)
    } else {
        lv_entry_v(lv, j - 1) + le16(lv[j - 1] as u16)
    }
}

/// Byte offset of enum `k`'s largest-variant table within the region.
pub open spec fn lv_off_v(lvs: Seq<Seq<usize>>, k: int) -> nat
    decreases k,
{
    if k <= 0 {
        0
    } else {
        lv_off_v(lvs, k - 1) + 2 * (1 + lvs[k - 1].len())
    }
}

/// The largest-variant region: one table per enum, in discovery order.
pub open spec fn lv_bytes_v(lvs: Seq<Seq<usize>>, k: int) -> Seq<u8>
    decreases k,
{
    if k <= 0 {
        Seq::empty()
    } else {
        lv_bytes_v(lvs, k - 1) + lv_entry_v(lvs[k - 1], lvs[k - 1].len() as int)
    }
}

/// The info record of one enum: variant count, absolute offset of its
/// largest-variant table, static size and alignment, then the absolute
/// offset of each variant's blob. `vbase` is the absolute offset of this
/// enum's first blob.
pub open spec fn info_rec_v(
    arch: Arch,
    tcx: TyCtxtV,
    c: CtxtV,
    did: DefId,
    lv: Seq<usize>,
    lv_abs: nat,
    vbase: nat,
    j: int,
) -> Seq<u8>
    decreases j,
{
    let def = enum_def_v(tcx, did);
    if j <= 0 {
        le16((def.variants.len() as u16)) + le16((lv_abs as u16)) + le16(
            (enum_size_field_v(tcx, arch, did, lv).0 as u16),
        ) + seq![(enum_size_field_v(tcx, arch, did, lv).1 as u8)]
    } else {
        info_rec_v(arch, tcx, c, did, lv, lv_abs, vbase, j - 1) + le16(
            ((vbase + enum_blobs_v(arch, tcx, c, def, j - 1).len()) as u16),
        )
    }
}

/// The info region: one record per enum, in discovery order.
pub open spec fn info_bytes_v(
    arch: Arch,
    tcx: TyCtxtV,
    c: CtxtV,
    dids: Seq<DefId>,
    lvs: Seq<Seq<usize>>,
    lv_base: nat,
    data_base: nat,
    k: int,
) -> Seq<u8>
    decreases k,
{
    if k <= 0 {
        Seq::empty()
    } else {
        let def = enum_def_v(tcx, dids[k - 1]);
        info_bytes_v(arch, tcx, c, dids, lvs, lv_base, data_base, k - 1) + info_rec_v(
            arch,
            tcx,
            c,
            dids[k - 1],
            lvs[k - 1],
            lv_base + lv_off_v(lvs, k - 1),
            data_base + data_bytes_v(arch, tcx, c, dids, k - 1).len(),
            def.variants.len() as int,
        )
    }
}

/// Everything the generated tag-shape table promises: the registry reached
/// its discovery fixpoint, every registered declaration is known and its
/// variants' references are registered, each enum's dominant-variant set is
/// sound, and the output is exactly header, info, data and largest-variant
/// regions with offsets measured from the start of the table.
pub open spec fn gen_table_ok(
    arch: Arch,
    tcx: TyCtxtV,
    c: CtxtV,
    lvs: Seq<Seq<usize>>,
    out: Seq<u8>,
) -> bool {
    let n = c.tags.len() as int;
    let header_sz = 2 * c.tags.len();
    let data_base = header_sz + info_sz_v(tcx, c.tags);
    let lv_base = data_base + data_bytes_v(arch, tcx, c, c.tags, n).len();
    &&& lvs.len() == n
    &&& forall|k: int| 0 <= k < n ==> tcx_has(tcx, #[trigger] c.tags[k])
    &&& forall|k: int|
        0 <= k < n ==> dominant_set_ok(tcx, arch, #[trigger] c.tags[k], lvs[k])
    &&& forall|k: int, j: int|
        0 <= k < n && 0 <= j < enum_def_v(tcx, #[trigger] c.tags[k]).variants.len()
            ==> registered_list_v(
            tcx,
            c,
            #[trigger] enum_def_v(tcx, c.tags[k]).variants[j].args,
        )
    &&& out == header_bytes_v(tcx, c.tags, n) + info_bytes_v(
        arch,
        tcx,
        c,
        c.tags,
        lvs,
        lv_base,
        data_base,
        n,
    ) + data_bytes_v(arch, tcx, c, c.tags, n) + lv_bytes_v(lvs, n)
    &&& out.len() <= 0xffff
}

/// Byte length of one variant's data blob: two length prefixes, the shape
/// bytes, the name bytes and the terminating zero.
pub open spec fn blob_len_v(tcx: TyCtxtV, def: EnumDefV, j: int) -> nat {
    5 + shape_len_list_v(tcx, def.variants[j].args) + def.variants[j].name.len()
}

/// Byte length of one enum's first `j` blobs.
pub open spec fn enum_blobs_len_v(tcx: TyCtxtV, def: EnumDefV, j: int) -> nat
    decreases j,
{
    if j <= 0 {
        0
    } else {
        enum_blobs_len_v(tcx, def, j - 1) + blob_len_v(tcx, def, j - 1)
    }
}

/// Byte length of the data region of the first `k` listed enums; it does
/// not depend on the registry.
pub open spec fn data_len_v(tcx: TyCtxtV, dids: Seq<DefId>, k: int) -> nat
    decreases k,
{
    if k <= 0 {
        0
    } else {
        data_len_v(tcx, dids, k - 1) + enum_blobs_len_v(
            tcx,
            enum_def_v(tcx, dids[k - 1]),
            enum_def_v(tcx, dids[k - 1]).variants.len() as int,
        )
    }
}

pub proof fn lemma_enum_blobs_len(arch: Arch, tcx: TyCtxtV, c: CtxtV, def: EnumDefV, j: int)
    ensures
        enum_blobs_v(arch, tcx, c, def, j).len() == enum_blobs_len_v(tcx, def, j),
    decreases j,
{
    if j > 0 {
        lemma_enum_blobs_len(arch, tcx, c, def, j - 1);
        crate::encode::lemma_shape_len_concat(
            arch,
            tcx,
            c,
            identity_map_v(def.ty_param_count),
            def.variants[j - 1].args,
        );
    }
}

pub proof fn lemma_data_len(arch: Arch, tcx: TyCtxtV, c: CtxtV, dids: Seq<DefId>, k: int)
    ensures
        data_bytes_v(arch, tcx, c, dids, k).len() == data_len_v(tcx, dids, k),
    decreases k,
{
    if k > 0 {
        lemma_data_len(arch, tcx, c, dids, k - 1);
        lemma_enum_blobs_len(
            arch,
            tcx,
            c,
            enum_def_v(tcx, dids[k - 1]),
            enum_def_v(tcx, dids[k - 1]).variants.len() as int,
        );
    }
}

pub proof fn lemma_enum_blobs_len_mono(tcx: TyCtxtV, def: EnumDefV, j1: int, j2: int)
    requires
        j1 <= j2,
    ensures
        enum_blobs_len_v(tcx, def, j1) <= enum_blobs_len_v(tcx, def, j2),
    decreases j2 - j1,
{
    if j1 < j2 {
        lemma_enum_blobs_len_mono(tcx, def, j1, j2 - 1);
    }
}

pub proof fn lemma_data_len_mono(tcx: TyCtxtV, dids: Seq<DefId>, k1: int, k2: int)
    requires
        k1 <= k2,
    ensures
        data_len_v(tcx, dids, k1) <= data_len_v(tcx, dids, k2),
    decreases k2 - k1,
{
    if k1 < k2 {
        lemma_data_len_mono(tcx, dids, k1, k2 - 1);
    }
}

pub proof fn lemma_info_off_mono(tcx: TyCtxtV, dids: Seq<DefId>, k1: int, k2: int)
    requires
        k1 <= k2,
    ensures
        info_off_v(tcx, dids, k1) <= info_off_v(tcx, dids, k2),
    decreases k2 - k1,
{
    if k1 < k2 {
        lemma_info_off_mono(tcx, dids, k1, k2 - 1);
    }
}

pub proof fn lemma_vcount_le(tcx: TyCtxtV, dids: Seq<DefId>, k1: int, k2: int)
    requires
        k1 <= k2,
    ensures
        vcount_v(tcx, dids, k1) <= vcount_v(tcx, dids, k2),
    decreases k2 - k1,
{
    if k1 < k2 {
        lemma_vcount_le(tcx, dids, k1, k2 - 1);
    }
}

/// The data-region length of a tag-list prefix depends only on the prefix.
pub proof fn lemma_data_len_prefix_same(
    tcx: TyCtxtV,
    dids1: Seq<DefId>,
    dids2: Seq<DefId>,
    k: int,
)
    requires
        0 <= k <= dids1.len(),
        k <= dids2.len(),
        forall|l: int| 0 <= l < k ==> #[trigger] dids1[l] == dids2[l],
    ensures
        data_len_v(tcx, dids2, k) == data_len_v(tcx, dids1, k),
    decreases k,
{
    if k > 0 {
        lemma_data_len_prefix_same(tcx, dids1, dids2, k - 1);
    }
}

/// The header region holds one two-byte entry per enum.
pub proof fn lemma_header_len(tcx: TyCtxtV, dids: Seq<DefId>, k: int)
    requires
        0 <= k,
    ensures
        header_bytes_v(tcx, dids, k).len() == 2 * k,
    decreases k,
{
    if k > 0 {
        lemma_header_len(tcx, dids, k - 1);
    }
}

/// An info record holds seven fixed bytes plus two per variant offset.
pub proof fn lemma_info_rec_len(
    arch: Arch,
    tcx: TyCtxtV,
    c: CtxtV,
    did: DefId,
    lv: Seq<usize>,
    lv_abs: nat,
    vbase: nat,
    j: int,
)
    requires
        0 <= j,
    ensures
        info_rec_v(arch, tcx, c, did, lv, lv_abs, vbase, j).len() == 7 + 2 * j,
    decreases j,
{
    if j > 0 {
        lemma_info_rec_len(arch, tcx, c, did, lv, lv_abs, vbase, j - 1);
    }
}

/// The info region is as long as the record offsets say.
pub proof fn lemma_info_bytes_len(
    arch: Arch,
    tcx: TyCtxtV,
    c: CtxtV,
    dids: Seq<DefId>,
    lvs: Seq<Seq<usize>>,
    lv_base: nat,
    data_base: nat,
    k: int,
)
    requires
        0 <= k,
    ensures
        info_bytes_v(arch, tcx, c, dids, lvs, lv_base, data_base, k).len() == info_off_v(
            tcx,
            dids,
            k,
        ),
    decreases k,
{
    if k > 0 {
        lemma_info_bytes_len(arch, tcx, c, dids, lvs, lv_base, data_base, k - 1);
        lemma_info_rec_len(
            arch,
            tcx,
            c,
            dids[k - 1],
            lvs[k - 1],
            lv_base + lv_off_v(lvs, k - 1),
            data_base + data_bytes_v(arch, tcx, c, dids, k - 1).len(),
            enum_def_v(tcx, dids[k - 1]).variants.len() as int,
        );
    }
}

/// A sound dominant-variant set holds at most one index per variant, so
/// the largest-variant region stays within two bytes per enum plus two per
/// variant.
pub proof fn lemma_lv_off_bound(
    tcx: TyCtxtV,
    arch: Arch,
    dids: Seq<DefId>,
    lvs: Seq<Seq<usize>>,
    k: int,
)
    requires
        0 <= k <= lvs.len(),
        k <= dids.len(),
        forall|l: int| 0 <= l < k ==> dominant_set_ok(tcx, arch, #[trigger] dids[l], lvs[l]),
    ensures
        lv_off_v(lvs, k) <= 2 * k + 2 * vcount_v(tcx, dids, k),
    decreases k,
{
    if k > 0 {
        lemma_lv_off_bound(tcx, arch, dids, lvs, k - 1);
        let lv = lvs[k - 1];
        let nv = enum_def_v(tcx, dids[k - 1]).variants.len() as int;
        if lv.len() > 0 {
            lemma_increasing_ge_index(lv, lv.len() - 1);
        }
        assert(lv.len() <= nv);
    }
}

/// Offset integrity of a generated table: the value every variant-offset
/// field carries — the one `gen_table_ok` pins into the info region — lies
/// inside the data region, at the variant's blob start: at or past the
/// region's beginning and strictly before its end, and small enough that
/// its sixteen-bit field holds it exactly.
pub proof fn lemma_variant_offsets_in_data_region(
    arch: Arch,
    tcx: TyCtxtV,
    c: CtxtV,
    lvs: Seq<Seq<usize>>,
    out: Seq<u8>,
)
    requires
        gen_table_ok(arch, tcx, c, lvs, out),
    ensures
        forall|k: int, j: int|
            0 <= k < c.tags.len() && 0 <= j < enum_def_v(tcx, c.tags[k]).variants.len() ==> ({
                let n = c.tags.len() as int;
                let data_base = 2 * c.tags.len() + info_sz_v(tcx, c.tags);
                let voff = data_base + data_bytes_v(arch, tcx, c, c.tags, k).len() + (
                #[trigger] enum_blobs_v(arch, tcx, c, enum_def_v(tcx, c.tags[k]), j)).len();
                &&& data_base <= voff
                &&& voff < data_base + data_bytes_v(arch, tcx, c, c.tags, n).len()
                &&& voff <= 0xffff
            }),
{
    let n = c.tags.len() as int;
    let data_base = 2 * c.tags.len() + info_sz_v(tcx, c.tags);
    assert forall|k: int, j: int|
        0 <= k < c.tags.len() && 0 <= j < enum_def_v(tcx, c.tags[k]).variants.len() implies ({
        let voff = data_base + data_bytes_v(arch, tcx, c, c.tags, k).len() + (
        #[trigger] enum_blobs_v(arch, tcx, c, enum_def_v(tcx, c.tags[k]), j)).len();
        &&& data_base <= voff
        &&& voff < data_base + data_bytes_v(arch, tcx, c, c.tags, n).len()
        &&& voff <= 0xffff
    }) by {
        let def = enum_def_v(tcx, c.tags[k]);
        let nv = def.variants.len() as int;
        lemma_data_len(arch, tcx, c, c.tags, k);
        lemma_data_len(arch, tcx, c, c.tags, n);
        lemma_enum_blobs_len(arch, tcx, c, def, j);
        lemma_enum_blobs_len(arch, tcx, c, def, nv);
        // The blob at (k, j) still has its own bytes in front of the
        // region's end: it is at least the two length prefixes long.
        assert(enum_blobs_len_v(tcx, def, j + 1) == enum_blobs_len_v(tcx, def, j)
            + blob_len_v(tcx, def, j));
        lemma_enum_blobs_len_mono(tcx, def, j + 1, nv);
        assert(data_len_v(tcx, c.tags, k + 1) == data_len_v(tcx, c.tags, k)
            + enum_blobs_len_v(tcx, def, nv));
        lemma_data_len_mono(tcx, c.tags, k + 1, n);
        // The whole table fits sixteen bits, and the data region sits
        // behind the header and info regions inside it.
        lemma_header_len(tcx, c.tags, n);
        lemma_info_bytes_len(
            arch,
            tcx,
            c,
            c.tags,
            lvs,
            (data_base + data_bytes_v(arch, tcx, c, c.tags, n).len()) as nat,
            data_base as nat,
            n,
        );
        assert(out.len() >= 2 * n + info_sz_v(tcx, c.tags) + data_bytes_v(
            arch,
            tcx,
            c,
            c.tags,
            n,
        ).len());
    }
}

/// Why table generation gives nothing back: a registered declaration the
/// table does not know, a variant that would overrun the dense id space, a
/// declaration beyond the generator's variant-count bound, a variant range
/// the layout model cannot measure, a static enum size beyond the
/// sixteen-bit field, or four regions that together cannot fit the
/// sixteen-bit offset format. Each case speaks of the registry as the run
/// left it.
pub open spec fn gen_failed(arch: Arch, tcx: TyCtxtV, c: CtxtV) -> bool {
    let n = c.tags.len() as int;
    ||| exists|k: int| 0 <= k < n && !tcx_has(tcx, #[trigger] c.tags[k])
    ||| exists|k: int, j: int|
        0 <= k < n && 0 <= j < enum_def_v(tcx, #[trigger] c.tags[k]).variants.len() && (
        c.tags.len() + enum_nodes_list_v(
            #[trigger] enum_def_v(tcx, c.tags[k]).variants[j].args,
        ) > 0xffff || c.resources.len() + res_nodes_list_v(
            enum_def_v(tcx, c.tags[k]).variants[j].args,
        ) > 0xffff)
    ||| exists|k: int|
        0 <= k < n && enum_def_v(tcx, #[trigger] c.tags[k]).variants.len() > 0x3ff0
    ||| exists|k: int, i: int|
        0 <= k < n && 0 <= i < enum_def_v(tcx, #[trigger] c.tags[k]).variants.len()
            && #[trigger] range_of_variant(tcx, arch, c.tags[k], i) is None
    ||| exists|k: int, lv: Seq<usize>|
        0 <= k < n && !enum_dynamic_v(tcx, c.tags[k]) && #[trigger] dominant_set_ok(
            tcx,
            arch,
            c.tags[k],
            lv,
        ) && static_enum_size_v(tcx, arch, c.tags[k], lv) is None
    ||| 4 * c.tags.len() + info_sz_v(tcx, c.tags) + data_len_v(tcx, c.tags, n) + 2 * vcount_v(
        tcx,
        c.tags,
        n,
    ) > 0xffff
}

/// Per-declaration encodability: what the oracle guarantees about every
/// enum it serves, so that each variant can be encoded into the sixteen-bit
/// table format.
pub open spec fn variant_encodable(tcx: TyCtxtV, def: EnumDefV, v: crate::tcx::VariantInfoV) -> bool {
    &&& crate::encode::dids_known_list_v(tcx, v.args)
    &&& crate::encode::params_covered_list_v(tcx, identity_map_v(def.ty_param_count), v.args)
    &&& shape_len_list_v(tcx, v.args) <= 0xfff0
    &&& v.name.len() <= 0xfff0
}

pub open spec fn enum_encodable(tcx: TyCtxtV, def: EnumDefV) -> bool {
    &&& def.ty_param_count <= 256
    &&& forall|j: int|
        0 <= j < def.variants.len() ==> variant_encodable(tcx, def, #[trigger] def.variants[j])
}

/// Whether every declaration in the table can be encoded.
pub open spec fn tcx_encodable(tcx: TyCtxtV) -> bool {
    forall|e: int| 0 <= e < tcx.enums.len() ==> enum_encodable(tcx, #[trigger] tcx.enums[e])
}

pub proof fn lemma_encodable_def(tcx: TyCtxtV, did: DefId)
    requires
        tcx_encodable(tcx),
        tcx_has(tcx, did),
    ensures
        enum_encodable(tcx, enum_def_v(tcx, did)),
{
    let w = choose|i: int| 0 <= i < tcx.enums.len() && tcx.enums[i].did == did;
    assert(enum_encodable(tcx, tcx.enums[w]));
}

/// One enum's blob sequence reads the same against any larger registry once
/// its variants' references are registered.
pub proof fn lemma_enum_blobs_stable(
    arch: Arch,
    tcx: TyCtxtV,
    c1: CtxtV,
    c2: CtxtV,
    def: EnumDefV,
    j: int,
)
    requires
        0 <= j <= def.variants.len(),
        forall|j2: int|
            0 <= j2 < j ==> registered_list_v(tcx, c1, #[trigger] def.variants[j2].args),
        ctxt_extends(c1, c2),
        ctxt_wf(c2),
    ensures
        enum_blobs_v(arch, tcx, c2, def, j) == enum_blobs_v(arch, tcx, c1, def, j),
    decreases j,
{
    if j > 0 {
        lemma_enum_blobs_stable(arch, tcx, c1, c2, def, j - 1);
        crate::encode::lemma_shape_concat_stable(
            arch,
            tcx,
            c1,
            c2,
            identity_map_v(def.ty_param_count),
            def.variants[j - 1].args,
        );
    }
}

/// The data region reads the same against any larger registry once every
/// listed enum's variants are registered.
pub proof fn lemma_data_bytes_stable(
    arch: Arch,
    tcx: TyCtxtV,
    c1: CtxtV,
    c2: CtxtV,
    dids: Seq<DefId>,
    k: int,
)
    requires
        0 <= k <= dids.len(),
        forall|k2: int, j: int|
            0 <= k2 < k && 0 <= j < enum_def_v(tcx, #[trigger] dids[k2]).variants.len()
                ==> registered_list_v(
                tcx,
                c1,
                #[trigger] enum_def_v(tcx, dids[k2]).variants[j].args,
            ),
        ctxt_extends(c1, c2),
        ctxt_wf(c2),
    ensures
        data_bytes_v(arch, tcx, c2, dids, k) == data_bytes_v(arch, tcx, c1, dids, k),
    decreases k,
{
    if k > 0 {
        lemma_data_bytes_stable(arch, tcx, c1, c2, dids, k - 1);
        lemma_enum_blobs_stable(
            arch,
            tcx,
            c1,
            c2,
            enum_def_v(tcx, dids[k - 1]),
            enum_def_v(tcx, dids[k - 1]).variants.len() as int,
        );
    }
}

/// `x`, capped at `0x10000`.
pub open spec fn cap16(x: nat) -> nat {
    if x > 0x10000 {
        0x10000
    } else {
        x
    }
}

fn sat_add(a: u32, b: u32) -> (r: u32)
    requires
        a <= 0x10000,
        b <= 0x10000,
    ensures
        r == cap16((a + b) as nat),
{
    if a + b > 0x10000 {
        0x10000
    } else {
        a + b
    }
}

/// Counts the enum and resource nodes of one descriptor, capped at one more
/// than the id space, for the registry-room check.
fn count_nodes(t: &Ty) -> (r: (u32, u32))
    ensures
        r.0 == cap16(crate::encode::enum_nodes_v(t@)),
        r.1 == cap16(crate::encode::res_nodes_v(t@)),
    decreases *t,
{
    match t {
        Ty::Uniq(inner) => count_nodes(inner),
        Ty::Rptr(inner) => count_nodes(inner),
        Ty::Vect(inner) => count_nodes(inner),
        Ty::Tup(ts) => count_nodes_list(ts),
        Ty::Enum(_, tps) => {
            let (e, r2) = count_nodes_list(tps);
            (sat_add(1, e), r2)
        },
        Ty::Res(_, inner, tps) => {
            let (e1, r1) = count_nodes(inner);
            let (e2, r2) = count_nodes_list(tps);
            (sat_add(e1, e2), sat_add(1, sat_add(r1, r2)))
        },
        _ => (0, 0),
    }
}

fn count_nodes_list(ts: &Vec<Ty>) -> (r: (u32, u32))
    ensures
        r.0 == cap16(enum_nodes_list_v(crate::types::tyv_list(ts@))),
        r.1 == cap16(res_nodes_list_v(crate::types::tyv_list(ts@))),
    decreases *ts,
{
    let ghost full = crate::types::tyv_list(ts@);
    proof {
        crate::types::lemma_tyv_list_len(ts@);
        assert(full.subrange(0, 0) =~= Seq::<TyV>::empty());
    }
    let mut e: u32 = 0;
    let mut r2: u32 = 0;
    let mut i: usize = 0;
    while i < ts.len()
        invariant
            i <= ts@.len(),
            full == crate::types::tyv_list(ts@),
            full.len() == ts@.len(),
            e == cap16(enum_nodes_list_v(full.subrange(0, i as int))),
            r2 == cap16(res_nodes_list_v(full.subrange(0, i as int))),
        decreases ts@.len() - i,
    {
        proof {
            crate::types::lemma_tyv_list_index(ts@, i as int);
            assert(full.subrange(0, i + 1).drop_last() =~= full.subrange(0, i as int));
            assert(full.subrange(0, i + 1).last() == full[i as int]);
        }
        let (fe, fr) = count_nodes(&ts[i]);
        e = sat_add(e, fe);
        r2 = sat_add(r2, fr);
        i = i + 1;
    }
    proof {
        assert(full.subrange(0, ts@.len() as int) =~= full);
    }
    (e, r2)
}

/// Number of variants of the first `k` listed enums.
pub open spec fn vcount_v(tcx: TyCtxtV, dids: Seq<DefId>, k: int) -> nat
    decreases k,
{
    if k <= 0 {
        0
    } else {
        vcount_v(tcx, dids, k - 1) + enum_def_v(tcx, dids[k - 1]).variants.len()
    }
}

/// Drives the encoder over every registered enum's variants, discovering
/// and registering nested enums and resources until no pass finds anything
/// new, and writes each variant's length-prefixed shape and name into the
/// shared data region, recording every blob's starting offset. `None`
/// reports a registered declaration missing from the table, a full id
/// space, or a data region beyond the sixteen-bit format.
#[verifier::rlimit(100)]
fn gen_enum_data(arch: Arch, tcx: &TyCtxt, cx: &mut Ctxt) -> (r: Option<(Vec<u8>, Vec<u16>)>)
    requires
        tcx_wf(tcx@),
        tcx_encodable(tcx@),
        ctxt_wf(old(cx)@),
    ensures
        ctxt_wf(final(cx)@),
        ctxt_extends(old(cx)@, final(cx)@),
        r is None ==> gen_failed(arch, tcx@, final(cx)@),
        r matches Some(p) ==> ({
            let tags = final(cx)@.tags;
            let n = tags.len() as int;
            &&& forall|k: int| 0 <= k < n ==> tcx_has(tcx@, #[trigger] tags[k])
            &&& forall|k: int, j: int|
                0 <= k < n && 0 <= j < enum_def_v(tcx@, #[trigger] tags[k]).variants.len()
                    ==> registered_list_v(
                    tcx@,
                    final(cx)@,
                    #[trigger] enum_def_v(tcx@, tags[k]).variants[j].args,
                )
            &&& p.0@ == data_bytes_v(arch, tcx@, final(cx)@, tags, n)
            &&& p.0@.len() <= 0xffff
            &&& p.1@.len() == vcount_v(tcx@, tags, n)
            &&& forall|k: int, j: int|
                0 <= k < n && 0 <= j < enum_def_v(tcx@, #[trigger] tags[k]).variants.len()
                    ==> (#[trigger] p.1@[vcount_v(tcx@, tags, k) as int + j] as nat)
                    == data_bytes_v(arch, tcx@, final(cx)@, tags, k).len() + enum_blobs_v(
                    arch,
                    tcx@,
                    final(cx)@,
                    enum_def_v(tcx@, tags[k]),
                    j,
                ).len()
        }),
{
    proof {
        crate::encode::lemma_ctxt_extends_refl(old(cx)@);
    }
    let mut data: Vec<u8> = Vec::new();
    let mut offsets: Vec<u16> = Vec::new();
    let mut i: usize = 0;
    while i < cx.tags.len()
        invariant
            tcx_wf(tcx@),
            tcx_encodable(tcx@),
            ctxt_wf(cx@),
            ctxt_extends(old(cx)@, cx@),
            i <= cx@.tags.len(),
            forall|k: int| 0 <= k < i ==> tcx_has(tcx@, #[trigger] cx@.tags[k]),
            forall|k: int, j: int|
                0 <= k < i && 0 <= j < enum_def_v(tcx@, #[trigger] cx@.tags[k]).variants.len()
                    ==> registered_list_v(
                    tcx@,
                    cx@,
                    #[trigger] enum_def_v(tcx@, cx@.tags[k]).variants[j].args,
                ),
            data@ == data_bytes_v(arch, tcx@, cx@, cx@.tags, i as int),
            data@.len() <= 0xffff,
            offsets@.len() == vcount_v(tcx@, cx@.tags, i as int),
            forall|k: int, j: int|
                0 <= k < i && 0 <= j < enum_def_v(tcx@, #[trigger] cx@.tags[k]).variants.len()
                    ==> (#[trigger] offsets@[vcount_v(tcx@, cx@.tags, k) as int + j] as nat)
                    == data_bytes_v(arch, tcx@, cx@, cx@.tags, k).len() + enum_blobs_v(
                    arch,
                    tcx@,
                    cx@,
                    enum_def_v(tcx@, cx@.tags[k]),
                    j,
                ).len(),
        decreases 0x10000 - (i as int),
    {
        let did = cx.tags[i];
        let ghost c_enum_start = cx@;
        let def = match tcx.lookup_enum(did) {
            Some(d) => d,
            None => {
                proof {
                    assert(0 <= i < cx@.tags.len() && !tcx_has(tcx@, cx@.tags[i as int]));
                    assert(gen_failed(arch, tcx@, cx@));
                }
                return None;
            },
        };
        proof {
            lemma_encodable_def(tcx@, did);
            crate::tcx::lemma_variant_list_len(def.variants@);
        }
        let nv = def.variants.len();
        let mut j: usize = 0;
        while j < nv
            invariant
                tcx_wf(tcx@),
                tcx_encodable(tcx@),
                ctxt_wf(cx@),
                ctxt_extends(old(cx)@, cx@),
                i < cx@.tags.len(),
                cx@.tags[i as int] == did,
                tcx_has(tcx@, did),
                def@ == enum_def_v(tcx@, did),
                def@.variants.len() == def.variants@.len(),
                nv == def@.variants.len(),
                j <= nv,
                enum_encodable(tcx@, def@),
                forall|k: int| 0 <= k < i ==> tcx_has(tcx@, #[trigger] cx@.tags[k]),
                forall|k: int, j2: int|
                    0 <= k < i && 0 <= j2 < enum_def_v(
                        tcx@,
                        #[trigger] cx@.tags[k],
                    ).variants.len() ==> registered_list_v(
                        tcx@,
                        cx@,
                        #[trigger] enum_def_v(tcx@, cx@.tags[k]).variants[j2].args,
                    ),
                forall|j2: int|
                    0 <= j2 < j ==> registered_list_v(
                        tcx@,
                        cx@,
                        #[trigger] def@.variants[j2].args,
                    ),
                data@ == data_bytes_v(arch, tcx@, cx@, cx@.tags, i as int) + enum_blobs_v(
                    arch,
                    tcx@,
                    cx@,
                    def@,
                    j as int,
                ),
                data@.len() <= 0xffff,
                offsets@.len() == vcount_v(tcx@, cx@.tags, i as int) + j,
                forall|k: int, j2: int|
                    0 <= k < i && 0 <= j2 < enum_def_v(
                        tcx@,
                        #[trigger] cx@.tags[k],
                    ).variants.len() ==> (#[trigger] offsets@[vcount_v(
                        tcx@,
                        cx@.tags,
                        k,
                    ) as int + j2] as nat) == data_bytes_v(
                        arch,
                        tcx@,
                        cx@,
                        cx@.tags,
                        k,
                    ).len() + enum_blobs_v(
                        arch,
                        tcx@,
                        cx@,
                        enum_def_v(tcx@, cx@.tags[k]),
                        j2,
                    ).len(),
                forall|j2: int|
                    0 <= j2 < j ==> (#[trigger] offsets@[vcount_v(
                        tcx@,
                        cx@.tags,
                        i as int,
                    ) as int + j2] as nat) == data_bytes_v(
                        arch,
                        tcx@,
                        cx@,
                        cx@.tags,
                        i as int,
                    ).len() + enum_blobs_v(arch, tcx@, cx@, def@, j2).len(),
            decreases nv - j,
        {
            let ghost c_before = cx@;
            let ghost offs_before = offsets@;
            proof {
                crate::tcx::lemma_variant_list_index(def.variants@, j as int);
                assert(variant_encodable(tcx@, def@, def@.variants[j as int]));
                crate::types::lemma_tyv_list_len(def.variants@[j as int].args@);
            }
            let (en, rn) = count_nodes_list(&def.variants[j].args);
            proof {
                crate::ctxt::lemma_res_list_len(cx.resources@);
                assert(enum_def_v(tcx@, cx@.tags[i as int]).variants[j as int].args
                    == def@.variants[j as int].args);
            }
            if cx.next_tag_id() + (en as usize) > 0xffff {
                proof {
                    assert(cx@.tags.len() + enum_nodes_list_v(def@.variants[j as int].args)
                        > 0xffff);
                    assert(gen_failed(arch, tcx@, cx@));
                }
                return None;
            }
            if cx.resources.len() + (rn as usize) > 0xffff {
                proof {
                    assert(cx@.resources.len() + res_nodes_list_v(
                        def@.variants[j as int].args,
                    ) > 0xffff);
                    assert(gen_failed(arch, tcx@, cx@));
                }
                return None;
            }
            proof {
                assert(en < 0x10000 && rn < 0x10000);
                assert(en as nat == enum_nodes_list_v(def@.variants[j as int].args));
                assert(rn as nat == res_nodes_list_v(def@.variants[j as int].args));
            }
            offsets.push(data.len() as u16);
            let vshape = shape_of_variant(arch, tcx, cx, &def.variants[j], def.ty_param_count);
            let ghost c_after = cx@;
            proof {
                crate::ctxt::lemma_ctxt_extends_trans(old(cx)@, c_before, c_after);
            }
            let name_len = def.variants[j].name.len();
            if data.len() + vshape.len() + name_len + 5 > 0xffff {
                proof {
                    let tags_a = c_after.tags;
                    let n_a = tags_a.len() as int;
                    lemma_data_len(arch, tcx@, c_before, c_before.tags, i as int);
                    lemma_data_len_prefix_same(tcx@, c_before.tags, tags_a, i as int);
                    lemma_enum_blobs_len(arch, tcx@, c_before, def@, j as int);
                    assert(data@.len() == data_len_v(tcx@, tags_a, i as int)
                        + enum_blobs_len_v(tcx@, def@, j as int));
                    assert(blob_len_v(tcx@, def@, j as int) == 5 + vshape@.len() + name_len);
                    assert(enum_blobs_len_v(tcx@, def@, j + 1) == enum_blobs_len_v(
                        tcx@,
                        def@,
                        j as int,
                    ) + blob_len_v(tcx@, def@, j as int));
                    lemma_enum_blobs_len_mono(tcx@, def@, j + 1, nv as int);
                    assert(enum_def_v(tcx@, tags_a[i as int]) == def@);
                    assert(data_len_v(tcx@, tags_a, i + 1) == data_len_v(tcx@, tags_a, i as int)
                        + enum_blobs_len_v(tcx@, def@, nv as int));
                    lemma_data_len_mono(tcx@, tags_a, i + 1, n_a);
                    assert(data_len_v(tcx@, tags_a, n_a) > 0xffff);
                    assert(gen_failed(arch, tcx@, c_after));
                }
                return None;
            }
            add_substr(&mut data, &vshape);
            let mut zname: Vec<u8> = Vec::new();
            let mut b: usize = 0;
            while b < def.variants[j].name.len()
                invariant
                    b <= def.variants@[j as int].name@.len(),
                    j < def.variants@.len(),
                    zname@ == def.variants@[j as int].name@.subrange(0, b as int),
                decreases def.variants@[j as int].name@.len() - b,
            {
                zname.push(def.variants[j].name[b]);
                b = b + 1;
                proof {
                    assert(zname@ =~= def.variants@[j as int].name@.subrange(0, b as int));
                }
            }
            zname.push(0);
            proof {
                assert(def.variants@[j as int].name@.subrange(
                    0,
                    def.variants@[j as int].name@.len() as int,
                ) =~= def.variants@[j as int].name@);
                assert(zname@ == def.variants@[j as int].name@.push(0));
                assert(def@.variants[j as int].name == def.variants@[j as int].name@);
            }
            add_substr(&mut data, &zname);
            j = j + 1;
            proof {
                // The registry grew while this blob was encoded: everything
                // already written keeps its meaning against the larger
                // registry, and the new blob reads as specified.
                assert forall|l: int|
                    0 <= l < c_before.tags.len() implies #[trigger] c_after.tags[l]
                    == c_before.tags[l] by {
                    assert(c_after.tags.subrange(0, c_before.tags.len() as int)[l]
                        == c_after.tags[l]);
                }
                lemma_vcount_same(tcx@, c_before.tags, c_after.tags, i as int);
                assert forall|k: int, j2: int|
                    0 <= k < i && 0 <= j2 < enum_def_v(
                        tcx@,
                        #[trigger] c_after.tags[k],
                    ).variants.len() implies registered_list_v(
                    tcx@,
                    c_after,
                    #[trigger] enum_def_v(tcx@, c_after.tags[k]).variants[j2].args,
                ) by {
                    crate::encode::lemma_registered_list_extends(
                        tcx@,
                        c_before,
                        c_after,
                        enum_def_v(tcx@, c_before.tags[k]).variants[j2].args,
                    );
                }
                assert forall|j2: int|
                    0 <= j2 < j implies registered_list_v(
                    tcx@,
                    c_after,
                    #[trigger] def@.variants[j2].args,
                ) by {
                    if j2 < j - 1 {
                        crate::encode::lemma_registered_list_extends(
                            tcx@,
                            c_before,
                            c_after,
                            def@.variants[j2].args,
                        );
                    }
                }
                lemma_data_bytes_stable(arch, tcx@, c_before, c_after, c_before.tags, i as int);
                lemma_data_prefix_same(tcx@, arch, c_after, c_before.tags, c_after.tags, i as int);
                lemma_enum_blobs_stable(arch, tcx@, c_before, c_after, def@, j - 1);
                assert(vshape@ == shape_concat_v(
                    arch,
                    tcx@,
                    c_after,
                    identity_map_v(def@.ty_param_count),
                    def@.variants[j - 1].args,
                ));
                assert(variant_blob_v(arch, tcx@, c_after, def@, j - 1) == substr_bytes(vshape@)
                    + substr_bytes(zname@));
                assert(enum_blobs_v(arch, tcx@, c_after, def@, j as int) == enum_blobs_v(
                    arch,
                    tcx@,
                    c_after,
                    def@,
                    j - 1,
                ) + variant_blob_v(arch, tcx@, c_after, def@, j - 1));
                assert(data@ =~= data_bytes_v(arch, tcx@, c_after, c_after.tags, i as int)
                    + enum_blobs_v(arch, tcx@, c_after, def@, j as int));
                // Offsets already recorded keep their equations; the one
                // just pushed points at the new blob's start.
                assert forall|k: int, j2: int|
                    0 <= k < i && 0 <= j2 < enum_def_v(
                        tcx@,
                        #[trigger] c_after.tags[k],
                    ).variants.len() implies (#[trigger] offsets@[vcount_v(
                    tcx@,
                    c_after.tags,
                    k,
                ) as int + j2] as nat) == data_bytes_v(
                    arch,
                    tcx@,
                    c_after,
                    c_after.tags,
                    k,
                ).len() + enum_blobs_v(
                    arch,
                    tcx@,
                    c_after,
                    enum_def_v(tcx@, c_after.tags[k]),
                    j2,
                ).len() by {
                    lemma_vcount_same(tcx@, c_before.tags, c_after.tags, k);
                    lemma_vcount_mono(tcx@, c_before.tags, k, i as int);
                    lemma_data_bytes_stable(arch, tcx@, c_before, c_after, c_before.tags, k);
                    lemma_data_prefix_same(tcx@, arch, c_after, c_before.tags, c_after.tags, k);
                    lemma_enum_blobs_stable(
                        arch,
                        tcx@,
                        c_before,
                        c_after,
                        enum_def_v(tcx@, c_before.tags[k]),
                        j2,
                    );
                    assert(offsets@[vcount_v(tcx@, c_before.tags, k) as int + j2]
                        == offs_before[vcount_v(tcx@, c_before.tags, k) as int + j2]);
                }
                assert forall|j2: int|
                    0 <= j2 < j implies (#[trigger] offsets@[vcount_v(
                    tcx@,
                    c_after.tags,
                    i as int,
                ) as int + j2] as nat) == data_bytes_v(
                    arch,
                    tcx@,
                    c_after,
                    c_after.tags,
                    i as int,
                ).len() + enum_blobs_v(arch, tcx@, c_after, def@, j2).len() by {
                    lemma_enum_blobs_stable(arch, tcx@, c_before, c_after, def@, j2);
                    if j2 < j - 1 {
                        assert(offsets@[vcount_v(tcx@, c_before.tags, i as int) as int + j2]
                            == offs_before[vcount_v(tcx@, c_before.tags, i as int) as int + j2]);
                    } else {
                        assert(offsets@[offs_before.len() as int] as nat == data_bytes_v(
                            arch,
                            tcx@,
                            c_before,
                            c_before.tags,
                            i as int,
                        ).len() + enum_blobs_v(arch, tcx@, c_before, def@, j - 1).len());
                    }
                }
            }
        }
        i = i + 1;
        proof {
            assert(cx@.tags[i - 1] == did);
            assert(data@ =~= data_bytes_v(arch, tcx@, cx@, cx@.tags, i as int));
            assert(offsets@.len() == vcount_v(tcx@, cx@.tags, i as int));
        }
    }
    proof {
        assert(forall|k: int|
            0 <= k < cx@.tags.len() ==> tcx_has(tcx@, #[trigger] cx@.tags[k]));
    }
    Some((data, offsets))
}

/// The data region of a tag-list prefix depends only on the prefix.
proof fn lemma_data_prefix_same(
    tcx: TyCtxtV,
    arch: Arch,
    c: CtxtV,
    dids1: Seq<DefId>,
    dids2: Seq<DefId>,
    k: int,
)
    requires
        0 <= k <= dids1.len(),
        k <= dids2.len(),
        forall|l: int| 0 <= l < k ==> #[trigger] dids1[l] == dids2[l],
    ensures
        data_bytes_v(arch, tcx, c, dids2, k) == data_bytes_v(arch, tcx, c, dids1, k),
    decreases k,
{
    if k > 0 {
        lemma_data_prefix_same(tcx, arch, c, dids1, dids2, k - 1);
    }
}

/// A prefix's variant count, plus the variants of the enum just past it,
/// never exceeds a longer prefix's count.
proof fn lemma_vcount_mono(tcx: TyCtxtV, dids: Seq<DefId>, k: int, i: int)
    requires
        0 <= k < i <= dids.len(),
    ensures
        vcount_v(tcx, dids, k) + enum_def_v(tcx, dids[k]).variants.len() <= vcount_v(
            tcx,
            dids,
            i,
        ),
    decreases i,
{
    if k + 1 < i {
        lemma_vcount_mono(tcx, dids, k, i - 1);
    }
}

/// Every encoding is at least one byte, so a field list's encoding is at
/// least as long as the list.
proof fn lemma_shape_len_lower(tcx: TyCtxtV, t: TyV)
    ensures
        crate::encode::shape_len_v(tcx, t) >= 1,
{
}

proof fn lemma_shape_len_list_lower(tcx: TyCtxtV, ts: Seq<TyV>)
    ensures
        shape_len_list_v(tcx, ts) >= ts.len(),
    decreases ts,
{
    if ts.len() > 0 {
        lemma_shape_len_list_lower(tcx, ts.drop_last());
        lemma_shape_len_lower(tcx, ts.last());
    }
}

/// The variant count of a tag-list prefix depends only on the prefix.
proof fn lemma_vcount_same(tcx: TyCtxtV, dids1: Seq<DefId>, dids2: Seq<DefId>, k: int)
    requires
        0 <= k <= dids1.len(),
        k <= dids2.len(),
        forall|l: int| 0 <= l < k ==> #[trigger] dids1[l] == dids2[l],
    ensures
        vcount_v(tcx, dids2, k) == vcount_v(tcx, dids1, k),
    decreases k,
{
    if k > 0 {
        lemma_vcount_same(tcx, dids1, dids2, k - 1);
    }
}

/// Generates the global tag-shape table: drives the encoder over every
/// registered enum to the discovery fixpoint, then lays out the header,
/// info, data and largest-variant regions with offsets measured from the
/// start of the table. `None` reports a registered declaration missing from
/// the table, an unmeasurable variant, a full id space, or a table beyond
/// the sixteen-bit format.
pub fn gen_enum_shapes(arch: Arch, tcx: &TyCtxt, cx: &mut Ctxt) -> (r: Option<Vec<u8>>)
    requires
        tcx_wf(tcx@),
        tcx_encodable(tcx@),
        ctxt_wf(old(cx)@),
    ensures
        ctxt_wf(final(cx)@),
        ctxt_extends(old(cx)@, final(cx)@),
        r is None ==> gen_failed(arch, tcx@, final(cx)@),
        r matches Some(out) ==> exists|lvs: Seq<Seq<usize>>|
            gen_table_ok(arch, tcx@, final(cx)@, lvs, out@),
{
    let (r, lvs_g) = gen_enum_shapes_full(arch, tcx, cx);
    proof {
        if r is Some {
            assert(gen_table_ok(arch, tcx@, final(cx)@, lvs_g@, r->Some_0@));
        }
    }
    r
}

#[verifier::rlimit(100)]
#[verifier::spinoff_prover]
fn gen_enum_shapes_full(arch: Arch, tcx: &TyCtxt, cx: &mut Ctxt) -> (r: (
    Option<Vec<u8>>,
    Ghost<Seq<Seq<usize>>>,
))
    requires
        tcx_wf(tcx@),
        tcx_encodable(tcx@),
        ctxt_wf(old(cx)@),
    ensures
        ctxt_wf(final(cx)@),
        ctxt_extends(old(cx)@, final(cx)@),
        r.0 is None ==> gen_failed(arch, tcx@, final(cx)@),
        r.0 matches Some(out) ==> gen_table_ok(arch, tcx@, final(cx)@, r.1@, out@),
{
    let (mut data, offsets) = match gen_enum_data(arch, tcx, cx) {
        Some(p) => p,
        None => {
            return (None, Ghost(Seq::empty()));
        },
    };
    let ghost c = cx@;
    let ghost tags = cx@.tags;
    let n = cx.tags.len();

    // Header region: one info-record offset per enum.
    let mut header: Vec<u8> = Vec::new();
    let mut info_acc: usize = 0;
    let mut k: usize = 0;
    while k < n
        invariant
            tcx_wf(tcx@),
            cx@ == c,
            ctxt_wf(c),
            ctxt_extends(old(cx)@, c),
            tags == c.tags,
            n == tags.len(),
            n <= 0xffff,
            forall|k2: int| 0 <= k2 < n ==> tcx_has(tcx@, #[trigger] tags[k2]),
            k <= n,
            header@ == header_bytes_v(tcx@, tags, k as int),
            info_acc == info_off_v(tcx@, tags, k as int),
            info_acc <= 0xffff,
        decreases n - k,
    {
        let did = cx.tags[k];
        let def = match tcx.lookup_enum(did) {
            Some(d) => d,
            None => {
                proof {
                    assert(false);
                }
                unreached()
            },
        };
        proof {
            crate::tcx::lemma_variant_list_len(def.variants@);
        }
        let nv = def.variants.len();
        if nv > 0x3ff0 {
            proof {
                assert(enum_def_v(tcx@, tags[k as int]).variants.len() > 0x3ff0);
                assert(gen_failed(arch, tcx@, c));
            }
            return (None, Ghost(Seq::empty()));
        }
        if info_acc + 2 * (nv + 2) + 3 > 0xffff {
            proof {
                assert(info_rec_sz_v(tcx@, tags[k as int]) == 2 * (nv + 2) + 3);
                assert(info_off_v(tcx@, tags, k + 1) > 0xffff);
                lemma_info_off_mono(tcx@, tags, k + 1, n as int);
                assert(info_sz_v(tcx@, tags) > 0xffff);
                assert(gen_failed(arch, tcx@, c));
            }
            return (None, Ghost(Seq::empty()));
        }
        let ghost header_prev = header@;
        add_u16(&mut header, ((2 * n + info_acc) as u16));
        info_acc = info_acc + 2 * (nv + 2) + 3;
        k = k + 1;
        proof {
            assert(header@ =~= header_bytes_v(tcx@, tags, k as int));
        }
    }

    // Info and largest-variant regions.
    let ghost data_base_g = (2 * n + info_acc) as nat;
    let ghost lv_base_g = data_base_g + data@.len();
    let mut info: Vec<u8> = Vec::new();
    let mut lvt: Vec<u8> = Vec::new();
    let ghost mut lvs: Seq<Seq<usize>> = Seq::empty();
    let mut m: usize = 0;
    let mut k2: usize = 0;
    while k2 < n
        invariant
            tcx_wf(tcx@),
            cx@ == c,
            ctxt_wf(c),
            ctxt_extends(old(cx)@, c),
            tags == c.tags,
            n == tags.len(),
            n <= 0xffff,
            info_acc == info_off_v(tcx@, tags, n as int),
            info_acc <= 0xffff,
            data@.len() <= 0xffff,
            forall|k3: int| 0 <= k3 < n ==> tcx_has(tcx@, #[trigger] tags[k3]),
            forall|k3: int, j: int|
                0 <= k3 < n && 0 <= j < enum_def_v(tcx@, #[trigger] tags[k3]).variants.len()
                    ==> registered_list_v(
                    tcx@,
                    c,
                    #[trigger] enum_def_v(tcx@, tags[k3]).variants[j].args,
                ),
            offsets@.len() == vcount_v(tcx@, tags, n as int),
            forall|k3: int, j: int|
                0 <= k3 < n && 0 <= j < enum_def_v(tcx@, #[trigger] tags[k3]).variants.len()
                    ==> (#[trigger] offsets@[vcount_v(tcx@, tags, k3) as int + j] as nat)
                    == data_bytes_v(arch, tcx@, c, tags, k3).len() + enum_blobs_v(
                    arch,
                    tcx@,
                    c,
                    enum_def_v(tcx@, tags[k3]),
                    j,
                ).len(),
            tcx_encodable(tcx@),
            k2 <= n,
            lvs.len() == k2,
            m == vcount_v(tcx@, tags, k2 as int),
            forall|k3: int|
                0 <= k3 < k2 ==> dominant_set_ok(tcx@, arch, #[trigger] tags[k3], lvs[k3]),
            info@ == info_bytes_v(arch, tcx@, c, tags, lvs, lv_base_g, data_base_g, k2 as int),
            lvt@ == lv_bytes_v(lvs, k2 as int),
            lvt@.len() == lv_off_v(lvs, k2 as int),
            lvt@.len() <= 0xffff,
            data_base_g == 2 * n + info_off_v(tcx@, tags, n as int),
            lv_base_g == data_base_g + data@.len(),
        decreases n - k2,
    {
        let did = cx.tags[k2];
        let def = match tcx.lookup_enum(did) {
            Some(d) => d,
            None => {
                proof {
                    assert(false);
                }
                unreached()
            },
        };
        proof {
            crate::tcx::lemma_variant_list_len(def.variants@);
            lemma_encodable_def(tcx@, did);
        }
        let nv = def.variants.len();
        if nv > 0x3ff0 {
            proof {
                assert(enum_def_v(tcx@, tags[k2 as int]).variants.len() > 0x3ff0);
                assert(gen_failed(arch, tcx@, c));
            }
            return (None, Ghost(Seq::empty()));
        }
        if lvt.len() + 2 * (nv + 1) > 0xffff {
            proof {
                lemma_lv_off_bound(tcx@, arch, tags, lvs, k2 as int);
                assert(vcount_v(tcx@, tags, k2 + 1) == vcount_v(tcx@, tags, k2 as int) + nv);
                lemma_vcount_le(tcx@, tags, k2 + 1, n as int);
                assert(2 * n + 2 * vcount_v(tcx@, tags, n as int) > 0xffff);
                assert(gen_failed(arch, tcx@, c));
            }
            return (None, Ghost(Seq::empty()));
        }
        let ghost info_prev = info@;
        let ghost lvt_prev = lvt@;
        add_u16(&mut info, nv as u16);
        add_u16(&mut info, ((2 * n + info_acc + data.len() + lvt.len()) as u16));
        proof {
            crate::types::lemma_tyv_list_len(Seq::empty());
            assert forall|j: int|
                0 <= j < enum_def_v(tcx@, did).variants.len() implies #[trigger] enum_def_v(
                tcx@,
                did,
            ).variants[j].args.len() <= 0xffff_ffff by {
                assert(variant_encodable(
                    tcx@,
                    enum_def_v(tcx@, did),
                    enum_def_v(tcx@, did).variants[j],
                ));
                lemma_shape_len_list_lower(tcx@, enum_def_v(tcx@, did).variants[j].args);
            }
        }
        let lv = match largest_variants(tcx, arch, did) {
            Some(l) => l,
            None => {
                proof {
                    let i0 = choose|i: int|
                        0 <= i < enum_def_v(tcx@, did).variants.len() && range_of_variant(
                            tcx@,
                            arch,
                            did,
                            i,
                        ) is None;
                    assert(range_of_variant(tcx@, arch, tags[k2 as int], i0) is None);
                    assert(gen_failed(arch, tcx@, c));
                }
                return (None, Ghost(Seq::empty()));
            },
        };
        // Decide whether the static layout is known.
        let mut dynamic = false;
        let mut j: usize = 0;
        while j < nv
            invariant
                def@ == enum_def_v(tcx@, did),
                def@.variants.len() == def.variants@.len(),
                nv == def@.variants.len(),
                j <= nv,
                dynamic == exists|j2: int|
                    0 <= j2 < j && has_param_list_v(#[trigger] def@.variants[j2].args),
            decreases nv - j,
        {
            proof {
                crate::tcx::lemma_variant_list_index(def.variants@, j as int);
            }
            if crate::types::list_has_params(&def.variants[j].args) {
                dynamic = true;
                proof {
                    assert(has_param_list_v(def@.variants[j as int].args));
                }
            }
            j = j + 1;
        }
        proof {
            assert(dynamic == enum_dynamic_v(tcx@, did));
        }
        let sa = if dynamic {
            crate::layout::SizeAlign { size: 0, align: 0 }
        } else {
            match compute_static_enum_size(tcx, arch, &lv, did) {
                Some(s) => s,
                None => {
                    proof {
                        assert(!enum_dynamic_v(tcx@, tags[k2 as int]) && dominant_set_ok(
                            tcx@,
                            arch,
                            tags[k2 as int],
                            lv@,
                        ) && static_enum_size_v(tcx@, arch, tags[k2 as int], lv@) is None);
                        assert(gen_failed(arch, tcx@, c));
                    }
                    return (None, Ghost(Seq::empty()));
                },
            }
        };
        add_u16(&mut info, sa.size);
        info.push(sa.align);
        proof {
            assert((sa.size as nat, sa.align as nat) == enum_size_field_v(
                tcx@,
                arch,
                did,
                lv@,
            ));
            assert(info@ =~= info_prev + le16((nv as u16)) + le16(
                ((lv_base_g + lv_off_v(lvs, k2 as int)) as u16),
            ) + le16((enum_size_field_v(tcx@, arch, did, lv@).0 as u16)) + seq![
                (enum_size_field_v(tcx@, arch, did, lv@).1 as u8),
            ]);
            assert(info@ =~= info_prev + info_rec_v(
                arch,
                tcx@,
                c,
                did,
                lv@,
                lv_base_g + lv_off_v(lvs, k2 as int),
                data_base_g + data_bytes_v(arch, tcx@, c, tags, k2 as int).len(),
                0,
            ));
        }
        // This enum's largest-variant table.
        proof {
            if lv@.len() > 0 {
                lemma_increasing_ge_index(lv@, lv@.len() - 1);
            }
            assert(lv@.len() <= nv);
        }
        add_u16(&mut lvt, lv.len() as u16);
        let mut q: usize = 0;
        while q < lv.len()
            invariant
                q <= lv@.len(),
                lv@.len() <= 0x3ff0,
                lvt@ == lvt_prev + lv_entry_v(lv@, q as int),
            decreases lv@.len() - q,
        {
            add_u16(&mut lvt, lv[q] as u16);
            q = q + 1;
            proof {
                assert(lvt@ =~= lvt_prev + lv_entry_v(lv@, q as int));
            }
        }
        // Absolute offsets of this enum's variant blobs.
        let mut j2: usize = 0;
        while j2 < nv
            invariant
                tcx_wf(tcx@),
                cx@ == c,
                tags == c.tags,
                n == tags.len(),
                n <= 0xffff,
                k2 < n,
                tags[k2 as int] == did,
                def@ == enum_def_v(tcx@, did),
                def@.variants.len() == def.variants@.len(),
                nv == def@.variants.len(),
                j2 <= nv,
                m == vcount_v(tcx@, tags, k2 as int) + j2,
                offsets@.len() == vcount_v(tcx@, tags, n as int),
                forall|k3: int, j3: int|
                    0 <= k3 < n && 0 <= j3 < enum_def_v(
                        tcx@,
                        #[trigger] tags[k3],
                    ).variants.len() ==> (#[trigger] offsets@[vcount_v(
                        tcx@,
                        tags,
                        k3,
                    ) as int + j3] as nat) == data_bytes_v(
                        arch,
                        tcx@,
                        c,
                        tags,
                        k3,
                    ).len() + enum_blobs_v(
                        arch,
                        tcx@,
                        c,
                        enum_def_v(tcx@, tags[k3]),
                        j3,
                    ).len(),
                info@ == info_bytes_v(
                    arch,
                    tcx@,
                    c,
                    tags,
                    lvs,
                    lv_base_g,
                    data_base_g,
                    k2 as int,
                ) + info_rec_v(
                    arch,
                    tcx@,
                    c,
                    did,
                    lv@,
                    lv_base_g + lv_off_v(lvs, k2 as int),
                    data_base_g + data_bytes_v(arch, tcx@, c, tags, k2 as int).len(),
                    j2 as int,
                ),
                data_base_g == 2 * n + info_off_v(tcx@, tags, n as int),
                info_acc == info_off_v(tcx@, tags, n as int),
                info_acc <= 0xffff,
                data@.len() <= 0xffff,
            decreases nv - j2,
        {
            proof {
                lemma_vcount_mono(tcx@, tags, k2 as int, n as int);
                assert(m < offsets@.len());
                assert((offsets@[m as int] as nat) == data_bytes_v(
                    arch,
                    tcx@,
                    c,
                    tags,
                    k2 as int,
                ).len() + enum_blobs_v(arch, tcx@, c, def@, j2 as int).len());
            }
            let olen = offsets.len();
            proof {
                assert(m < olen);
            }
            let voff = offsets[m];
            add_u16(&mut info, ((2 * n + info_acc + (voff as usize)) as u16));
            m = m + 1;
            j2 = j2 + 1;
            proof {
                assert(info@ =~= info_bytes_v(
                    arch,
                    tcx@,
                    c,
                    tags,
                    lvs,
                    lv_base_g,
                    data_base_g,
                    k2 as int,
                ) + info_rec_v(
                    arch,
                    tcx@,
                    c,
                    did,
                    lv@,
                    lv_base_g + lv_off_v(lvs, k2 as int),
                    data_base_g + data_bytes_v(arch, tcx@, c, tags, k2 as int).len(),
                    j2 as int,
                ));
            }
        }
        k2 = k2 + 1;
        proof {
            let lvs_old = lvs;
            lvs = lvs.push(lv@);
            assert(lvs[k2 - 1] == lv@);
            lemma_info_bytes_lvs_push(
                arch,
                tcx@,
                c,
                tags,
                lvs_old,
                lv@,
                lv_base_g,
                data_base_g,
                k2 - 1,
            );
            lemma_lv_bytes_push(lvs_old, lv@, k2 - 1);
            lemma_lv_off_push(lvs_old, lv@, k2 - 1);
            lemma_lv_entry_len(lv@, lv@.len() as int);
            assert(info@ =~= info_bytes_v(
                arch,
                tcx@,
                c,
                tags,
                lvs,
                lv_base_g,
                data_base_g,
                k2 as int,
            ));
            assert(lvt@ =~= lv_bytes_v(lvs, k2 as int));
            assert(lvt@.len() == lv_off_v(lvs, k2 as int));
        }
    }
    proof {
        assert(lvt@.len() == lv_off_v(lvs, n as int));
    }

    // Seal the four regions into one table.
    let mut out = header;
    let mut info2 = info;
    let mut lvt2 = lvt;
    out.append(&mut info2);
    out.append(&mut data);
    out.append(&mut lvt2);
    if out.len() > 0xffff {
        proof {
            lemma_header_len(tcx@, tags, n as int);
            lemma_info_bytes_len(
                arch,
                tcx@,
                c,
                tags,
                lvs,
                lv_base_g,
                data_base_g,
                n as int,
            );
            lemma_data_len(arch, tcx@, c, tags, n as int);
            lemma_lv_off_bound(tcx@, arch, tags, lvs, n as int);
            assert(out@.len() <= 4 * n + info_sz_v(tcx@, tags) + data_len_v(
                tcx@,
                tags,
                n as int,
            ) + 2 * vcount_v(tcx@, tags, n as int));
            assert(gen_failed(arch, tcx@, c));
        }
        return (None, Ghost(Seq::empty()));
    }
    proof {
        assert(out@ =~= header_bytes_v(tcx@, tags, n as int) + info_bytes_v(
            arch,
            tcx@,
            c,
            tags,
            lvs,
            lv_base_g,
            data_base_g,
            n as int,
        ) + data_bytes_v(arch, tcx@, c, tags, n as int) + lv_bytes_v(lvs, n as int));
        assert(gen_table_ok(arch, tcx@, cx@, lvs, out@));
    }
    (Some(out), Ghost(lvs))
}

/// Pushing a new largest-variant list does not disturb the records of the
/// enums before it.
proof fn lemma_info_bytes_lvs_push(
    arch: Arch,
    tcx: TyCtxtV,
    c: CtxtV,
    dids: Seq<DefId>,
    lvs: Seq<Seq<usize>>,
    lv: Seq<usize>,
    lv_base: nat,
    data_base: nat,
    k: int,
)
    requires
        0 <= k <= lvs.len(),
    ensures
        info_bytes_v(arch, tcx, c, dids, lvs.push(lv), lv_base, data_base, k) == info_bytes_v(
            arch,
            tcx,
            c,
            dids,
            lvs,
            lv_base,
            data_base,
            k,
        ),
        lv_off_v(lvs.push(lv), k) == lv_off_v(lvs, k),
    decreases k,
{
    if k > 0 {
        lemma_info_bytes_lvs_push(arch, tcx, c, dids, lvs, lv, lv_base, data_base, k - 1);
    }
}

proof fn lemma_lv_bytes_push(lvs: Seq<Seq<usize>>, lv: Seq<usize>, k: int)
    requires
        0 <= k <= lvs.len(),
    ensures
        lv_bytes_v(lvs.push(lv), k) == lv_bytes_v(lvs, k),
    decreases k,
{
    if k > 0 {
        lemma_lv_bytes_push(lvs, lv, k - 1);
    }
}

proof fn lemma_lv_off_push(lvs: Seq<Seq<usize>>, lv: Seq<usize>, k: int)
    requires
        0 <= k <= lvs.len(),
    ensures
        lv_off_v(lvs.push(lv), k) == lv_off_v(lvs, k),
    decreases k,
{
    if k > 0 {
        lemma_lv_off_push(lvs, lv, k - 1);
    }
}

/// A largest-variant table is two bytes per entry plus its count word.
proof fn lemma_lv_entry_len(lv: Seq<usize>, j: int)
    requires
        0 <= j <= lv.len(),
    ensures
        lv_entry_v(lv, j).len() == 2 * (1 + j),
    decreases j,
{
    if j > 0 {
        lemma_lv_entry_len(lv, j - 1);
    }
}

/// One entry of the destructor provider: a resource declaration, the type
/// arguments of one instantiation, and the destructor reference the
/// provider hands out for it.
pub struct DtorEntry {
    pub did: DefId,
    pub tps: Vec<Ty>,
    pub dtor: u64,
}

/// Ghost mirror of [`DtorEntry`].
pub struct DtorEntryV {
    pub did: DefId,
    pub tps: Seq<TyV>,
    pub dtor: u64,
}

impl View for DtorEntry {
    type V = DtorEntryV;

    open spec fn view(&self) -> DtorEntryV {
        DtorEntryV {
            did: self.did,
            tps: crate::types::tyv_list(self.tps@),
            dtor: self.dtor,
        }
    }
}

pub open spec fn dtor_list_v(es: Seq<DtorEntry>) -> Seq<DtorEntryV>
    decreases es,
{
    if es.len() == 0 {
        Seq::empty()
    } else {
        dtor_list_v(es.drop_last()).push(es.last()@)
    }
}

pub broadcast proof fn lemma_dtor_list_len(es: Seq<DtorEntry>)
    ensures
        #[trigger] dtor_list_v(es).len() == es.len(),
    decreases es,
{
    if es.len() > 0 {
        lemma_dtor_list_len(es.drop_last());
    }
}

pub broadcast proof fn lemma_dtor_list_index(es: Seq<DtorEntry>, i: int)
    requires
        0 <= i < es.len(),
    ensures
        #[trigger] dtor_list_v(es)[i] == es[i]@,
    decreases es,
{
    lemma_dtor_list_len(es);
    if i < es.len() - 1 {
        lemma_dtor_list_index(es.drop_last(), i);
    }
}

/// The destructor provider, modelled as a table keyed by declaration and
/// type arguments.
pub struct DtorTable {
    pub entries: Vec<DtorEntry>,
}

/// Provider well-formedness: one entry per instantiation.
pub open spec fn dtor_table_wf(es: Seq<DtorEntryV>) -> bool {
    forall|i: int, j: int|
        0 <= i < j < es.len() ==> !(#[trigger] es[i].did == #[trigger] es[j].did && es[i].tps
            == es[j].tps)
}

/// Whether the provider has an entry for the interning key.
pub open spec fn dtor_has(es: Seq<DtorEntryV>, ri: ResInfoV) -> bool {
    exists|i: int| 0 <= i < es.len() && es[i].did == ri.did && es[i].tps == ri.tps
}

/// The destructor reference for the key; meaningful when present and keys
/// are unique.
pub open spec fn dtor_of(es: Seq<DtorEntryV>, ri: ResInfoV) -> u64 {
    es[choose|i: int| 0 <= i < es.len() && es[i].did == ri.did && es[i].tps == ri.tps].dtor
}

/// Looks up the destructor reference for one interning key.
fn find_dtor(provider: &DtorTable, did: DefId, tps: &Vec<Ty>) -> (r: Option<u64>)
    requires
        dtor_table_wf(dtor_list_v(provider.entries@)),
    ensures
        ({
            let key = ResInfoV { did, tps: crate::types::tyv_list(tps@) };
            match r {
                Some(d) => dtor_has(dtor_list_v(provider.entries@), key) && d == dtor_of(
                    dtor_list_v(provider.entries@),
                    key,
                ),
                None => !dtor_has(dtor_list_v(provider.entries@), key),
            }
        }),
{
    let ghost es = dtor_list_v(provider.entries@);
    let ghost key = ResInfoV { did, tps: crate::types::tyv_list(tps@) };
    proof {
        lemma_dtor_list_len(provider.entries@);
    }
    let mut e: usize = 0;
    while e < provider.entries.len()
        invariant
            es == dtor_list_v(provider.entries@),
            es.len() == provider.entries@.len(),
            dtor_table_wf(es),
            key == (ResInfoV { did, tps: crate::types::tyv_list(tps@) }),
            e <= es.len(),
            forall|k: int|
                0 <= k < e ==> !(#[trigger] es[k].did == key.did && es[k].tps == key.tps),
        decreases es.len() - e,
    {
        proof {
            lemma_dtor_list_index(provider.entries@, e as int);
        }
        let did_eq = provider.entries[e].did == did;
        let tps_eq = if did_eq {
            crate::types::ty_list_eq(&provider.entries[e].tps, tps)
        } else {
            false
        };
        if did_eq && tps_eq {
            proof {
                assert(es[e as int].did == key.did && es[e as int].tps == key.tps);
                assert(dtor_has(es, key));
                let w = choose|w: int|
                    0 <= w < es.len() && es[w].did == key.did && es[w].tps == key.tps;
                assert(es[w].did == key.did && es[w].tps == key.tps);
                assert(w == e as int);
                assert(dtor_of(es, key) == es[e as int].dtor);
            }
            return Some(provider.entries[e].dtor);
        }
        e = e + 1;
    }
    proof {
        assert(!dtor_has(es, key));
    }
    None
}

/// Builds the resource table: one destructor reference per interned
/// resource, in interning order. `None` reports an instantiation the
/// provider has no entry for.
pub fn gen_resource_shapes(cx: &Ctxt, provider: &DtorTable) -> (r: Option<Vec<u64>>)
    requires
        dtor_table_wf(dtor_list_v(provider.entries@)),
    ensures
        match r {
            Some(ds) => {
                &&& ds@.len() == cx@.resources.len()
                &&& forall|i: int|
                    0 <= i < cx@.resources.len() ==> dtor_has(
                        dtor_list_v(provider.entries@),
                        #[trigger] cx@.resources[i],
                    ) && ds@[i] == dtor_of(dtor_list_v(provider.entries@), cx@.resources[i])
            },
            None => exists|i: int|
                0 <= i < cx@.resources.len() && !dtor_has(
                    dtor_list_v(provider.entries@),
                    #[trigger] cx@.resources[i],
                ),
        },
{
    proof {
        crate::ctxt::lemma_res_list_len(cx.resources@);
    }
    let mut dtors: Vec<u64> = Vec::new();
    let mut i: usize = 0;
    while i < cx.resources.len()
        invariant
            dtor_table_wf(dtor_list_v(provider.entries@)),
            cx@.resources.len() == cx.resources@.len(),
            i <= cx@.resources.len(),
            dtors@.len() == i,
            forall|k: int|
                0 <= k < i ==> dtor_has(
                    dtor_list_v(provider.entries@),
                    #[trigger] cx@.resources[k],
                ) && dtors@[k] == dtor_of(dtor_list_v(provider.entries@), cx@.resources[k]),
        decreases cx@.resources.len() - i,
    {
        proof {
            crate::ctxt::lemma_res_list_index(cx.resources@, i as int);
        }
        match find_dtor(provider, cx.resources[i].did, &cx.resources[i].tps) {
            Some(d) => {
                dtors.push(d);
            },
            None => {
                return None;
            },
        }
        i = i + 1;
    }
    Some(dtors)
}

/// The two generated tables, sealed into one read-only aggregate.
pub struct ShapeTables {
    /// The tag-shape table: header, info, data and largest-variant regions.
    pub tags: Vec<u8>,
    /// The resource table: destructor references in interning order.
    pub resources: Vec<u64>,
    /// The dominant-variant index lists the tag table was built from.
    pub lvs: Ghost<Seq<Seq<usize>>>,
}

/// Generates both shape tables and seals them into the single aggregate the
/// rest of the backend links against.
pub fn gen_shape_tables(
    arch: Arch,
    tcx: &TyCtxt,
    cx: &mut Ctxt,
    provider: &DtorTable,
) -> (r: Option<ShapeTables>)
    requires
        tcx_wf(tcx@),
        tcx_encodable(tcx@),
        ctxt_wf(old(cx)@),
        dtor_table_wf(dtor_list_v(provider.entries@)),
    ensures
        ctxt_wf(final(cx)@),
        ctxt_extends(old(cx)@, final(cx)@),
        r is None ==> gen_failed(arch, tcx@, final(cx)@) || exists|i: int|
            0 <= i < final(cx)@.resources.len() && !dtor_has(
                dtor_list_v(provider.entries@),
                #[trigger] final(cx)@.resources[i],
            ),
        r matches Some(t) ==> ({
            let fc = final(cx)@;
            &&& gen_table_ok(arch, tcx@, fc, t.lvs@, t.tags@)
            &&& t.resources@.len() == fc.resources.len()
            &&& forall|i: int|
                0 <= i < fc.resources.len() ==> dtor_has(
                    dtor_list_v(provider.entries@),
                    #[trigger] fc.resources[i],
                ) && t.resources@[i] == dtor_of(dtor_list_v(provider.entries@), fc.resources[i])
        }),
{
    let (tags_opt, lvs_g) = gen_enum_shapes_full(arch, tcx, cx);
    let tags_table = match tags_opt {
        Some(t) => t,
        None => {
            return None;
        },
    };
    let resources_table = match gen_resource_shapes(cx, provider) {
        Some(d) => d,
        None => {
            return None;
        },
    };
    Some(ShapeTables { tags: tags_table, resources: resources_table, lvs: lvs_g })
}

/// In a strictly increasing index list, each entry is at least its
/// position.
proof fn lemma_increasing_ge_index(res: Seq<usize>, k: int)
    requires
        0 <= k < res.len(),
        forall|a: int, b: int| 0 <= a < b < res.len() ==> #[trigger] res[a] < #[trigger] res[b],
    ensures
        res[k] as int >= k,
    decreases k,
{
    if k > 0 {
        lemma_increasing_ge_index(res, k - 1);
        assert(res[k - 1] < res[k]);
    }
}


} // verus!
