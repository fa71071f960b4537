//! A reference decoder for shape bytes: it follows the opcode table alone,
//! recovering each encoded kind and, for composite kinds, the child count
//! and order. Decoding then encoding is the round-trip law at the end of
//! this module.

use vstd::prelude::*;

use crate::arch::{
    s_int_v, s_uint_v, Arch, SHAPE_BARE_FN, SHAPE_BOX, SHAPE_BOX_FN, SHAPE_ENUM, SHAPE_F32,
    SHAPE_F64, SHAPE_I16, SHAPE_I32, SHAPE_I64, SHAPE_I8, SHAPE_RES, SHAPE_RPTR,
    SHAPE_SEND_TYDESC, SHAPE_STACK_FN, SHAPE_STRUCT, SHAPE_TYDESC, SHAPE_U16, SHAPE_U32,
    SHAPE_U64, SHAPE_U8, SHAPE_UNIQ, SHAPE_UNIQ_FN, SHAPE_VAR, SHAPE_VEC,
};
use crate::ctxt::CtxtV;
use crate::encode::slot_of;
use crate::table::u16_at;
use crate::tcx::{enum_def_v, enum_kind_v, is_tagged_kind, TyCtxtV};
use crate::types::{Proto, TyV};

verus! {

/// What a decoder can recover from an encoding: scalar kinds that share an
/// opcode collapse to one representative, the architecture-dependent kinds
/// to their resolved widths, a string to a byte vector, a bare-discriminant
/// enum to the discriminant scalar, and a parameter reference to its slot.
pub open spec fn canon_v(tcx: TyCtxtV, arch: Arch, map: Seq<usize>, t: TyV) -> TyV
    decreases t,
{
    match t {
        TyV::Nil => TyV::U8,
        TyV::Bool => TyV::U8,
        TyV::Int => if s_int_v(arch) == SHAPE_I64 {
            TyV::I64
        } else {
            TyV::I32
        },
        TyV::Uint => if s_uint_v(arch) == SHAPE_U64 {
            TyV::U64
        } else {
            TyV::U32
        },
        TyV::Ptr => if s_uint_v(arch) == SHAPE_U64 {
            TyV::U64
        } else {
            TyV::U32
        },
        TyV::Float => TyV::F64,
        TyV::Str => TyV::Vect(Box::new(TyV::U8)),
        TyV::Uniq(inner) => TyV::Uniq(Box::new(canon_v(tcx, arch, map, *inner))),
        TyV::Rptr(inner) => TyV::Rptr(Box::new(canon_v(tcx, arch, map, *inner))),
        TyV::Vect(inner) => TyV::Vect(Box::new(canon_v(tcx, arch, map, *inner))),
        TyV::Tup(ts) => TyV::Tup(canon_list_v(tcx, arch, map, ts)),
        TyV::Enum(did, tps) => if is_tagged_kind(enum_kind_v(enum_def_v(tcx, did).variants)) {
            TyV::Enum(did, canon_list_v(tcx, arch, map, tps))
        } else if s_int_v(arch) == SHAPE_I64 {
            TyV::I64
        } else {
            TyV::I32
        },
        TyV::Res(did, inner, tps) => TyV::Res(
            did,
            Box::new(canon_v(tcx, arch, map, *inner)),
            canon_list_v(tcx, arch, map, tps),
        ),
        TyV::Param(n) => TyV::Param(slot_of(map, n) as nat),
        _ => t,
    }
}

pub open spec fn canon_list_v(tcx: TyCtxtV, arch: Arch, map: Seq<usize>, ts: Seq<TyV>) -> Seq<
    TyV,
>
    decreases ts,
{
    if ts.len() == 0 {
        Seq::empty()
    } else {
        canon_list_v(tcx, arch, map, ts.drop_last()).push(canon_v(tcx, arch, map, ts.last()))
    }
}

/// Decodes one shape from the front of `b`: the recovered descriptor and
/// the bytes that follow it. `None` reports bytes no encoder produced.
pub open spec fn decode_v(c: CtxtV, b: Seq<u8>) -> Option<(TyV, Seq<u8>)>
    decreases b.len(), 0int,
{
    if b.len() == 0 {
        None
    } else {
        let op = b[0];
        let rest = b.drop_first();
        if op == SHAPE_U8 {
            Some((TyV::U8, rest))
        } else if op == SHAPE_I8 {
            Some((TyV::I8, rest))
        } else if op == SHAPE_U16 {
            Some((TyV::U16, rest))
        } else if op == SHAPE_I16 {
            Some((TyV::I16, rest))
        } else if op == SHAPE_U32 {
            Some((TyV::U32, rest))
        } else if op == SHAPE_I32 {
            Some((TyV::I32, rest))
        } else if op == SHAPE_U64 {
            Some((TyV::U64, rest))
        } else if op == SHAPE_I64 {
            Some((TyV::I64, rest))
        } else if op == SHAPE_F32 {
            Some((TyV::F32, rest))
        } else if op == SHAPE_F64 {
            Some((TyV::F64, rest))
        } else if op == SHAPE_BOX {
            Some((TyV::Boxed, rest))
        } else if op == SHAPE_TYDESC {
            Some((TyV::TyDesc, rest))
        } else if op == SHAPE_SEND_TYDESC {
            Some((TyV::SendTyDesc, rest))
        } else if op == SHAPE_BOX_FN {
            Some((TyV::Func(Proto::Boxed), rest))
        } else if op == SHAPE_UNIQ_FN {
            Some((TyV::Func(Proto::Owned), rest))
        } else if op == SHAPE_STACK_FN {
            Some((TyV::Func(Proto::Stack), rest))
        } else if op == SHAPE_BARE_FN {
            Some((TyV::Func(Proto::Bare), rest))
        } else if op == SHAPE_VAR {
            if rest.len() >= 1 {
                Some((TyV::Param(rest[0] as nat), rest.drop_first()))
            } else {
                None
            }
        } else if op == SHAPE_UNIQ {
            match decode_chunk(c, rest) {
                Some((inner, after)) => Some((TyV::Uniq(Box::new(inner)), after)),
                None => None,
            }
        } else if op == SHAPE_RPTR {
            match decode_chunk(c, rest) {
                Some((inner, after)) => Some((TyV::Rptr(Box::new(inner)), after)),
                None => None,
            }
        } else if op == SHAPE_VEC {
            if rest.len() >= 1 {
                match decode_chunk(c, rest.drop_first()) {
                    Some((inner, after)) => Some((TyV::Vect(Box::new(inner)), after)),
                    None => None,
                }
            } else {
                None
            }
        } else if op == SHAPE_STRUCT {
            if rest.len() >= 2 && u16_at(rest, 0) + 2 <= rest.len() {
                let content = rest.subrange(2, u16_at(rest, 0) as int + 2);
                match decode_fields(c, content) {
                    Some(fields) => Some((TyV::Tup(fields), rest.skip(u16_at(rest, 0) as int + 2))),
                    None => None,
                }
            } else {
                None
            }
        } else if op == SHAPE_ENUM {
            if rest.len() >= 4 && u16_at(rest, 0) < c.tags.len() {
                match decode_args(c, rest.skip(4), u16_at(rest, 2)) {
                    Some((args, after)) => Some(
                        (TyV::Enum(c.tags[u16_at(rest, 0) as int], args), after),
                    ),
                    None => None,
                }
            } else {
                None
            }
        } else if op == SHAPE_RES {
            if rest.len() >= 4 && u16_at(rest, 0) < c.resources.len() {
                match decode_args(c, rest.skip(4), u16_at(rest, 2)) {
                    Some((args, mid)) => if mid.len() < b.len() {
                        match decode_chunk(c, mid) {
                            Some((inner, after)) => Some(
                                (
                                    TyV::Res(
                                        c.resources[u16_at(rest, 0) as int].did,
                                        Box::new(inner),
                                        args,
                                    ),
                                    after,
                                ),
                            ),
                            None => None,
                        }
                    } else {
                        None
                    },
                    None => None,
                }
            } else {
                None
            }
        } else {
            None
        }
    }
}

/// Decodes one length-prefixed chunk: the shape inside must fill it
/// exactly.
pub open spec fn decode_chunk(c: CtxtV, b: Seq<u8>) -> Option<(TyV, Seq<u8>)>
    decreases b.len(), 1int,
{
    if b.len() >= 2 && u16_at(b, 0) + 2 <= b.len() {
        let content = b.subrange(2, u16_at(b, 0) as int + 2);
        match decode_v(c, content) {
            Some((t, leftover)) => if leftover.len() == 0 {
                Some((t, b.skip(u16_at(b, 0) as int + 2)))
            } else {
                None
            },
            None => None,
        }
    } else {
        None
    }
}

/// Decodes a struct body: one shape after another until the bytes run out.
pub open spec fn decode_fields(c: CtxtV, b: Seq<u8>) -> Option<Seq<TyV>>
    decreases b.len(), 2int,
{
    if b.len() == 0 {
        Some(Seq::empty())
    } else {
        match decode_v(c, b) {
            Some((t, rest)) => if rest.len() < b.len() {
                match decode_fields(c, rest) {
                    Some(fields) => Some(seq![t] + fields),
                    None => None,
                }
            } else {
                None
            },
            None => None,
        }
    }
}

/// Decodes `count` length-prefixed type arguments.
pub open spec fn decode_args(c: CtxtV, b: Seq<u8>, count: nat) -> Option<(Seq<TyV>, Seq<u8>)>
    decreases b.len(), 2int,
{
    if count == 0 {
        Some((Seq::empty(), b))
    } else {
        match decode_chunk(c, b) {
            Some((t, rest)) => if rest.len() < b.len() {
                match decode_args(c, rest, (count - 1) as nat) {
                    Some((args, after)) => Some((seq![t] + args, after)),
                    None => None,
                }
            } else {
                None
            },
            None => None,
        }
    }
}

/// Front decomposition of the list-valued encoding functions and of the
/// canonical list, for parsing left to right.
proof fn lemma_lists_first(arch: Arch, tcx: TyCtxtV, c: CtxtV, map: Seq<usize>, ts: Seq<TyV>)
    requires
        ts.len() > 0,
    ensures
        crate::encode::shape_concat_v(arch, tcx, c, map, ts) == crate::encode::shape_v(
            arch,
            tcx,
            c,
            map,
            ts[0],
        ) + crate::encode::shape_concat_v(arch, tcx, c, map, ts.drop_first()),
        crate::encode::shape_args_v(arch, tcx, c, map, ts) == crate::buf::substr_bytes(
            crate::encode::shape_v(arch, tcx, c, map, ts[0]),
        ) + crate::encode::shape_args_v(arch, tcx, c, map, ts.drop_first()),
        canon_list_v(tcx, arch, map, ts) == seq![canon_v(tcx, arch, map, ts[0])] + canon_list_v(
            tcx,
            arch,
            map,
            ts.drop_first(),
        ),
        crate::encode::registered_list_v(tcx, c, ts) ==> crate::encode::registered_v(
            tcx,
            c,
            ts[0],
        ) && crate::encode::registered_list_v(tcx, c, ts.drop_first()),
        crate::encode::dids_known_list_v(tcx, ts) ==> crate::encode::dids_known_v(tcx, ts[0])
            && crate::encode::dids_known_list_v(tcx, ts.drop_first()),
        crate::encode::params_covered_list_v(tcx, map, ts)
            ==> crate::encode::params_covered_v(tcx, map, ts[0])
            && crate::encode::params_covered_list_v(tcx, map, ts.drop_first()),
        crate::encode::shape_len_list_v(tcx, ts) == crate::encode::shape_len_v(tcx, ts[0])
            + crate::encode::shape_len_list_v(tcx, ts.drop_first()),
        crate::encode::shape_len_args_v(tcx, ts) == 2 + crate::encode::shape_len_v(tcx, ts[0])
            + crate::encode::shape_len_args_v(tcx, ts.drop_first()),
    decreases ts.len(),
{
    if ts.len() == 1 {
        assert(ts.drop_last() =~= Seq::<TyV>::empty());
        assert(ts.drop_first() =~= Seq::<TyV>::empty());
        assert(ts.last() == ts[0]);
        assert(crate::encode::shape_concat_v(arch, tcx, c, map, ts) =~= crate::encode::shape_v(
            arch,
            tcx,
            c,
            map,
            ts[0],
        ) + crate::encode::shape_concat_v(arch, tcx, c, map, ts.drop_first()));
        assert(crate::encode::shape_args_v(arch, tcx, c, map, ts) =~= crate::buf::substr_bytes(
            crate::encode::shape_v(arch, tcx, c, map, ts[0]),
        ) + crate::encode::shape_args_v(arch, tcx, c, map, ts.drop_first()));
        assert(canon_list_v(tcx, arch, map, ts) =~= seq![canon_v(tcx, arch, map, ts[0])]
            + canon_list_v(tcx, arch, map, ts.drop_first()));
    } else {
        lemma_lists_first(arch, tcx, c, map, ts.drop_last());
        assert(ts.drop_last()[0] == ts[0]);
        assert(ts.drop_last().drop_first() =~= ts.drop_first().drop_last());
        assert(ts.drop_first().last() == ts.last());
        assert(ts.drop_first().len() > 0);
        assert(crate::encode::shape_concat_v(arch, tcx, c, map, ts) =~= crate::encode::shape_v(
            arch,
            tcx,
            c,
            map,
            ts[0],
        ) + crate::encode::shape_concat_v(arch, tcx, c, map, ts.drop_first()));
        assert(crate::encode::shape_args_v(arch, tcx, c, map, ts) =~= crate::buf::substr_bytes(
            crate::encode::shape_v(arch, tcx, c, map, ts[0]),
        ) + crate::encode::shape_args_v(arch, tcx, c, map, ts.drop_first()));
        assert(canon_list_v(tcx, arch, map, ts) =~= seq![canon_v(tcx, arch, map, ts[0])]
            + canon_list_v(tcx, arch, map, ts.drop_first()));
    }
}

/// Parsing one length-prefixed chunk that holds exactly one encoding.
proof fn lemma_decode_chunk(
    arch: Arch,
    tcx: TyCtxtV,
    c: CtxtV,
    map: Seq<usize>,
    t: TyV,
    rest: Seq<u8>,
)
    requires
        crate::encode::registered_v(tcx, c, t),
        crate::ctxt::ctxt_wf(c),
        crate::encode::dids_known_v(tcx, t),
        crate::encode::params_covered_v(tcx, map, t),
        map.no_duplicates(),
        map.len() <= 256,
        crate::encode::shape_len_v(tcx, t) <= 0xffff,
    ensures
        decode_chunk(
            c,
            crate::buf::substr_bytes(crate::encode::shape_v(arch, tcx, c, map, t)) + rest,
        ) == Some((canon_v(tcx, arch, map, t), rest)),
    decreases t, 3int,
{
    let sub = crate::encode::shape_v(arch, tcx, c, map, t);
    crate::encode::lemma_shape_len(arch, tcx, c, map, t);
    let b = crate::buf::substr_bytes(sub) + rest;
    crate::table::lemma_u16_at_le16(sub.len() as u16);
    assert(b[0] == crate::buf::le16(sub.len() as u16)[0]);
    assert(b[1] == crate::buf::le16(sub.len() as u16)[1]);
    assert(u16_at(b, 0) == sub.len());
    assert(b.subrange(2, sub.len() as int + 2) =~= sub);
    lemma_round_trip(arch, tcx, c, map, t, Seq::empty());
    assert(sub + Seq::<u8>::empty() =~= sub);
    assert(b.skip(sub.len() as int + 2) =~= rest);
}

/// Parsing a struct body: the concatenated field encodings give back the
/// fields, in order.
proof fn lemma_decode_fields(arch: Arch, tcx: TyCtxtV, c: CtxtV, map: Seq<usize>, ts: Seq<TyV>)
    requires
        crate::encode::registered_list_v(tcx, c, ts),
        crate::ctxt::ctxt_wf(c),
        crate::encode::dids_known_list_v(tcx, ts),
        crate::encode::params_covered_list_v(tcx, map, ts),
        map.no_duplicates(),
        map.len() <= 256,
        crate::encode::shape_len_list_v(tcx, ts) <= 0xffff,
    ensures
        decode_fields(c, crate::encode::shape_concat_v(arch, tcx, c, map, ts)) == Some(
            canon_list_v(tcx, arch, map, ts),
        ),
    decreases ts, 3int,
{
    if ts.len() == 0 {
        assert(crate::encode::shape_concat_v(arch, tcx, c, map, ts) =~= Seq::<u8>::empty());
        assert(canon_list_v(tcx, arch, map, ts) =~= Seq::<TyV>::empty());
    } else {
        lemma_lists_first(arch, tcx, c, map, ts);
        let head = crate::encode::shape_v(arch, tcx, c, map, ts[0]);
        let tail = crate::encode::shape_concat_v(arch, tcx, c, map, ts.drop_first());
        crate::encode::lemma_shape_len(arch, tcx, c, map, ts[0]);
        crate::encode::lemma_shape_len_concat(arch, tcx, c, map, ts.drop_first());
        lemma_round_trip(arch, tcx, c, map, ts[0], tail);
        assert(crate::encode::shape_len_v(tcx, ts[0]) >= 1);
        lemma_decode_fields(arch, tcx, c, map, ts.drop_first());
        assert(seq![canon_v(tcx, arch, map, ts[0])] + canon_list_v(
            tcx,
            arch,
            map,
            ts.drop_first(),
        ) == canon_list_v(tcx, arch, map, ts));
    }
}

/// Parsing a type-argument block of known count.
proof fn lemma_decode_args(
    arch: Arch,
    tcx: TyCtxtV,
    c: CtxtV,
    map: Seq<usize>,
    ts: Seq<TyV>,
    rest: Seq<u8>,
)
    requires
        crate::encode::registered_list_v(tcx, c, ts),
        crate::ctxt::ctxt_wf(c),
        crate::encode::dids_known_list_v(tcx, ts),
        crate::encode::params_covered_list_v(tcx, map, ts),
        map.no_duplicates(),
        map.len() <= 256,
        crate::encode::shape_len_args_v(tcx, ts) <= 0xffff,
    ensures
        decode_args(
            c,
            crate::encode::shape_args_v(arch, tcx, c, map, ts) + rest,
            ts.len(),
        ) == Some((canon_list_v(tcx, arch, map, ts), rest)),
    decreases ts, 3int,
{
    if ts.len() == 0 {
        assert(crate::encode::shape_args_v(arch, tcx, c, map, ts) + rest =~= rest);
        assert(canon_list_v(tcx, arch, map, ts) =~= Seq::<TyV>::empty());
    } else {
        lemma_lists_first(arch, tcx, c, map, ts);
        let head = crate::buf::substr_bytes(crate::encode::shape_v(arch, tcx, c, map, ts[0]));
        let tail = crate::encode::shape_args_v(arch, tcx, c, map, ts.drop_first());
        let b = crate::encode::shape_args_v(arch, tcx, c, map, ts) + rest;
        assert(b =~= head + (tail + rest));
        lemma_decode_chunk(arch, tcx, c, map, ts[0], tail + rest);
        crate::encode::lemma_shape_len(arch, tcx, c, map, ts[0]);
        crate::encode::lemma_shape_len_args(arch, tcx, c, map, ts.drop_first());
        lemma_decode_args(arch, tcx, c, map, ts.drop_first(), rest);
        assert(seq![canon_v(tcx, arch, map, ts[0])] + canon_list_v(
            tcx,
            arch,
            map,
            ts.drop_first(),
        ) == canon_list_v(tcx, arch, map, ts));
    }
}

/// Round trip: decoding an encoding recovers the encoded kind and, for
/// composite kinds, the children in count and order, leaving exactly the
/// trailing bytes. The decoder sees the registry the encoder left behind
/// and the encoding's slot mapping; what it cannot see — the distinctions
/// the opcode table erases — comes back in canonical form (`canon_v`).
pub proof fn lemma_round_trip(
    arch: Arch,
    tcx: TyCtxtV,
    c: CtxtV,
    map: Seq<usize>,
    t: TyV,
    rest: Seq<u8>,
)
    requires
        crate::encode::registered_v(tcx, c, t),
        crate::ctxt::ctxt_wf(c),
        crate::encode::dids_known_v(tcx, t),
        crate::encode::params_covered_v(tcx, map, t),
        map.no_duplicates(),
        map.len() <= 256,
        crate::encode::shape_len_v(tcx, t) <= 0xffff,
    ensures
        decode_v(c, crate::encode::shape_v(arch, tcx, c, map, t) + rest) == Some(
            (canon_v(tcx, arch, map, t), rest),
        ),
    decreases t, 2int,
{
    match t {
        TyV::Str => lemma_round_trip_composite(arch, tcx, c, map, t, rest),
        TyV::Uniq(_) => lemma_round_trip_composite(arch, tcx, c, map, t, rest),
        TyV::Rptr(_) => lemma_round_trip_composite(arch, tcx, c, map, t, rest),
        TyV::Vect(_) => lemma_round_trip_composite(arch, tcx, c, map, t, rest),
        TyV::Tup(_) => lemma_round_trip_composite(arch, tcx, c, map, t, rest),
        TyV::Enum(_, _) => lemma_round_trip_composite(arch, tcx, c, map, t, rest),
        TyV::Res(_, _, _) => lemma_round_trip_composite(arch, tcx, c, map, t, rest),
        TyV::Param(_) => lemma_round_trip_composite(arch, tcx, c, map, t, rest),
        _ => {
            let s = crate::encode::shape_v(arch, tcx, c, map, t);
            assert((s + rest).drop_first() =~= rest);
        },
    }
}

#[verifier::rlimit(100)]
#[verifier::spinoff_prover]
proof fn lemma_round_trip_composite(
    arch: Arch,
    tcx: TyCtxtV,
    c: CtxtV,
    map: Seq<usize>,
    t: TyV,
    rest: Seq<u8>,
)
    requires
        crate::encode::registered_v(tcx, c, t),
        crate::ctxt::ctxt_wf(c),
        crate::encode::dids_known_v(tcx, t),
        crate::encode::params_covered_v(tcx, map, t),
        map.no_duplicates(),
        map.len() <= 256,
        crate::encode::shape_len_v(tcx, t) <= 0xffff,
    ensures
        decode_v(c, crate::encode::shape_v(arch, tcx, c, map, t) + rest) == Some(
            (canon_v(tcx, arch, map, t), rest),
        ),
    decreases t, 1int,
{
    let s = crate::encode::shape_v(arch, tcx, c, map, t);
    let b = s + rest;
    crate::encode::lemma_shape_len(arch, tcx, c, map, t);
    match t {
        TyV::Str => {
            reveal_with_fuel(decode_v, 3);
            assert(b.drop_first().drop_first() =~= crate::buf::substr_bytes(seq![SHAPE_U8])
                + rest);
            let inner = crate::buf::substr_bytes(seq![SHAPE_U8]) + rest;
            crate::table::lemma_u16_at_le16(1u16);
            assert(inner[0] == crate::buf::le16(1u16)[0]);
            assert(inner[1] == crate::buf::le16(1u16)[1]);
            assert(u16_at(inner, 0) == 1);
            assert(inner.subrange(2, 3) =~= seq![SHAPE_U8]);
            assert(seq![SHAPE_U8].drop_first() =~= Seq::<u8>::empty());
            assert(inner.skip(3) =~= rest);
        },
        TyV::Uniq(inner) => {
            assert(b.drop_first() =~= crate::buf::substr_bytes(
                crate::encode::shape_v(arch, tcx, c, map, *inner),
            ) + rest);
            lemma_decode_chunk(arch, tcx, c, map, *inner, rest);
        },
        TyV::Rptr(inner) => {
            assert(b.drop_first() =~= crate::buf::substr_bytes(
                crate::encode::shape_v(arch, tcx, c, map, *inner),
            ) + rest);
            lemma_decode_chunk(arch, tcx, c, map, *inner, rest);
        },
        TyV::Vect(inner) => {
            assert(b.drop_first().drop_first() =~= crate::buf::substr_bytes(
                crate::encode::shape_v(arch, tcx, c, map, *inner),
            ) + rest);
            lemma_decode_chunk(arch, tcx, c, map, *inner, rest);
        },
        TyV::Tup(ts) => {
            let body = crate::encode::shape_concat_v(arch, tcx, c, map, ts);
            crate::encode::lemma_shape_len_concat(arch, tcx, c, map, ts);
            crate::table::lemma_u16_at_le16(body.len() as u16);
            assert(b.drop_first() =~= crate::buf::substr_bytes(body) + rest);
            let r2 = b.drop_first();
            assert(r2[0] == crate::buf::le16(body.len() as u16)[0]);
            assert(r2[1] == crate::buf::le16(body.len() as u16)[1]);
            assert(u16_at(r2, 0) == body.len());
            assert(r2.subrange(2, body.len() as int + 2) =~= body);
            lemma_decode_fields(arch, tcx, c, map, ts);
            assert(r2.skip(body.len() as int + 2) =~= rest);
        },
        TyV::Enum(did, tps) => {
            lemma_round_trip_enum(arch, tcx, c, map, did, tps, rest);
        },
        TyV::Res(did, inner, tps) => {
            lemma_round_trip_res(arch, tcx, c, map, did, *inner, tps, rest);
        },
        TyV::Param(n) => {
            let slot = crate::encode::slot_of(map, n);
            assert(crate::encode::map_covers(map, n));
            assert(0 <= slot < map.len());
            assert(b.drop_first()[0] == (slot as u8));
            assert((slot as u8) as nat == slot as nat);
            assert(b.drop_first().drop_first() =~= rest);
        },
        _ => {
            assert(b.drop_first() =~= rest);
        },
    }
}

#[verifier::rlimit(100)]
#[verifier::spinoff_prover]
proof fn lemma_round_trip_enum(
    arch: Arch,
    tcx: TyCtxtV,
    c: CtxtV,
    map: Seq<usize>,
    did: crate::types::DefId,
    tps: Seq<TyV>,
    rest: Seq<u8>,
)
    requires
        crate::encode::registered_v(tcx, c, TyV::Enum(did, tps)),
        crate::ctxt::ctxt_wf(c),
        crate::encode::dids_known_v(tcx, TyV::Enum(did, tps)),
        crate::encode::params_covered_v(tcx, map, TyV::Enum(did, tps)),
        map.no_duplicates(),
        map.len() <= 256,
        crate::encode::shape_len_v(tcx, TyV::Enum(did, tps)) <= 0xffff,
    ensures
        decode_v(
            c,
            crate::encode::shape_v(arch, tcx, c, map, TyV::Enum(did, tps)) + rest,
        ) == Some((canon_v(tcx, arch, map, TyV::Enum(did, tps)), rest)),
    decreases TyV::Enum(did, tps), 0int,
{
    let t = TyV::Enum(did, tps);
    let s = crate::encode::shape_v(arch, tcx, c, map, t);
    let b = s + rest;
    crate::encode::lemma_shape_len(arch, tcx, c, map, t);

            if is_tagged_kind(enum_kind_v(enum_def_v(tcx, did).variants)) {
                let id = crate::encode::tag_id_of(c, did);
                assert(c.tags.contains(did));
                assert(0 <= id < c.tags.len() && c.tags[id] == did);
                crate::encode::lemma_args_count_bound(tcx, tps);
                let r2 = b.drop_first();
                crate::table::lemma_u16_at_le16(id as u16);
                crate::table::lemma_u16_at_le16(tps.len() as u16);
                assert(r2[0] == crate::buf::le16(id as u16)[0]);
                assert(r2[1] == crate::buf::le16(id as u16)[1]);
                assert(r2[2] == crate::buf::le16(tps.len() as u16)[0]);
                assert(r2[3] == crate::buf::le16(tps.len() as u16)[1]);
                assert(u16_at(r2, 0) == id);
                assert(u16_at(r2, 2) == tps.len());
                assert(r2.skip(4) =~= crate::encode::shape_args_v(arch, tcx, c, map, tps)
                    + rest);
                lemma_decode_args(arch, tcx, c, map, tps, rest);
            } else {
                assert(b.drop_first() =~= rest);
            }
        }

#[verifier::rlimit(100)]
#[verifier::spinoff_prover]
proof fn lemma_round_trip_res(
    arch: Arch,
    tcx: TyCtxtV,
    c: CtxtV,
    map: Seq<usize>,
    did: crate::types::DefId,
    inner_t: TyV,
    tps: Seq<TyV>,
    rest: Seq<u8>,
)
    requires
        crate::encode::registered_v(tcx, c, TyV::Res(did, Box::new(inner_t), tps)),
        crate::ctxt::ctxt_wf(c),
        crate::encode::dids_known_v(tcx, TyV::Res(did, Box::new(inner_t), tps)),
        crate::encode::params_covered_v(tcx, map, TyV::Res(did, Box::new(inner_t), tps)),
        map.no_duplicates(),
        map.len() <= 256,
        crate::encode::shape_len_v(tcx, TyV::Res(did, Box::new(inner_t), tps)) <= 0xffff,
    ensures
        decode_v(
            c,
            crate::encode::shape_v(arch, tcx, c, map, TyV::Res(did, Box::new(inner_t), tps))
                + rest,
        ) == Some((canon_v(tcx, arch, map, TyV::Res(did, Box::new(inner_t), tps)), rest)),
    decreases TyV::Res(did, Box::new(inner_t), tps), 0int,
{
    let t = TyV::Res(did, Box::new(inner_t), tps);
    let inner = Box::new(inner_t);
    let s = crate::encode::shape_v(arch, tcx, c, map, t);
    let b = s + rest;
    crate::encode::lemma_shape_len(arch, tcx, c, map, t);

            let ri = crate::ctxt::ResInfoV { did, tps };
            let id = crate::encode::res_id_of(c, ri);
            assert(c.resources.contains(ri));
            assert(0 <= id < c.resources.len() && c.resources[id] == ri);
            crate::encode::lemma_args_count_bound(tcx, tps);
            let r2 = b.drop_first();
            crate::table::lemma_u16_at_le16(id as u16);
            crate::table::lemma_u16_at_le16(tps.len() as u16);
            assert(r2[0] == crate::buf::le16(id as u16)[0]);
            assert(r2[1] == crate::buf::le16(id as u16)[1]);
            assert(r2[2] == crate::buf::le16(tps.len() as u16)[0]);
            assert(r2[3] == crate::buf::le16(tps.len() as u16)[1]);
            assert(u16_at(r2, 0) == id);
            assert(u16_at(r2, 2) == tps.len());
            let mid = crate::buf::substr_bytes(crate::encode::shape_v(arch, tcx, c, map, *inner))
                + rest;
            assert(r2.skip(4) =~= crate::encode::shape_args_v(arch, tcx, c, map, tps) + mid);
            lemma_decode_args(arch, tcx, c, map, tps, mid);
            lemma_decode_chunk(arch, tcx, c, map, *inner, rest);
            assert(mid.len() < b.len());
        }

} // verus!
