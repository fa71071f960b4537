use shape::arch::{s_int, s_uint, s_variant_enum_t, Arch};
use shape::buf::{add_bool, add_substr, add_u16};
use shape::ctxt::{hash_res_info, mk_ctxt, Ctxt, ResInfo};
use shape::encode::{shape_of, shape_of_variant};
use shape::layout::{
    compute_static_enum_size, largest_variants, round_up, simplify_type, size_align_of,
    static_size_of_enum, SizeAlign, MAX_TYPE_DEPTH,
};
use shape::tcx::{enum_kind, EnumDef, EnumKind, TyCtxt, VariantInfo};
use shape::types::{substitute, ty_eq, type_has_params, type_is_pod, DefId, Proto, Ty};

fn did(n: u32) -> DefId {
    DefId { krate: 0, node: n }
}

fn variant(name: &str, args: Vec<Ty>) -> VariantInfo {
    VariantInfo { name: name.as_bytes().to_vec(), args }
}

/// A table with one complex enum: `E { A(u8, u8), B(u8) }`.
fn two_variant_tcx() -> TyCtxt {
    TyCtxt {
        enums: vec![EnumDef {
            did: did(1),
            variants: vec![
                variant("A", vec![Ty::U8, Ty::U8]),
                variant("B", vec![Ty::U8]),
            ],
            ty_param_count: 0,
        }],
    }
}

#[test]
fn add_bool_encodes_one_byte() {
    let mut buf: Vec<u8> = Vec::new();
    add_bool(&mut buf, true);
    add_bool(&mut buf, false);
    assert_eq!(buf, vec![1, 0]);
}

#[test]
fn add_u16_is_little_endian() {
    let mut buf: Vec<u8> = Vec::new();
    add_u16(&mut buf, 0x1234);
    assert_eq!(buf, vec![0x34, 0x12]);
}

#[test]
fn add_substr_prefixes_length() {
    let mut buf: Vec<u8> = Vec::new();
    let src = vec![9, 8, 7];
    add_substr(&mut buf, &src);
    assert_eq!(buf, vec![3, 0, 9, 8, 7]);
}

#[test]
fn round_up_reaches_next_multiple() {
    assert_eq!(round_up(10, 8), 16);
    assert_eq!(round_up(16, 8), 16);
    assert_eq!(round_up(1, 1), 1);
    assert_eq!(round_up(0, 4), 0);
    // The largest admissible input: the rounded result just fits.
    assert_eq!(round_up(0xfff8, 8), 0xfff8);
    assert_eq!(round_up(0xfff1, 8), 0xfff8);
}

#[test]
fn hash_res_info_exact_value() {
    let ids = vec![3u64];
    assert_eq!(hash_res_info(DefId { krate: 1, node: 2 }, &ids), 193378155);
}

#[test]
fn arch_dependent_opcodes() {
    assert_eq!(s_int(Arch::X86), 6);
    assert_eq!(s_int(Arch::X8664), 7);
    assert_eq!(s_int(Arch::Arm), 6);
    assert_eq!(s_uint(Arch::X8664), 3);
    assert_eq!(s_variant_enum_t(Arch::X8664), 7);
}

#[test]
fn scalar_shapes() {
    let tcx = TyCtxt { enums: vec![] };
    let mut cx = Ctxt::new();
    let map: Vec<usize> = vec![];
    assert_eq!(shape_of(Arch::X8664, &tcx, &mut cx, &Ty::U8, &map), vec![0]);
    assert_eq!(shape_of(Arch::X8664, &tcx, &mut cx, &Ty::Nil, &map), vec![0]);
    assert_eq!(shape_of(Arch::X8664, &tcx, &mut cx, &Ty::I8, &map), vec![4]);
    assert_eq!(shape_of(Arch::X8664, &tcx, &mut cx, &Ty::Int, &map), vec![7]);
    assert_eq!(shape_of(Arch::X86, &tcx, &mut cx, &Ty::Int, &map), vec![6]);
    assert_eq!(shape_of(Arch::X8664, &tcx, &mut cx, &Ty::Float, &map), vec![9]);
    assert_eq!(shape_of(Arch::X8664, &tcx, &mut cx, &Ty::Boxed, &map), vec![10]);
    assert_eq!(shape_of(Arch::X8664, &tcx, &mut cx, &Ty::TyDesc, &map), vec![28]);
    assert_eq!(
        shape_of(Arch::X8664, &tcx, &mut cx, &Ty::Func(Proto::Bare), &map),
        vec![27]
    );
}

#[test]
fn str_shape_is_pod_byte_vector() {
    let tcx = TyCtxt { enums: vec![] };
    let mut cx = Ctxt::new();
    let map: Vec<usize> = vec![];
    assert_eq!(
        shape_of(Arch::X8664, &tcx, &mut cx, &Ty::Str, &map),
        vec![11, 1, 1, 0, 0]
    );
}

#[test]
fn composite_shapes_are_length_prefixed() {
    let tcx = TyCtxt { enums: vec![] };
    let mut cx = Ctxt::new();
    let map: Vec<usize> = vec![];
    // Owned box of u8: opcode, then a two-byte length prefix, then the u8 shape.
    assert_eq!(
        shape_of(Arch::X8664, &tcx, &mut cx, &Ty::Uniq(Box::new(Ty::U8)), &map),
        vec![22, 1, 0, 0]
    );
    // Tuple (u8, bool): struct opcode, prefix of the concatenated fields.
    assert_eq!(
        shape_of(
            Arch::X8664,
            &tcx,
            &mut cx,
            &Ty::Tup(vec![Ty::U8, Ty::Bool]),
            &map
        ),
        vec![17, 2, 0, 0, 0]
    );
    // A vector of boxes is not plain old data.
    assert_eq!(
        shape_of(Arch::X8664, &tcx, &mut cx, &Ty::Vect(Box::new(Ty::Boxed)), &map),
        vec![11, 0, 1, 0, 10]
    );
}

#[test]
fn param_shape_uses_slot_position() {
    let tcx = TyCtxt { enums: vec![] };
    let mut cx = Ctxt::new();
    let map: Vec<usize> = vec![5, 3];
    assert_eq!(
        shape_of(Arch::X8664, &tcx, &mut cx, &Ty::Param(3), &map),
        vec![21, 1]
    );
}

#[test]
fn enum_kinds_classified() {
    let tcx = TyCtxt {
        enums: vec![
            EnumDef { did: did(1), variants: vec![variant("U", vec![])], ty_param_count: 0 },
            EnumDef {
                did: did(2),
                variants: vec![variant("P", vec![]), variant("Q", vec![])],
                ty_param_count: 0,
            },
            EnumDef {
                did: did(3),
                variants: vec![variant("N", vec![Ty::U8])],
                ty_param_count: 0,
            },
            EnumDef {
                did: did(4),
                variants: vec![variant("C", vec![Ty::U8]), variant("D", vec![])],
                ty_param_count: 0,
            },
        ],
    };
    assert_eq!(enum_kind(&tcx, did(1)), EnumKind::Unit);
    assert_eq!(enum_kind(&tcx, did(2)), EnumKind::Plain);
    assert_eq!(enum_kind(&tcx, did(3)), EnumKind::Newtype);
    assert_eq!(enum_kind(&tcx, did(4)), EnumKind::Complex);
}

#[test]
fn plain_enum_encodes_as_discriminant() {
    let tcx = TyCtxt {
        enums: vec![EnumDef {
            did: did(2),
            variants: vec![variant("P", vec![]), variant("Q", vec![])],
            ty_param_count: 0,
        }],
    };
    let mut cx = Ctxt::new();
    let map: Vec<usize> = vec![];
    assert_eq!(
        shape_of(Arch::X8664, &tcx, &mut cx, &Ty::Enum(did(2), vec![]), &map),
        vec![7]
    );
    // No registration happens for a bare-discriminant enum.
    assert_eq!(cx.next_tag_id(), 0);
}

#[test]
fn complex_enum_gets_tag_id_and_argument_payload() {
    let tcx = two_variant_tcx();
    let mut cx = Ctxt::new();
    let map: Vec<usize> = vec![];
    let t = Ty::Enum(did(1), vec![]);
    let bytes = shape_of(Arch::X8664, &tcx, &mut cx, &t, &map);
    // Opcode, tag id 0, argument count 0.
    assert_eq!(bytes, vec![12, 0, 0, 0, 0]);
    assert_eq!(cx.next_tag_id(), 1);
}

#[test]
fn encoding_twice_is_byte_identical() {
    let tcx = two_variant_tcx();
    let mut cx = Ctxt::new();
    let map: Vec<usize> = vec![];
    let t = Ty::Tup(vec![Ty::Enum(did(1), vec![]), Ty::Str]);
    let first = shape_of(Arch::X8664, &tcx, &mut cx, &t, &map);
    let tags_after_first = cx.next_tag_id();
    let second = shape_of(Arch::X8664, &tcx, &mut cx, &t, &map);
    assert_eq!(first, second);
    assert_eq!(cx.next_tag_id(), tags_after_first);
}

#[test]
fn same_declaration_same_tag_different_payload() {
    let tcx = TyCtxt {
        enums: vec![EnumDef {
            did: did(1),
            variants: vec![variant("C", vec![Ty::Param(0)]), variant("D", vec![])],
            ty_param_count: 1,
        }],
    };
    let mut cx = Ctxt::new();
    let map: Vec<usize> = vec![];
    let a = shape_of(Arch::X8664, &tcx, &mut cx, &Ty::Enum(did(1), vec![Ty::U8]), &map);
    let b = shape_of(Arch::X8664, &tcx, &mut cx, &Ty::Enum(did(1), vec![Ty::U16]), &map);
    // Same opcode and tag id...
    assert_eq!(a[0..3], b[0..3]);
    // ...but different argument payloads.
    assert_ne!(a, b);
}

#[test]
fn resource_interned_twice_gets_same_id() {
    let mut cx = mk_ctxt();
    let a = cx.intern_resource(ResInfo { did: did(9), tps: vec![] });
    let b = cx.intern_resource(ResInfo { did: did(9), tps: vec![] });
    assert_eq!(a, b);
    let c = cx.intern_resource(ResInfo { did: did(9), tps: vec![Ty::U8] });
    assert_ne!(a, c);
}

#[test]
fn resource_shape_carries_id_arguments_and_inner() {
    let tcx = TyCtxt { enums: vec![] };
    let mut cx = Ctxt::new();
    let map: Vec<usize> = vec![];
    let t = Ty::Res(did(9), Box::new(Ty::U8), vec![]);
    let bytes = shape_of(Arch::X8664, &tcx, &mut cx, &t, &map);
    // Opcode, resource id 0, argument count 0, length-prefixed inner shape.
    assert_eq!(bytes, vec![20, 0, 0, 0, 0, 1, 0, 0]);
    let again = shape_of(Arch::X8664, &tcx, &mut cx, &t, &map);
    assert_eq!(bytes, again);
}

#[test]
fn substitution_replaces_parameters() {
    let tps = vec![Ty::U32];
    let t = Ty::Tup(vec![Ty::Param(0), Ty::Bool]);
    let s = substitute(&tps, &t);
    assert!(ty_eq(&s, &Ty::Tup(vec![Ty::U32, Ty::Bool])));
    assert!(type_has_params(&t));
    assert!(!type_has_params(&s));
}

#[test]
fn pod_predicate() {
    assert!(type_is_pod(&Ty::U8));
    assert!(type_is_pod(&Ty::Tup(vec![Ty::U8, Ty::I64])));
    assert!(!type_is_pod(&Ty::Boxed));
    assert!(!type_is_pod(&Ty::Tup(vec![Ty::U8, Ty::Str])));
}

#[test]
fn self_referential_record_simplifies_to_pointer() {
    // A record holding an owned pointer back to its own enum.
    let list_did = did(7);
    let node = Ty::Tup(vec![Ty::Uniq(Box::new(Ty::Enum(list_did, vec![])))]);
    let tcx = TyCtxt {
        enums: vec![EnumDef {
            did: list_did,
            variants: vec![variant("Cons", vec![node.deep_copy()])],
            ty_param_count: 0,
        }],
    };
    let simplified = simplify_type(&node);
    assert!(ty_eq(&simplified, &Ty::Tup(vec![Ty::Ptr])));
    // Static size computation terminates and equals one pointer width.
    let sa = size_align_of(&tcx, Arch::X8664, &simplified, MAX_TYPE_DEPTH).unwrap();
    assert_eq!(sa, SizeAlign { size: 8, align: 8 });
    let data = static_size_of_enum(&tcx, Arch::X8664, &Ty::Enum(list_did, vec![])).unwrap();
    assert_eq!(data, 8);
}

#[test]
fn dominant_variant_scenario() {
    // E { A(u8, u8), B(u8) } on a 64-bit target: A dominates B.
    let tcx = two_variant_tcx();
    let lv = largest_variants(&tcx, Arch::X8664, did(1)).unwrap();
    assert_eq!(lv, vec![0]);
    let sa = compute_static_enum_size(&tcx, Arch::X8664, &lv, did(1)).unwrap();
    assert_eq!(sa.size, 2 + 8);
    assert_eq!(sa.align, 8);
}

#[test]
fn equal_variants_keep_only_one() {
    // Two variants with identical ranges: the kept set is an antichain, so
    // exactly one survives, and it is the first.
    let tcx = TyCtxt {
        enums: vec![EnumDef {
            did: did(1),
            variants: vec![variant("X", vec![Ty::U32]), variant("Y", vec![Ty::U32])],
            ty_param_count: 0,
        }],
    };
    let lv = largest_variants(&tcx, Arch::X8664, did(1)).unwrap();
    assert_eq!(lv, vec![0]);
}

#[test]
fn simplified_type_measures_the_same() {
    let tcx = TyCtxt { enums: vec![] };
    let t = Ty::Tup(vec![
        Ty::U8,
        Ty::Uniq(Box::new(Ty::Str)),
        Ty::Func(Proto::Bare),
        Ty::Res(did(9), Box::new(Ty::U32), vec![]),
    ]);
    let simplified = simplify_type(&t);
    let a = size_align_of(&tcx, Arch::X8664, &t, MAX_TYPE_DEPTH).unwrap();
    let b = size_align_of(&tcx, Arch::X8664, &simplified, MAX_TYPE_DEPTH).unwrap();
    assert_eq!(a, b);
}

#[test]
fn unbounded_variants_are_kept() {
    let tcx = TyCtxt {
        enums: vec![EnumDef {
            did: did(1),
            variants: vec![variant("G", vec![Ty::Param(0)]), variant("H", vec![Ty::U64])],
            ty_param_count: 1,
        }],
    };
    let lv = largest_variants(&tcx, Arch::X8664, did(1)).unwrap();
    assert!(lv.contains(&0));
}

#[test]
fn variant_encoding_uses_identity_slots() {
    let tcx = TyCtxt { enums: vec![] };
    let mut cx = Ctxt::new();
    let v = variant("V", vec![Ty::Param(1), Ty::Param(0)]);
    let bytes = shape_of_variant(Arch::X8664, &tcx, &mut cx, &v, 2);
    assert_eq!(bytes, vec![21, 1, 21, 0]);
}

#[test]
fn generated_table_layout() {
    // One complex enum; the regions and every cross-region offset are
    // pinned byte for byte.
    let tcx = two_variant_tcx();
    let mut cx = Ctxt::new();
    let map: Vec<usize> = vec![];
    shape_of(Arch::X8664, &tcx, &mut cx, &Ty::Enum(did(1), vec![]), &map);
    let table = shape::table::gen_enum_shapes(Arch::X8664, &tcx, &mut cx).unwrap();
    let expected: Vec<u8> = vec![
        // Header: the info record of enum 0 starts at byte 2.
        2, 0,
        // Info record: 2 variants; largest-variant table at byte 28;
        // static size 10, alignment 8; variant blobs at bytes 13 and 21.
        2, 0, 28, 0, 10, 0, 8, 13, 0, 21, 0,
        // Data region: shape and name blob of each variant.
        2, 0, 0, 0, 2, 0, 65, 0, 1, 0, 0, 2, 0, 66, 0,
        // Largest-variant table: one entry, variant 0.
        1, 0, 0, 0,
    ];
    assert_eq!(table, expected);
}

#[test]
fn generation_discovers_nested_enums() {
    // Outer's variant holds Inner by value; generating the table must
    // discover and lay out Inner too.
    let outer = did(1);
    let inner = did(2);
    let tcx = TyCtxt {
        enums: vec![
            EnumDef {
                did: outer,
                variants: vec![
                    variant("O", vec![Ty::Enum(inner, vec![])]),
                    variant("P", vec![]),
                ],
                ty_param_count: 0,
            },
            EnumDef {
                did: inner,
                variants: vec![variant("I", vec![Ty::U8]), variant("J", vec![])],
                ty_param_count: 0,
            },
        ],
    };
    let mut cx = Ctxt::new();
    let map: Vec<usize> = vec![];
    shape_of(Arch::X8664, &tcx, &mut cx, &Ty::Enum(outer, vec![]), &map);
    assert_eq!(cx.next_tag_id(), 1);
    let table = shape::table::gen_enum_shapes(Arch::X8664, &tcx, &mut cx).unwrap();
    // The fixpoint registered the nested enum as well.
    assert_eq!(cx.next_tag_id(), 2);
    // Two header entries now lead the table.
    assert_eq!(u16::from_le_bytes([table[0], table[1]]), 4);
    let second = u16::from_le_bytes([table[2], table[3]]) as usize;
    // The second info record directly follows the first (2 + 2 variants each).
    assert_eq!(second, 4 + 2 * (2 + 2) + 3);
}

#[test]
fn generation_fails_on_unknown_registered_enum() {
    let tcx = TyCtxt { enums: vec![] };
    let mut cx = Ctxt::new();
    cx.register_tag(did(42));
    assert!(shape::table::gen_enum_shapes(Arch::X8664, &tcx, &mut cx).is_none());
}

#[test]
fn resource_table_in_interning_order() {
    let mut cx = Ctxt::new();
    cx.intern_resource(ResInfo { did: did(5), tps: vec![] });
    cx.intern_resource(ResInfo { did: did(6), tps: vec![] });
    let provider = shape::table::DtorTable {
        entries: vec![
            shape::table::DtorEntry { did: did(6), tps: vec![], dtor: 600 },
            shape::table::DtorEntry { did: did(5), tps: vec![], dtor: 500 },
        ],
    };
    let dtors = shape::table::gen_resource_shapes(&cx, &provider).unwrap();
    assert_eq!(dtors, vec![500, 600]);
}

#[test]
fn resource_table_reports_missing_destructor() {
    let mut cx = Ctxt::new();
    cx.intern_resource(ResInfo { did: did(5), tps: vec![] });
    let provider = shape::table::DtorTable { entries: vec![] };
    assert!(shape::table::gen_resource_shapes(&cx, &provider).is_none());
}

#[test]
fn unmeasurable_enum_size_is_reported() {
    // A generic enum instantiated with no arguments keeps its parameter,
    // so its static data size is unknown.
    let tcx = TyCtxt {
        enums: vec![EnumDef {
            did: did(1),
            variants: vec![variant("G", vec![Ty::Param(0)])],
            ty_param_count: 1,
        }],
    };
    assert!(static_size_of_enum(&tcx, Arch::X8664, &Ty::Enum(did(1), vec![])).is_none());
}

#[test]
fn whole_tables_aggregate() {
    let tcx = two_variant_tcx();
    let mut cx = Ctxt::new();
    let map: Vec<usize> = vec![];
    shape_of(Arch::X8664, &tcx, &mut cx, &Ty::Enum(did(1), vec![]), &map);
    let provider = shape::table::DtorTable { entries: vec![] };
    let tables = shape::table::gen_shape_tables(Arch::X8664, &tcx, &mut cx, &provider).unwrap();
    assert!(!tables.tags.is_empty());
    assert!(tables.resources.is_empty());
}
