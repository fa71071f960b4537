//! The opcode space of the shape encoding and the architecture switch that
//! resolves the pointer-width-dependent scalar opcodes once per run.

use vstd::prelude::*;

verus! {

pub const SHAPE_U8: u8 = 0;

pub const SHAPE_U16: u8 = 1;

pub const SHAPE_U32: u8 = 2;

pub const SHAPE_U64: u8 = 3;

pub const SHAPE_I8: u8 = 4;

pub const SHAPE_I16: u8 = 5;

pub const SHAPE_I32: u8 = 6;

pub const SHAPE_I64: u8 = 7;

pub const SHAPE_F32: u8 = 8;

pub const SHAPE_F64: u8 = 9;

pub const SHAPE_BOX: u8 = 10;

pub const SHAPE_VEC: u8 = 11;

pub const SHAPE_ENUM: u8 = 12;

/// Deprecated opcode value; reserved, never emitted, and must not be reused
/// until a format-version bump.
pub const SHAPE_BOX_OLD: u8 = 13;

pub const SHAPE_STRUCT: u8 = 17;

pub const SHAPE_BOX_FN: u8 = 18;

/// Reserved opcode value; never emitted.
pub const SHAPE_UNUSED: u8 = 19;

pub const SHAPE_RES: u8 = 20;

pub const SHAPE_VAR: u8 = 21;

pub const SHAPE_UNIQ: u8 = 22;

pub const SHAPE_UNIQ_FN: u8 = 25;

pub const SHAPE_STACK_FN: u8 = 26;

pub const SHAPE_BARE_FN: u8 = 27;

pub const SHAPE_TYDESC: u8 = 28;

pub const SHAPE_SEND_TYDESC: u8 = 29;

pub const SHAPE_RPTR: u8 = 31;

/// The target architectures this encoder distinguishes; only the pointer
/// width matters to the encoding and to the layout model.
#[derive(Clone, Copy, Debug, PartialEq, Eq, Structural)]
pub enum Arch {
    X86,
    X8664,
    Arm,
}

/// Pointer width of the architecture, in bytes.
pub open spec fn word_bytes_v(arch: Arch) -> nat {
    match arch {
        Arch::X86 => 4,
        Arch::X8664 => 8,
        Arch::Arm => 4,
    }
}

/// Pointer width of the architecture, in bytes.
pub fn word_bytes(arch: Arch) -> (r: u16)
    ensures
        r == word_bytes_v(arch),
{
    match arch {
        Arch::X86 => 4,
        Arch::X8664 => 8,
        Arch::Arm => 4,
    }
}

/// Opcode of the pointer-width signed integer on this architecture.
pub open spec fn s_int_v(arch: Arch) -> u8 {
    match arch {
        Arch::X86 => SHAPE_I32,
        Arch::X8664 => SHAPE_I64,
        Arch::Arm => SHAPE_I32,
    }
}

/// Returns the opcode of the pointer-width signed integer.
pub fn s_int(arch: Arch) -> (r: u8)
    ensures
        r == s_int_v(arch),
{
    match arch {
        Arch::X86 => SHAPE_I32,
        Arch::X8664 => SHAPE_I64,
        Arch::Arm => SHAPE_I32,
    }
}

/// Opcode of the pointer-width unsigned integer on this architecture.
pub open spec fn s_uint_v(arch: Arch) -> u8 {
    match arch {
        Arch::X86 => SHAPE_U32,
        Arch::X8664 => SHAPE_U64,
        Arch::Arm => SHAPE_U32,
    }
}

/// Returns the opcode of the pointer-width unsigned integer.
pub fn s_uint(arch: Arch) -> (r: u8)
    ensures
        r == s_uint_v(arch),
{
    match arch {
        Arch::X86 => SHAPE_U32,
        Arch::X8664 => SHAPE_U64,
        Arch::Arm => SHAPE_U32,
    }
}

/// Opcode of the default float on this architecture; every supported target
/// uses the 64-bit width.
pub open spec fn s_float_v(arch: Arch) -> u8 {
    match arch {
        Arch::X86 => SHAPE_F64,
        Arch::X8664 => SHAPE_F64,
        Arch::Arm => SHAPE_F64,
    }
}

/// Returns the opcode of the default float.
pub fn s_float(arch: Arch) -> (r: u8)
    ensures
        r == s_float_v(arch),
{
    match arch {
        Arch::X86 => SHAPE_F64,
        Arch::X8664 => SHAPE_F64,
        Arch::Arm => SHAPE_F64,
    }
}

/// Returns the opcode of an enum discriminant, which is represented as a
/// pointer-width signed integer.
pub fn s_variant_enum_t(arch: Arch) -> (r: u8)
    ensures
        r == s_int_v(arch),
{
    s_int(arch)
}

/// Returns the opcode of a type-descriptor value.
pub fn s_tydesc(arch: Arch) -> (r: u8)
    ensures
        r == SHAPE_TYDESC,
{
    let _ = arch;
    SHAPE_TYDESC
}

/// Returns the opcode of a send-capable type-descriptor value.
pub fn s_send_tydesc(arch: Arch) -> (r: u8)
    ensures
        r == SHAPE_SEND_TYDESC,
{
    let _ = arch;
    SHAPE_SEND_TYDESC
}

} // verus!
