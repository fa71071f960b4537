//! The structural type descriptors that the shape layer works on: every kind
//! the encoder distinguishes, together with a ghost mirror used by contracts,
//! substitution of type parameters, and the structural predicates the encoder
//! and the layout pass query.

use vstd::prelude::*;

verus! {

/// Identity of a nominal type declaration: the defining crate's number and
/// the declaration's node number within it.
#[derive(Clone, Copy, Debug, PartialEq, Eq, Structural)]
pub struct DefId {
    pub krate: u32,
    pub node: u32,
}

/// Calling convention of a function type; each convention has its own opcode.
#[derive(Clone, Copy, Debug, PartialEq, Eq, Structural)]
pub enum Proto {
    /// Heap-allocated, shared closure.
    Boxed,
    /// Heap-allocated, owned closure.
    Owned,
    /// Stack-allocated closure.
    Stack,
    /// Bare code pointer, no environment.
    Bare,
}

/// A resolved structural type descriptor.
///
/// Pointee types that no consumer in this crate inspects (managed boxes, raw
/// pointer-sized slots) are leaves. A resource carries its declaration, its
/// representation type with the declaration's type parameters already
/// substituted by the arguments, and the arguments themselves.
pub enum Ty {
    /// The unit type; encoded as a one-byte scalar.
    Nil,
    Bool,
    I8,
    I16,
    I32,
    I64,
    U8,
    U16,
    U32,
    U64,
    /// 32-bit float kind (no float values appear anywhere in this crate).
    F32,
    /// 64-bit float kind.
    F64,
    /// Pointer-width signed integer; opcode chosen by the architecture.
    Int,
    /// Pointer-width unsigned integer; opcode chosen by the architecture.
    Uint,
    /// Default float; opcode chosen by the architecture.
    Float,
    /// Heap string; encoded as a vector of bytes.
    Str,
    /// Managed box; the pointee is never inspected here.
    Boxed,
    /// Raw pointer-sized slot; the pointee is never inspected here.
    Ptr,
    /// Owned box.
    Uniq(Box<Ty>),
    /// Borrowed reference.
    Rptr(Box<Ty>),
    /// Growable vector.
    Vect(Box<Ty>),
    /// Struct, record or tuple: an ordered list of field types.
    Tup(Vec<Ty>),
    /// Reference to a nominal enum declaration with its type arguments.
    Enum(DefId, Vec<Ty>),
    /// Resource (destructor-bearing) type: declaration, substituted inner
    /// representation, type arguments.
    Res(DefId, Box<Ty>, Vec<Ty>),
    /// Reference to a type parameter by its declaration-level index.
    Param(usize),
    /// Function type, by calling convention.
    Func(Proto),
    /// Type-descriptor value.
    TyDesc,
    /// Send-capable type-descriptor value.
    SendTyDesc,
}

/// Ghost mirror of [`Ty`] with mathematical sequences for the composite
/// kinds; all contracts speak of this form.
pub enum TyV {
    Nil,
    Bool,
    I8,
    I16,
    I32,
    I64,
    U8,
    U16,
    U32,
    U64,
    F32,
    F64,
    Int,
    Uint,
    Float,
    Str,
    Boxed,
    Ptr,
    Uniq(Box<TyV>),
    Rptr(Box<TyV>),
    Vect(Box<TyV>),
    Tup(Seq<TyV>),
    Enum(DefId, Seq<TyV>),
    Res(DefId, Box<TyV>, Seq<TyV>),
    Param(nat),
    Func(Proto),
    TyDesc,
    SendTyDesc,
}

/// The ghost mirror of one descriptor.
pub open spec fn tyv(t: Ty) -> TyV
    decreases t,
{
    match t {
        Ty::Nil => TyV::Nil,
        Ty::Bool => TyV::Bool,
        Ty::I8 => TyV::I8,
        Ty::I16 => TyV::I16,
        Ty::I32 => TyV::I32,
        Ty::I64 => TyV::I64,
        Ty::U8 => TyV::U8,
        Ty::U16 => TyV::U16,
        Ty::U32 => TyV::U32,
        Ty::U64 => TyV::U64,
        Ty::F32 => TyV::F32,
        Ty::F64 => TyV::F64,
        Ty::Int => TyV::Int,
        Ty::Uint => TyV::Uint,
        Ty::Float => TyV::Float,
        Ty::Str => TyV::Str,
        Ty::Boxed => TyV::Boxed,
        Ty::Ptr => TyV::Ptr,
        Ty::Uniq(inner) => TyV::Uniq(Box::new(tyv(*inner))),
        Ty::Rptr(inner) => TyV::Rptr(Box::new(tyv(*inner))),
        Ty::Vect(inner) => TyV::Vect(Box::new(tyv(*inner))),
        Ty::Tup(ts) => TyV::Tup(tyv_list(ts@)),
        Ty::Enum(did, tps) => TyV::Enum(did, tyv_list(tps@)),
        Ty::Res(did, inner, tps) => TyV::Res(did, Box::new(tyv(*inner)), tyv_list(tps@)),
        Ty::Param(n) => TyV::Param(n as nat),
        Ty::Func(p) => TyV::Func(p),
        Ty::TyDesc => TyV::TyDesc,
        Ty::SendTyDesc => TyV::SendTyDesc,
    }
}

/// The ghost mirrors of a list of descriptors, in order.
pub open spec fn tyv_list(ts: Seq<Ty>) -> Seq<TyV>
    decreases ts,
{
    if ts.len() == 0 {
        Seq::empty()
    } else {
        tyv_list(ts.drop_last()).push(tyv(ts.last()))
    }
}

impl View for Ty {
    type V = TyV;

    open spec fn view(&self) -> TyV {
        tyv(*self)
    }
}

pub broadcast proof fn lemma_tyv_list_len(ts: Seq<Ty>)
    ensures
        #[trigger] tyv_list(ts).len() == ts.len(),
    decreases ts,
{
    if ts.len() > 0 {
        lemma_tyv_list_len(ts.drop_last());
    }
}

pub broadcast proof fn lemma_tyv_list_index(ts: Seq<Ty>, i: int)
    requires
        0 <= i < ts.len(),
    ensures
        #[trigger] tyv_list(ts)[i] == tyv(ts[i]),
    decreases ts,
{
    lemma_tyv_list_len(ts);
    if i < ts.len() - 1 {
        lemma_tyv_list_index(ts.drop_last(), i);
    }
}

pub broadcast proof fn lemma_tyv_list_push(ts: Seq<Ty>, t: Ty)
    ensures
        #[trigger] tyv_list(ts.push(t)) == tyv_list(ts).push(tyv(t)),
{
    assert(ts.push(t).drop_last() =~= ts);
}

/// Substitution of type parameters: `Param(n)` becomes `tps[n]`; an index
/// past the end of `tps` is left in place.
pub open spec fn subst_v(tps: Seq<TyV>, t: TyV) -> TyV
    decreases t,
{
    match t {
        TyV::Uniq(inner) => TyV::Uniq(Box::new(subst_v(tps, *inner))),
        TyV::Rptr(inner) => TyV::Rptr(Box::new(subst_v(tps, *inner))),
        TyV::Vect(inner) => TyV::Vect(Box::new(subst_v(tps, *inner))),
        TyV::Tup(ts) => TyV::Tup(subst_list_v(tps, ts)),
        TyV::Enum(did, args) => TyV::Enum(did, subst_list_v(tps, args)),
        TyV::Res(did, inner, args) => TyV::Res(
            did,
            Box::new(subst_v(tps, *inner)),
            subst_list_v(tps, args),
        ),
        TyV::Param(n) => if n < tps.len() {
            tps[n as int]
        } else {
            TyV::Param(n)
        },
        _ => t,
    }
}

pub open spec fn subst_list_v(tps: Seq<TyV>, ts: Seq<TyV>) -> Seq<TyV>
    decreases ts,
{
    if ts.len() == 0 {
        Seq::empty()
    } else {
        subst_list_v(tps, ts.drop_last()).push(subst_v(tps, ts.last()))
    }
}

pub broadcast proof fn lemma_subst_list_len(tps: Seq<TyV>, ts: Seq<TyV>)
    ensures
        #[trigger] subst_list_v(tps, ts).len() == ts.len(),
    decreases ts,
{
    if ts.len() > 0 {
        lemma_subst_list_len(tps, ts.drop_last());
    }
}

pub broadcast proof fn lemma_subst_list_index(tps: Seq<TyV>, ts: Seq<TyV>, i: int)
    requires
        0 <= i < ts.len(),
    ensures
        #[trigger] subst_list_v(tps, ts)[i] == subst_v(tps, ts[i]),
    decreases ts,
{
    lemma_subst_list_len(tps, ts);
    if i < ts.len() - 1 {
        lemma_subst_list_index(tps, ts.drop_last(), i);
    }
}

pub broadcast proof fn lemma_subst_list_push(tps: Seq<TyV>, ts: Seq<TyV>, t: TyV)
    ensures
        #[trigger] subst_list_v(tps, ts.push(t)) == subst_list_v(tps, ts).push(subst_v(tps, t)),
{
    assert(ts.push(t).drop_last() =~= ts);
}

/// Whether a type still mentions an unsubstituted type parameter.
pub open spec fn has_param_v(t: TyV) -> bool
    decreases t,
{
    match t {
        TyV::Param(_) => true,
        TyV::Uniq(inner) => has_param_v(*inner),
        TyV::Rptr(inner) => has_param_v(*inner),
        TyV::Vect(inner) => has_param_v(*inner),
        TyV::Tup(ts) => has_param_list_v(ts),
        TyV::Enum(_, args) => has_param_list_v(args),
        TyV::Res(_, inner, args) => has_param_v(*inner) || has_param_list_v(args),
        _ => false,
    }
}

pub open spec fn has_param_list_v(ts: Seq<TyV>) -> bool
    decreases ts,
{
    if ts.len() == 0 {
        false
    } else {
        has_param_list_v(ts.drop_last()) || has_param_v(ts.last())
    }
}

pub broadcast proof fn lemma_has_param_list_exists(ts: Seq<TyV>)
    ensures
        #[trigger] has_param_list_v(ts) <==> exists|i: int| 0 <= i < ts.len() && has_param_v(ts[i]),
    decreases ts,
{
    if ts.len() > 0 {
        lemma_has_param_list_exists(ts.drop_last());
        if has_param_list_v(ts) {
            if has_param_v(ts.last()) {
                assert(has_param_v(ts[ts.len() - 1]));
            } else {
                let i = choose|i: int| 0 <= i < ts.drop_last().len() && has_param_v(
                    ts.drop_last()[i],
                );
                assert(has_param_v(ts[i]));
            }
        } else {
            assert forall|i: int| 0 <= i < ts.len() implies !has_param_v(ts[i]) by {
                if i < ts.len() - 1 {
                    assert(ts.drop_last()[i] == ts[i]);
                }
            }
        }
    }
}

/// The plain-old-data predicate this library uses for the vector POD flag:
/// scalar kinds, raw pointer slots, and tuples of such. Pointer-bearing,
/// nominal and parametric kinds are conservatively not POD.
pub open spec fn pod_v(t: TyV) -> bool
    decreases t,
{
    match t {
        TyV::Nil => true,
        TyV::Bool => true,
        TyV::I8 => true,
        TyV::I16 => true,
        TyV::I32 => true,
        TyV::I64 => true,
        TyV::U8 => true,
        TyV::U16 => true,
        TyV::U32 => true,
        TyV::U64 => true,
        TyV::F32 => true,
        TyV::F64 => true,
        TyV::Int => true,
        TyV::Uint => true,
        TyV::Float => true,
        TyV::Ptr => true,
        TyV::Tup(ts) => pod_list_v(ts),
        _ => false,
    }
}

pub open spec fn pod_list_v(ts: Seq<TyV>) -> bool
    decreases ts,
{
    if ts.len() == 0 {
        true
    } else {
        pod_list_v(ts.drop_last()) && pod_v(ts.last())
    }
}

pub broadcast proof fn lemma_pod_list_push(ts: Seq<TyV>, t: TyV)
    ensures
        #[trigger] pod_list_v(ts.push(t)) == (pod_list_v(ts) && pod_v(t)),
{
    assert(ts.push(t).drop_last() =~= ts);
}

impl Ty {
    /// A structurally identical copy of this descriptor.
    pub fn deep_copy(&self) -> (r: Ty)
        ensures
            r@ == self@,
        decreases *self,
    {
        match self {
            Ty::Nil => Ty::Nil,
            Ty::Bool => Ty::Bool,
            Ty::I8 => Ty::I8,
            Ty::I16 => Ty::I16,
            Ty::I32 => Ty::I32,
            Ty::I64 => Ty::I64,
            Ty::U8 => Ty::U8,
            Ty::U16 => Ty::U16,
            Ty::U32 => Ty::U32,
            Ty::U64 => Ty::U64,
            Ty::F32 => Ty::F32,
            Ty::F64 => Ty::F64,
            Ty::Int => Ty::Int,
            Ty::Uint => Ty::Uint,
            Ty::Float => Ty::Float,
            Ty::Str => Ty::Str,
            Ty::Boxed => Ty::Boxed,
            Ty::Ptr => Ty::Ptr,
            Ty::Uniq(inner) => Ty::Uniq(Box::new(inner.deep_copy())),
            Ty::Rptr(inner) => Ty::Rptr(Box::new(inner.deep_copy())),
            Ty::Vect(inner) => Ty::Vect(Box::new(inner.deep_copy())),
            Ty::Tup(ts) => Ty::Tup(deep_copy_list(ts)),
            Ty::Enum(did, args) => Ty::Enum(*did, deep_copy_list(args)),
            Ty::Res(did, inner, args) => Ty::Res(
                *did,
                Box::new(inner.deep_copy()),
                deep_copy_list(args),
            ),
            Ty::Param(n) => Ty::Param(*n),
            Ty::Func(p) => Ty::Func(*p),
            Ty::TyDesc => Ty::TyDesc,
            Ty::SendTyDesc => Ty::SendTyDesc,
        }
    }
}

/// Structurally identical copies of a list of descriptors.
pub fn deep_copy_list(ts: &Vec<Ty>) -> (r: Vec<Ty>)
    ensures
        tyv_list(r@) == tyv_list(ts@),
    decreases *ts,
{
    broadcast use lemma_tyv_list_len, lemma_tyv_list_index, lemma_tyv_list_push;

    let mut out: Vec<Ty> = Vec::new();
    let mut i: usize = 0;
    while i < ts.len()
        invariant
            i <= ts@.len(),
            tyv_list(out@) == tyv_list(ts@.subrange(0, i as int)),
        decreases ts@.len() - i,
    {
        let ghost prev = out@;
        let x = ts[i].deep_copy();
        let ghost xg = x;
        out.push(x);
        i = i + 1;
        proof {
            lemma_tyv_list_push(prev, xg);
            lemma_tyv_list_push(ts@.subrange(0, i - 1), ts@[i - 1]);
            assert(ts@.subrange(0, i as int) =~= ts@.subrange(0, i - 1).push(ts@[i - 1]));
        }
    }
    proof {
        assert(ts@.subrange(0, ts@.len() as int) =~= ts@);
    }
    out
}

/// Structural equality of two descriptors, decided by recursive comparison.
pub fn ty_eq(a: &Ty, b: &Ty) -> (r: bool)
    ensures
        r == (a@ == b@),
    decreases *a,
{
    match (a, b) {
        (Ty::Nil, Ty::Nil) => true,
        (Ty::Bool, Ty::Bool) => true,
        (Ty::I8, Ty::I8) => true,
        (Ty::I16, Ty::I16) => true,
        (Ty::I32, Ty::I32) => true,
        (Ty::I64, Ty::I64) => true,
        (Ty::U8, Ty::U8) => true,
        (Ty::U16, Ty::U16) => true,
        (Ty::U32, Ty::U32) => true,
        (Ty::U64, Ty::U64) => true,
        (Ty::F32, Ty::F32) => true,
        (Ty::F64, Ty::F64) => true,
        (Ty::Int, Ty::Int) => true,
        (Ty::Uint, Ty::Uint) => true,
        (Ty::Float, Ty::Float) => true,
        (Ty::Str, Ty::Str) => true,
        (Ty::Boxed, Ty::Boxed) => true,
        (Ty::Ptr, Ty::Ptr) => true,
        (Ty::Uniq(x), Ty::Uniq(y)) => ty_eq(x, y),
        (Ty::Rptr(x), Ty::Rptr(y)) => ty_eq(x, y),
        (Ty::Vect(x), Ty::Vect(y)) => ty_eq(x, y),
        (Ty::Tup(x), Ty::Tup(y)) => ty_list_eq(x, y),
        (Ty::Enum(d1, x), Ty::Enum(d2, y)) => d1 == d2 && ty_list_eq(x, y),
        (Ty::Res(d1, i1, x), Ty::Res(d2, i2, y)) => d1 == d2 && ty_eq(i1, i2) && ty_list_eq(x, y),
        (Ty::Param(m), Ty::Param(n)) => m == n,
        (Ty::Func(p), Ty::Func(q)) => p == q,
        (Ty::TyDesc, Ty::TyDesc) => true,
        (Ty::SendTyDesc, Ty::SendTyDesc) => true,
        _ => false,
    }
}

/// Structural equality of two descriptor lists.
pub fn ty_list_eq(a: &Vec<Ty>, b: &Vec<Ty>) -> (r: bool)
    ensures
        r == (tyv_list(a@) == tyv_list(b@)),
    decreases *a,
{
    proof {
        lemma_tyv_list_len(a@);
        lemma_tyv_list_len(b@);
    }
    if a.len() != b.len() {
        return false;
    }
    let mut i: usize = 0;
    while i < a.len()
        invariant
            i <= a@.len(),
            a@.len() == b@.len(),
            forall|j: int| 0 <= j < i ==> tyv_list(a@)[j] == tyv_list(b@)[j],
        decreases a@.len() - i,
    {
        let eq_here = ty_eq(&a[i], &b[i]);
        proof {
            lemma_tyv_list_len(a@);
            lemma_tyv_list_len(b@);
            lemma_tyv_list_index(a@, i as int);
            lemma_tyv_list_index(b@, i as int);
        }
        if !eq_here {
            return false;
        }
        i = i + 1;
    }
    proof {
        lemma_tyv_list_len(a@);
        lemma_tyv_list_len(b@);
        assert(tyv_list(a@) =~= tyv_list(b@));
    }
    true
}

/// Substitutes the type arguments `tps` for the parameter references in `t`.
pub fn substitute(tps: &Vec<Ty>, t: &Ty) -> (r: Ty)
    ensures
        r@ == subst_v(tyv_list(tps@), t@),
    decreases *t,
{
    broadcast use lemma_tyv_list_len, lemma_tyv_list_index;

    match t {
        Ty::Uniq(inner) => Ty::Uniq(Box::new(substitute(tps, inner))),
        Ty::Rptr(inner) => Ty::Rptr(Box::new(substitute(tps, inner))),
        Ty::Vect(inner) => Ty::Vect(Box::new(substitute(tps, inner))),
        Ty::Tup(ts) => Ty::Tup(substitute_list(tps, ts)),
        Ty::Enum(did, args) => Ty::Enum(*did, substitute_list(tps, args)),
        Ty::Res(did, inner, args) => Ty::Res(
            *did,
            Box::new(substitute(tps, inner)),
            substitute_list(tps, args),
        ),
        Ty::Param(n) => if *n < tps.len() {
            tps[*n].deep_copy()
        } else {
            Ty::Param(*n)
        },
        other => other.deep_copy(),
    }
}

fn substitute_list(tps: &Vec<Ty>, ts: &Vec<Ty>) -> (r: Vec<Ty>)
    ensures
        tyv_list(r@) == subst_list_v(tyv_list(tps@), tyv_list(ts@)),
    decreases *ts,
{
    broadcast use
        lemma_tyv_list_len,
        lemma_tyv_list_index,
        lemma_tyv_list_push,
        lemma_subst_list_len,
        lemma_subst_list_index,
        lemma_subst_list_push,
    ;

    let mut out: Vec<Ty> = Vec::new();
    let mut i: usize = 0;
    while i < ts.len()
        invariant
            i <= ts@.len(),
            tyv_list(out@) == subst_list_v(tyv_list(tps@), tyv_list(ts@.subrange(0, i as int))),
        decreases ts@.len() - i,
    {
        let ghost prev = out@;
        let x = substitute(tps, &ts[i]);
        let ghost xg = x;
        out.push(x);
        i = i + 1;
        proof {
            lemma_tyv_list_push(prev, xg);
            lemma_tyv_list_push(ts@.subrange(0, i - 1), ts@[i - 1]);
            lemma_subst_list_push(
                tyv_list(tps@),
                tyv_list(ts@.subrange(0, i - 1)),
                tyv(ts@[i - 1]),
            );
            assert(ts@.subrange(0, i as int) =~= ts@.subrange(0, i - 1).push(ts@[i - 1]));
        }
    }
    proof {
        assert(ts@.subrange(0, ts@.len() as int) =~= ts@);
    }
    out
}

/// Whether the descriptor still mentions an unsubstituted type parameter.
pub fn type_has_params(t: &Ty) -> (r: bool)
    ensures
        r == has_param_v(t@),
    decreases *t,
{
    match t {
        Ty::Param(_) => true,
        Ty::Uniq(inner) => type_has_params(inner),
        Ty::Rptr(inner) => type_has_params(inner),
        Ty::Vect(inner) => type_has_params(inner),
        Ty::Tup(ts) => list_has_params(ts),
        Ty::Enum(_, args) => list_has_params(args),
        Ty::Res(_, inner, args) => {
            let in_inner = type_has_params(inner);
            in_inner || list_has_params(args)
        },
        _ => false,
    }
}

/// Whether any descriptor in the list mentions a type parameter.
pub fn list_has_params(ts: &Vec<Ty>) -> (r: bool)
    ensures
        r == has_param_list_v(tyv_list(ts@)),
    decreases *ts,
{
    let mut i: usize = 0;
    while i < ts.len()
        invariant
            i <= ts@.len(),
            forall|j: int| 0 <= j < i ==> !has_param_v(tyv_list(ts@)[j]),
        decreases ts@.len() - i,
    {
        let found = type_has_params(&ts[i]);
        proof {
            lemma_tyv_list_len(ts@);
            lemma_tyv_list_index(ts@, i as int);
            lemma_has_param_list_exists(tyv_list(ts@));
        }
        if found {
            return true;
        }
        i = i + 1;
    }
    proof {
        lemma_tyv_list_len(ts@);
        lemma_has_param_list_exists(tyv_list(ts@));
    }
    false
}

/// Whether the descriptor is plain old data under this library's POD
/// predicate.
pub fn type_is_pod(t: &Ty) -> (r: bool)
    ensures
        r == pod_v(t@),
    decreases *t,
{
    match t {
        Ty::Nil => true,
        Ty::Bool => true,
        Ty::I8 => true,
        Ty::I16 => true,
        Ty::I32 => true,
        Ty::I64 => true,
        Ty::U8 => true,
        Ty::U16 => true,
        Ty::U32 => true,
        Ty::U64 => true,
        Ty::F32 => true,
        Ty::F64 => true,
        Ty::Int => true,
        Ty::Uint => true,
        Ty::Float => true,
        Ty::Ptr => true,
        Ty::Tup(ts) => list_is_pod(ts),
        _ => false,
    }
}

fn list_is_pod(ts: &Vec<Ty>) -> (r: bool)
    ensures
        r == pod_list_v(tyv_list(ts@)),
    decreases *ts,
{
    let mut i: usize = 0;
    while i < ts.len()
        invariant
            i <= ts@.len(),
            pod_list_v(tyv_list(ts@.subrange(0, i as int))),
        decreases ts@.len() - i,
    {
        let pod_here = type_is_pod(&ts[i]);
        proof {
            lemma_tyv_list_len(ts@);
            lemma_tyv_list_index(ts@, i as int);
        }
        if !pod_here {
            proof {
                lemma_pod_list_not(tyv_list(ts@), i as int);
            }
            return false;
        }
        i = i + 1;
        proof {
            lemma_tyv_list_push(ts@.subrange(0, i - 1), ts@[i - 1]);
            lemma_pod_list_push(tyv_list(ts@.subrange(0, i - 1)), tyv(ts@[i - 1]));
            assert(ts@.subrange(0, i as int) =~= ts@.subrange(0, i - 1).push(ts@[i - 1]));
        }
    }
    proof {
        assert(ts@.subrange(0, ts@.len() as int) =~= ts@);
    }
    true
}

proof fn lemma_pod_list_not(ts: Seq<TyV>, i: int)
    requires
        0 <= i < ts.len(),
        !pod_v(ts[i]),
    ensures
        !pod_list_v(ts),
    decreases ts,
{
    if i == ts.len() - 1 {
    } else {
        lemma_pod_list_not(ts.drop_last(), i);
    }
}

} // verus!
