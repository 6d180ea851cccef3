//! Function-call return ABI: a list of logical return kinds becomes a
//! flat list of MLIR result types, and an index walker maps each
//! logical position to the MLIR result where it starts. A
//! `TaggedValue` position takes two `i64` results (tag, raw payload);
//! every other kind takes one.

use vstd::prelude::*;

verus! {

/// Static kind of a Lua value as the HIR infers it.
#[derive(Clone, Copy, Debug, PartialEq, Eq, Structural)]
pub enum ValueKind {
    Number,
    Bool,
    Nil,
    /// A function value of the given arity.
    Function(usize),
    String,
    Table,
    /// A 16-byte `{tag, payload}` slot whose kind is only known at run time.
    TaggedValue,
}

/// The MLIR types the emitter gives values and results.
#[derive(Clone, Copy, Debug, PartialEq, Eq, Structural)]
pub enum MlirType {
    F64,
    I1,
    I8,
    I32,
    I64,
    /// `!llvm.ptr`.
    Ptr,
    /// A function type taking `arity` `f64` parameters and returning one `f64`.
    Func(usize),
}

/// MLIR results that one logical return position of kind `k` occupies.
pub open spec fn kind_result_types(k: ValueKind) -> Seq<MlirType> {
    match k {
        ValueKind::Number => seq![MlirType::F64],
        ValueKind::Bool | ValueKind::Nil => seq![MlirType::I1],
        ValueKind::Function(arity) => seq![MlirType::Func(arity)],
        ValueKind::String | ValueKind::Table => seq![MlirType::Ptr],
        ValueKind::TaggedValue => seq![MlirType::I64, MlirType::I64],
    }
}

/// The flattened MLIR result types of a return-kind list.
pub open spec fn flat_result_types(ks: Seq<ValueKind>) -> Seq<MlirType>
    decreases ks.len(),
{
    if ks.len() == 0 {
        seq![]
    } else {
        flat_result_types(ks.drop_last()) + kind_result_types(ks.last())
    }
}

/// Number of MLIR results one logical return position of kind `k` takes.
pub open spec fn result_width(k: ValueKind) -> nat {
    match k {
        ValueKind::TaggedValue => 2,
        _ => 1,
    }
}

/// Total MLIR results taken by the first `pos` logical positions.
pub open spec fn flat_index(ks: Seq<ValueKind>, pos: int) -> nat
    decreases pos,
{
    if pos <= 0 {
        0
    } else {
        flat_index(ks, pos - 1) + result_width(ks[pos - 1])
    }
}

/// MLIR result types for a function whose return-kind list is
/// `ret_kinds`, one entry per result in order.
pub fn ret_mlir_types(ret_kinds: &[ValueKind]) -> (r: Vec<MlirType>)
    ensures
        r@ == flat_result_types(ret_kinds@),
{
    let mut out: Vec<MlirType> = Vec::new();
    let n = ret_kinds.len();
    let mut i: usize = 0;
    while i < n
        invariant
            n == ret_kinds@.len(),
            i <= n,
            out@ == flat_result_types(ret_kinds@.take(i as int)),
        decreases n - i,
    {
        let ghost before = out@;
        match ret_kinds[i] {
            ValueKind::Number => out.push(MlirType::F64),
            ValueKind::Bool | ValueKind::Nil => out.push(MlirType::I1),
            ValueKind::Function(arity) => out.push(MlirType::Func(arity)),
            ValueKind::String | ValueKind::Table => out.push(MlirType::Ptr),
            ValueKind::TaggedValue => {
                out.push(MlirType::I64);
                out.push(MlirType::I64);
            },
        }
        assert(ret_kinds@.take(i + 1).drop_last() =~= ret_kinds@.take(i as int));
        assert(out@ =~= before + kind_result_types(ret_kinds@[i as int]));
        i = i + 1;
    }
    assert(ret_kinds@.take(n as int) =~= ret_kinds@);
    out
}

/// MLIR result count produced by one logical return position of the
/// given kind: 2 for `TaggedValue` (tag + raw payload), 1 otherwise.
pub fn ret_kind_result_width(kind: ValueKind) -> (r: usize)
    ensures
        r == result_width(kind),
        r == kind_result_types(kind).len(),
{
    match kind {
        ValueKind::TaggedValue => 2,
        _ => 1,
    }
}

/// Flat MLIR result index where logical return position `pos` starts:
/// the widths of the positions before it, summed.
pub fn flat_result_index(ret_kinds: &[ValueKind], pos: usize) -> (r: usize)
    requires
        pos <= ret_kinds@.len(),
        ret_kinds@.len() <= usize::MAX / 2,
    ensures
        r == flat_index(ret_kinds@, pos as int),
{
    let mut sum: usize = 0;
    let mut i: usize = 0;
    while i < pos
        invariant
            pos <= ret_kinds@.len(),
            ret_kinds@.len() <= usize::MAX / 2,
            i <= pos,
            sum == flat_index(ret_kinds@, i as int),
            sum <= 2 * i,
        decreases pos - i,
    {
        sum = sum + ret_kind_result_width(ret_kinds[i]);
        i = i + 1;
    }
    sum
}

/// Law: the flat result index of position `pos` counts exactly the
/// MLIR results of the positions before it, and the results of `pos`
/// itself sit right there, in order.
pub proof fn law_flat_index_locates_results(ks: Seq<ValueKind>, pos: int)
    requires
        0 <= pos < ks.len(),
    ensures
        flat_index(ks, pos) == flat_result_types(ks.take(pos)).len(),
        flat_index(ks, pos + 1) == flat_index(ks, pos) + result_width(ks[pos]),
        flat_result_types(ks).subrange(
            flat_index(ks, pos) as int,
            (flat_index(ks, pos) + result_width(ks[pos])) as int,
        ) == kind_result_types(ks[pos]),
{
    lemma_flat_index_len(ks, pos);
    lemma_flat_prefix(ks, pos + 1, ks.len() as int);
    assert(ks.take(pos + 1).drop_last() =~= ks.take(pos));
    assert(ks.take(pos + 1).last() == ks[pos]);
    assert(ks.take(ks.len() as int) =~= ks);
    let pre = flat_result_types(ks.take(pos));
    let mid = kind_result_types(ks[pos]);
    let whole = flat_result_types(ks);
    assert(flat_result_types(ks.take(pos + 1)) == pre + mid);
    assert(whole.subrange(0, (pre + mid).len() as int) == pre + mid);
    assert forall|i: int| 0 <= i < mid.len() implies whole[pre.len() + i] == mid[i] by {
        assert(whole.subrange(0, (pre + mid).len() as int)[pre.len() + i] == (pre + mid)[pre.len()
            + i]);
    }
    assert(whole.subrange(pre.len() as int, (pre.len() + mid.len()) as int) =~= mid);
}

proof fn lemma_flat_index_len(ks: Seq<ValueKind>, pos: int)
    requires
        0 <= pos <= ks.len(),
    ensures
        flat_index(ks, pos) == flat_result_types(ks.take(pos)).len(),
    decreases pos,
{
    if pos > 0 {
        lemma_flat_index_len(ks, pos - 1);
        assert(ks.take(pos).drop_last() =~= ks.take(pos - 1));
        assert(ks.take(pos).last() == ks[pos - 1]);
    } else {
        assert(ks.take(0) =~= Seq::<ValueKind>::empty());
    }
}

/// The flattened types of a prefix are a prefix of the flattened types.
proof fn lemma_flat_prefix(ks: Seq<ValueKind>, a: int, b: int)
    requires
        0 <= a <= b <= ks.len(),
    ensures
        flat_result_types(ks.take(a)).len() <= flat_result_types(ks.take(b)).len(),
        flat_result_types(ks.take(b)).subrange(0, flat_result_types(ks.take(a)).len() as int)
            == flat_result_types(ks.take(a)),
    decreases b - a,
{
    if a < b {
        lemma_flat_prefix(ks, a, b - 1);
        assert(ks.take(b).drop_last() =~= ks.take(b - 1));
        let fa = flat_result_types(ks.take(a));
        let fb1 = flat_result_types(ks.take(b - 1));
        let fb = flat_result_types(ks.take(b));
        assert(fb == fb1 + kind_result_types(ks.take(b).last()));
        assert(fb.subrange(0, fa.len() as int) =~= fb1.subrange(0, fa.len() as int));
    } else {
        assert(flat_result_types(ks.take(b)).subrange(0, flat_result_types(ks.take(a)).len() as int)
            =~= flat_result_types(ks.take(a)));
    }
}

} // verus!
