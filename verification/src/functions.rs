//! The aggregate functions that an exray can maintain for every subtree.
//!
//! A combiner receives the aggregate (and element count) of the left part of
//! a segment, the value in the middle, and the aggregate (and count) of the
//! right part, and returns the aggregate of the whole segment. Sums wrap
//! around on overflow, exactly as the two's-complement addition used to
//! maintain them does.

use vstd::prelude::*;
use vstd::string::StringExecFns;

verus! {

/// The size of the `i64` value space; wrapping arithmetic is arithmetic
/// modulo this number.
pub open spec fn i64_span() -> int {
    0x1_0000_0000_0000_0000
}

/// Two's-complement (wrapping) addition of two `i64` values.
pub open spec fn wadd(a: i64, b: i64) -> i64 {
    if a + b > i64::MAX {
        (a + b - i64_span()) as i64
    } else if a + b < i64::MIN {
        (a + b + i64_span()) as i64
    } else {
        (a + b) as i64
    }
}

/// The smaller of two values.
pub open spec fn min2(a: i64, b: i64) -> i64 {
    if a <= b {
        a
    } else {
        b
    }
}

/// The larger of two values.
pub open spec fn max2(a: i64, b: i64) -> i64 {
    if a >= b {
        a
    } else {
        b
    }
}

/// The wrapping sum of a sequence; `0` for the empty sequence.
pub open spec fn sum_wrap(s: Seq<i64>) -> i64
    decreases s.len(),
{
    if s.len() == 0 {
        0
    } else {
        wadd(sum_wrap(s.drop_last()), s.last())
    }
}

/// The exact (unbounded) sum of a sequence.
pub open spec fn sum_int(s: Seq<i64>) -> int
    decreases s.len(),
{
    if s.len() == 0 {
        0
    } else {
        sum_int(s.drop_last()) + s.last()
    }
}

/// The wrapping sum of a sequence with every element counted twice.
pub open spec fn dsum_wrap(s: Seq<i64>) -> i64
    decreases s.len(),
{
    if s.len() == 0 {
        0
    } else {
        wadd(dsum_wrap(s.drop_last()), wadd(s.last(), s.last()))
    }
}

/// The minimum of a sequence; `i64::MAX` for the empty sequence, so that the
/// empty sequence is the neutral element of concatenation.
pub open spec fn min_seq(s: Seq<i64>) -> i64
    decreases s.len(),
{
    if s.len() == 0 {
        i64::MAX
    } else {
        min2(min_seq(s.drop_last()), s.last())
    }
}

/// The maximum of a sequence; `i64::MIN` for the empty sequence.
pub open spec fn max_seq(s: Seq<i64>) -> i64
    decreases s.len(),
{
    if s.len() == 0 {
        i64::MIN
    } else {
        max2(max_seq(s.drop_last()), s.last())
    }
}

/// What a combiner computes over a segment.
#[derive(Clone, Copy, PartialEq, Eq, Structural, Debug)]
pub enum FuncKind {
    /// The wrapping sum of the elements.
    Sum,
    /// The wrapping sum with every element counted twice; a small example of
    /// a weighted combiner.
    DoubleSum,
    /// The smallest element.
    Min,
    /// The largest element.
    Max,
}

/// An aggregate function maintained by an exray.
///
/// Two sequences may only be merged when they maintain the very same
/// functions. `id` distinguishes separately registered combiners of equal
/// behaviour: compatibility is decided by comparing whole `Func` values,
/// never by comparing behaviour.
#[derive(Clone, Copy, PartialEq, Eq, Structural, Debug)]
pub struct Func {
    pub kind: FuncKind,
    pub id: u64,
}

impl Func {
    /// The aggregate this function assigns to a whole sequence of elements.
    pub open spec fn agg(self, s: Seq<i64>) -> i64 {
        match self.kind {
            FuncKind::Sum => sum_wrap(s),
            FuncKind::DoubleSum => dsum_wrap(s),
            FuncKind::Min => min_seq(s),
            FuncKind::Max => max_seq(s),
        }
    }

    /// How the aggregate of a segment is put together from the aggregate of
    /// its left part (if any), the value in the middle, and the aggregate of
    /// its right part (if any). The counts are carried for combiners that
    /// need them; none of the combiners defined here does.
    pub open spec fn combine(self, l: Option<(i64, u64)>, v: i64, r: Option<(i64, u64)>) -> i64 {
        let lv = match l {
            Some(p) => p.0,
            None => self.neutral(),
        };
        let rv = match r {
            Some(p) => p.0,
            None => self.neutral(),
        };
        match self.kind {
            FuncKind::Sum => wadd(wadd(lv, v), rv),
            FuncKind::DoubleSum => wadd(wadd(lv, wadd(v, v)), rv),
            FuncKind::Min => min2(min2(lv, v), rv),
            FuncKind::Max => max2(max2(lv, v), rv),
        }
    }

    /// The aggregate of the empty sequence: the neutral element of the
    /// combiner.
    pub open spec fn neutral(self) -> i64 {
        match self.kind {
            FuncKind::Sum => 0,
            FuncKind::DoubleSum => 0,
            FuncKind::Min => i64::MAX,
            FuncKind::Max => i64::MIN,
        }
    }

    /// Evaluate the combiner on the aggregates of the two neighbouring parts
    /// of a segment and the value in its middle.
    pub fn apply(&self, l: Option<(i64, u64)>, v: i64, r: Option<(i64, u64)>) -> (res: i64)
        ensures
            res == self.combine(l, v, r),
    {
        let lv: i64 = match l {
            Some(p) => p.0,
            None => self.neutral_value(),
        };
        let rv: i64 = match r {
            Some(p) => p.0,
            None => self.neutral_value(),
        };
        match self.kind {
            FuncKind::Sum => lv.wrapping_add(v).wrapping_add(rv),
            FuncKind::DoubleSum => lv.wrapping_add(v.wrapping_add(v)).wrapping_add(rv),
            FuncKind::Min => {
                let m: i64 = if lv <= v {
                    lv
                } else {
                    v
                };
                if m <= rv {
                    m
                } else {
                    rv
                }
            },
            FuncKind::Max => {
                let m: i64 = if lv >= v {
                    lv
                } else {
                    v
                };
                if m >= rv {
                    m
                } else {
                    rv
                }
            },
        }
    }

    /// The neutral element of the combiner, as an executable value.
    pub fn neutral_value(&self) -> (res: i64)
        ensures
            res == self.neutral(),
    {
        match self.kind {
            FuncKind::Sum => 0,
            FuncKind::DoubleSum => 0,
            FuncKind::Min => i64::MAX,
            FuncKind::Max => i64::MIN,
        }
    }
}

/// Wrapping addition is associative.
pub proof fn lemma_wadd_assoc(a: i64, b: i64, c: i64)
    ensures
        wadd(wadd(a, b), c) == wadd(a, wadd(b, c)),
{
}

/// The wrapping sum of a concatenation is the wrapping sum of the wrapping
/// sums of the parts.
pub proof fn lemma_sum_wrap_concat(a: Seq<i64>, b: Seq<i64>)
    ensures
        sum_wrap(a + b) == wadd(sum_wrap(a), sum_wrap(b)),
    decreases b.len(),
{
    if b.len() == 0 {
        assert(a + b =~= a);
    } else {
        assert((a + b).drop_last() =~= a + b.drop_last());
        lemma_sum_wrap_concat(a, b.drop_last());
        lemma_wadd_assoc(sum_wrap(a), sum_wrap(b.drop_last()), b.last());
    }
}

/// The doubled wrapping sum of a concatenation decomposes the same way.
pub proof fn lemma_dsum_wrap_concat(a: Seq<i64>, b: Seq<i64>)
    ensures
        dsum_wrap(a + b) == wadd(dsum_wrap(a), dsum_wrap(b)),
    decreases b.len(),
{
    if b.len() == 0 {
        assert(a + b =~= a);
    } else {
        assert((a + b).drop_last() =~= a + b.drop_last());
        lemma_dsum_wrap_concat(a, b.drop_last());
        lemma_wadd_assoc(dsum_wrap(a), dsum_wrap(b.drop_last()), wadd(b.last(), b.last()));
    }
}

/// The minimum of a concatenation is the smaller of the minima of the parts.
pub proof fn lemma_min_seq_concat(a: Seq<i64>, b: Seq<i64>)
    ensures
        min_seq(a + b) == min2(min_seq(a), min_seq(b)),
    decreases b.len(),
{
    if b.len() == 0 {
        assert(a + b =~= a);
    } else {
        assert((a + b).drop_last() =~= a + b.drop_last());
        lemma_min_seq_concat(a, b.drop_last());
    }
}

/// The maximum of a concatenation is the larger of the maxima of the parts.
pub proof fn lemma_max_seq_concat(a: Seq<i64>, b: Seq<i64>)
    ensures
        max_seq(a + b) == max2(max_seq(a), max_seq(b)),
    decreases b.len(),
{
    if b.len() == 0 {
        assert(a + b =~= a);
    } else {
        assert((a + b).drop_last() =~= a + b.drop_last());
        lemma_max_seq_concat(a, b.drop_last());
    }
}

/// The aggregate of a segment equals the combiner applied to the aggregates
/// of its left part, the value in its middle, and its right part. This is
/// the fact that lets a tree maintain aggregates bottom-up.
pub proof fn lemma_combine_agg(f: Func, l: Seq<i64>, v: i64, r: Seq<i64>, lc: u64, rc: u64)
    ensures
        f.agg(l + seq![v] + r) == f.combine(
            if l.len() == 0 {
                None
            } else {
                Some((f.agg(l), lc))
            },
            v,
            if r.len() == 0 {
                None
            } else {
                Some((f.agg(r), rc))
            },
        ),
{
    let mid = seq![v];
    assert(mid.drop_last() =~= Seq::<i64>::empty());
    assert(f.agg(mid) == f.combine(None, v, None)) by {
        reveal_with_fuel(sum_wrap, 2);
        reveal_with_fuel(dsum_wrap, 2);
        reveal_with_fuel(min_seq, 2);
        reveal_with_fuel(max_seq, 2);
    }
    match f.kind {
        FuncKind::Sum => {
            lemma_sum_wrap_concat(l + mid, r);
            lemma_sum_wrap_concat(l, mid);
            lemma_wadd_assoc(sum_wrap(l), sum_wrap(mid), sum_wrap(r));
        },
        FuncKind::DoubleSum => {
            lemma_dsum_wrap_concat(l + mid, r);
            lemma_dsum_wrap_concat(l, mid);
            lemma_wadd_assoc(dsum_wrap(l), dsum_wrap(mid), dsum_wrap(r));
        },
        FuncKind::Min => {
            lemma_min_seq_concat(l + mid, r);
            lemma_min_seq_concat(l, mid);
        },
        FuncKind::Max => {
            lemma_max_seq_concat(l + mid, r);
            lemma_max_seq_concat(l, mid);
        },
    }
}

/// The wrapping sum differs from the exact sum by a multiple of the size of
/// the `i64` value space; the multiplier is returned.
proof fn lemma_sum_wrap_mod(s: Seq<i64>) -> (k: int)
    ensures
        sum_wrap(s) == sum_int(s) + k * i64_span(),
    decreases s.len(),
{
    if s.len() == 0 {
        assert(sum_wrap(s) == sum_int(s) + 0 * i64_span());
        0
    } else {
        let k = lemma_sum_wrap_mod(s.drop_last());
        if sum_wrap(s.drop_last()) + s.last() > i64::MAX {
            assert(sum_wrap(s) == sum_int(s) + (k - 1) * i64_span()) by (nonlinear_arith)
                requires
                    sum_wrap(s) == sum_wrap(s.drop_last()) + s.last() - i64_span(),
                    sum_int(s) == sum_int(s.drop_last()) + s.last(),
                    sum_wrap(s.drop_last()) == sum_int(s.drop_last()) + k * i64_span(),
            ;
            k - 1
        } else if sum_wrap(s.drop_last()) + s.last() < i64::MIN {
            assert(sum_wrap(s) == sum_int(s) + (k + 1) * i64_span()) by (nonlinear_arith)
                requires
                    sum_wrap(s) == sum_wrap(s.drop_last()) + s.last() + i64_span(),
                    sum_int(s) == sum_int(s.drop_last()) + s.last(),
                    sum_wrap(s.drop_last()) == sum_int(s.drop_last()) + k * i64_span(),
            ;
            k + 1
        } else {
            assert(sum_wrap(s) == sum_int(s) + k * i64_span()) by (nonlinear_arith)
                requires
                    sum_wrap(s) == sum_wrap(s.drop_last()) + s.last(),
                    sum_int(s) == sum_int(s.drop_last()) + s.last(),
                    sum_wrap(s.drop_last()) == sum_int(s.drop_last()) + k * i64_span(),
            ;
            k
        }
    }
}

/// Whenever the exact sum of a sequence fits in an `i64`, the maintained
/// wrapping sum equals it — whatever the intermediate sums were.
pub proof fn lemma_sum_wrap_exact(s: Seq<i64>)
    requires
        i64::MIN <= sum_int(s) <= i64::MAX,
    ensures
        sum_wrap(s) == sum_int(s),
{
    let k = lemma_sum_wrap_mod(s);
    assert(k == 0) by (nonlinear_arith)
        requires
            sum_wrap(s) == sum_int(s) + k * i64_span(),
            i64::MIN <= sum_int(s) <= i64::MAX,
            i64::MIN <= sum_wrap(s) <= i64::MAX,
    ;
}

/// The minimum of a non-empty sequence is one of its elements and is no
/// larger than any of them; the maximum symmetrically.
pub proof fn lemma_min_seq_is_min(s: Seq<i64>)
    requires
        s.len() > 0,
    ensures
        forall|i: int| 0 <= i < s.len() ==> min_seq(s) <= s[i],
        exists|i: int| 0 <= i < s.len() && s[i] == min_seq(s),
    decreases s.len(),
{
    if s.len() == 1 {
        assert(s[0] == min_seq(s));
    } else {
        lemma_min_seq_is_min(s.drop_last());
        assert(forall|i: int| 0 <= i < s.len() - 1 ==> s.drop_last()[i] == s[i]);
        if min_seq(s) == s.last() {
            assert(s[s.len() - 1] == min_seq(s));
        } else {
            let j = choose|j: int| 0 <= j < s.len() - 1 && s.drop_last()[j] == min_seq(s.drop_last());
            assert(s[j] == min_seq(s));
        }
    }
}

/// See `lemma_min_seq_is_min`.
pub proof fn lemma_max_seq_is_max(s: Seq<i64>)
    requires
        s.len() > 0,
    ensures
        forall|i: int| 0 <= i < s.len() ==> s[i] <= max_seq(s),
        exists|i: int| 0 <= i < s.len() && s[i] == max_seq(s),
    decreases s.len(),
{
    if s.len() == 1 {
        assert(s[0] == max_seq(s));
    } else {
        lemma_max_seq_is_max(s.drop_last());
        assert(forall|i: int| 0 <= i < s.len() - 1 ==> s.drop_last()[i] == s[i]);
        if max_seq(s) == s.last() {
            assert(s[s.len() - 1] == max_seq(s));
        } else {
            let j = choose|j: int| 0 <= j < s.len() - 1 && s.drop_last()[j] == max_seq(s.drop_last());
            assert(s[j] == max_seq(s));
        }
    }
}

/// Aggregate correctness, stated for a whole sequence of elements: the sum
/// aggregate equals the arithmetic sum of the elements whenever that sum
/// fits in an `i64` — whatever the intermediate sums were — and the min and
/// max aggregates of a non-empty sequence are an element no larger,
/// respectively no smaller, than every element.
pub proof fn lemma_agg_meaning(f: Func, s: Seq<i64>)
    ensures
        f.kind == FuncKind::Sum && i64::MIN <= sum_int(s) <= i64::MAX ==> f.agg(s) == sum_int(s),
        f.kind == FuncKind::Min && s.len() > 0 ==> (exists|i: int|
            0 <= i < s.len() && s[i] == f.agg(s)) && (forall|i: int|
            0 <= i < s.len() ==> f.agg(s) <= s[i]),
        f.kind == FuncKind::Max && s.len() > 0 ==> (exists|i: int|
            0 <= i < s.len() && s[i] == f.agg(s)) && (forall|i: int|
            0 <= i < s.len() ==> s[i] <= f.agg(s)),
{
    match f.kind {
        FuncKind::Sum => {
            if i64::MIN <= sum_int(s) <= i64::MAX {
                lemma_sum_wrap_exact(s);
            }
        },
        FuncKind::DoubleSum => {},
        FuncKind::Min => {
            if s.len() > 0 {
                lemma_min_seq_is_min(s);
            }
        },
        FuncKind::Max => {
            if s.len() > 0 {
                lemma_max_seq_is_max(s);
            }
        },
    }
}

/// Register the integer combiners under the names the command layer uses:
/// `sum`, `max` and `min`, in this order.
pub fn fill_functions_i64(functions: &mut Vec<(String, Func)>)
    ensures
        final(functions)@.len() == old(functions)@.len() + 3,
        final(functions)@.subrange(0, old(functions)@.len() as int) == old(functions)@,
        final(functions)@[old(functions)@.len() as int].0@ == "sum"@,
        final(functions)@[old(functions)@.len() as int].1 == (Func { kind: FuncKind::Sum, id: 0 }),
        final(functions)@[old(functions)@.len() as int + 1].0@ == "max"@,
        final(functions)@[old(functions)@.len() as int + 1].1 == (Func { kind: FuncKind::Max, id: 0 }),
        final(functions)@[old(functions)@.len() as int + 2].0@ == "min"@,
        final(functions)@[old(functions)@.len() as int + 2].1 == (Func { kind: FuncKind::Min, id: 0 }),
{
    functions.push((String::from_str("sum"), Func { kind: FuncKind::Sum, id: 0 }));
    functions.push((String::from_str("max"), Func { kind: FuncKind::Max, id: 0 }));
    functions.push((String::from_str("min"), Func { kind: FuncKind::Min, id: 0 }));
    assert(functions@.subrange(0, old(functions)@.len() as int) =~= old(functions)@);
}

} // verus!
