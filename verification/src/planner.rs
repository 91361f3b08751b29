//! Fragment planning: splitting a resource of known size into contiguous,
//! non-overlapping byte ranges that together cover the whole resource.

use vstd::prelude::*;
use vstd::arithmetic::div_mod::{lemma_fundamental_div_mod, lemma_mod_division_less_than_divisor};
use vstd::arithmetic::mul::{
    lemma_mul_inequality, lemma_mul_is_distributive_add_other_way, lemma_mul_nonnegative,
};

verus! {

/// One contiguous byte range of a resource, fetched independently.
/// `start_byte` and `end_byte` are inclusive bounds.
#[derive(Debug, Clone, Copy, PartialEq, Eq, Structural)]
pub struct FragmentSpec {
    pub index: usize,
    pub start_byte: u64,
    pub end_byte: u64,
}

/// The size of every fragment but the last: total size divided by fragment
/// count, rounded down. The last fragment absorbs the remainder.
pub open spec fn base_size(total_size: u64, fragment_count: usize) -> int {
    total_size as int / fragment_count as int
}

/// The planner never divides a resource smaller than the fragment count:
/// every fragment must hold at least one byte.
pub open spec fn plan_inputs_valid(total_size: u64, fragment_count: usize) -> bool {
    &&& 1 <= fragment_count
    &&& fragment_count as u64 <= total_size
}

/// The `i`-th planned fragment: all but the last span `base_size` bytes from
/// `i * base_size`; the last runs to the final byte of the resource.
pub open spec fn fragment_at(total_size: u64, fragment_count: usize, i: int) -> FragmentSpec {
    let base = base_size(total_size, fragment_count);
    FragmentSpec {
        index: i as usize,
        start_byte: (i * base) as u64,
        end_byte: if i == fragment_count - 1 {
            (total_size - 1) as u64
        } else {
            (i * base + base - 1) as u64
        },
    }
}

/// The full plan for a resource: `fragment_count` fragments in index order.
pub open spec fn plan_spec(total_size: u64, fragment_count: usize) -> Seq<FragmentSpec> {
    Seq::new(fragment_count as nat, |i: int| fragment_at(total_size, fragment_count, i))
}

/// Bounds on the planner's arithmetic: the base size is at least one byte,
/// and every multiple `i * base_size` up to the fragment count stays within
/// the resource.
proof fn lemma_base_size_bounds(total_size: u64, fragment_count: usize)
    requires
        plan_inputs_valid(total_size, fragment_count),
    ensures
        1 <= base_size(total_size, fragment_count),
        forall|i: int|
            0 <= i <= fragment_count as int ==> #[trigger] (i * base_size(total_size,
                fragment_count)) <= total_size as int,
{
    let t = total_size as int;
    let n = fragment_count as int;
    let base = t / n;
    lemma_fundamental_div_mod(t, n);
    lemma_mod_division_less_than_divisor(t, n);
    assert(n * base <= t);
    if base < 1 {
        assert(n * 0 == 0) by (nonlinear_arith);
        assert(base == 0);
        assert(n * base == 0) by (nonlinear_arith)
            requires
                base == 0,
        ;
        assert(t < n);
    }
    assert forall|i: int| 0 <= i <= n implies #[trigger] (i * base) <= t by {
        lemma_mul_inequality(i, n, base);
    }
}

/// The planner's ranges partition the resource: the first fragment starts at
/// byte zero, the last ends at the final byte, every fragment is non-empty,
/// each fragment starts exactly one byte after its predecessor ends, and the
/// indices run in order. Contiguity and non-overlap together mean the union
/// of the ranges is exactly the whole resource.
pub proof fn lemma_plan_partitions(total_size: u64, fragment_count: usize)
    requires
        plan_inputs_valid(total_size, fragment_count),
    ensures
        plan_spec(total_size, fragment_count).len() == fragment_count,
        forall|i: int|
            0 <= i < fragment_count ==> #[trigger] plan_spec(total_size, fragment_count)[i].index
                == i,
        plan_spec(total_size, fragment_count)[0].start_byte == 0,
        plan_spec(total_size, fragment_count)[fragment_count - 1].end_byte == total_size - 1,
        forall|i: int|
            0 <= i < fragment_count ==> #[trigger] plan_spec(total_size,
                fragment_count)[i].start_byte <= plan_spec(total_size, fragment_count)[i].end_byte,
        forall|i: int|
            0 <= i < fragment_count ==> #[trigger] plan_spec(total_size, fragment_count)[i].end_byte
                < total_size,
        forall|i: int|
            0 < i < fragment_count ==> #[trigger] plan_spec(total_size,
                fragment_count)[i].start_byte == plan_spec(total_size, fragment_count)[i
                - 1].end_byte + 1,
{
    let t = total_size as int;
    let n = fragment_count as int;
    let base = base_size(total_size, fragment_count);
    let p = plan_spec(total_size, fragment_count);
    lemma_base_size_bounds(total_size, fragment_count);
    assert forall|i: int| 0 <= i < n implies #[trigger] p[i].start_byte <= p[i].end_byte
        && p[i].end_byte < total_size && p[i].start_byte == i * base && (i < n - 1
        ==> p[i].end_byte == i * base + base - 1) by {
        assert(i * base <= t);
        assert((i + 1) * base <= t);
        lemma_mul_is_distributive_add_other_way(base, i, 1);
        assert((i + 1) * base == i * base + base);
        lemma_mul_nonnegative(i, base);
        if i == n - 1 {
            assert(i * base <= t - base);
            assert(p[i].end_byte == t - 1);
        } else {
            assert(i * base + base - 1 < t);
        }
    }
    assert forall|i: int| 0 <= i < n implies #[trigger] p[i].end_byte < total_size by {
        assert(p[i].start_byte <= p[i].end_byte);
    }
    assert forall|i: int| 0 < i < n implies #[trigger] p[i].start_byte == p[i - 1].end_byte + 1 by {
        lemma_mul_is_distributive_add_other_way(base, i - 1, 1);
        assert((i - 1) * base + base == i * base);
    }
    assert(0 * base == 0) by (nonlinear_arith);
}

/// Computes the fragment plan for a resource of `total_size` bytes split into
/// `fragment_count` pieces: `base = total_size / fragment_count` bytes per
/// fragment, with the last fragment absorbing the division remainder so the
/// ranges cover the resource exactly (see [`lemma_plan_partitions`]).
pub fn plan_fragments(total_size: u64, fragment_count: usize) -> (r: Vec<FragmentSpec>)
    requires
        plan_inputs_valid(total_size, fragment_count),
    ensures
        r@ == plan_spec(total_size, fragment_count),
{
    proof {
        lemma_base_size_bounds(total_size, fragment_count);
    }
    let base: u64 = total_size / (fragment_count as u64);
    let mut r: Vec<FragmentSpec> = Vec::new();
    let mut i: usize = 0;
    while i < fragment_count
        invariant
            plan_inputs_valid(total_size, fragment_count),
            base == base_size(total_size, fragment_count),
            1 <= base,
            forall|j: int|
                0 <= j <= fragment_count as int ==> #[trigger] (j * base as int)
                    <= total_size as int,
            i <= fragment_count,
            r@ =~= plan_spec(total_size, fragment_count).take(i as int),
        decreases fragment_count - i,
    {
        proof {
            assert((i as int) * (base as int) <= total_size as int);
            assert((i as int + 1) * (base as int) <= total_size as int);
            lemma_mul_is_distributive_add_other_way(base as int, i as int, 1);
            lemma_mul_nonnegative(i as int, base as int);
        }
        let start: u64 = (i as u64) * base;
        let end: u64 = if i == fragment_count - 1 {
            total_size - 1
        } else {
            start + base - 1
        };
        r.push(FragmentSpec { index: i, start_byte: start, end_byte: end });
        i = i + 1;
        proof {
            assert(r@ =~= plan_spec(total_size, fragment_count).take(i as int));
        }
    }
    proof {
        assert(r@ =~= plan_spec(total_size, fragment_count));
    }
    r
}

} // verus!
