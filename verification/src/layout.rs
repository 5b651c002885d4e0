//! Laying out the objects of one memory type, one after the other, in a single allocation.

use vstd::arithmetic::power2::is_pow2;
use vstd::prelude::*;
use crate::vulkan::MemoryRequirements;

verus! {

/// The least multiple of `alignment` that is not below `value`.
pub open spec fn round_up(value: int, alignment: int) -> int {
    if value % alignment == 0 {
        value
    } else {
        value + alignment - value % alignment
    }
}

/// Where the last of the first `n` objects that have memory type `t` ends.
pub open spec fn group_end(
    assigned: Seq<usize>,
    reqs: Seq<MemoryRequirements>,
    t: usize,
    n: int,
) -> int
    decreases n,
{
    if n <= 0 {
        0
    } else {
        let end = group_end(assigned, reqs, t, n - 1);
        if assigned[n - 1] == t {
            round_up(end, reqs[n - 1].alignment as int) + reqs[n - 1].size
        } else {
            end
        }
    }
}

/// Offset of object `i` in the memory of its type.
pub open spec fn object_offset(
    assigned: Seq<usize>,
    reqs: Seq<MemoryRequirements>,
    i: int,
) -> int {
    round_up(group_end(assigned, reqs, assigned[i], i), reqs[i].alignment as int)
}

/// Size of the memory that holds all objects of memory type `t`.
pub open spec fn group_size(
    assigned: Seq<usize>,
    reqs: Seq<MemoryRequirements>,
    t: usize,
) -> int {
    group_end(assigned, reqs, t, assigned.len() as int)
}

/// Every object's requirements are valid.
pub open spec fn reqs_wf(reqs: Seq<MemoryRequirements>) -> bool {
    forall|i: int| 0 <= i < reqs.len() ==> (#[trigger] reqs[i]).wf()
}

/// Rounding up gives the least multiple of the alignment that is not below the value.
pub proof fn law_round_up_is_least_multiple(value: int, alignment: int)
    requires
        alignment > 0,
    ensures
        round_up(value, alignment) % alignment == 0,
        value <= round_up(value, alignment) < value + alignment,
        forall|m: int|
            m >= value && #[trigger] (m % alignment) == 0 ==> m >= round_up(value, alignment),
{
    let r = round_up(value, alignment);
    let q = value / alignment;
    assert(value == alignment * q + value % alignment && 0 <= value % alignment < alignment) by {
        vstd::arithmetic::div_mod::lemma_fundamental_div_mod(value, alignment);
        vstd::arithmetic::div_mod::lemma_mod_bound(value, alignment);
    }
    if value % alignment != 0 {
        assert(r == alignment * (q + 1)) by (nonlinear_arith)
            requires
                r == value + alignment - value % alignment,
                value == alignment * q + value % alignment,
        ;
        assert(r % alignment == 0) by {
            vstd::arithmetic::div_mod::lemma_mod_multiples_basic(q + 1, alignment);
            assert(alignment * (q + 1) == (q + 1) * alignment) by (nonlinear_arith);
        }
        assert forall|m: int| m >= value && #[trigger] (m % alignment) == 0 implies m >= r by {
            vstd::arithmetic::div_mod::lemma_fundamental_div_mod(m, alignment);
            let k = m / alignment;
            assert(m == alignment * k);
            assert(k > q) by (nonlinear_arith)
                requires
                    alignment > 0,
                    alignment * k >= alignment * q + value % alignment,
                    value % alignment > 0,
            ;
            assert(alignment * k >= alignment * (q + 1)) by (nonlinear_arith)
                requires
                    alignment > 0,
                    k >= q + 1,
            ;
        }
    }
}

pub(crate) proof fn lemma_alignment_positive(req: MemoryRequirements)
    requires
        req.wf(),
    ensures
        req.alignment > 0,
{
    reveal(is_pow2);
}

pub(crate) proof fn lemma_group_end_monotonic(
    assigned: Seq<usize>,
    reqs: Seq<MemoryRequirements>,
    t: usize,
    n: int,
    m: int,
)
    requires
        reqs_wf(reqs),
        0 <= n <= m <= reqs.len(),
    ensures
        0 <= group_end(assigned, reqs, t, n) <= group_end(assigned, reqs, t, m),
    decreases m,
{
    if m > 0 {
        lemma_alignment_positive(reqs[m - 1]);
        if n < m {
            lemma_group_end_monotonic(assigned, reqs, t, n, m - 1);
        } else {
            lemma_group_end_monotonic(assigned, reqs, t, n - 1, n - 1);
        }
        let end = group_end(assigned, reqs, t, m - 1);
        law_round_up_is_least_multiple(end, reqs[m - 1].alignment as int);
    }
}

/// `round_up`, or nothing where it does not fit.
pub(crate) fn round_up_u64(value: u64, alignment: u64) -> (r: Option<u64>)
    requires
        alignment > 0,
    ensures
        r is Some <==> round_up(value as int, alignment as int) <= u64::MAX,
        r matches Some(v) ==> v == round_up(value as int, alignment as int),
{
    let rest: u64 = value % alignment;
    if rest == 0 {
        Some(value)
    } else {
        value.checked_add(alignment - rest)
    }
}

/// The size that all objects of memory type `type_index` take together, or nothing where it does
/// not fit in 64 bits.
pub(crate) fn group_size_u64<const S: usize>(
    assigned: &[usize; S],
    obj_reqs: &[MemoryRequirements; S],
    type_index: usize,
) -> (r: Option<u64>)
    requires
        reqs_wf(obj_reqs@),
    ensures
        r is Some <==> group_size(assigned@, obj_reqs@, type_index) <= u64::MAX,
        r matches Some(v) ==> v == group_size(assigned@, obj_reqs@, type_index),
{
    let mut total: u64 = 0;
    for i in 0..S
        invariant
            reqs_wf(obj_reqs@),
            total == group_end(assigned@, obj_reqs@, type_index, i as int),
    {
        proof {
            lemma_alignment_positive(obj_reqs@[i as int]);
            lemma_group_end_monotonic(assigned@, obj_reqs@, type_index, i + 1, S as int);
        }
        if assigned[i] == type_index {
            match round_up_u64(total, obj_reqs[i].alignment) {
                Some(offset) => match offset.checked_add(obj_reqs[i].size) {
                    Some(end) => {
                        total = end;
                    },
                    None => {
                        return None;
                    },
                },
                None => {
                    return None;
                },
            }
        }
    }
    Some(total)
}

/// An object's offset is a multiple of its alignment.
pub proof fn law_object_is_aligned(assigned: Seq<usize>, reqs: Seq<MemoryRequirements>, i: int)
    requires
        assigned.len() == reqs.len(),
        reqs_wf(reqs),
        0 <= i < reqs.len(),
    ensures
        object_offset(assigned, reqs, i) % (reqs[i].alignment as int) == 0,
{
    lemma_alignment_positive(reqs[i]);
    law_round_up_is_least_multiple(
        group_end(assigned, reqs, assigned[i], i),
        reqs[i].alignment as int,
    );
}

/// An object lies inside the memory of its type.
pub proof fn law_object_lies_in_memory(assigned: Seq<usize>, reqs: Seq<MemoryRequirements>, i: int)
    requires
        assigned.len() == reqs.len(),
        reqs_wf(reqs),
        0 <= i < reqs.len(),
    ensures
        0 <= object_offset(assigned, reqs, i),
        object_offset(assigned, reqs, i) + reqs[i].size <= group_size(assigned, reqs, assigned[i]),
{
    let t = assigned[i];
    lemma_alignment_positive(reqs[i]);
    lemma_group_end_monotonic(assigned, reqs, t, i, i);
    law_round_up_is_least_multiple(group_end(assigned, reqs, t, i), reqs[i].alignment as int);
    assert(group_end(assigned, reqs, t, i + 1) == object_offset(assigned, reqs, i) + reqs[i].size);
    lemma_group_end_monotonic(assigned, reqs, t, i + 1, reqs.len() as int);
}

/// Two objects in one memory do not overlap: the earlier one ends before the later one begins.
pub proof fn law_objects_do_not_overlap(
    assigned: Seq<usize>,
    reqs: Seq<MemoryRequirements>,
    i: int,
    j: int,
)
    requires
        assigned.len() == reqs.len(),
        reqs_wf(reqs),
        0 <= i < j < reqs.len(),
        assigned[i] == assigned[j],
    ensures
        object_offset(assigned, reqs, i) + reqs[i].size <= object_offset(assigned, reqs, j),
{
    let t = assigned[i];
    assert(group_end(assigned, reqs, t, i + 1) == object_offset(assigned, reqs, i) + reqs[i].size);
    lemma_group_end_monotonic(assigned, reqs, t, i + 1, j);
    lemma_alignment_positive(reqs[j]);
    law_round_up_is_least_multiple(group_end(assigned, reqs, t, j), reqs[j].alignment as int);
}

pub(crate) proof fn lemma_group_end_unchanged(
    assigned: Seq<usize>,
    reqs: Seq<MemoryRequirements>,
    t: usize,
    n: int,
    m: int,
)
    requires
        0 <= n <= m <= assigned.len(),
        forall|k: int| n <= k < m ==> #[trigger] assigned[k] != t,
    ensures
        group_end(assigned, reqs, t, n) == group_end(assigned, reqs, t, m),
    decreases m,
{
    if n < m {
        lemma_group_end_unchanged(assigned, reqs, t, n, m - 1);
        assert(assigned[m - 1] != t);
    }
}

/// The objects of memory type `t` follow each other at `offsets`, each at the first multiple of
/// its alignment behind the one before it, beginning at zero, and `size` is where the last one
/// ends.
pub open spec fn packed_tightly(
    assigned: Seq<usize>,
    reqs: Seq<MemoryRequirements>,
    t: usize,
    offsets: Seq<int>,
    size: int,
) -> bool {
    &&& forall|i: int|
        0 <= i < assigned.len() && assigned[i] == t ==> (#[trigger] offsets[i])
            % (reqs[i].alignment as int) == 0
    &&& forall|i: int|
        0 <= i < assigned.len() && assigned[i] == t && (forall|k: int|
            0 <= k < i ==> #[trigger] assigned[k] != t) ==> #[trigger] offsets[i] == 0
    &&& forall|i: int, j: int|
        0 <= j < i < assigned.len() && assigned[i] == t && assigned[j] == t && (forall|k: int|
            j < k < i ==> #[trigger] assigned[k] != t) ==> offsets[j] + reqs[j].size
            <= #[trigger] offsets[i] < #[trigger] offsets[j] + reqs[j].size + reqs[i].alignment
    &&& forall|i: int|
        0 <= i < assigned.len() && assigned[i] == t && (forall|k: int|
            i < k < assigned.len() ==> #[trigger] assigned[k] != t) ==> size
            == #[trigger] offsets[i] + reqs[i].size
    &&& (forall|k: int| 0 <= k < assigned.len() ==> #[trigger] assigned[k] != t) ==> size == 0
}

/// The last object before the first `n` that has memory type `t`, or -1.
spec fn last_of_type(assigned: Seq<usize>, t: usize, n: int) -> int
    decreases n,
{
    if n <= 0 {
        -1
    } else if assigned[n - 1] == t {
        n - 1
    } else {
        last_of_type(assigned, t, n - 1)
    }
}

proof fn lemma_last_of_type(assigned: Seq<usize>, t: usize, n: int)
    requires
        0 <= n <= assigned.len(),
    ensures
        -1 <= last_of_type(assigned, t, n) < n,
        last_of_type(assigned, t, n) >= 0 ==> assigned[last_of_type(assigned, t, n)] == t,
        forall|k: int| last_of_type(assigned, t, n) < k < n ==> #[trigger] assigned[k] != t,
    decreases n,
{
    if n > 0 && assigned[n - 1] != t {
        lemma_last_of_type(assigned, t, n - 1);
    }
}

proof fn lemma_multiple_in_window(value: int, alignment: int, multiple: int)
    requires
        alignment > 0,
        multiple % alignment == 0,
        value <= multiple < value + alignment,
    ensures
        multiple == round_up(value, alignment),
{
    let r = round_up(value, alignment);
    law_round_up_is_least_multiple(value, alignment);
    assert(multiple >= r);
    vstd::arithmetic::div_mod::lemma_fundamental_div_mod(multiple, alignment);
    vstd::arithmetic::div_mod::lemma_fundamental_div_mod(r, alignment);
    let (k, m) = (multiple / alignment, r / alignment);
    assert(k == m) by (nonlinear_arith)
        requires
            alignment > 0,
            alignment * m <= alignment * k < alignment * m + alignment,
    ;
}

proof fn lemma_packed_end(
    assigned: Seq<usize>,
    reqs: Seq<MemoryRequirements>,
    t: usize,
    offsets: Seq<int>,
    size: int,
    n: int,
)
    requires
        assigned.len() == reqs.len(),
        reqs_wf(reqs),
        packed_tightly(assigned, reqs, t, offsets, size),
        0 <= n <= assigned.len(),
    ensures
        group_end(assigned, reqs, t, n) == if last_of_type(assigned, t, n) < 0 {
            0
        } else {
            offsets[last_of_type(assigned, t, n)] + reqs[last_of_type(assigned, t, n)].size
        },
        forall|i: int|
            0 <= i < n && assigned[i] == t ==> #[trigger] offsets[i] == object_offset(
                assigned,
                reqs,
                i,
            ),
    decreases n,
{
    if n > 0 {
        let i = n - 1;
        lemma_packed_end(assigned, reqs, t, offsets, size, i);
        lemma_last_of_type(assigned, t, i);
        let j = last_of_type(assigned, t, i);
        if assigned[i] == t {
            lemma_alignment_positive(reqs[i]);
            let alignment = reqs[i].alignment as int;
            let end = group_end(assigned, reqs, t, i);
            assert(offsets[i] % alignment == 0);
            if j < 0 {
                assert(offsets[i] == 0);
            } else {
                assert(offsets[j] + reqs[j].size <= offsets[i] < offsets[j] + reqs[j].size
                    + reqs[i].alignment);
            }
            lemma_multiple_in_window(end, alignment, offsets[i]);
        }
    }
}

/// There is one way to pack objects tightly: whatever offsets and size do so are those at which
/// the objects are laid out.
pub proof fn law_layout_is_the_tight_packing(
    assigned: Seq<usize>,
    reqs: Seq<MemoryRequirements>,
    t: usize,
    offsets: Seq<int>,
    size: int,
)
    requires
        assigned.len() == reqs.len(),
        reqs_wf(reqs),
        packed_tightly(assigned, reqs, t, offsets, size),
    ensures
        group_size(assigned, reqs, t) == size,
        forall|i: int|
            0 <= i < assigned.len() && assigned[i] == t ==> #[trigger] offsets[i] == object_offset(
                assigned,
                reqs,
                i,
            ),
{
    let n = assigned.len() as int;
    lemma_packed_end(assigned, reqs, t, offsets, size, n);
    lemma_last_of_type(assigned, t, n);
    let j = last_of_type(assigned, t, n);
    if j >= 0 {
        assert(size == offsets[j] + reqs[j].size);
    }
}

/// The objects are laid out tightly: the offsets and the size that they get are those of the
/// tight packing, which there always is.
pub proof fn law_objects_are_laid_out_tightly(
    assigned: Seq<usize>,
    reqs: Seq<MemoryRequirements>,
    t: usize,
)
    requires
        assigned.len() == reqs.len(),
        reqs_wf(reqs),
    ensures
        packed_tightly(
            assigned,
            reqs,
            t,
            Seq::new(assigned.len(), |i: int| object_offset(assigned, reqs, i)),
            group_size(assigned, reqs, t),
        ),
{
    let offsets = Seq::new(assigned.len(), |i: int| object_offset(assigned, reqs, i));
    let size = group_size(assigned, reqs, t);
    assert forall|i: int| 0 <= i < assigned.len() && assigned[i] == t implies (
    #[trigger] offsets[i]) % (reqs[i].alignment as int) == 0 by {
        law_object_is_aligned(assigned, reqs, i);
    }
    assert forall|i: int|
        0 <= i < assigned.len() && assigned[i] == t && (forall|k: int|
            0 <= k < i ==> #[trigger] assigned[k] != t) implies #[trigger] offsets[i] == 0 by {
        lemma_group_end_unchanged(assigned, reqs, t, 0, i);
        lemma_alignment_positive(reqs[i]);
        vstd::arithmetic::div_mod::lemma_small_mod(0, reqs[i].alignment as nat);
    }
    assert forall|i: int, j: int|
        0 <= j < i < assigned.len() && assigned[i] == t && assigned[j] == t && (forall|k: int|
            j < k < i ==> #[trigger] assigned[k] != t) implies offsets[j] + reqs[j].size
        <= #[trigger] offsets[i] < #[trigger] offsets[j] + reqs[j].size + reqs[i].alignment by {
        lemma_group_end_unchanged(assigned, reqs, t, j + 1, i);
        assert(group_end(assigned, reqs, t, j + 1) == offsets[j] + reqs[j].size);
        lemma_alignment_positive(reqs[i]);
        law_round_up_is_least_multiple(group_end(assigned, reqs, t, i), reqs[i].alignment as int);
    }
    assert forall|i: int|
        0 <= i < assigned.len() && assigned[i] == t && (forall|k: int|
            i < k < assigned.len() ==> #[trigger] assigned[k] != t) implies size
        == #[trigger] offsets[i] + reqs[i].size by {
        lemma_group_end_unchanged(assigned, reqs, t, i + 1, assigned.len() as int);
        assert(group_end(assigned, reqs, t, i + 1) == offsets[i] + reqs[i].size);
    }
    if forall|k: int| 0 <= k < assigned.len() ==> #[trigger] assigned[k] != t {
        lemma_group_end_unchanged(assigned, reqs, t, 0, assigned.len() as int);
    }
}

} // verus!
