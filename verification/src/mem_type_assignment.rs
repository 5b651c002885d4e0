//! Choosing a memory type for each object.

use vstd::prelude::*;
use crate::vulkan::{bit, MemoryPropertyFlags, MemoryRequirements, MemoryType, MAX_MEMORY_TYPES};

verus! {

/// Objects that have no memory type yet.
#[derive(Debug)]
pub struct UnassignedToMemoryObjectsData<'a, const P: usize, const S: usize> {
    /// Memory types of the physical device.
    pub mem_types: &'a [MemoryType],
    /// Acceptable sets of properties, the preferred one first.
    pub mem_props: [MemoryPropertyFlags; P],
    /// Requirements of each object.
    pub obj_reqs: [MemoryRequirements; S],
}

/// Why no assignment exists.
#[derive(Debug, Clone, Copy, PartialEq, Eq, Structural)]
pub enum MemoryAssignmentError {
    /// No memory type has any of the given sets of properties.
    AllPropertiesUnsupported,
    /// The object with this index fits no memory type that has one of the given sets.
    ObjectIncompatibleWithAllProperties(usize),
}

/// Some memory type has all of `props`.
pub open spec fn set_supported(types: Seq<MemoryType>, props: MemoryPropertyFlags) -> bool {
    exists|t: int| 0 <= t < types.len() && (#[trigger] types[t]).property_flags.includes(props)
}

/// No memory type has all properties of any of the sets.
pub open spec fn no_set_supported(
    types: Seq<MemoryType>,
    props: Seq<MemoryPropertyFlags>,
) -> bool {
    forall|p: int| 0 <= p < props.len() ==> !set_supported(types, #[trigger] props[p])
}

/// Memory type `t` has all of `props` and may hold an object with requirements `req`.
pub open spec fn usable(
    types: Seq<MemoryType>,
    props: MemoryPropertyFlags,
    req: MemoryRequirements,
    t: int,
) -> bool {
    0 <= t < types.len() && types[t].property_flags.includes(props) && req.allows(t)
}

/// Some memory type has all of `props` and may hold an object with requirements `req`.
pub open spec fn has_usable(
    types: Seq<MemoryType>,
    props: MemoryPropertyFlags,
    req: MemoryRequirements,
) -> bool {
    exists|t: int| usable(types, props, req, t)
}

/// `p` is the earliest set of properties under which the object has a usable memory type.
pub open spec fn earliest_set(
    types: Seq<MemoryType>,
    props: Seq<MemoryPropertyFlags>,
    req: MemoryRequirements,
    p: int,
) -> bool {
    &&& 0 <= p < props.len()
    &&& has_usable(types, props[p], req)
    &&& forall|q: int| 0 <= q < p ==> !has_usable(types, #[trigger] props[q], req)
}

/// The object has a usable memory type under one of the sets.
pub open spec fn compatible(
    types: Seq<MemoryType>,
    props: Seq<MemoryPropertyFlags>,
    req: MemoryRequirements,
) -> bool {
    exists|p: int| 0 <= p < props.len() && has_usable(types, #[trigger] props[p], req)
}

/// Some set of properties is supported, and `i` is the first object that none of them suits.
pub open spec fn first_incompatible(
    types: Seq<MemoryType>,
    props: Seq<MemoryPropertyFlags>,
    reqs: Seq<MemoryRequirements>,
    i: int,
) -> bool {
    &&& !no_set_supported(types, props)
    &&& 0 <= i < reqs.len()
    &&& !compatible(types, props, reqs[i])
    &&& forall|j: int| 0 <= j < i ==> compatible(types, props, #[trigger] reqs[j])
}

/// Memory type `t` is usable under the object's earliest set of properties.
pub open spec fn candidate(
    types: Seq<MemoryType>,
    props: Seq<MemoryPropertyFlags>,
    req: MemoryRequirements,
    t: int,
) -> bool {
    exists|p: int| #[trigger] earliest_set(types, props, req, p) && usable(types, props[p], req, t)
}

/// How many of the objects have `t` as a candidate.
pub open spec fn support(
    types: Seq<MemoryType>,
    props: Seq<MemoryPropertyFlags>,
    reqs: Seq<MemoryRequirements>,
    t: int,
) -> nat
    decreases reqs.len(),
{
    if reqs.len() == 0 {
        0
    } else {
        support(types, props, reqs.drop_last(), t) + if candidate(types, props, reqs.last(), t) {
            1nat
        } else {
            0nat
        }
    }
}

/// Type `t` goes before type `u`: more objects have it as a candidate, or as many and it has the
/// lower index.
pub open spec fn preferred(
    types: Seq<MemoryType>,
    props: Seq<MemoryPropertyFlags>,
    reqs: Seq<MemoryRequirements>,
    t: int,
    u: int,
) -> bool {
    ||| support(types, props, reqs, t) > support(types, props, reqs, u)
    ||| support(types, props, reqs, t) == support(types, props, reqs, u) && t < u
}

/// `t` is the memory type that object `i` gets: of its candidates, the one preferred to all others.
pub open spec fn assigned_type(
    types: Seq<MemoryType>,
    props: Seq<MemoryPropertyFlags>,
    reqs: Seq<MemoryRequirements>,
    i: int,
    t: int,
) -> bool {
    &&& candidate(types, props, reqs[i], t)
    &&& forall|u: int| u != t && #[trigger] candidate(types, props, reqs[i], u) ==> preferred(
        types,
        props,
        reqs,
        t,
        u,
    )
}

/// Some set of properties is supported, and each object is compatible with one of them.
pub open spec fn assignable(
    types: Seq<MemoryType>,
    props: Seq<MemoryPropertyFlags>,
    reqs: Seq<MemoryRequirements>,
) -> bool {
    &&& !no_set_supported(types, props)
    &&& forall|i: int| 0 <= i < reqs.len() ==> compatible(types, props, #[trigger] reqs[i])
}

/// `assigned` holds the memory type of each object.
pub open spec fn is_assignment(
    types: Seq<MemoryType>,
    props: Seq<MemoryPropertyFlags>,
    reqs: Seq<MemoryRequirements>,
    assigned: Seq<usize>,
) -> bool {
    &&& assigned.len() == reqs.len()
    &&& forall|i: int|
        0 <= i < reqs.len() ==> assigned_type(types, props, reqs, i, #[trigger] assigned[i] as int)
}

/// The objects' distinct memory types, in the order in which the objects first name them.
pub open spec fn first_occurrences(assigned: Seq<usize>) -> Seq<usize>
    decreases assigned.len(),
{
    if assigned.len() == 0 {
        seq![]
    } else {
        let before = first_occurrences(assigned.drop_last());
        if before.contains(assigned.last()) {
            before
        } else {
            before.push(assigned.last())
        }
    }
}

proof fn lemma_bit_or(mask: u32, t: u32)
    requires
        t < 32,
    ensures
        forall|s: int| #[trigger] bit(mask | (1u32 << t), s) <==> bit(mask, s) || s == t,
{
    assert forall|s: int| #[trigger] bit(mask | (1u32 << t), s) <==> bit(mask, s) || s == t by {
        if 0 <= s < 32 {
            let r = s as u32;
            assert(((mask | (1u32 << t)) >> r) & 1 == 1 <==> ((mask >> r) & 1 == 1 || r == t))
                by (bit_vector)
                requires
                    t < 32,
                    r < 32,
            ;
        }
    }
}

proof fn lemma_bit_and(a: u32, b: u32)
    ensures
        forall|s: int| #[trigger] bit(a & b, s) <==> bit(a, s) && bit(b, s),
{
    assert forall|s: int| #[trigger] bit(a & b, s) <==> bit(a, s) && bit(b, s) by {
        if 0 <= s < 32 {
            let r = s as u32;
            assert(((a & b) >> r) & 1 == 1 <==> ((a >> r) & 1 == 1 && (b >> r) & 1 == 1))
                by (bit_vector)
                requires
                    r < 32,
            ;
        }
    }
}

proof fn lemma_zero_has_no_bit(s: int)
    ensures
        !bit(0, s),
{
    if 0 <= s < 32 {
        let r = s as u32;
        assert((0u32 >> r) & 1 == 0) by (bit_vector)
            requires
                r < 32,
        ;
    }
}

proof fn lemma_nonzero_has_bit(mask: u32, from: u32) -> (t: int)
    requires
        from <= 32,
        mask >> from != 0,
    ensures
        bit(mask, t),
    decreases 32 - from,
{
    assert(from < 32) by (bit_vector)
        requires
            from <= 32,
            mask >> from != 0,
    ;
    if (mask >> from) & 1 == 1 {
        from as int
    } else {
        let next = (from + 1) as u32;
        assert(mask >> next != 0) by (bit_vector)
            requires
                from < 32,
                next == from + 1,
                mask >> from != 0,
                (mask >> from) & 1 != 1,
        ;
        lemma_nonzero_has_bit(mask, next)
    }
}

/// A mask is zero exactly where it has no bit.
proof fn lemma_mask_zero(mask: u32)
    ensures
        mask == 0 <==> forall|t: int| !bit(mask, t),
{
    if mask == 0 {
        assert forall|t: int| !bit(mask, t) by {
            lemma_zero_has_no_bit(t);
        }
    } else {
        assert(mask >> 0u32 == mask) by (bit_vector);
        let t = lemma_nonzero_has_bit(mask, 0);
        assert(bit(mask, t));
    }
}

/// The bits of `mask` are the memory types that have all of `props`.
spec fn is_support_mask(types: Seq<MemoryType>, props: MemoryPropertyFlags, mask: u32) -> bool {
    forall|t: int| #[trigger]
        bit(mask, t) <==> 0 <= t < types.len() && types[t].property_flags.includes(props)
}

/// The bits of `mask` are the candidates of an object with requirements `req`.
spec fn is_candidate_mask(
    types: Seq<MemoryType>,
    props: Seq<MemoryPropertyFlags>,
    req: MemoryRequirements,
    mask: u32,
) -> bool {
    forall|t: int| #[trigger] bit(mask, t) <==> candidate(types, props, req, t)
}

/// The first `n` masks are not zero and hold the candidates of the first `n` objects.
spec fn are_candidate_masks(
    types: Seq<MemoryType>,
    props: Seq<MemoryPropertyFlags>,
    reqs: Seq<MemoryRequirements>,
    masks: Seq<u32>,
    n: int,
) -> bool {
    forall|j: int|
        0 <= j < n ==> #[trigger] masks[j] != 0 && is_candidate_mask(
            types,
            props,
            reqs[j],
            masks[j],
        )
}

proof fn lemma_masks_compatible(
    types: Seq<MemoryType>,
    props: Seq<MemoryPropertyFlags>,
    reqs: Seq<MemoryRequirements>,
    masks: Seq<u32>,
    n: int,
)
    requires
        n <= reqs.len(),
        are_candidate_masks(types, props, reqs, masks, n),
    ensures
        forall|j: int| 0 <= j < n ==> compatible(types, props, #[trigger] reqs[j]),
{
    assert forall|j: int| 0 <= j < n implies compatible(types, props, #[trigger] reqs[j]) by {
        let mask = masks[j];
        lemma_mask_zero(mask);
        let t = choose|t: int| bit(mask, t);
        assert(candidate(types, props, reqs[j], t));
        let p = choose|p: int| #[trigger]
            earliest_set(types, props, reqs[j], p) && usable(types, props[p], reqs[j], t);
        assert(has_usable(types, props[p], reqs[j]));
    }
}

/// Bits of the memory types that have all of `props`.
fn supported_types(mem_types: &[MemoryType], props: MemoryPropertyFlags) -> (mask: u32)
    requires
        mem_types@.len() <= MAX_MEMORY_TYPES,
    ensures
        is_support_mask(mem_types@, props, mask),
{
    let mut mask: u32 = 0;
    proof {
        assert forall|s: int| !bit(0, s) by {
            lemma_zero_has_no_bit(s);
        }
    }
    for i in 0..mem_types.len()
        invariant
            mem_types@.len() <= MAX_MEMORY_TYPES,
            forall|t: int|
                #[trigger] bit(mask, t) <==> 0 <= t < i
                    && mem_types@[t].property_flags.includes(props),
    {
        if mem_types[i].property_flags.contains(props) {
            let ghost before = mask;
            let shift: u32 = i as u32;
            mask = mask | (1u32 << shift);
            proof {
                lemma_bit_or(before, shift);
            }
        }
    }
    mask
}

/// Whether bit `t` of `mask` is set.
fn has_bit(mask: u32, t: usize) -> (r: bool)
    requires
        t < MAX_MEMORY_TYPES,
    ensures
        r == bit(mask, t as int),
{
    (mask >> (t as u32)) & 1 == 1
}

/// Bits of an object's candidates, or nothing where no set of properties suits it.
fn candidate_mask<const P: usize>(
    mem_types: &[MemoryType],
    mem_props: &[MemoryPropertyFlags; P],
    supported: &[u32; P],
    req: MemoryRequirements,
) -> (r: Option<u32>)
    requires
        forall|p: int|
            0 <= p < P ==> is_support_mask(mem_types@, #[trigger] mem_props@[p], supported@[p]),
    ensures
        r is Some <==> compatible(mem_types@, mem_props@, req),
        r matches Some(mask) ==> mask != 0 && is_candidate_mask(
            mem_types@,
            mem_props@,
            req,
            mask,
        ),
{
    for p in 0..P
        invariant
            forall|p: int|
                0 <= p < P ==> is_support_mask(mem_types@, #[trigger] mem_props@[p], supported@[p]),
            forall|q: int| 0 <= q < p ==> !has_usable(mem_types@, #[trigger] mem_props@[q], req),
    {
        let mask: u32 = req.memory_type_bits & supported[p];
        proof {
            lemma_bit_and(req.memory_type_bits, supported@[p as int]);
            lemma_mask_zero(mask);
            assert(is_support_mask(mem_types@, mem_props@[p as int], supported@[p as int]));
            assert forall|t: int| #[trigger] bit(mask, t) <==> usable(
                mem_types@,
                mem_props@[p as int],
                req,
                t,
            ) by {}
        }
        if mask != 0 {
            proof {
                let t = choose|t: int| bit(mask, t);
                assert(usable(mem_types@, mem_props@[p as int], req, t));
                assert(earliest_set(mem_types@, mem_props@, req, p as int));
                assert forall|t: int| #[trigger] bit(mask, t) <==> candidate(
                    mem_types@,
                    mem_props@,
                    req,
                    t,
                ) by {
                    if candidate(mem_types@, mem_props@, req, t) {
                        let q = choose|q: int| #[trigger]
                            earliest_set(mem_types@, mem_props@, req, q) && usable(
                                mem_types@,
                                mem_props@[q],
                                req,
                                t,
                            );
                        assert(q == p) by {
                            if q < p {
                                assert(!has_usable(mem_types@, mem_props@[q], req));
                            } else if q > p {
                                assert(!has_usable(mem_types@, mem_props@[p as int], req));
                            }
                        }
                    }
                }
            }
            return Some(mask);
        }
        proof {
            assert forall|t: int| !usable(mem_types@, mem_props@[p as int], req, t) by {
                assert(!bit(mask, t));
            }
        }
    }
    None
}

/// How many of the objects have each memory type as a candidate.
fn support_counts<const P: usize, const S: usize>(
    mem_types: &[MemoryType],
    mem_props: &[MemoryPropertyFlags; P],
    obj_reqs: &[MemoryRequirements; S],
    masks: &[u32; S],
) -> (counts: [usize; MAX_MEMORY_TYPES])
    requires
        are_candidate_masks(mem_types@, mem_props@, obj_reqs@, masks@, S as int),
    ensures
        forall|t: int|
            0 <= t < MAX_MEMORY_TYPES ==> #[trigger] counts@[t] == support(
                mem_types@,
                mem_props@,
                obj_reqs@,
                t,
            ),
{
    let mut counts: [usize; MAX_MEMORY_TYPES] = [0usize; MAX_MEMORY_TYPES];
    for i in 0..S
        invariant
            are_candidate_masks(mem_types@, mem_props@, obj_reqs@, masks@, S as int),
            forall|t: int|
                0 <= t < MAX_MEMORY_TYPES ==> #[trigger] counts@[t] == support(
                    mem_types@,
                    mem_props@,
                    obj_reqs@.take(i as int),
                    t,
                ) && counts@[t] <= i,
    {
        let ghost next = obj_reqs@.take(i + 1);
        proof {
            assert(next.drop_last() =~= obj_reqs@.take(i as int));
            assert(next.last() == obj_reqs@[i as int]);
            assert(masks@[i as int] != 0);
        }
        for t in 0..MAX_MEMORY_TYPES
            invariant
                i < S,
                next == obj_reqs@.take(i + 1),
                next.drop_last() == obj_reqs@.take(i as int),
                next.last() == obj_reqs@[i as int],
                next.len() == i + 1,
                is_candidate_mask(mem_types@, mem_props@, obj_reqs@[i as int], masks@[i as int]),
                forall|u: int|
                    0 <= u < MAX_MEMORY_TYPES ==> #[trigger] counts@[u] == support(
                        mem_types@,
                        mem_props@,
                        if u < t { next } else { obj_reqs@.take(i as int) },
                        u,
                    ) && counts@[u] <= i + (if u < t { 1int } else { 0int }),
        {
            proof {
                assert(bit(masks@[i as int], t as int) <==> candidate(
                    mem_types@,
                    mem_props@,
                    next.last(),
                    t as int,
                ));
                assert(counts@[t as int] <= i);
            }
            if has_bit(masks[i], t) {
                counts[t] = counts[t] + 1;
            }
        }
    }
    proof {
        assert(obj_reqs@.take(S as int) =~= obj_reqs@);
    }
    counts
}

/// Of the memory types in `mask`, the one with the highest count; the lowest such index.
fn most_supported(mask: u32, counts: &[usize; MAX_MEMORY_TYPES]) -> (best: usize)
    requires
        mask != 0,
    ensures
        bit(mask, best as int),
        forall|u: int|
            u != best && #[trigger] bit(mask, u) ==> counts@[best as int] > counts@[u]
                || counts@[best as int] == counts@[u] && best < u,
{
    let mut best: usize = MAX_MEMORY_TYPES;
    for t in 0..MAX_MEMORY_TYPES
        invariant
            best == MAX_MEMORY_TYPES ==> forall|u: int| 0 <= u < t ==> !bit(mask, u),
            best != MAX_MEMORY_TYPES ==> best < t && bit(mask, best as int) && forall|u: int|
                0 <= u < t && u != best && #[trigger] bit(mask, u) ==> counts@[best as int]
                    > counts@[u] || counts@[best as int] == counts@[u] && best < u,
    {
        if has_bit(mask, t) {
            if best == MAX_MEMORY_TYPES || counts[t] > counts[best] {
                best = t;
            }
        }
    }
    proof {
        lemma_mask_zero(mask);
    }
    best
}

/// The distinct memory types of `assigned`, in the order in which they first occur there.
pub(crate) fn distinct_types<const S: usize>(assigned: &[usize; S]) -> (r: Vec<usize>)
    ensures
        r@ == first_occurrences(assigned@),
{
    let mut r: Vec<usize> = Vec::new();
    for i in 0..S
        invariant
            r@ == first_occurrences(assigned@.take(i as int)),
    {
        let mut known: bool = false;
        for k in 0..r.len()
            invariant
                i < S,
                known <==> exists|j: int| 0 <= j < k && r@[j] == assigned@[i as int],
        {
            if r[k] == assigned[i] {
                known = true;
            }
        }
        proof {
            let next = assigned@.take(i + 1);
            assert(next.drop_last() =~= assigned@.take(i as int));
            assert(next.last() == assigned@[i as int]);
        }
        if !known {
            r.push(assigned[i]);
        }
    }
    proof {
        assert(assigned@.take(S as int) =~= assigned@);
    }
    r
}

/// The listed types are those that occur, each once.
pub proof fn lemma_first_occurrences(assigned: Seq<usize>)
    ensures
        first_occurrences(assigned).no_duplicates(),
        first_occurrences(assigned).to_set() == assigned.to_set(),
        first_occurrences(assigned).len() == assigned.to_set().len(),
    decreases assigned.len(),
{
    let r = first_occurrences(assigned);
    if assigned.len() > 0 {
        let init = assigned.drop_last();
        let before = first_occurrences(init);
        lemma_first_occurrences(init);
        assert(assigned =~= init.push(assigned.last()));
        init.lemma_push_to_set_commute(assigned.last());
        before.lemma_push_to_set_commute(assigned.last());
        assert(before.contains(assigned.last()) <==> before.to_set().contains(assigned.last()));
        assert(r.to_set() =~= assigned.to_set());
    } else {
        assert(r.to_set() =~= assigned.to_set());
    }
    r.unique_seq_to_set();
}

/// Assigns a memory type to each object in such a way that each object gets the earliest
/// supported set of properties and that, where possible, objects share a memory type.
///
/// Returns the memory type of each object and how many different memory types these are.
pub fn assign_memory_type_indexes_to_objects_for_allocation<const P: usize, const S: usize>(
    data: UnassignedToMemoryObjectsData<'_, P, S>,
) -> (r: Result<([usize; S], usize), MemoryAssignmentError>)
    requires
        1 <= data.mem_types@.len() <= MAX_MEMORY_TYPES,
    ensures
        r == Err::<([usize; S], usize), _>(MemoryAssignmentError::AllPropertiesUnsupported)
            <==> no_set_supported(data.mem_types@, data.mem_props@),
        forall|i: usize|
            r == Err::<([usize; S], usize), _>(
                MemoryAssignmentError::ObjectIncompatibleWithAllProperties(i),
            ) <==> first_incompatible(data.mem_types@, data.mem_props@, data.obj_reqs@, i as int),
        r is Ok <==> assignable(data.mem_types@, data.mem_props@, data.obj_reqs@),
        r matches Ok((assigned, type_count)) ==> {
            &&& is_assignment(data.mem_types@, data.mem_props@, data.obj_reqs@, assigned@)
            &&& type_count == assigned@.to_set().len()
        },
{
    let mut supported: [u32; P] = [0u32; P];
    let mut any_supported: bool = false;
    for p in 0..P
        invariant
            data.mem_types@.len() <= MAX_MEMORY_TYPES,
            forall|q: int|
                0 <= q < p ==> is_support_mask(
                    data.mem_types@,
                    #[trigger] data.mem_props@[q],
                    supported@[q],
                ),
            any_supported <==> exists|q: int|
                0 <= q < p && set_supported(data.mem_types@, #[trigger] data.mem_props@[q]),
    {
        let mask: u32 = supported_types(data.mem_types, data.mem_props[p]);
        proof {
            lemma_mask_zero(mask);
            if mask != 0 {
                let t = choose|t: int| bit(mask, t);
                assert(data.mem_types@[t].property_flags.includes(data.mem_props@[p as int]));
                assert(set_supported(data.mem_types@, data.mem_props@[p as int]));
            } else if set_supported(data.mem_types@, data.mem_props@[p as int]) {
                let t = choose|t: int|
                    0 <= t < data.mem_types@.len() && (
                    #[trigger] data.mem_types@[t]).property_flags.includes(
                        data.mem_props@[p as int],
                    );
                assert(bit(mask, t));
            }
        }
        supported[p] = mask;
        if mask != 0 {
            any_supported = true;
        }
    }
    if !any_supported {
        return Err(MemoryAssignmentError::AllPropertiesUnsupported);
    }
    let mut masks: [u32; S] = [0u32; S];
    for i in 0..S
        invariant
            forall|p: int|
                0 <= p < P ==> is_support_mask(
                    data.mem_types@,
                    #[trigger] data.mem_props@[p],
                    supported@[p],
                ),
            !no_set_supported(data.mem_types@, data.mem_props@),
            are_candidate_masks(data.mem_types@, data.mem_props@, data.obj_reqs@, masks@, i as int),
    {
        match candidate_mask(data.mem_types, &data.mem_props, &supported, data.obj_reqs[i]) {
            Some(mask) => {
                masks[i] = mask;
            },
            None => {
                proof {
                    lemma_masks_compatible(
                        data.mem_types@,
                        data.mem_props@,
                        data.obj_reqs@,
                        masks@,
                        i as int,
                    );
                }
                return Err(MemoryAssignmentError::ObjectIncompatibleWithAllProperties(i));
            },
        }
    }
    proof {
        lemma_masks_compatible(data.mem_types@, data.mem_props@, data.obj_reqs@, masks@, S as int);
    }
    let counts = support_counts(data.mem_types, &data.mem_props, &data.obj_reqs, &masks);
    let mut assigned: [usize; S] = [usize::MAX; S];
    for i in 0..S
        invariant
            are_candidate_masks(data.mem_types@, data.mem_props@, data.obj_reqs@, masks@, S as int),
            forall|t: int|
                0 <= t < MAX_MEMORY_TYPES ==> #[trigger] counts@[t] == support(
                    data.mem_types@,
                    data.mem_props@,
                    data.obj_reqs@,
                    t,
                ),
            forall|j: int|
                0 <= j < i ==> assigned_type(
                    data.mem_types@,
                    data.mem_props@,
                    data.obj_reqs@,
                    j,
                    #[trigger] assigned@[j] as int,
                ),
    {
        assert(is_candidate_mask(
            data.mem_types@,
            data.mem_props@,
            data.obj_reqs@[i as int],
            masks@[i as int],
        ));
        let best: usize = most_supported(masks[i], &counts);
        proof {
            assert forall|u: int|
                u != best && #[trigger] candidate(
                    data.mem_types@,
                    data.mem_props@,
                    data.obj_reqs@[i as int],
                    u,
                ) implies preferred(
                data.mem_types@,
                data.mem_props@,
                data.obj_reqs@,
                best as int,
                u,
            ) by {
                assert(bit(masks@[i as int], u));
                assert(counts@[u] == support(data.mem_types@, data.mem_props@, data.obj_reqs@, u));
            }
        }
        assigned[i] = best;
    }
    let distinct = distinct_types(&assigned);
    proof {
        lemma_first_occurrences(assigned@);
    }
    Ok((assigned, distinct.len()))
}

/// An object's memory type exists, may hold the object and has every property of the earliest set
/// under which the object has any usable type.
pub proof fn law_assigned_type_serves_object(
    types: Seq<MemoryType>,
    props: Seq<MemoryPropertyFlags>,
    reqs: Seq<MemoryRequirements>,
    i: int,
    t: int,
)
    requires
        0 <= i < reqs.len(),
        assigned_type(types, props, reqs, i, t),
    ensures
        0 <= t < types.len(),
        t < MAX_MEMORY_TYPES,
        reqs[i].allows(t),
        exists|p: int| #[trigger]
            earliest_set(types, props, reqs[i], p) && types[t].property_flags.includes(props[p]),
{
    let p = choose|p: int| #[trigger]
        earliest_set(types, props, reqs[i], p) && usable(types, props[p], reqs[i], t);
    assert(earliest_set(types, props, reqs[i], p) && types[t].property_flags.includes(props[p]));
}

/// An object gets one memory type: the choice is determined by the memory types, the sets of
/// properties and the requirements.
pub proof fn law_assigned_type_unique(
    types: Seq<MemoryType>,
    props: Seq<MemoryPropertyFlags>,
    reqs: Seq<MemoryRequirements>,
    i: int,
    t: int,
    u: int,
)
    requires
        0 <= i < reqs.len(),
        assigned_type(types, props, reqs, i, t),
        assigned_type(types, props, reqs, i, u),
    ensures
        t == u,
{
}

/// Objects with the same candidates stay together.
pub proof fn law_same_candidates_same_type(
    types: Seq<MemoryType>,
    props: Seq<MemoryPropertyFlags>,
    reqs: Seq<MemoryRequirements>,
    i: int,
    j: int,
    t: int,
    u: int,
)
    requires
        0 <= i < reqs.len(),
        0 <= j < reqs.len(),
        forall|c: int| candidate(types, props, reqs[i], c) <==> candidate(types, props, reqs[j], c),
        assigned_type(types, props, reqs, i, t),
        assigned_type(types, props, reqs, j, u),
    ensures
        t == u,
{
    assert(candidate(types, props, reqs[i], u) && candidate(types, props, reqs[j], t));
}

proof fn lemma_support_bound(
    types: Seq<MemoryType>,
    props: Seq<MemoryPropertyFlags>,
    reqs: Seq<MemoryRequirements>,
    t: int,
)
    ensures
        support(types, props, reqs, t) <= reqs.len(),
        support(types, props, reqs, t) == reqs.len() <==> forall|i: int|
            0 <= i < reqs.len() ==> candidate(types, props, #[trigger] reqs[i], t),
    decreases reqs.len(),
{
    if reqs.len() > 0 {
        let init = reqs.drop_last();
        lemma_support_bound(types, props, init, t);
        if support(types, props, reqs, t) == reqs.len() {
            assert forall|i: int| 0 <= i < reqs.len() implies candidate(
                types,
                props,
                #[trigger] reqs[i],
                t,
            ) by {
                if i < init.len() {
                    assert(candidate(types, props, init[i], t));
                }
            }
        }
        if forall|i: int| 0 <= i < reqs.len() ==> candidate(types, props, #[trigger] reqs[i], t) {
            assert forall|i: int| 0 <= i < init.len() implies candidate(
                types,
                props,
                #[trigger] init[i],
                t,
            ) by {
                assert(init[i] == reqs[i]);
            }
            assert(reqs.last() == reqs[reqs.len() - 1]);
        }
    }
}

/// Where one memory type is a candidate of every object, all objects stay together: they get a
/// single memory type between them.
pub proof fn law_common_candidate_keeps_objects_together(
    types: Seq<MemoryType>,
    props: Seq<MemoryPropertyFlags>,
    reqs: Seq<MemoryRequirements>,
    assigned: Seq<usize>,
    common: int,
)
    requires
        reqs.len() > 0,
        is_assignment(types, props, reqs, assigned),
        forall|i: int| 0 <= i < reqs.len() ==> candidate(types, props, #[trigger] reqs[i], common),
    ensures
        forall|i: int| 0 <= i < assigned.len() ==> #[trigger] assigned[i] == assigned[0],
        assigned.to_set().len() == 1,
{
    lemma_support_bound(types, props, reqs, common);
    assert forall|i: int| 0 <= i < assigned.len() implies #[trigger] assigned[i] == assigned[0] by {
        let t = assigned[i] as int;
        let u = assigned[0] as int;
        assert(assigned_type(types, props, reqs, i, t));
        assert(assigned_type(types, props, reqs, 0, u));
        assert(candidate(types, props, reqs[i], common));
        assert(candidate(types, props, reqs[0], common));
        lemma_support_bound(types, props, reqs, t);
        lemma_support_bound(types, props, reqs, u);
        assert(support(types, props, reqs, t) == reqs.len());
        assert(support(types, props, reqs, u) == reqs.len());
        assert(candidate(types, props, reqs[0], t));
        assert(candidate(types, props, reqs[i], u));
    }
    assert(assigned.to_set() =~= set![assigned[0]]);
}

/// Both objects have the same candidates, each under its own memory types and property sets.
spec fn same_candidates(
    types1: Seq<MemoryType>,
    props1: Seq<MemoryPropertyFlags>,
    req1: MemoryRequirements,
    types2: Seq<MemoryType>,
    props2: Seq<MemoryPropertyFlags>,
    req2: MemoryRequirements,
) -> bool {
    forall|t: int|
        #![trigger candidate(types1, props1, req1, t)]
        #![trigger candidate(types2, props2, req2, t)]
        candidate(types1, props1, req1, t) == candidate(types2, props2, req2, t)
}

proof fn lemma_same_candidates_same_support(
    types1: Seq<MemoryType>,
    props1: Seq<MemoryPropertyFlags>,
    reqs1: Seq<MemoryRequirements>,
    types2: Seq<MemoryType>,
    props2: Seq<MemoryPropertyFlags>,
    reqs2: Seq<MemoryRequirements>,
    t: int,
)
    requires
        reqs1.len() == reqs2.len(),
        forall|i: int|
            0 <= i < reqs1.len() ==> same_candidates(
                types1,
                props1,
                #[trigger] reqs1[i],
                types2,
                props2,
                reqs2[i],
            ),
    ensures
        support(types1, props1, reqs1, t) == support(types2, props2, reqs2, t),
    decreases reqs1.len(),
{
    if reqs1.len() > 0 {
        let init1 = reqs1.drop_last();
        let init2 = reqs2.drop_last();
        assert forall|i: int| 0 <= i < init1.len() implies same_candidates(
            types1,
            props1,
            #[trigger] init1[i],
            types2,
            props2,
            init2[i],
        ) by {
            assert(init1[i] == reqs1[i]);
        }
        lemma_same_candidates_same_support(types1, props1, init1, types2, props2, init2, t);
        assert(reqs1.last() == reqs1[reqs1.len() - 1]);
    }
}

proof fn lemma_same_candidates_same_assignment(
    types1: Seq<MemoryType>,
    props1: Seq<MemoryPropertyFlags>,
    reqs1: Seq<MemoryRequirements>,
    types2: Seq<MemoryType>,
    props2: Seq<MemoryPropertyFlags>,
    reqs2: Seq<MemoryRequirements>,
    i: int,
    t: int,
)
    requires
        0 <= i < reqs1.len(),
        reqs1.len() == reqs2.len(),
        forall|j: int|
            0 <= j < reqs1.len() ==> same_candidates(
                types1,
                props1,
                #[trigger] reqs1[j],
                types2,
                props2,
                reqs2[j],
            ),
    ensures
        assigned_type(types1, props1, reqs1, i, t) == assigned_type(types2, props2, reqs2, i, t),
{
    assert(same_candidates(types1, props1, reqs1[i], types2, props2, reqs2[i]));
    assert forall|u: int| #[trigger]
        support(types1, props1, reqs1, u) == support(types2, props2, reqs2, u) by {
        lemma_same_candidates_same_support(types1, props1, reqs1, types2, props2, reqs2, u);
    }
}

proof fn lemma_support_without(
    types: Seq<MemoryType>,
    props: Seq<MemoryPropertyFlags>,
    reqs: Seq<MemoryRequirements>,
    i: int,
    t: int,
)
    requires
        0 <= i < reqs.len(),
    ensures
        support(types, props, reqs, t) == support(types, props, reqs.remove(i), t) + if candidate(
            types,
            props,
            reqs[i],
            t,
        ) {
            1int
        } else {
            0
        },
    decreases reqs.len(),
{
    let without = reqs.remove(i);
    if i == reqs.len() - 1 {
        assert(without =~= reqs.drop_last());
    } else {
        lemma_support_without(types, props, reqs.drop_last(), i, t);
        assert(without.drop_last() =~= reqs.drop_last().remove(i));
        assert(without.last() == reqs.last());
    }
}

proof fn lemma_reordered_same_support(
    types: Seq<MemoryType>,
    props: Seq<MemoryPropertyFlags>,
    reqs: Seq<MemoryRequirements>,
    reordered: Seq<MemoryRequirements>,
    t: int,
)
    requires
        reqs.to_multiset() == reordered.to_multiset(),
    ensures
        support(types, props, reqs, t) == support(types, props, reordered, t),
    decreases reqs.len(),
{
    reqs.to_multiset_ensures();
    reordered.to_multiset_ensures();
    if reqs.len() > 0 {
        let i = reqs.len() - 1;
        assert(reqs.contains(reqs[i]));
        assert(reordered.to_multiset().count(reqs[i]) > 0);
        let j = reordered.index_of(reqs[i]);
        lemma_support_without(types, props, reqs, i, t);
        lemma_support_without(types, props, reordered, j, t);
        assert(reqs.remove(i).to_multiset() =~= reordered.remove(j).to_multiset());
        lemma_reordered_same_support(types, props, reqs.remove(i), reordered.remove(j), t);
    }
}

/// The order of the objects does not matter: reordered, they can be given memory types exactly
/// where they could before, and each gets the same one.
pub proof fn law_object_order_does_not_matter(
    types: Seq<MemoryType>,
    props: Seq<MemoryPropertyFlags>,
    reqs: Seq<MemoryRequirements>,
    reordered: Seq<MemoryRequirements>,
    i: int,
    j: int,
    t: int,
)
    requires
        reqs.to_multiset() == reordered.to_multiset(),
        0 <= i < reqs.len(),
        0 <= j < reordered.len(),
        reqs[i] == reordered[j],
    ensures
        assignable(types, props, reqs) == assignable(types, props, reordered),
        assigned_type(types, props, reqs, i, t) == assigned_type(types, props, reordered, j, t),
{
    reqs.to_multiset_ensures();
    reordered.to_multiset_ensures();
    assert forall|k: int| 0 <= k < reordered.len() implies reqs.contains(
        #[trigger] reordered[k],
    ) by {
        assert(reordered.contains(reordered[k]));
        assert(reqs.to_multiset().count(reordered[k]) > 0);
    }
    assert forall|k: int| 0 <= k < reqs.len() implies reordered.contains(#[trigger] reqs[k]) by {
        assert(reqs.contains(reqs[k]));
        assert(reordered.to_multiset().count(reqs[k]) > 0);
    }
    assert forall|u: int| #[trigger]
        support(types, props, reqs, u) == support(types, props, reordered, u) by {
        lemma_reordered_same_support(types, props, reqs, reordered, u);
    }
}

/// Sets of properties appended behind the others change nothing for objects that find a memory
/// type without them.
pub proof fn law_appended_property_sets_change_nothing(
    types: Seq<MemoryType>,
    props: Seq<MemoryPropertyFlags>,
    appended: Seq<MemoryPropertyFlags>,
    reqs: Seq<MemoryRequirements>,
    i: int,
    t: int,
)
    requires
        assignable(types, props, reqs),
        0 <= i < reqs.len(),
    ensures
        assignable(types, props + appended, reqs),
        assigned_type(types, props + appended, reqs, i, t) == assigned_type(
            types,
            props,
            reqs,
            i,
            t,
        ),
{
    let all = props + appended;
    assert forall|p: int| 0 <= p < props.len() implies #[trigger] all[p] == props[p] by {}
    let supported = choose|p: int|
        0 <= p < props.len() && set_supported(types, #[trigger] props[p]);
    assert(set_supported(types, all[supported]));
    assert forall|j: int| 0 <= j < reqs.len() implies {
        &&& compatible(types, all, #[trigger] reqs[j])
        &&& same_candidates(types, all, reqs[j], types, props, reqs[j])
    } by {
        let req = reqs[j];
        assert(compatible(types, props, req));
        let p = choose|p: int| 0 <= p < props.len() && has_usable(types, #[trigger] props[p], req);
        assert(has_usable(types, all[p], req));
        assert forall|q: int| #[trigger]
            earliest_set(types, all, req, q) == earliest_set(types, props, req, q) by {
            if earliest_set(types, all, req, q) {
                assert(q <= p);
                assert forall|k: int| 0 <= k < q implies !has_usable(
                    types,
                    #[trigger] props[k],
                    req,
                ) by {
                    assert(!has_usable(types, all[k], req));
                }
            }
        }
        assert forall|u: int| candidate(types, all, req, u) == candidate(types, props, req, u) by {
            if candidate(types, all, req, u) {
                let q = choose|q: int| #[trigger]
                    earliest_set(types, all, req, q) && usable(types, all[q], req, u);
                assert(earliest_set(types, props, req, q));
            }
            if candidate(types, props, req, u) {
                let q = choose|q: int| #[trigger]
                    earliest_set(types, props, req, q) && usable(types, props[q], req, u);
                assert(earliest_set(types, all, req, q));
            }
        }
    }
    lemma_same_candidates_same_assignment(types, all, reqs, types, props, reqs, i, t);
}

/// Only the properties of the memory types and the types that each object allows are consulted.
/// Heaps, sizes and alignments change neither the memory types that the objects get nor the
/// error.
pub proof fn law_only_properties_and_allowed_types_matter(
    types1: Seq<MemoryType>,
    types2: Seq<MemoryType>,
    props: Seq<MemoryPropertyFlags>,
    reqs1: Seq<MemoryRequirements>,
    reqs2: Seq<MemoryRequirements>,
    i: int,
    t: int,
)
    requires
        types1.len() == types2.len(),
        forall|k: int|
            0 <= k < types1.len() ==> (#[trigger] types1[k]).property_flags
                == types2[k].property_flags,
        reqs1.len() == reqs2.len(),
        forall|k: int|
            0 <= k < reqs1.len() ==> (#[trigger] reqs1[k]).memory_type_bits
                == reqs2[k].memory_type_bits,
        0 <= i < reqs1.len(),
    ensures
        no_set_supported(types1, props) == no_set_supported(types2, props),
        first_incompatible(types1, props, reqs1, i) == first_incompatible(types2, props, reqs2, i),
        assigned_type(types1, props, reqs1, i, t) == assigned_type(types2, props, reqs2, i, t),
{
    assert forall|p: MemoryPropertyFlags| #[trigger]
        set_supported(types1, p) == set_supported(types2, p) by {
        if set_supported(types1, p) {
            let u = choose|u: int|
                0 <= u < types1.len() && (#[trigger] types1[u]).property_flags.includes(p);
            assert(types2[u].property_flags.includes(p));
        }
        if set_supported(types2, p) {
            let u = choose|u: int|
                0 <= u < types2.len() && (#[trigger] types2[u]).property_flags.includes(p);
            assert(types1[u].property_flags.includes(p));
        }
    }
    assert forall|j: int| 0 <= j < reqs1.len() implies {
        &&& compatible(types1, props, #[trigger] reqs1[j]) == compatible(types2, props, reqs2[j])
        &&& same_candidates(types1, props, reqs1[j], types2, props, reqs2[j])
    } by {
        let (req1, req2) = (reqs1[j], reqs2[j]);
        assert forall|p: MemoryPropertyFlags, u: int| #[trigger]
            usable(types1, p, req1, u) == usable(types2, p, req2, u) by {
            if 0 <= u < types1.len() {
                assert(types1[u].property_flags == types2[u].property_flags);
            }
        }
        assert forall|p: MemoryPropertyFlags| #[trigger]
            has_usable(types1, p, req1) == has_usable(types2, p, req2) by {
            if has_usable(types2, p, req2) {
                let u = choose|u: int| usable(types2, p, req2, u);
                assert(usable(types1, p, req1, u));
            }
        }
        assert forall|q: int| #[trigger]
            earliest_set(types1, props, req1, q) == earliest_set(types2, props, req2, q) by {}
        assert forall|u: int| candidate(types1, props, req1, u) == candidate(
            types2,
            props,
            req2,
            u,
        ) by {
            if candidate(types2, props, req2, u) {
                let q = choose|q: int| #[trigger]
                    earliest_set(types2, props, req2, q) && usable(types2, props[q], req2, u);
                assert(earliest_set(types1, props, req1, q));
            }
        }
    }
    lemma_same_candidates_same_assignment(types1, props, reqs1, types2, props, reqs2, i, t);
    if first_incompatible(types2, props, reqs2, i) {
        assert forall|j: int| 0 <= j < i implies compatible(types1, props, #[trigger] reqs1[j]) by {
            assert(compatible(types2, props, reqs2[j]));
        }
    }
    if first_incompatible(types1, props, reqs1, i) {
        assert forall|j: int| 0 <= j < i implies compatible(types2, props, #[trigger] reqs2[j]) by {
            assert(compatible(types1, props, reqs1[j]));
        }
    }
}

/// Memory type `t` is a candidate of an object exactly where it exists, its bit is set in the
/// object's mask, and it has all bits of one of the sets of properties while no type that the
/// object allows has all bits of an earlier set.
pub proof fn law_candidate_is_allowed_and_has_the_earliest_properties(
    types: Seq<MemoryType>,
    props: Seq<MemoryPropertyFlags>,
    req: MemoryRequirements,
    t: int,
)
    ensures
        candidate(types, props, req, t) <==> {
            &&& 0 <= t < types.len()
            &&& t < 32
            &&& (req.memory_type_bits >> (t as u32)) & 1 == 1
            &&& exists|p: int|
                0 <= p < props.len() && types[t].property_flags.bits & (#[trigger] props[p]).bits
                    == props[p].bits && (forall|q: int, u: int|
                    0 <= q < p && 0 <= u < types.len() && u < 32 && (req.memory_type_bits >> (
                    u as u32)) & 1 == 1 ==> (#[trigger] types[u]).property_flags.bits & (
                    #[trigger] props[q]).bits != props[q].bits)
        },
{
    if candidate(types, props, req, t) {
        let p = choose|p: int| #[trigger]
            earliest_set(types, props, req, p) && usable(types, props[p], req, t);
        assert forall|q: int, u: int|
            0 <= q < p && 0 <= u < types.len() && u < 32 && (req.memory_type_bits >> (u as u32)) & 1
                == 1 implies (#[trigger] types[u]).property_flags.bits & (#[trigger] props[q]).bits
            != props[q].bits by {
            assert(!has_usable(types, props[q], req));
            assert(!usable(types, props[q], req, u));
        }
        assert(types[t].property_flags.bits & props[p].bits == props[p].bits);
    }
    if 0 <= t < types.len() && t < 32 && (req.memory_type_bits >> (t as u32)) & 1 == 1 && (exists|
        p: int,
    |
        0 <= p < props.len() && types[t].property_flags.bits & (#[trigger] props[p]).bits
            == props[p].bits && (forall|q: int, u: int|
            0 <= q < p && 0 <= u < types.len() && u < 32 && (req.memory_type_bits >> (u as u32)) & 1
                == 1 ==> (#[trigger] types[u]).property_flags.bits & (#[trigger] props[q]).bits
                != props[q].bits)) {
        let p = choose|p: int|
            0 <= p < props.len() && types[t].property_flags.bits & (#[trigger] props[p]).bits
                == props[p].bits && (forall|q: int, u: int|
                0 <= q < p && 0 <= u < types.len() && u < 32 && (req.memory_type_bits >> (
                u as u32)) & 1 == 1 ==> (#[trigger] types[u]).property_flags.bits & (
                #[trigger] props[q]).bits != props[q].bits);
        assert(usable(types, props[p], req, t));
        assert forall|q: int| 0 <= q < p implies !has_usable(types, #[trigger] props[q], req) by {
            if has_usable(types, props[q], req) {
                let u = choose|u: int| usable(types, props[q], req, u);
                assert(types[u].property_flags.bits & props[q].bits == props[q].bits);
            }
        }
        assert(earliest_set(types, props, req, p));
    }
}

proof fn lemma_support_is_filtered_count(
    types: Seq<MemoryType>,
    props: Seq<MemoryPropertyFlags>,
    reqs: Seq<MemoryRequirements>,
    t: int,
)
    ensures
        support(types, props, reqs, t) == reqs.filter(
            |req: MemoryRequirements| candidate(types, props, req, t),
        ).len(),
    decreases reqs.len(),
{
    reveal(Seq::filter);
    if reqs.len() > 0 {
        lemma_support_is_filtered_count(types, props, reqs.drop_last(), t);
    }
}

/// Objects stay together where they can: no other candidate of an object is one of more objects
/// than the memory type that it gets, and of those that are candidates of as many the first is
/// taken.
pub proof fn law_most_shared_candidate_is_taken(
    types: Seq<MemoryType>,
    props: Seq<MemoryPropertyFlags>,
    reqs: Seq<MemoryRequirements>,
    assigned: Seq<usize>,
    i: int,
    u: int,
)
    requires
        is_assignment(types, props, reqs, assigned),
        0 <= i < reqs.len(),
        candidate(types, props, reqs[i], u),
        u != assigned[i],
    ensures
        ({
            let t = assigned[i] as int;
            let sharing_t = reqs.filter(
                |req: MemoryRequirements| candidate(types, props, req, t),
            ).len();
            let sharing_u = reqs.filter(
                |req: MemoryRequirements| candidate(types, props, req, u),
            ).len();
            &&& candidate(types, props, reqs[i], t)
            &&& sharing_u <= sharing_t
            &&& sharing_u == sharing_t ==> t < u
        }),
{
    let t = assigned[i] as int;
    assert(assigned_type(types, props, reqs, i, t));
    lemma_support_is_filtered_count(types, props, reqs, t);
    lemma_support_is_filtered_count(types, props, reqs, u);
}

/// An object gets a memory type that exists, whose bit is set in its mask, and that has all bits of
/// one of the sets of properties, while no type that it allows has all bits of an earlier set.
pub proof fn law_object_gets_allowed_type_with_earliest_properties(
    types: Seq<MemoryType>,
    props: Seq<MemoryPropertyFlags>,
    reqs: Seq<MemoryRequirements>,
    assigned: Seq<usize>,
    i: int,
)
    requires
        is_assignment(types, props, reqs, assigned),
        0 <= i < reqs.len(),
    ensures
        assigned[i] < types.len(),
        assigned[i] < 32,
        (reqs[i].memory_type_bits >> (assigned[i] as u32)) & 1 == 1,
        exists|p: int|
            0 <= p < props.len() && types[assigned[i] as int].property_flags.bits & (
            #[trigger] props[p]).bits == props[p].bits && (forall|q: int, u: int|
                0 <= q < p && 0 <= u < types.len() && u < 32 && (reqs[i].memory_type_bits >> (
                u as u32)) & 1 == 1 ==> (#[trigger] types[u]).property_flags.bits & (
                #[trigger] props[q]).bits != props[q].bits),
{
    let t = assigned[i] as int;
    assert(assigned_type(types, props, reqs, i, t));
    law_candidate_is_allowed_and_has_the_earliest_properties(types, props, reqs[i], t);
}

/// All sets of properties are unsupported exactly where every memory type lacks a bit of each.
pub proof fn law_unsupported_where_every_type_lacks_a_property(
    types: Seq<MemoryType>,
    props: Seq<MemoryPropertyFlags>,
)
    ensures
        no_set_supported(types, props) <==> forall|p: int, t: int|
            0 <= p < props.len() && 0 <= t < types.len() ==> (
            #[trigger] types[t]).property_flags.bits & (#[trigger] props[p]).bits != props[p].bits,
{
    if no_set_supported(types, props) {
        assert forall|p: int, t: int| 0 <= p < props.len() && 0 <= t < types.len() implies (
        #[trigger] types[t]).property_flags.bits & (#[trigger] props[p]).bits != props[p].bits by {
            assert(!set_supported(types, props[p]));
            assert(!types[t].property_flags.includes(props[p]));
        }
    } else {
        let p = choose|p: int| 0 <= p < props.len() && set_supported(types, #[trigger] props[p]);
        let t = choose|t: int|
            0 <= t < types.len() && (#[trigger] types[t]).property_flags.includes(props[p]);
        assert(types[t].property_flags.bits & props[p].bits == props[p].bits);
    }
}

/// An object is compatible exactly where a memory type that it allows has all bits of one of the
/// sets.
pub proof fn law_compatible_where_an_allowed_type_has_the_properties(
    types: Seq<MemoryType>,
    props: Seq<MemoryPropertyFlags>,
    req: MemoryRequirements,
)
    ensures
        compatible(types, props, req) <==> exists|p: int, t: int|
            0 <= p < props.len() && 0 <= t < types.len() && t < 32 && (req.memory_type_bits >> (
            t as u32)) & 1 == 1 && (#[trigger] types[t]).property_flags.bits & (
            #[trigger] props[p]).bits == props[p].bits,
{
    if compatible(types, props, req) {
        let p = choose|p: int| 0 <= p < props.len() && has_usable(types, #[trigger] props[p], req);
        let t = choose|t: int| usable(types, props[p], req, t);
        assert(types[t].property_flags.bits & props[p].bits == props[p].bits);
    }
    if exists|p: int, t: int|
        0 <= p < props.len() && 0 <= t < types.len() && t < 32 && (req.memory_type_bits >> (
        t as u32)) & 1 == 1 && (#[trigger] types[t]).property_flags.bits & (
        #[trigger] props[p]).bits == props[p].bits {
        let (p, t) = choose|p: int, t: int|
            0 <= p < props.len() && 0 <= t < types.len() && t < 32 && (req.memory_type_bits >> (
            t as u32)) & 1 == 1 && (#[trigger] types[t]).property_flags.bits & (
            #[trigger] props[p]).bits == props[p].bits;
        assert(usable(types, props[p], req, t));
        assert(has_usable(types, props[p], req));
    }
}

/// An object is reported exactly where some set of properties is supported at all, no memory type
/// that the object allows has all bits of any set, and every object before it is compatible.
pub proof fn law_first_incompatible_object_is_reported(
    types: Seq<MemoryType>,
    props: Seq<MemoryPropertyFlags>,
    reqs: Seq<MemoryRequirements>,
    i: int,
)
    requires
        0 <= i < reqs.len(),
    ensures
        first_incompatible(types, props, reqs, i) <==> {
            &&& exists|p: int, t: int|
                0 <= p < props.len() && 0 <= t < types.len() && (
                #[trigger] types[t]).property_flags.bits & (#[trigger] props[p]).bits
                    == props[p].bits
            &&& forall|p: int, t: int|
                0 <= p < props.len() && 0 <= t < types.len() && t < 32 && (
                reqs[i].memory_type_bits >> (t as u32)) & 1 == 1 ==> (
                #[trigger] types[t]).property_flags.bits & (#[trigger] props[p]).bits
                    != props[p].bits
            &&& forall|j: int| 0 <= j < i ==> compatible(types, props, #[trigger] reqs[j])
        },
        assignable(types, props, reqs) ==> !first_incompatible(types, props, reqs, i),
        first_incompatible(types, props, reqs, i) ==> !no_set_supported(types, props),
{
    law_unsupported_where_every_type_lacks_a_property(types, props);
    law_compatible_where_an_allowed_type_has_the_properties(types, props, reqs[i]);
}

/// Of the outcomes of an assignment exactly one holds: no set of properties is supported, some
/// object is the first incompatible one, or every object is compatible.
pub proof fn law_assignment_succeeds_or_names_one_error(
    types: Seq<MemoryType>,
    props: Seq<MemoryPropertyFlags>,
    reqs: Seq<MemoryRequirements>,
)
    ensures
        assignable(types, props, reqs) <==> !no_set_supported(types, props) && forall|i: int|
            0 <= i < reqs.len() ==> compatible(types, props, #[trigger] reqs[i]),
        !no_set_supported(types, props) && !assignable(types, props, reqs) ==> exists|i: int|
            first_incompatible(types, props, reqs, i),
        forall|i: int, j: int|
            #![trigger first_incompatible(types, props, reqs, i),
                first_incompatible(types, props, reqs, j)]
            first_incompatible(types, props, reqs, i) && first_incompatible(types, props, reqs, j)
                ==> i == j,
{
    if !no_set_supported(types, props) && !assignable(types, props, reqs) {
        let k = choose|k: int|
            0 <= k < reqs.len() && !compatible(types, props, #[trigger] reqs[k]);
        lemma_first_incompatible_exists(types, props, reqs, k);
    }
    assert forall|i: int, j: int|
        #![trigger first_incompatible(types, props, reqs, i),
            first_incompatible(types, props, reqs, j)]
        first_incompatible(types, props, reqs, i) && first_incompatible(
            types,
            props,
            reqs,
            j,
        ) implies i == j by {
        if i < j {
            assert(compatible(types, props, reqs[i]));
        }
        if j < i {
            assert(compatible(types, props, reqs[j]));
        }
    }
}

proof fn lemma_first_incompatible_exists(
    types: Seq<MemoryType>,
    props: Seq<MemoryPropertyFlags>,
    reqs: Seq<MemoryRequirements>,
    k: int,
)
    requires
        !no_set_supported(types, props),
        0 <= k < reqs.len(),
        !compatible(types, props, reqs[k]),
    ensures
        exists|i: int| first_incompatible(types, props, reqs, i),
    decreases k,
{
    if exists|j: int| 0 <= j < k && !compatible(types, props, #[trigger] reqs[j]) {
        let j = choose|j: int| 0 <= j < k && !compatible(types, props, #[trigger] reqs[j]);
        lemma_first_incompatible_exists(types, props, reqs, j);
    } else {
        assert(first_incompatible(types, props, reqs, k));
    }
}

/// Each listed memory type is that of an object before which every object has one of the types
/// listed before it: the types come in the order of the objects that first have them.
pub proof fn law_types_come_in_order_of_first_objects(assigned: Seq<usize>, i: int) -> (k: int)
    requires
        0 <= i < assigned.len(),
    ensures
        0 <= k < first_occurrences(assigned).len(),
        first_occurrences(assigned)[k] == assigned[i],
        forall|l: int|
            0 <= l < k ==> assigned.take(i).contains(#[trigger] first_occurrences(assigned)[l]),
    decreases assigned.len(),
{
    let init = assigned.drop_last();
    let before = first_occurrences(init);
    lemma_first_occurrences(init);
    if i < init.len() {
        let k = law_types_come_in_order_of_first_objects(init, i);
        assert(init.take(i) =~= assigned.take(i));
        assert forall|l: int| 0 <= l < k implies assigned.take(i).contains(
            #[trigger] first_occurrences(assigned)[l],
        ) by {
            assert(first_occurrences(assigned)[l] == before[l]);
        }
        k
    } else {
        assert(assigned.take(i) =~= init);
        assert forall|l: int| 0 <= l < before.len() implies init.contains(#[trigger] before[l]) by {
            assert(before.to_set().contains(before[l]));
            assert(init.to_set().contains(before[l]));
        }
        if before.contains(assigned.last()) {
            let k = choose|k: int| 0 <= k < before.len() && before[k] == assigned.last();
            k
        } else {
            assert forall|l: int| 0 <= l < before.len() implies assigned.take(i).contains(
                #[trigger] first_occurrences(assigned)[l],
            ) by {
                assert(first_occurrences(assigned)[l] == before[l]);
            }
            before.len() as int
        }
    }
}

} // verus!
