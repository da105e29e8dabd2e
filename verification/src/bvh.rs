//! Bounding-volume hierarchy construction: recursive binary splits over
//! a handle range, ordered along a randomly chosen axis, each node
//! carrying the merge of its children's boxes.

use vstd::prelude::*;
use crate::aabb::{box_contains_box, AABB, merge_spec, surrounding_box};
use crate::fx::{T_MAX_FX};
use crate::aabb::aabb_hit_spec;
use crate::hittable::{BvhNode, Surface, SurfaceSet, lemma_spec_box_prefix, set_wf, spec_box, spec_hit, spec_hit_list};
use crate::ray::RayV;
use crate::hittable_list::HittableList;
use crate::rng::random_u_m;
use crate::vec3::Vec3;

verus! {

/// The box-minimum coordinate used as the ordering key on one axis, at
/// the reference time.
pub open spec fn box_key(ns: Seq<Surface>, h: int, axis: int) -> int {
    match spec_box(ns, h, 0, 0) {
        Some(b) => if axis == 0 {
            b.minimum.x
        } else if axis == 1 {
            b.minimum.y
        } else {
            b.minimum.z
        },
        None => 0,
    }
}

/// Every handle in `[start, end)` points at a boundable surface.
pub open spec fn handles_ok(
    ns: Seq<Surface>,
    hs: Seq<usize>,
    start: int,
    end: int,
    t0: int,
    t1: int,
) -> bool {
    forall|k: int|
        start <= k < end ==> (#[trigger] hs[k] as int) < ns.len() && spec_box(
            ns,
            hs[k] as int,
            0,
            0,
        ) is Some && spec_box(ns, hs[k] as int, t0, t1) is Some
}

impl BvhNode {
    /// Order two surfaces by their box minimum on one axis.
    fn box_compare(set: &SurfaceSet, a: usize, b: usize, axis: u16) -> (r: bool)
        requires
            set_wf(set),
            a < set.surfaces@.len(),
            b < set.surfaces@.len(),
            spec_box(set.surfaces@, a as int, 0, 0) is Some,
            spec_box(set.surfaces@, b as int, 0, 0) is Some,
        ensures
            r == (box_key(set.surfaces@, a as int, axis as int) < box_key(
                set.surfaces@,
                b as int,
                axis as int,
            )),
    {
        let ba = match set.bounding_box(a, 0, 0) {
            Some(bx) => bx,
            None => AABB::new(&Vec3::zero(), &Vec3::zero()),
        };
        let bb = match set.bounding_box(b, 0, 0) {
            Some(bx) => bx,
            None => AABB::new(&Vec3::zero(), &Vec3::zero()),
        };
        if axis == 0 {
            ba.minimum.x < bb.minimum.x
        } else if axis == 1 {
            ba.minimum.y < bb.minimum.y
        } else {
            ba.minimum.z < bb.minimum.z
        }
    }

    fn box_x_compare(set: &SurfaceSet, a: usize, b: usize) -> (r: bool)
        requires
            set_wf(set),
            a < set.surfaces@.len(),
            b < set.surfaces@.len(),
            spec_box(set.surfaces@, a as int, 0, 0) is Some,
            spec_box(set.surfaces@, b as int, 0, 0) is Some,
        ensures
            r == (box_key(set.surfaces@, a as int, 0) < box_key(set.surfaces@, b as int, 0)),
    {
        BvhNode::box_compare(set, a, b, 0)
    }

    fn box_y_compare(set: &SurfaceSet, a: usize, b: usize) -> (r: bool)
        requires
            set_wf(set),
            a < set.surfaces@.len(),
            b < set.surfaces@.len(),
            spec_box(set.surfaces@, a as int, 0, 0) is Some,
            spec_box(set.surfaces@, b as int, 0, 0) is Some,
        ensures
            r == (box_key(set.surfaces@, a as int, 1) < box_key(set.surfaces@, b as int, 1)),
    {
        BvhNode::box_compare(set, a, b, 1)
    }

    fn box_z_compare(set: &SurfaceSet, a: usize, b: usize) -> (r: bool)
        requires
            set_wf(set),
            a < set.surfaces@.len(),
            b < set.surfaces@.len(),
            spec_box(set.surfaces@, a as int, 0, 0) is Some,
            spec_box(set.surfaces@, b as int, 0, 0) is Some,
        ensures
            r == (box_key(set.surfaces@, a as int, 2) < box_key(set.surfaces@, b as int, 2)),
    {
        BvhNode::box_compare(set, a, b, 2)
    }

    /// Sort the handle range ascending by box minimum on the chosen
    /// axis, by selection of minima; the handles are rearranged, never
    /// replaced.
    fn sort_range(
        set: &SurfaceSet,
        handles: &mut Vec<usize>,
        start: usize,
        end: usize,
        axis: u16,
        Ghost(t0): Ghost<int>,
        Ghost(t1): Ghost<int>,
    )
        requires
            set_wf(set),
            start <= end <= old(handles)@.len(),
            handles_ok(set.surfaces@, old(handles)@, start as int, end as int, t0, t1),
        ensures
            final(handles)@.len() == old(handles)@.len(),
            handles_ok(set.surfaces@, final(handles)@, start as int, end as int, t0, t1),
            forall|k: int|
                0 <= k < old(handles)@.len() && !(start <= k < end) ==> final(handles)@[k]
                    == old(handles)@[k],
            final(handles)@.subrange(start as int, end as int).to_multiset() == old(
                handles,
            )@.subrange(start as int, end as int).to_multiset(),
            forall|p: int, q: int|
                start <= p <= q < end ==> box_key(set.surfaces@,
                    (#[trigger] final(handles)@[p]) as int, axis as int) <= box_key(
                    set.surfaces@, (#[trigger] final(handles)@[q]) as int, axis as int),
    {
        let ghost ns = set.surfaces@;
        let mut i = start;
        while i < end
            invariant
                set_wf(set),
                set.surfaces@ == ns,
                start <= i <= end <= handles@.len(),
                handles@.len() == old(handles)@.len(),
                handles_ok(set.surfaces@, handles@, start as int, end as int, t0, t1),
                handles@.subrange(start as int, end as int).to_multiset() == old(
                    handles,
                )@.subrange(start as int, end as int).to_multiset(),
                forall|k: int|
                    0 <= k < handles@.len() && !(start <= k < end) ==> handles@[k] == old(
                        handles,
                    )@[k],
                forall|p: int, q: int|
                    start <= p <= q < i ==> box_key(ns, (#[trigger] handles@[p]) as int,
                        axis as int) <= box_key(ns, (#[trigger] handles@[q]) as int,
                        axis as int),
                forall|p: int, q: int|
                    start <= p < i <= q < end ==> box_key(ns, (#[trigger] handles@[p]) as int,
                        axis as int) <= box_key(ns, (#[trigger] handles@[q]) as int,
                        axis as int),
            decreases end - i,
        {
            let mut best = i;
            let mut j = i + 1;
            while j < end
                invariant
                    set_wf(set),
                    set.surfaces@ == ns,
                    start <= i <= best < end <= handles@.len(),
                    i < j,
                    j <= end,
                    i <= best < j,
                    handles_ok(set.surfaces@, handles@, start as int, end as int, t0, t1),
                    forall|q: int|
                        i <= q < j ==> box_key(ns, handles@[best as int] as int,
                            axis as int) <= box_key(ns, (#[trigger] handles@[q]) as int,
                            axis as int),
                decreases end - j,
            {
                if BvhNode::box_compare(set, handles[j], handles[best], axis) {
                    best = j;
                }
                j = j + 1;
            }
            let a = handles[i];
            let b = handles[best];
            let ghost before = handles@;
            handles[i] = b;
            handles[best] = a;
            proof {
                assert forall|p: int, q: int|
                    start <= p < (i + 1) && (i + 1) <= q < end implies box_key(ns,
                    (#[trigger] handles@[p]) as int, axis as int) <= box_key(ns,
                    (#[trigger] handles@[q]) as int, axis as int) by {
                    if q == best as int {
                        assert(handles@[q] == before[i as int]);
                    } else {
                        assert(handles@[q] == before[q]);
                    }
                    if p < i as int {
                        assert(handles@[p] == before[p]);
                    } else {
                        assert(handles@[p] == before[best as int]);
                    }
                }
                assert(handles@.subrange(start as int, end as int) =~= before.subrange(
                    start as int,
                    end as int,
                ).update(i as int - start as int, b).update(best as int - start as int, a));
                lemma_swap_multiset_handles(
                    before.subrange(start as int, end as int),
                    handles@.subrange(start as int, end as int),
                    i as int - start as int,
                    best as int - start as int,
                );
            }
            i = i + 1;
        }
    }

    /// Build the tree over the handle range: single elements duplicate
    /// into both children, pairs order by box key, longer ranges sort,
    /// split at the midpoint and recurse. The new node's box is the
    /// merge of its children's.
    pub fn new(
        set: &mut SurfaceSet,
        src_objects: &mut Vec<usize>,
        start: usize,
        end: usize,
        time0: i64,
        time1: i64,
    ) -> (id: usize)
        requires
            set_wf(old(set)),
            start < end <= old(src_objects)@.len(),
            -T_MAX_FX <= time0 <= T_MAX_FX,
            -T_MAX_FX <= time1 <= T_MAX_FX,
            handles_ok(old(set).surfaces@, old(src_objects)@, start as int, end as int,
                time0 as int, time1 as int),
        ensures
            set_wf(final(set)),
            final(set).materials@ == old(set).materials@,
            old(set).surfaces@.len() < final(set).surfaces@.len(),
            forall|i: int|
                0 <= i < old(set).surfaces@.len()
                    ==> final(set).surfaces@[i] == old(set).surfaces@[i],
            id < final(set).surfaces@.len(),
            spec_box(final(set).surfaces@, id as int, time0 as int, time1 as int) is Some,
            spec_box(final(set).surfaces@, id as int, 0, 0) is Some,
            ({
                let nsf = final(set).surfaces@;
                match nsf[id as int] {
                    Surface::BvhNode(node) => (node.left as int) < id as int && (
                    node.right as int) < id as int && match (spec_box(nsf, node.left as int,
                        time0 as int, time1 as int), spec_box(nsf, node.right as int,
                        time0 as int, time1 as int)) {
                        (Some(b0), Some(b1)) => nsf[id as int] == Surface::BvhNode(node)
                            && node.boox@ == crate::aabb::merge_spec(b0, b1),
                        _ => false,
                    },
                    _ => false,
                }
            }),
            final(src_objects)@.len() == old(src_objects)@.len(),
            forall|k: int|
                0 <= k < old(src_objects)@.len() && !(start <= k < end)
                    ==> final(src_objects)@[k] == old(src_objects)@[k],
            final(src_objects)@.subrange(start as int, end as int).to_multiset() == old(
                src_objects,
            )@.subrange(start as int, end as int).to_multiset(),
            handles_ok(final(set).surfaces@, final(src_objects)@, start as int, end as int,
                time0 as int, time1 as int),
            plain_handles(old(set).surfaces@, old(src_objects)@, start as int, end as int)
                ==> ({
                let lms = bvh_leaves(final(set).surfaces@, id as int).to_multiset();
                let rms = final(src_objects)@.subrange(start as int,
                    end as int).to_multiset();
                forall|hh: usize|
                    rms.count(hh) <= #[trigger] lms.count(hh) && lms.count(hh) <= 2
                        * rms.count(hh)
            }),
            ({
                let nsf = final(set).surfaces@;
                let hsf = final(src_objects)@;
                match nsf[id as int] {
                    Surface::BvhNode(node) => {
                        &&& (end - start == 1 ==> node.left == old(src_objects)@[
                            start as int
                        ] && node.right == old(src_objects)@[start as int])
                        &&& (end - start == 2 ==> ((node.left == old(src_objects)@[
                            start as int
                        ] && node.right == old(src_objects)@[start as int + 1]) || (
                        node.left == old(src_objects)@[start as int + 1] && node.right
                            == old(src_objects)@[start as int])) && (exists|ax: int|
                            0 <= ax < 3 && box_key(nsf, node.left as int, ax) <= box_key(
                                nsf,
                                node.right as int,
                                ax,
                            )))
                        &&& forall|k: int|
                            start <= k < end ==> (match spec_box(nsf,
                                (#[trigger] hsf[k]) as int, time0 as int, time1 as int) {
                                Some(bx) => box_contains_box(node.boox@, bx),
                                _ => false,
                            })
                    },
                    _ => false,
                }
            }),
        decreases end - start,
    {
        let axis = random_u_m(0, 3);
        let object_span = end - start;
        if object_span == 1 {
            let left = src_objects[start];
            let id = BvhNode::push_node(set, left, left, time0, time1);
            proof {
                lemma_handles_ok_prefix(old(set).surfaces@, set.surfaces@, src_objects@,
                    start as int, end as int, time0 as int, time1 as int);
                let nsf = set.surfaces@;
                crate::aabb::lemma_merge_contains_and_minimal(
                    spec_box(nsf, left as int, time0 as int, time1 as int).unwrap(),
                    spec_box(nsf, left as int, time0 as int, time1 as int).unwrap(),
                );
                if plain_handles(old(set).surfaces@, old(src_objects)@, start as int,
                    end as int) {
                    broadcast use vstd::multiset::group_multiset_axioms;

                    assert(!(nsf[left as int] is BvhNode));
                    assert(bvh_leaves(nsf, left as int) =~= seq![left]);
                    assert(bvh_leaves(nsf, id as int) =~= seq![left] + seq![left]);
                    lemma_singleton_ms_counts(left);
                    vstd::seq_lib::lemma_multiset_commutative(seq![left], seq![left]);
                    assert(src_objects@.subrange(start as int, end as int) =~= seq![left]);
                }
            }
            id
        } else if object_span == 2 {
            let ha = src_objects[start];
            let hb = src_objects[start + 1];
            let first_is_less = if axis == 0 {
                BvhNode::box_x_compare(set, ha, hb)
            } else if axis == 1 {
                BvhNode::box_y_compare(set, ha, hb)
            } else {
                BvhNode::box_z_compare(set, ha, hb)
            };
            let (left, right): (usize, usize) = if first_is_less {
                (ha, hb)
            } else {
                (hb, ha)
            };
            let ghost ns_pre = set.surfaces@;
            let id = BvhNode::push_node(set, left, right, time0, time1);
            proof {
                lemma_handles_ok_prefix(ns_pre, set.surfaces@, src_objects@, start as int,
                    end as int, time0 as int, time1 as int);
                let nsf = set.surfaces@;
                lemma_spec_box_prefix(ns_pre, nsf, left as int, 0, 0);
                lemma_spec_box_prefix(ns_pre, nsf, right as int, 0, 0);
                lemma_spec_box_prefix(ns_pre, nsf, left as int, time0 as int, time1 as int);
                lemma_spec_box_prefix(ns_pre, nsf, right as int, time0 as int,
                    time1 as int);
                assert(0 <= axis as int && (axis as int) < 3 && box_key(nsf, left as int,
                    axis as int) <= box_key(nsf, right as int, axis as int));
                crate::aabb::lemma_merge_contains_and_minimal(
                    spec_box(nsf, left as int, time0 as int, time1 as int).unwrap(),
                    spec_box(nsf, right as int, time0 as int, time1 as int).unwrap(),
                );
                if plain_handles(old(set).surfaces@, old(src_objects)@, start as int,
                    end as int) {
                    broadcast use vstd::multiset::group_multiset_axioms;

                    assert(!(nsf[left as int] is BvhNode) && !(nsf[right as int]
                        is BvhNode));
                    assert(bvh_leaves(nsf, left as int) =~= seq![left]);
                    assert(bvh_leaves(nsf, right as int) =~= seq![right]);
                    assert(bvh_leaves(nsf, id as int) =~= seq![left] + seq![right]);
                    lemma_singleton_ms_counts(left);
                    lemma_singleton_ms_counts(right);
                    lemma_singleton_ms_counts(ha);
                    lemma_singleton_ms_counts(hb);
                    vstd::seq_lib::lemma_multiset_commutative(seq![left], seq![right]);
                    vstd::seq_lib::lemma_multiset_commutative(seq![ha], seq![hb]);
                    assert(src_objects@.subrange(start as int, end as int) =~= seq![ha]
                        + seq![hb]);
                }
            }
            id
        } else {
            BvhNode::sort_range(set, src_objects, start, end, axis, Ghost(time0 as int),
                Ghost(time1 as int));
            let mid = start + (end - start) / 2;
            let ghost ns0 = set.surfaces@;
            let ghost hs0 = src_objects@;
            let l = BvhNode::new(set, src_objects, start, mid, time0, time1);
            let ghost ns1 = set.surfaces@;
            let ghost hs1 = src_objects@;
            proof {
                assert forall|k: int|
                    (mid as int) <= k < end implies (#[trigger] hs1[k] as int) < ns1.len()
                    && spec_box(ns1, hs1[k] as int, 0, 0) is Some && spec_box(ns1,
                    hs1[k] as int, time0 as int, time1 as int) is Some by {
                    assert(hs1[k] == hs0[k]);
                    lemma_spec_box_prefix(ns0, ns1, hs0[k] as int, 0, 0);
                    lemma_spec_box_prefix(ns0, ns1, hs0[k] as int, time0 as int,
                        time1 as int);
                }
            }
            let r = BvhNode::new(set, src_objects, mid, end, time0, time1);
            let ghost ns2 = set.surfaces@;
            let ghost hs2 = src_objects@;
            proof {
                lemma_spec_box_prefix(ns1, ns2, l as int, time0 as int, time1 as int);
                lemma_spec_box_prefix(ns1, ns2, l as int, 0, 0);
                assert forall|k: int|
                    (start as int) <= k < end implies (#[trigger] hs2[k] as int) < ns2.len()
                    && spec_box(ns2, hs2[k] as int, 0, 0) is Some && spec_box(ns2,
                    hs2[k] as int, time0 as int, time1 as int) is Some by {
                    if k < mid as int {
                        assert(hs2[k] == hs1[k]);
                        lemma_spec_box_prefix(ns1, ns2, hs1[k] as int, 0, 0);
                        lemma_spec_box_prefix(ns1, ns2, hs1[k] as int, time0 as int,
                            time1 as int);
                    }
                }
                lemma_subrange_ms_frame(hs0, hs1, start as int, start as int, mid as int,
                    end as int);
                lemma_subrange_ms_frame(hs1, hs2, start as int, mid as int, end as int,
                    end as int);
            }
            let id = BvhNode::push_node(set, l, r, time0, time1);
            proof {
                lemma_handles_ok_prefix(ns2, set.surfaces@, src_objects@, start as int,
                    end as int, time0 as int, time1 as int);
                let nsf = set.surfaces@;
                let hsf = src_objects@;
                lemma_spec_box_prefix(ns2, nsf, l as int, time0 as int, time1 as int);
                lemma_spec_box_prefix(ns2, nsf, r as int, time0 as int, time1 as int);
                let bl = spec_box(nsf, l as int, time0 as int, time1 as int).unwrap();
                let br = spec_box(nsf, r as int, time0 as int, time1 as int).unwrap();
                crate::aabb::lemma_merge_contains_and_minimal(bl, br);
                assert forall|k: int|
                    start <= k < end implies (match spec_box(nsf,
                    (#[trigger] hsf[k]) as int, time0 as int, time1 as int) {
                    Some(bx) => box_contains_box(merge_spec(bl, br), bx),
                    _ => false,
                }) by {
                    lemma_spec_box_prefix(ns2, nsf, hsf[k] as int, time0 as int,
                        time1 as int);
                    if k < mid as int {
                        assert(hsf[k] == hs2[k] && hs2[k] == hs1[k]);
                        lemma_spec_box_prefix(ns1, ns2, hs1[k] as int, time0 as int,
                            time1 as int);
                        assert(spec_box(ns1, l as int, time0 as int, time1 as int)
                            == spec_box(nsf, l as int, time0 as int, time1 as int));
                    } else {
                        assert(hsf[k] == hs2[k]);
                    }
                }
                if plain_handles(old(set).surfaces@, old(src_objects)@, start as int,
                    end as int) {
                    broadcast use vstd::multiset::group_multiset_axioms;

                    // plainness flows through the sort's permutation, then
                    // splits over the two halves
                    lemma_plain_transfer(old(set).surfaces@, ns0, old(src_objects)@, hs0,
                        start as int, end as int, start as int, end as int);
                    assert(plain_handles(ns0, hs0, start as int, mid as int));
                    assert(hs1.subrange(mid as int, end as int) =~= hs0.subrange(
                        mid as int,
                        end as int,
                    ));
                    lemma_plain_transfer(ns0, ns1, hs0, hs1, mid as int, end as int,
                        mid as int, end as int);
                    // the children's leaf multisets, lifted to the final arena
                    lemma_bvh_leaves_prefix(ns1, nsf, l as int);
                    lemma_bvh_leaves_prefix(ns2, nsf, r as int);
                    assert(bvh_leaves(nsf, id as int) =~= bvh_leaves(nsf, l as int)
                        + bvh_leaves(nsf, r as int));
                    vstd::seq_lib::lemma_multiset_commutative(bvh_leaves(nsf, l as int),
                        bvh_leaves(nsf, r as int));
                    assert(hsf.subrange(start as int, mid as int) =~= hs1.subrange(
                        start as int,
                        mid as int,
                    ));
                    assert(hsf.subrange(start as int, end as int) =~= hsf.subrange(
                        start as int,
                        mid as int,
                    ) + hsf.subrange(mid as int, end as int));
                    vstd::seq_lib::lemma_multiset_commutative(
                        hsf.subrange(start as int, mid as int),
                        hsf.subrange(mid as int, end as int),
                    );
                }
            }
            id
        }
    }

    /// Push one tree node over two existing children: the node's box is
    /// the merge of the children's boxes at the query times.
    fn push_node(set: &mut SurfaceSet, left: usize, right: usize, time0: i64, time1: i64)
        -> (id: usize)
        requires
            set_wf(old(set)),
            left < old(set).surfaces@.len(),
            right < old(set).surfaces@.len(),
            -T_MAX_FX <= time0 <= T_MAX_FX,
            -T_MAX_FX <= time1 <= T_MAX_FX,
            spec_box(old(set).surfaces@, left as int, time0 as int, time1 as int) is Some,
            spec_box(old(set).surfaces@, right as int, time0 as int, time1 as int) is Some,
            spec_box(old(set).surfaces@, left as int, 0, 0) is Some,
            spec_box(old(set).surfaces@, right as int, 0, 0) is Some,
        ensures
            set_wf(final(set)),
            final(set).materials@ == old(set).materials@,
            id == old(set).surfaces@.len(),
            final(set).surfaces@.len() == old(set).surfaces@.len() + 1,
            forall|i: int|
                0 <= i < old(set).surfaces@.len()
                    ==> final(set).surfaces@[i] == old(set).surfaces@[i],
            spec_box(final(set).surfaces@, id as int, time0 as int, time1 as int) is Some,
            spec_box(final(set).surfaces@, id as int, 0, 0) is Some,
            ({
                let nsf = final(set).surfaces@;
                match nsf[id as int] {
                    Surface::BvhNode(node) => node.left == left && node.right == right
                        && (match (spec_box(nsf, left as int, time0 as int, time1 as int),
                    spec_box(nsf, right as int, time0 as int, time1 as int)) {
                        (Some(b0), Some(b1)) => node.boox@ == merge_spec(b0, b1),
                        _ => false,
                    }),
                    _ => false,
                }
            }),
    {
        let box0 = match set.bounding_box(left, time0, time1) {
            Some(b) => b,
            None => AABB::new(&Vec3::zero(), &Vec3::zero()),
        };
        let box1 = match set.bounding_box(right, time0, time1) {
            Some(b) => b,
            None => AABB::new(&Vec3::zero(), &Vec3::zero()),
        };
        let boox = surrounding_box(&box0, &box1);
        let node = BvhNode { left, right, boox };
        let ghost ns_before = set.surfaces@;
        let id = set.push_surface(Surface::BvhNode(node));
        proof {
            lemma_spec_box_prefix(ns_before, set.surfaces@, left as int, time0 as int,
                time1 as int);
            lemma_spec_box_prefix(ns_before, set.surfaces@, right as int, time0 as int,
                time1 as int);
            lemma_spec_box_prefix(ns_before, set.surfaces@, left as int, 0, 0);
            lemma_spec_box_prefix(ns_before, set.surfaces@, right as int, 0, 0);
        }
        id
    }

    /// Wrap a whole surface list in a tree. Construction demands a box
    /// for every listed surface; a missing one, or an empty list, is a
    /// scene-construction error reported as no value.
    pub fn new_with_list(set: &mut SurfaceSet, list: &HittableList, time0: i64, time1: i64)
        -> (root: Option<usize>)
        requires
            set_wf(old(set)),
            -T_MAX_FX <= time0 <= T_MAX_FX,
            -T_MAX_FX <= time1 <= T_MAX_FX,
        ensures
            set_wf(final(set)),
            final(set).materials@ == old(set).materials@,
            forall|i: int|
                0 <= i < old(set).surfaces@.len()
                    ==> final(set).surfaces@[i] == old(set).surfaces@[i],
            match root {
                Some(id) => id < final(set).surfaces@.len(),
                None => final(set).surfaces@ == old(set).surfaces@,
            },
    {
        if list.objects.len() == 0 {
            return None;
        }
        let mut handles: Vec<usize> = Vec::new();
        let mut k: usize = 0;
        while k < list.objects.len()
            invariant
                set_wf(set),
                *set == *old(set),
                k <= list.objects@.len(),
                handles@.len() == k,
                -T_MAX_FX <= time0 <= T_MAX_FX,
                -T_MAX_FX <= time1 <= T_MAX_FX,
                handles_ok(set.surfaces@, handles@, 0, k as int, time0 as int, time1 as int),
            decreases list.objects@.len() - k,
        {
            let h = list.objects[k];
            if h >= set.surfaces.len() {
                return None;
            }
            let b0 = set.bounding_box(h, 0, 0);
            let b1 = set.bounding_box(h, time0, time1);
            let ok = match (b0, b1) {
                (Some(_), Some(_)) => true,
                _ => false,
            };
            if !ok {
                return None;
            }
            handles.push(h);
            k = k + 1;
        }
        let n = handles.len();
        let root = BvhNode::new(set, &mut handles, 0, n, time0, time1);
        Some(root)
    }
}

/// Changing a sequence only inside a window, as a permutation of that
/// window, permutes every enclosing window.
proof fn lemma_subrange_ms_frame(h1: Seq<usize>, h2: Seq<usize>, s: int, a: int, b: int,
    e: int)
    requires
        0 <= s <= a <= b <= e <= h1.len(),
        h1.len() == h2.len(),
        h2.subrange(a, b).to_multiset() == h1.subrange(a, b).to_multiset(),
        forall|k: int| 0 <= k < h1.len() && !(a <= k < b) ==> h2[k] == h1[k],
    ensures
        h2.subrange(s, e).to_multiset() == h1.subrange(s, e).to_multiset(),
{
    assert(h2.subrange(s, a) =~= h1.subrange(s, a));
    assert(h2.subrange(b, e) =~= h1.subrange(b, e));
    assert(h1.subrange(s, e) =~= h1.subrange(s, a) + h1.subrange(a, b) + h1.subrange(b, e));
    assert(h2.subrange(s, e) =~= h2.subrange(s, a) + h2.subrange(a, b) + h2.subrange(b, e));
    vstd::seq_lib::lemma_multiset_commutative(h1.subrange(s, a), h1.subrange(a, b));
    vstd::seq_lib::lemma_multiset_commutative(h1.subrange(s, a) + h1.subrange(a, b),
        h1.subrange(b, e));
    vstd::seq_lib::lemma_multiset_commutative(h2.subrange(s, a), h2.subrange(a, b));
    vstd::seq_lib::lemma_multiset_commutative(h2.subrange(s, a) + h2.subrange(a, b),
        h2.subrange(b, e));
}

/// Handle validity survives extending the arena.
proof fn lemma_handles_ok_prefix(
    ns1: Seq<Surface>,
    ns2: Seq<Surface>,
    hs: Seq<usize>,
    start: int,
    end: int,
    t0: int,
    t1: int,
)
    requires
        handles_ok(ns1, hs, start, end, t0, t1),
        0 <= start,
        end <= hs.len(),
        ns1.len() <= ns2.len(),
        forall|i: int| 0 <= i < ns1.len() ==> ns2[i] == ns1[i],
    ensures
        handles_ok(ns2, hs, start, end, t0, t1),
{
    assert forall|k: int|
        start <= k < end implies (#[trigger] hs[k] as int) < ns2.len() && spec_box(
        ns2,
        hs[k] as int,
        0,
        0,
    ) is Some && spec_box(ns2, hs[k] as int, t0, t1) is Some by {
        lemma_spec_box_prefix(ns1, ns2, hs[k] as int, 0, 0);
        lemma_spec_box_prefix(ns1, ns2, hs[k] as int, t0, t1);
    }
}

/// Swapping two positions preserves the multiset of handles.
proof fn lemma_swap_multiset_handles(before: Seq<usize>, after: Seq<usize>, i: int, t: int)
    requires
        0 <= t < before.len(),
        0 <= i < before.len(),
        after == before.update(i, before[t]).update(t, before[i]),
    ensures
        after.to_multiset() == before.to_multiset(),
{
    if i == t {
        assert(after =~= before);
    } else {
        broadcast use vstd::multiset::group_multiset_axioms;

        let mid = before.update(i, before[t]);
        before.to_multiset_ensures();
        mid.to_multiset_ensures();
        vstd::seq_lib::to_multiset_update(before, i, before[t]);
        vstd::seq_lib::to_multiset_update(mid, t, before[i]);
        assert(mid[t] == before[t]);
        assert(before.contains(before[i]));
        assert(before.to_multiset().count(before[i]) > 0);
        assert(mid.contains(mid[i]));
        assert(mid.to_multiset().count(before[t]) > 0);
        assert forall|x: usize|
            after.to_multiset().count(x) == before.to_multiset().count(x) by {
        }
        assert(after.to_multiset() =~= before.to_multiset());
    }
}

/// Every entry below a bound.
pub open spec fn elems_lt(objs: Seq<usize>, bound: int) -> bool {
    forall|k: int| 0 <= k < objs.len() ==> (#[trigger] objs[k] as int) < bound
}

/// The leaves under a tree node, left to right; a non-tree surface is its
/// own single leaf.
pub open spec fn bvh_leaves(ns: Seq<Surface>, idx: int) -> Seq<usize>
    decreases idx, 1int, 0int,
{
    if 0 <= idx < ns.len() {
        match ns[idx] {
            Surface::BvhNode(b) => if (b.left as int) < idx && (b.right as int) < idx {
                bvh_leaves(ns, b.left as int) + bvh_leaves(ns, b.right as int)
            } else {
                seq![idx as usize]
            },
            _ => seq![idx as usize],
        }
    } else {
        seq![idx as usize]
    }
}

/// No handle in the range is itself a tree node: every handle is its
/// own single leaf.
pub open spec fn plain_handles(ns: Seq<Surface>, hs: Seq<usize>, start: int, end: int)
    -> bool {
    forall|k: int|
        start <= k < end ==> !(ns[(#[trigger] hs[k]) as int] is BvhNode)
}

/// Leaves do not depend on arena entries above the node.
proof fn lemma_bvh_leaves_prefix(ns1: Seq<Surface>, ns2: Seq<Surface>, idx: int)
    requires
        0 <= idx < ns1.len(),
        ns1.len() <= ns2.len(),
        forall|i: int| 0 <= i < ns1.len() ==> ns2[i] == ns1[i],
    ensures
        bvh_leaves(ns2, idx) == bvh_leaves(ns1, idx),
    decreases idx, 1int, 0int,
{
    match ns1[idx] {
        Surface::BvhNode(b) => {
            if (b.left as int) < idx && (b.right as int) < idx {
                lemma_bvh_leaves_prefix(ns1, ns2, b.left as int);
                lemma_bvh_leaves_prefix(ns1, ns2, b.right as int);
            }
        },
        _ => {},
    }
}

/// A singleton sequence's multiset counts: one for the element, zero
/// elsewhere.
proof fn lemma_singleton_ms_counts(x: usize)
    ensures
        seq![x].to_multiset().count(x) == 1,
        forall|y: usize| y != x ==> #[trigger] seq![x].to_multiset().count(y) == 0,
{
    broadcast use vstd::multiset::group_multiset_axioms;

    let s = seq![x];
    s.to_multiset_ensures();
    assert(s[0] == x && s.len() == 1);
    assert(s.contains(x));
    assert(s.to_multiset().len() == 1);
    assert(s.to_multiset().count(x) <= s.to_multiset().len());
    assert forall|y: usize| y != x implies #[trigger] s.to_multiset().count(y) == 0 by {
        if s.to_multiset().count(y) > 0 {
            assert(s.contains(y));
        }
    }
}

/// Plainness transfers along a permutation of the handles and an
/// extension of the arena.
proof fn lemma_plain_transfer(
    ns1: Seq<Surface>,
    ns2: Seq<Surface>,
    hs1: Seq<usize>,
    hs2: Seq<usize>,
    s1: int,
    e1: int,
    s2: int,
    e2: int,
)
    requires
        plain_handles(ns1, hs1, s1, e1),
        0 <= s1 <= e1 <= hs1.len(),
        0 <= s2 <= e2 <= hs2.len(),
        hs2.subrange(s2, e2).to_multiset() == hs1.subrange(s1, e1).to_multiset(),
        forall|k: int| s1 <= k < e1 ==> ((#[trigger] hs1[k]) as int) < ns1.len(),
        ns1.len() <= ns2.len(),
        forall|i: int| 0 <= i < ns1.len() ==> ns2[i] == ns1[i],
    ensures
        plain_handles(ns2, hs2, s2, e2),
{
    broadcast use vstd::multiset::group_multiset_axioms;

    let sub1 = hs1.subrange(s1, e1);
    let sub2 = hs2.subrange(s2, e2);
    sub1.to_multiset_ensures();
    sub2.to_multiset_ensures();
    assert forall|k: int|
        s2 <= k < e2 implies !(ns2[((#[trigger] hs2[k]) as int)] is BvhNode) by {
        let v = hs2[k];
        assert(sub2[k - s2] == v);
        assert(sub2.contains(v));
        assert(sub2.to_multiset().count(v) > 0);
        assert(sub1.to_multiset().count(v) > 0);
        assert(sub1.contains(v));
        let j = choose|j: int| 0 <= j < sub1.len() && sub1[j] == v;
        assert(hs1[s1 + j] == v);
    }
}

/// The box filter of every tree node under `idx` is sound for this ray:
/// whenever a node's slab test rejects an interval, no leaf below that
/// node hits inside it. Exact in real arithmetic; in fixed point the
/// rounded slab bounds can in rare cases cut a grazing hit, which is why
/// it stands as a hypothesis here.
pub open spec fn filter_sound(ns: Seq<Surface>, idx: int, r: RayV) -> bool
    decreases idx, 1int, 0int,
{
    if 0 <= idx < ns.len() {
        match ns[idx] {
            Surface::BvhNode(b) => if (b.left as int) < idx && (b.right as int) < idx {
                &&& (forall|a: int, b2: int|
                    !aabb_hit_spec(b.boox@, r, a, b2) ==> spec_hit_list(
                        ns,
                        bvh_leaves(ns, idx),
                        ns.len() as int,
                        r,
                        a,
                        b2,
                    ) is None)
                &&& filter_sound(ns, b.left as int, r)
                &&& filter_sound(ns, b.right as int, r)
            } else {
                true
            },
            _ => true,
        }
    } else {
        true
    }
}

/// Leaf handles stay below the arena length.
proof fn lemma_leaves_bounded(ns: Seq<Surface>, idx: int)
    requires
        0 <= idx < ns.len(),
    ensures
        elems_lt(bvh_leaves(ns, idx), ns.len() as int),
        bvh_leaves(ns, idx).len() >= 1,
    decreases idx, 1int, 0int,
{
    match ns[idx] {
        Surface::BvhNode(b) => {
            if (b.left as int) < idx && (b.right as int) < idx {
                lemma_leaves_bounded(ns, b.left as int);
                lemma_leaves_bounded(ns, b.right as int);
            }
        },
        _ => {},
    }
}

/// A single-leaf scan is that surface's own intersection.
proof fn lemma_hit_singleton(ns: Seq<Surface>, e: usize, bound: int, r: RayV, tmin: int,
    tmax: int)
    requires
        0 <= (e as int) < bound,
    ensures
        spec_hit_list(ns, seq![e], bound, r, tmin, tmax) == spec_hit(ns, e as int, r, tmin,
            tmax),
{
    let s = seq![e];
    assert(s.len() == 1 && s[0] == e);
    assert(s.drop_first() =~= Seq::<usize>::empty());
    match spec_hit(ns, e as int, r, tmin, tmax) {
        Some(h) => {
            assert(spec_hit_list(ns, Seq::<usize>::empty(), bound, r, tmin, h.t) is None);
            assert(spec_hit_list(ns, s, bound, r, tmin, tmax) == Some(h));
        },
        None => {
            assert(spec_hit_list(ns, Seq::<usize>::empty(), bound, r, tmin, tmax) is None);
            assert(spec_hit_list(ns, s, bound, r, tmin, tmax) is None);
        },
    }
}

/// Scanning a concatenation equals scanning the first part, then the
/// second over the narrowed interval: the shrink semantics compose.
proof fn lemma_hit_list_append(
    ns: Seq<Surface>,
    s1: Seq<usize>,
    s2: Seq<usize>,
    bound: int,
    r: RayV,
    tmin: int,
    tmax: int,
)
    requires
        bound >= 0,
        elems_lt(s1, bound),
        elems_lt(s2, bound),
    ensures
        spec_hit_list(ns, s1 + s2, bound, r, tmin, tmax) == (match spec_hit_list(ns, s1,
            bound, r, tmin, tmax) {
            Some(h) => match spec_hit_list(ns, s2, bound, r, tmin, h.t) {
                Some(h2) => Some(h2),
                None => Some(h),
            },
            None => spec_hit_list(ns, s2, bound, r, tmin, tmax),
        }),
    decreases s1.len(),
{
    if s1.len() == 0 {
        assert(s1 + s2 =~= s2);
    } else {
        let rest = s1.drop_first();
        assert((s1 + s2)[0] == s1[0]);
        assert((s1 + s2).len() > 0);
        assert((s1 + s2).drop_first() =~= rest + s2);
        assert forall|k: int| 0 <= k < rest.len() implies (#[trigger] rest[k] as int)
            < bound by {
            assert(rest[k] == s1[k + 1]);
        }
        let first = spec_hit(ns, s1[0] as int, r, tmin, tmax);
        match first {
            Some(h) => {
                lemma_hit_list_append(ns, rest, s2, bound, r, tmin, h.t);
            },
            None => {
                lemma_hit_list_append(ns, rest, s2, bound, r, tmin, tmax);
            },
        }
    }
}

/// The heart of the acceleration structure: a tree query returns exactly
/// what the linear scan over its leaves returns, for every ray and
/// interval, whenever the box filter is sound for that ray. The interval
/// shrink past the left child's hit is what keeps the right child from
/// reporting a farther intersection.
pub proof fn lemma_bvh_hit_equals_scan(ns: Seq<Surface>, idx: int, r: RayV, tmin: int,
    tmax: int)
    requires
        0 <= idx < ns.len(),
        ns.len() <= usize::MAX,
        filter_sound(ns, idx, r),
    ensures
        spec_hit(ns, idx, r, tmin, tmax) == spec_hit_list(ns, bvh_leaves(ns, idx),
            ns.len() as int, r, tmin, tmax),
    decreases idx, 1int, 0int,
{
    let bound = ns.len() as int;
    assert(idx as usize as int == idx);
    match ns[idx] {
        Surface::BvhNode(b) => {
            if (b.left as int) < idx && (b.right as int) < idx {
                let ll = bvh_leaves(ns, b.left as int);
                let lr = bvh_leaves(ns, b.right as int);
                lemma_leaves_bounded(ns, b.left as int);
                lemma_leaves_bounded(ns, b.right as int);
                if !aabb_hit_spec(b.boox@, r, tmin, tmax) {
                    assert(spec_hit_list(ns, bvh_leaves(ns, idx), bound, r, tmin, tmax)
                        is None);
                } else {
                    lemma_bvh_hit_equals_scan(ns, b.left as int, r, tmin, tmax);
                    let lres = spec_hit(ns, b.left as int, r, tmin, tmax);
                    match lres {
                        Some(h) => {
                            lemma_bvh_hit_equals_scan(ns, b.right as int, r, tmin, h.t);
                            lemma_hit_list_append(ns, ll, lr, bound, r, tmin, tmax);
                        },
                        None => {
                            lemma_bvh_hit_equals_scan(ns, b.right as int, r, tmin, tmax);
                            lemma_hit_list_append(ns, ll, lr, bound, r, tmin, tmax);
                        },
                    }
                }
            } else {
                lemma_hit_singleton(ns, idx as usize, bound, r, tmin, tmax);
            }
        },
        _ => {
            lemma_hit_singleton(ns, idx as usize, bound, r, tmin, tmax);
        },
    }
}

} // verus!
