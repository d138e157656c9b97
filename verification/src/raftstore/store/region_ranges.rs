//! The key ranges of the regions of one store: which region ends where,
//! and why no two regions share a key.

use crate::proto::metapb::RegionView;
use crate::raftstore::store::keys::{
    lemma_data_key_below_max, lemma_data_key_order, spec_data_end_key, spec_data_key,
};
use crate::raftstore::store::util::key_in_region;
use crate::util::codec::order::{
    lemma_lex_irreflexive, lemma_lex_le_iff_not_gt, lemma_lex_le_transitive, lex_le, lex_lt,
};
use vstd::prelude::*;

verus! {

/// Whether the region's range is known: a placeholder has no peers yet.
pub open spec fn initialized(r: RegionView) -> bool {
    r.peers.len() > 0
}

/// The stored key at which the region starts.
pub open spec fn enc_start(r: RegionView) -> Seq<u8> {
    spec_data_key(r.start_key)
}

/// The stored key at which the region ends.
pub open spec fn enc_end(r: RegionView) -> Seq<u8> {
    spec_data_end_key(r.end_key)
}

/// Whether the region's range holds at least one key: it ends after its
/// start, or it has no upper bound.
pub open spec fn valid_range(r: RegionView) -> bool {
    r.end_key.len() == 0 || lex_lt(r.start_key, r.end_key)
}

/// Whether two regions lie apart: one ends at or before the start of the
/// other.
pub open spec fn disjoint(a: RegionView, b: RegionView) -> bool {
    lex_le(enc_end(a), enc_start(b)) || lex_le(enc_end(b), enc_start(a))
}

/// Whether two regions have the same range.
pub open spec fn same_range(a: RegionView, b: RegionView) -> bool {
    a.start_key == b.start_key && a.end_key == b.end_key
}

/// Whether the store has recorded where region `id` ends.
pub open spec fn registered(
    regions: Map<u64, RegionView>,
    ranges: Map<Seq<u8>, u64>,
    id: u64,
) -> bool {
    regions.contains_key(id) && ranges.contains_key(enc_end(regions[id])) && ranges[enc_end(
        regions[id],
    )] == id
}

/// Whether the regions of a store and its record of where they end agree:
/// every initialized region is recorded under its end; every record is
/// that of a region of the store, which ends there and holds a key; and no
/// two recorded regions overlap.
pub open spec fn ranges_consistent(
    regions: Map<u64, RegionView>,
    ranges: Map<Seq<u8>, u64>,
) -> bool {
    &&& forall|id: u64| #[trigger] regions.contains_key(id) ==> regions[id].id == id
    &&& forall|id: u64| #[trigger]
        regions.contains_key(id) && initialized(regions[id]) ==> registered(regions, ranges, id)
    &&& forall|k: Seq<u8>| #[trigger]
        ranges.contains_key(k) ==> regions.contains_key(ranges[k]) && enc_end(regions[ranges[k]])
            == k && valid_range(regions[ranges[k]])
    &&& forall|k1: Seq<u8>, k2: Seq<u8>|
        k1 != k2 && #[trigger] ranges.contains_key(k1) && #[trigger] ranges.contains_key(k2)
            ==> disjoint(regions[ranges[k1]], regions[ranges[k2]])
}

/// Whether some recorded region of the store other than `r` itself
/// overlaps the range of `r`.
pub open spec fn overlaps_other(
    regions: Map<u64, RegionView>,
    ranges: Map<Seq<u8>, u64>,
    r: RegionView,
) -> bool {
    exists|k: Seq<u8>| #[trigger]
        ranges.contains_key(k) && ranges[k] != r.id && !disjoint(regions[ranges[k]], r)
}

/// The stored start of a region with a valid range lies before its stored
/// end.
pub proof fn lemma_valid_range_encoded(r: RegionView)
    requires
        valid_range(r),
    ensures
        lex_lt(enc_start(r), enc_end(r)),
{
    if r.end_key.len() == 0 {
        lemma_data_key_below_max(r.start_key);
    } else {
        lemma_data_key_order(r.start_key, r.end_key);
    }
}

/// A user key lies in a region exactly when its stored key lies between
/// the region's stored start and stored end.
pub proof fn lemma_key_in_region_encoded(key: Seq<u8>, r: RegionView)
    ensures
        key_in_region(key, r) <==> (lex_le(enc_start(r), spec_data_key(key)) && lex_lt(
            spec_data_key(key),
            enc_end(r),
        )),
{
    lemma_data_key_order(r.start_key, key);
    lemma_data_key_order(key, r.end_key);
    lemma_data_key_below_max(key);
}

/// Two regions that lie apart share no key.
pub proof fn lemma_disjoint_share_no_key(a: RegionView, b: RegionView, key: Seq<u8>)
    requires
        disjoint(a, b),
    ensures
        !(key_in_region(key, a) && key_in_region(key, b)),
{
    lemma_key_in_region_encoded(key, a);
    lemma_key_in_region_encoded(key, b);
    let k = spec_data_key(key);
    if key_in_region(key, a) && key_in_region(key, b) {
        if lex_le(enc_end(a), enc_start(b)) {
            lemma_lex_le_transitive(enc_end(a), enc_start(b), k);
            lemma_lex_le_iff_not_gt(enc_end(a), k);
        } else {
            lemma_lex_le_transitive(enc_end(b), enc_start(a), k);
            lemma_lex_le_iff_not_gt(enc_end(b), k);
        }
    }
}

/// Two regions whose ranges each hold a key overlap exactly when some key
/// lies in both.
pub proof fn lemma_overlap_shares_key(a: RegionView, b: RegionView)
    requires
        valid_range(a),
        valid_range(b),
    ensures
        !disjoint(a, b) <==> exists|key: Seq<u8>|
            key_in_region(key, a) && #[trigger] key_in_region(key, b),
{
    if exists|key: Seq<u8>| key_in_region(key, a) && #[trigger] key_in_region(key, b) {
        let key = choose|key: Seq<u8>| key_in_region(key, a) && #[trigger] key_in_region(key, b);
        if disjoint(a, b) {
            lemma_disjoint_share_no_key(a, b, key);
        }
    }
    if !disjoint(a, b) {
        // the later of the two starts lies in both
        let key = if lex_le(a.start_key, b.start_key) {
            b.start_key
        } else {
            a.start_key
        };
        lemma_valid_range_encoded(a);
        lemma_valid_range_encoded(b);
        lemma_key_in_region_encoded(key, a);
        lemma_key_in_region_encoded(key, b);
        lemma_data_key_order(a.start_key, b.start_key);
        lemma_data_key_order(b.start_key, a.start_key);
        lemma_lex_le_iff_not_gt(enc_end(a), enc_start(b));
        lemma_lex_le_iff_not_gt(enc_end(b), enc_start(a));
        lemma_lex_le_iff_not_gt(a.start_key, b.start_key);
        assert(key_in_region(key, a) && key_in_region(key, b));
    }
}

/// What the store's test for an overlap finds. The range of `r` overlaps
/// another recorded region exactly when a recorded region with another id
/// shares a key with `r`; and every region of the store whose range is
/// known is recorded.
pub proof fn lemma_overlaps_other_shares_key(
    regions: Map<u64, RegionView>,
    ranges: Map<Seq<u8>, u64>,
    r: RegionView,
)
    requires
        ranges_consistent(regions, ranges),
        valid_range(r),
    ensures
        overlaps_other(regions, ranges, r) <==> exists|id: u64, key: Seq<u8>|
            id != r.id && registered(regions, ranges, id) && #[trigger] key_in_region(
                key,
                regions[id],
            ) && key_in_region(key, r),
        forall|id: u64| #[trigger]
            regions.contains_key(id) && initialized(regions[id]) ==> registered(
                regions,
                ranges,
                id,
            ),
{
    if overlaps_other(regions, ranges, r) {
        let k = choose|k: Seq<u8>| #[trigger]
            ranges.contains_key(k) && ranges[k] != r.id && !disjoint(regions[ranges[k]], r);
        let id = ranges[k];
        lemma_overlap_shares_key(regions[id], r);
        let key = choose|key: Seq<u8>|
            key_in_region(key, regions[id]) && #[trigger] key_in_region(key, r);
        assert(id != r.id && registered(regions, ranges, id) && key_in_region(key, regions[id])
            && key_in_region(key, r));
    }
    if exists|id: u64, key: Seq<u8>|
        id != r.id && registered(regions, ranges, id) && #[trigger] key_in_region(
            key,
            regions[id],
        ) && key_in_region(key, r) {
        let (id, key) = choose|id: u64, key: Seq<u8>|
            id != r.id && registered(regions, ranges, id) && #[trigger] key_in_region(
                key,
                regions[id],
            ) && key_in_region(key, r);
        if disjoint(regions[id], r) {
            lemma_disjoint_share_no_key(regions[id], r, key);
        }
        let k = enc_end(regions[id]);
        assert(ranges.contains_key(k) && ranges[k] != r.id && !disjoint(regions[ranges[k]], r));
    }
}

/// No two distinct initialized regions of a store share any key.
pub proof fn lemma_regions_share_no_key(
    regions: Map<u64, RegionView>,
    ranges: Map<Seq<u8>, u64>,
    a: u64,
    b: u64,
    key: Seq<u8>,
)
    requires
        ranges_consistent(regions, ranges),
        regions.contains_key(a),
        regions.contains_key(b),
        a != b,
        initialized(regions[a]),
        initialized(regions[b]),
    ensures
        disjoint(regions[a], regions[b]),
        !(key_in_region(key, regions[a]) && key_in_region(key, regions[b])),
{
    let ka = enc_end(regions[a]);
    let kb = enc_end(regions[b]);
    assert(registered(regions, ranges, a) && registered(regions, ranges, b));
    assert(ranges.contains_key(ka) && ranges.contains_key(kb));
    assert(ka != kb);
    lemma_disjoint_share_no_key(regions[a], regions[b], key);
}

/// The records of a store are a set of ranges that hold a key each and do
/// not overlap, and they are the ranges of the store's regions: each
/// initialized region has its record, and each record is a region's.
pub proof fn lemma_ranges_match_regions(
    regions: Map<u64, RegionView>,
    ranges: Map<Seq<u8>, u64>,
    k1: Seq<u8>,
    k2: Seq<u8>,
    key: Seq<u8>,
)
    requires
        ranges_consistent(regions, ranges),
        ranges.contains_key(k1),
        ranges.contains_key(k2),
        k1 != k2,
    ensures
        ranges[k1] != ranges[k2],
        lex_lt(enc_start(regions[ranges[k1]]), k1),
        !(key_in_region(key, regions[ranges[k1]]) && key_in_region(key, regions[ranges[k2]])),
{
    lemma_valid_range_encoded(regions[ranges[k1]]);
    lemma_disjoint_share_no_key(regions[ranges[k1]], regions[ranges[k2]], key);
}

/// Two halves of a region that was split lie apart from each other, lie
/// inside the region, and hold a key each.
pub proof fn lemma_split_halves(r: RegionView, left: RegionView, right: RegionView)
    requires
        valid_range(r),
        left.start_key == r.start_key,
        left.end_key == right.start_key,
        right.end_key == r.end_key,
        lex_lt(r.start_key, left.end_key),
        key_in_region(left.end_key, r),
    ensures
        valid_range(left),
        valid_range(right),
        disjoint(left, right),
        enc_start(left) == enc_start(r),
        enc_end(right) == enc_end(r),
        lex_lt(enc_end(left), enc_end(r)),
        lex_lt(enc_start(r), enc_start(right)),
        left.end_key.len() > 0,
{
    let split = left.end_key;
    if split.len() == 0 {
        assert(!lex_lt(r.start_key, split));
    }
    lemma_data_key_order(r.start_key, split);
    if r.end_key.len() == 0 {
        lemma_data_key_below_max(split);
    } else {
        lemma_data_key_order(split, r.end_key);
    }
}

/// A region that lies apart from a region lies apart from every region
/// inside it.
pub proof fn lemma_disjoint_from_part(other: RegionView, r: RegionView, part: RegionView)
    requires
        disjoint(other, r),
        lex_le(enc_start(r), enc_start(part)),
        lex_le(enc_end(part), enc_end(r)),
    ensures
        disjoint(other, part),
{
    if lex_le(enc_end(other), enc_start(r)) {
        lemma_lex_le_transitive(enc_end(other), enc_start(r), enc_start(part));
    } else {
        lemma_lex_le_transitive(enc_end(part), enc_end(r), enc_start(other));
    }
}

/// Two recorded regions end at different keys, and a region that lies
/// apart from a region with a valid range does not end where that one ends.
proof fn lemma_disjoint_ends_differ(a: RegionView, b: RegionView)
    requires
        disjoint(a, b),
        valid_range(a),
        valid_range(b),
    ensures
        enc_end(a) != enc_end(b),
{
    lemma_valid_range_encoded(a);
    lemma_valid_range_encoded(b);
    if enc_end(a) == enc_end(b) {
        lemma_lex_le_iff_not_gt(enc_end(a), enc_start(b));
        lemma_lex_le_iff_not_gt(enc_end(b), enc_start(a));
    }
}

/// Replacing a region by one with the same id and range keeps the store's
/// ranges consistent, and the region stays recorded if it was.
pub proof fn lemma_replace_same_range(
    regions: Map<u64, RegionView>,
    ranges: Map<Seq<u8>, u64>,
    r: RegionView,
)
    requires
        ranges_consistent(regions, ranges),
        regions.contains_key(r.id),
        same_range(regions[r.id], r),
        initialized(r) ==> registered(regions, ranges, r.id),
    ensures
        ranges_consistent(regions.insert(r.id, r), ranges),
        registered(regions.insert(r.id, r), ranges, r.id) == registered(regions, ranges, r.id),
{
    let after = regions.insert(r.id, r);
    assert forall|id: u64| #[trigger] after.contains_key(id) && initialized(after[id]) implies registered(
        after,
        ranges,
        id,
    ) by {
        if id != r.id {
            assert(regions.contains_key(id));
            assert(registered(regions, ranges, id));
        }
    }
    assert forall|k: Seq<u8>| #[trigger] ranges.contains_key(k) implies after.contains_key(
        ranges[k],
    ) && enc_end(after[ranges[k]]) == k && valid_range(after[ranges[k]]) by {
        assert(regions.contains_key(ranges[k]));
    }
    assert forall|k1: Seq<u8>, k2: Seq<u8>|
        k1 != k2 && #[trigger] ranges.contains_key(k1) && #[trigger] ranges.contains_key(
            k2,
        ) implies disjoint(after[ranges[k1]], after[ranges[k2]]) by {
        assert(disjoint(regions[ranges[k1]], regions[ranges[k2]]));
    }
    assert forall|id: u64| #[trigger] after.contains_key(id) implies after[id].id == id by {
        if id != r.id {
            assert(regions.contains_key(id));
        }
    }
}

/// Taking a region out, with its record if it has one, keeps the store's
/// ranges consistent.
pub proof fn lemma_remove_region(
    regions: Map<u64, RegionView>,
    ranges: Map<Seq<u8>, u64>,
    id: u64,
)
    requires
        ranges_consistent(regions, ranges),
        regions.contains_key(id),
    ensures
        registered(regions, ranges, id) ==> ranges_consistent(
            regions.remove(id),
            ranges.remove(enc_end(regions[id])),
        ),
        !registered(regions, ranges, id) ==> ranges_consistent(regions.remove(id), ranges),
        forall|r: RegionView|
            r.id == id ==> (#[trigger] overlaps_other(regions, ranges, r) <==> overlaps_other(
                regions.remove(id),
                if registered(regions, ranges, id) {
                    ranges.remove(enc_end(regions[id]))
                } else {
                    ranges
                },
                r,
            )),
{
    let after = regions.remove(id);
    let m = if registered(regions, ranges, id) {
        ranges.remove(enc_end(regions[id]))
    } else {
        ranges
    };
    assert forall|other: u64| #[trigger] after.contains_key(other) && initialized(
        after[other],
    ) implies registered(after, m, other) by {
        assert(regions.contains_key(other));
        assert(registered(regions, ranges, other));
    }
    assert forall|k: Seq<u8>| #[trigger] m.contains_key(k) implies after.contains_key(m[k])
        && enc_end(after[m[k]]) == k && valid_range(after[m[k]]) by {
        assert(ranges.contains_key(k));
        assert(regions.contains_key(ranges[k]));
    }
    assert forall|k1: Seq<u8>, k2: Seq<u8>|
        k1 != k2 && #[trigger] m.contains_key(k1) && #[trigger] m.contains_key(k2) implies disjoint(
        after[m[k1]],
        after[m[k2]],
    ) by {
        assert(ranges.contains_key(k1) && ranges.contains_key(k2));
        assert(disjoint(regions[ranges[k1]], regions[ranges[k2]]));
    }
    assert forall|other: u64| #[trigger] after.contains_key(other) implies after[other].id
        == other by {
        assert(regions.contains_key(other));
    }
    assert forall|r: RegionView| r.id == id implies (#[trigger] overlaps_other(regions, ranges, r)
        <==> overlaps_other(after, m, r)) by {
        if overlaps_other(regions, ranges, r) {
            let k = choose|k: Seq<u8>| #[trigger]
                ranges.contains_key(k) && ranges[k] != r.id && !disjoint(regions[ranges[k]], r);
            assert(m.contains_key(k));
            assert(regions.contains_key(ranges[k]));
        }
        if overlaps_other(after, m, r) {
            let k = choose|k: Seq<u8>| #[trigger]
                m.contains_key(k) && m[k] != r.id && !disjoint(after[m[k]], r);
            assert(ranges.contains_key(k));
            assert(regions.contains_key(ranges[k]));
        }
    }
}

/// Putting in a region under a new id keeps the store's ranges
/// consistent; an initialized region must be recorded, and a recorded one
/// must hold a key and overlap no other.
pub proof fn lemma_insert_region(
    regions: Map<u64, RegionView>,
    ranges: Map<Seq<u8>, u64>,
    r: RegionView,
    record: bool,
)
    requires
        ranges_consistent(regions, ranges),
        !regions.contains_key(r.id),
        initialized(r) ==> record,
        record ==> valid_range(r) && !overlaps_other(regions, ranges, r),
    ensures
        record ==> !ranges.contains_key(enc_end(r)) && ranges_consistent(
            regions.insert(r.id, r),
            ranges.insert(enc_end(r), r.id),
        ),
        !record ==> ranges_consistent(regions.insert(r.id, r), ranges),
{
    let after = regions.insert(r.id, r);
    let m = if record {
        ranges.insert(enc_end(r), r.id)
    } else {
        ranges
    };
    if record && ranges.contains_key(enc_end(r)) {
        let k = enc_end(r);
        assert(regions.contains_key(ranges[k]));
        assert(ranges[k] != r.id);
        assert(disjoint(regions[ranges[k]], r));
        lemma_disjoint_ends_differ(regions[ranges[k]], r);
    }
    assert forall|id: u64| #[trigger] after.contains_key(id) && initialized(after[id]) implies registered(
        after,
        m,
        id,
    ) by {
        if id != r.id {
            assert(regions.contains_key(id));
            assert(registered(regions, ranges, id));
        }
    }
    assert forall|k: Seq<u8>| #[trigger] m.contains_key(k) implies after.contains_key(m[k])
        && enc_end(after[m[k]]) == k && valid_range(after[m[k]]) by {
        if !(record && k == enc_end(r)) {
            assert(ranges.contains_key(k));
            assert(regions.contains_key(ranges[k]));
        }
    }
    assert forall|k1: Seq<u8>, k2: Seq<u8>|
        k1 != k2 && #[trigger] m.contains_key(k1) && #[trigger] m.contains_key(k2) implies disjoint(
        after[m[k1]],
        after[m[k2]],
    ) by {
        if record && k1 == enc_end(r) {
            assert(ranges.contains_key(k2));
            assert(regions.contains_key(ranges[k2]));
        } else if record && k2 == enc_end(r) {
            assert(ranges.contains_key(k1));
            assert(regions.contains_key(ranges[k1]));
        } else {
            assert(ranges.contains_key(k1) && ranges.contains_key(k2));
            assert(regions.contains_key(ranges[k1]) && regions.contains_key(ranges[k2]));
            assert(disjoint(regions[ranges[k1]], regions[ranges[k2]]));
        }
    }
    assert forall|id: u64| #[trigger] after.contains_key(id) implies after[id].id == id by {
        if id != r.id {
            assert(regions.contains_key(id));
        }
    }
}

/// Cutting a recorded region down to its left part keeps the store's
/// ranges consistent: the record moves from the region's old end to the
/// new one, and the range that is given up overlaps no recorded region.
pub proof fn lemma_shrink_region(
    regions: Map<u64, RegionView>,
    ranges: Map<Seq<u8>, u64>,
    left: RegionView,
    right: RegionView,
)
    requires
        ranges_consistent(regions, ranges),
        registered(regions, ranges, left.id),
        left.start_key == regions[left.id].start_key,
        left.end_key == right.start_key,
        right.end_key == regions[left.id].end_key,
        lex_lt(regions[left.id].start_key, left.end_key),
        key_in_region(left.end_key, regions[left.id]),
    ensures
        !ranges.contains_key(enc_end(left)),
        ranges_consistent(
            regions.insert(left.id, left),
            ranges.remove(enc_end(regions[left.id])).insert(enc_end(left), left.id),
        ),
        valid_range(right),
        right.id != left.id ==> !overlaps_other(
            regions.insert(left.id, left),
            ranges.remove(enc_end(regions[left.id])).insert(enc_end(left), left.id),
            right,
        ),
{
    let r = regions[left.id];
    let old_end = enc_end(r);
    assert(ranges.contains_key(old_end));
    lemma_split_halves(r, left, right);
    lemma_valid_range_encoded(r);
    lemma_valid_range_encoded(left);
    lemma_lex_irreflexive(enc_end(left));
    let after = regions.insert(left.id, left);
    let m = ranges.remove(old_end).insert(enc_end(left), left.id);
    assert forall|k: Seq<u8>| #[trigger] ranges.contains_key(k) && k != old_end implies disjoint(
        regions[ranges[k]],
        left,
    ) && disjoint(regions[ranges[k]], right) && k != enc_end(left) && ranges[k] != left.id by {
        let o = regions[ranges[k]];
        assert(regions.contains_key(ranges[k]));
        assert(disjoint(o, r));
        lemma_disjoint_from_part(o, r, left);
        lemma_disjoint_from_part(o, r, right);
        lemma_disjoint_ends_differ(o, left);
    }
    if ranges.contains_key(enc_end(left)) {
        assert(enc_end(left) != old_end);
        assert(false);
    }
    assert forall|id: u64| #[trigger] after.contains_key(id) && initialized(after[id]) implies registered(
        after,
        m,
        id,
    ) by {
        if id != left.id {
            assert(regions.contains_key(id));
            assert(registered(regions, ranges, id));
            let k = enc_end(regions[id]);
            assert(ranges.contains_key(k));
            assert(k != old_end);
        }
    }
    assert forall|k: Seq<u8>| #[trigger] m.contains_key(k) implies after.contains_key(m[k])
        && enc_end(after[m[k]]) == k && valid_range(after[m[k]]) by {
        if k != enc_end(left) {
            assert(ranges.contains_key(k) && k != old_end);
        }
    }
    assert forall|k1: Seq<u8>, k2: Seq<u8>|
        k1 != k2 && #[trigger] m.contains_key(k1) && #[trigger] m.contains_key(k2) implies disjoint(
        after[m[k1]],
        after[m[k2]],
    ) by {
        if k1 == enc_end(left) {
            assert(ranges.contains_key(k2) && k2 != old_end);
        } else if k2 == enc_end(left) {
            assert(ranges.contains_key(k1) && k1 != old_end);
        } else {
            assert(ranges.contains_key(k1) && k1 != old_end);
            assert(ranges.contains_key(k2) && k2 != old_end);
            assert(disjoint(regions[ranges[k1]], regions[ranges[k2]]));
        }
    }
    assert forall|id: u64| #[trigger] after.contains_key(id) implies after[id].id == id by {
        if id != left.id {
            assert(regions.contains_key(id));
        }
    }
    if right.id != left.id && overlaps_other(after, m, right) {
        let k = choose|k: Seq<u8>| #[trigger]
            m.contains_key(k) && m[k] != right.id && !disjoint(after[m[k]], right);
        if k != enc_end(left) {
            assert(ranges.contains_key(k) && k != old_end);
        }
        assert(false);
    }
}

} // verus!
