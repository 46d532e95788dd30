//! Duplicate detection: partitions scanned records by content digest and
//! keeps only the groups with two or more members.

use vstd::multiset::Multiset;
use vstd::prelude::*;

use crate::scan::FileInfo;
use crate::text::str_eq;

verus! {

broadcast use vstd::seq_lib::group_to_multiset_ensures;

/// Whether a record carries the digest `h`.
pub open spec fn has_hash(f: FileInfo, h: Seq<char>) -> bool {
    match f.hash {
        Some(s) => s@ == h,
        None => false,
    }
}

/// The records among `s` carrying the digest `h`, in order.
pub open spec fn with_hash(s: Seq<FileInfo>, h: Seq<char>) -> Seq<FileInfo>
    decreases s.len(),
{
    if s.len() == 0 {
        Seq::<FileInfo>::empty()
    } else if has_hash(s.last(), h) {
        with_hash(s.drop_last(), h) + seq![s.last()]
    } else {
        with_hash(s.drop_last(), h)
    }
}

/// Two or more files sharing one content digest.
#[derive(Debug)]
pub struct DuplicateGroup {
    pub hash: String,
    pub files: Vec<FileInfo>,
}

/// Partitions `records` by content digest, returning exactly one group for
/// each digest carried by at least two records; every group holds exactly
/// the records with its digest, in scan order. Records without a digest
/// never participate.
pub fn find_duplicates(records: &Vec<FileInfo>) -> (groups: Vec<DuplicateGroup>)
    ensures
        forall|g: int|
            0 <= g < groups@.len() ==> (#[trigger] groups@[g]).files@ == with_hash(
                records@,
                groups@[g].hash@,
            ) && groups@[g].files@.len() >= 2,
        forall|g1: int, g2: int|
            0 <= g1 < g2 < groups@.len() ==> groups@[g1].hash@ != groups@[g2].hash@,
        forall|h: Seq<char>|
            #[trigger] with_hash(records@, h).len() >= 2 ==> exists|g: int|
                0 <= g < groups@.len() && groups@[g].hash@ == h,
{
    let mut all: Vec<DuplicateGroup> = Vec::new();
    let n = records.len();
    let mut i: usize = 0;
    while i < n
        invariant
            n == records@.len(),
            i <= n,
            forall|g: int|
                0 <= g < all@.len() ==> (#[trigger] all@[g]).files@ == with_hash(
                    records@.take(i as int),
                    all@[g].hash@,
                ) && all@[g].files@.len() >= 1,
            forall|g1: int, g2: int|
                0 <= g1 < g2 < all@.len() ==> all@[g1].hash@ != all@[g2].hash@,
            forall|h: Seq<char>|
                #[trigger] with_hash(records@.take(i as int), h).len() >= 1 ==> exists|g: int|
                    0 <= g < all@.len() && all@[g].hash@ == h,
        decreases n - i,
    {
        proof {
            assert(records@.take(i + 1).drop_last() =~= records@.take(i as int));
        }
        let rec = &records[i];
        let ghost prev = records@.take(i as int);
        let ghost cur = records@.take(i + 1);
        proof {
            assert(cur.last() == records@[i as int]);
        }
        match &rec.hash {
            None => {
                proof {
                    assert forall|h: Seq<char>|
                        #[trigger] with_hash(cur, h).len() >= 1 implies exists|g: int|
                        0 <= g < all@.len() && all@[g].hash@ == h by {
                        assert(with_hash(cur, h) == with_hash(prev, h));
                        let g0 = choose|g0: int|
                            0 <= g0 < all@.len() && all@[g0].hash@ == h;
                        assert(all@[g0].hash@ == h);
                    };
                }
            },
            Some(hs) => {
                let mut gi: usize = 0;
                let mut found = false;
                while gi < all.len() && !found
                    invariant
                        gi <= all@.len(),
                        !found ==> forall|g: int| 0 <= g < gi ==> all@[g].hash@ != hs@,
                        found ==> gi < all@.len() && all@[gi as int].hash@ == hs@,
                    decreases all@.len() - gi, (if found { 0int } else { 1int }),
                {
                    if str_eq(all[gi].hash.as_str(), hs.as_str()) {
                        found = true;
                    } else {
                        gi += 1;
                    }
                }
                if found {
                    let ghost all_before = all@;
                    all[gi].files.push(rec.clone());
                    proof {
                        assert(all@[gi as int].files@ =~= with_hash(
                            records@.take(i + 1),
                            all@[gi as int].hash@,
                        ));
                        assert(forall|g: int|
                            0 <= g < all@.len() && g != gi ==> all@[g] == all_before[g]);
                        assert(forall|g: int|
                            0 <= g < all@.len() && g != gi ==> (#[trigger] all@[g]).files@
                                == with_hash(records@.take(i + 1), all@[g].hash@));
                        assert forall|h: Seq<char>|
                            #[trigger] with_hash(cur, h).len() >= 1 implies exists|g: int|
                            0 <= g < all@.len() && all@[g].hash@ == h by {
                            if h == hs@ {
                                assert(all@[gi as int].hash@ == h);
                            } else {
                                assert(with_hash(cur, h) == with_hash(prev, h));
                                let g0 = choose|g0: int|
                                    0 <= g0 < all_before.len() && all_before[g0].hash@ == h;
                                assert(all@[g0].hash@ == h);
                            }
                        };
                    }
                } else {
                    let mut files: Vec<FileInfo> = Vec::new();
                    files.push(rec.clone());
                    let ghost all_before = all@;
                    all.push(DuplicateGroup { hash: hs.clone(), files });
                    proof {
                        let last = all@.len() - 1;
                        assert(with_hash(records@.take(i as int), hs@) =~= Seq::<
                            FileInfo,
                        >::empty());
                        assert(all@[last].files@ =~= with_hash(records@.take(i + 1), hs@));
                        assert(forall|g: int| 0 <= g < last ==> all@[g] == all_before[g]);
                        assert(forall|g: int|
                            0 <= g < last ==> (#[trigger] all@[g]).files@ == with_hash(
                                records@.take(i + 1),
                                all@[g].hash@,
                            ));
                        assert forall|h: Seq<char>|
                            #[trigger] with_hash(cur, h).len() >= 1 implies exists|g: int|
                            0 <= g < all@.len() && all@[g].hash@ == h by {
                            if h == hs@ {
                                assert(all@[last].hash@ == h);
                            } else {
                                assert(with_hash(cur, h) == with_hash(prev, h));
                                let g0 = choose|g0: int|
                                    0 <= g0 < all_before.len() && all_before[g0].hash@ == h;
                                assert(all@[g0].hash@ == h);
                            }
                        };
                    }
                }
            },
        }
        i += 1;
    }
    proof {
        assert(records@.take(n as int) =~= records@);
    }
    let mut groups: Vec<DuplicateGroup> = Vec::new();
    let mut remaining = all.len();
    while remaining > 0
        invariant
            remaining == all@.len(),
            forall|g: int|
                0 <= g < all@.len() ==> (#[trigger] all@[g]).files@ == with_hash(
                    records@,
                    all@[g].hash@,
                ) && all@[g].files@.len() >= 1,
            forall|g: int|
                0 <= g < groups@.len() ==> (#[trigger] groups@[g]).files@ == with_hash(
                    records@,
                    groups@[g].hash@,
                ) && groups@[g].files@.len() >= 2,
            forall|g1: int, g2: int|
                0 <= g1 < g2 < groups@.len() ==> groups@[g1].hash@ != groups@[g2].hash@,
            forall|g1: int, g2: int|
                0 <= g1 < g2 < all@.len() ==> all@[g1].hash@ != all@[g2].hash@,
            forall|g1: int, g2: int|
                0 <= g1 < groups@.len() && 0 <= g2 < all@.len() ==> groups@[g1].hash@
                    != all@[g2].hash@,
            forall|h: Seq<char>|
                #[trigger] with_hash(records@, h).len() >= 2 ==> (exists|g: int|
                    0 <= g < groups@.len() && groups@[g].hash@ == h) || (exists|g: int|
                    0 <= g < all@.len() && all@[g].hash@ == h),
        decreases remaining,
    {
        let ghost all_before = all@;
        let ghost groups_before = groups@;
        let group = all.remove(0);
        proof {
            assert(all@ =~= all_before.skip(1));
            assert(group == all_before[0]);
        }
        let keep = group.files.len() >= 2;
        if keep {
            groups.push(group);
        } else {
            proof {
                assert(with_hash(records@, group.hash@).len() < 2);
            }
        }
        proof {
            assert forall|h: Seq<char>|
                #[trigger] with_hash(records@, h).len() >= 2 implies (exists|g: int|
                0 <= g < groups@.len() && groups@[g].hash@ == h) || (exists|g: int|
                0 <= g < all@.len() && all@[g].hash@ == h) by {
                if exists|g: int| 0 <= g < groups_before.len() && groups_before[g].hash@ == h {
                    let g0 = choose|g0: int|
                        0 <= g0 < groups_before.len() && groups_before[g0].hash@ == h;
                    assert(groups@[g0].hash@ == h);
                } else {
                    let g0 = choose|g0: int|
                        0 <= g0 < all_before.len() && all_before[g0].hash@ == h;
                    if g0 == 0 {
                        assert(group.hash@ == h);
                        assert(keep);
                        assert(groups@[groups@.len() - 1].hash@ == h);
                    } else {
                        assert(all@[g0 - 1].hash@ == h);
                    }
                }
            };
        }
        remaining -= 1;
    }
    groups
}

/// The space a group wastes: every member beyond the first could be freed,
/// and shared content implies shared size.
pub open spec fn spec_wasted(g: DuplicateGroup) -> int {
    if g.files@.len() == 0 {
        0
    } else {
        g.files@[0].size * (g.files@.len() - 1)
    }
}

/// The space a group wastes, exactly; it always fits 128 bits.
pub fn wasted_space(g: &DuplicateGroup) -> (r: u128)
    ensures
        r == spec_wasted(*g),
{
    if g.files.len() == 0 {
        0
    } else {
        let size = g.files[0].size as u128;
        let extra = (g.files.len() - 1) as u128;
        proof {
            assert(size * extra < 0x100000000000000000000000000000000) by (nonlinear_arith)
                requires
                    0 <= size < 0x10000000000000000,
                    0 <= extra < 0x10000000000000000,
            ;
        }
        size * extra
    }
}

/// The combined wasted space of all groups.
pub open spec fn total_wasted(gs: Seq<DuplicateGroup>) -> int
    decreases gs.len(),
{
    if gs.len() == 0 {
        0
    } else {
        total_wasted(gs.drop_last()) + spec_wasted(gs.last())
    }
}

/// How many members beyond the first each group carries, combined.
pub open spec fn total_extra(gs: Seq<DuplicateGroup>) -> int
    decreases gs.len(),
{
    if gs.len() == 0 {
        0
    } else {
        total_extra(gs.drop_last()) + (if gs.last().files@.len() >= 1 {
            gs.last().files@.len() - 1
        } else {
            0int
        })
    }
}

/// The combined wasted space of the groups, saturating at the 128-bit
/// limit.
pub fn total_wasted_space(groups: &Vec<DuplicateGroup>) -> (r: u128)
    ensures
        r == vstd::math::min(total_wasted(groups@), u128::MAX as int),
{
    let mut acc: u128 = 0;
    let mut i: usize = 0;
    while i < groups.len()
        invariant
            i <= groups@.len(),
            acc == vstd::math::min(total_wasted(groups@.take(i as int)), u128::MAX as int),
        decreases groups@.len() - i,
    {
        proof {
            assert(groups@.take(i + 1).drop_last() =~= groups@.take(i as int));
            assert(groups@.take(i + 1).last() == groups@[i as int]);
            lemma_total_wasted_nonneg(groups@.take(i as int));
        }
        let w = wasted_space(&groups[i]);
        if acc > u128::MAX - w {
            acc = u128::MAX;
        } else {
            acc = acc + w;
        }
        i += 1;
    }
    proof {
        assert(groups@.take(groups@.len() as int) =~= groups@);
    }
    acc
}

proof fn lemma_total_wasted_nonneg(gs: Seq<DuplicateGroup>)
    ensures
        total_wasted(gs) >= 0,
    decreases gs.len(),
{
    if gs.len() > 0 {
        lemma_total_wasted_nonneg(gs.drop_last());
    }
}

/// How many files could be freed across all groups, saturating at the
/// 64-bit limit.
pub fn total_duplicate_count(groups: &Vec<DuplicateGroup>) -> (r: u64)
    ensures
        r == vstd::math::min(total_extra(groups@), u64::MAX as int),
{
    let mut acc: u64 = 0;
    let mut i: usize = 0;
    while i < groups.len()
        invariant
            i <= groups@.len(),
            acc == vstd::math::min(total_extra(groups@.take(i as int)), u64::MAX as int),
        decreases groups@.len() - i,
    {
        proof {
            assert(groups@.take(i + 1).drop_last() =~= groups@.take(i as int));
            assert(groups@.take(i + 1).last() == groups@[i as int]);
            lemma_total_extra_nonneg(groups@.take(i as int));
        }
        let len = groups[i].files.len();
        let extra: u64 = if len >= 1 {
            (len - 1) as u64
        } else {
            0
        };
        if acc > u64::MAX - extra {
            acc = u64::MAX;
        } else {
            acc = acc + extra;
        }
        i += 1;
    }
    proof {
        assert(groups@.take(groups@.len() as int) =~= groups@);
    }
    acc
}

proof fn lemma_total_extra_nonneg(gs: Seq<DuplicateGroup>)
    ensures
        total_extra(gs) >= 0,
    decreases gs.len(),
{
    if gs.len() > 0 {
        lemma_total_extra_nonneg(gs.drop_last());
    }
}

/// Whether groups are ordered by wasted space, largest first.
pub open spec fn waste_sorted(s: Seq<DuplicateGroup>) -> bool {
    forall|t1: int, t2: int| 0 <= t1 < t2 < s.len() ==> spec_wasted(s[t1]) >= spec_wasted(s[t2])
}

/// Orders duplicate groups by wasted space, largest first, keeping the
/// groups themselves intact.
pub fn sort_groups_by_waste(groups: Vec<DuplicateGroup>) -> (r: Vec<DuplicateGroup>)
    ensures
        r@.to_multiset() == groups@.to_multiset(),
        waste_sorted(r@),
        r@.len() == groups@.len(),
        forall|t: int| 0 <= t < r@.len() ==> groups@.contains(#[trigger] r@[t]),
{
    let mut src = groups;
    let ghost orig = src@;
    let mut out: Vec<DuplicateGroup> = Vec::new();
    proof {
        assert(out@.to_multiset().add(src@.to_multiset()) =~= orig.to_multiset());
    }
    while src.len() > 0
        invariant
            out@.to_multiset().add(src@.to_multiset()) == orig.to_multiset(),
            waste_sorted(out@),
            forall|a: int, b: int|
                0 <= a < out@.len() && 0 <= b < src@.len() ==> spec_wasted(out@[a]) >= spec_wasted(
                    src@[b],
                ),
            forall|t: int| 0 <= t < out@.len() ==> orig.contains(#[trigger] out@[t]),
        decreases src@.len(),
    {
        let mut mi: usize = 0;
        let mut mw = wasted_space(&src[0]);
        let mut k: usize = 1;
        while k < src.len()
            invariant
                mi < k <= src@.len(),
                src@.len() > 0,
                mw == spec_wasted(src@[mi as int]),
                forall|b: int| 0 <= b < k ==> spec_wasted(src@[mi as int]) >= spec_wasted(src@[b]),
            decreases src@.len() - k,
        {
            let w = wasted_space(&src[k]);
            if w > mw {
                mi = k;
                mw = w;
            }
            k += 1;
        }
        let ghost src_before = src@;
        let item = src.remove(mi);
        proof {
            assert(item == src_before[mi as int]);
            assert(src_before.remove(mi as int).to_multiset() =~= src_before.to_multiset().remove(
                item,
            ));
            assert(forall|b: int|
                0 <= b < src@.len() ==> exists|b0: int|
                    0 <= b0 < src_before.len() && (#[trigger] src@[b]) == src_before[b0]);
        }
        let ghost out_before = out@;
        out.push(item);
        proof {
            assert(out@.to_multiset().add(src@.to_multiset()) =~= orig.to_multiset());
            assert(src_before.contains(item));
            assert(src_before.to_multiset().count(item) > 0);
            assert(out_before.to_multiset().add(src_before.to_multiset()).count(item) > 0);
            assert(orig.to_multiset().count(item) > 0);
            assert(orig.contains(item));
            assert forall|t: int| 0 <= t < out@.len() implies orig.contains(
                #[trigger] out@[t],
            ) by {
                if t < out@.len() - 1 {
                    assert(out@[t] == out_before[t]);
                } else {
                    assert(out@[t] == item);
                }
            };
        }
    }
    proof {
        assert(src@.to_multiset() =~= Multiset::<DuplicateGroup>::empty());
        assert(out@.to_multiset() =~= orig.to_multiset());
        assert(out@.len() == out@.to_multiset().len());
        assert(orig.len() == orig.to_multiset().len());
    }
    out
}

} // verus!
