//! Report aggregation: human-readable sizes, storage totals per category
//! and the largest-files list.

use vstd::multiset::Multiset;
use vstd::prelude::*;
use vstd::string::StringExecFns;

use crate::category::FileCategory;
use crate::scan::FileInfo;
use crate::text::dec_rep;
use crate::text::padded_dec;
use crate::text::push_decimal;
use crate::text::push_padded_decimal;
use crate::text::str_eq;

verus! {

broadcast use vstd::seq_lib::group_to_multiset_ensures;

pub const KB: u64 = 1024;

pub const MB: u64 = 1024 * 1024;

pub const GB: u64 = 1024 * 1024 * 1024;

/// `size / unit` in hundredths, rounded half up.
pub open spec fn size_hundredths(size: int, unit: int) -> int {
    (size * 100 + unit / 2) / unit
}

/// The digits of a size scaled by `unit`, with two decimals.
pub open spec fn spec_size_decimal(size: int, unit: int) -> Seq<char> {
    let h = size_hundredths(size, unit);
    dec_rep(h / 100) + seq!['.'] + padded_dec(h % 100, 2)
}

/// Human-readable size: bytes below 1 KB, otherwise two decimals (rounded
/// half up) of the largest unit reached.
pub open spec fn spec_format_size(size: int) -> Seq<char> {
    if size >= GB {
        spec_size_decimal(size, GB as int) + " GB"@
    } else if size >= MB {
        spec_size_decimal(size, MB as int) + " MB"@
    } else if size >= KB {
        spec_size_decimal(size, KB as int) + " KB"@
    } else {
        dec_rep(size) + " bytes"@
    }
}

fn push_size_decimal(s: &mut String, size: u64, unit: u64)
    requires
        1024 <= unit,
    ensures
        final(s)@ == old(s)@ + spec_size_decimal(size as int, unit as int),
{
    let h128: u128 = ((size as u128) * 100 + (unit as u128) / 2) / (unit as u128);
    proof {
        assert(h128 as int == size_hundredths(size as int, unit as int));
        assert(size_hundredths(size as int, unit as int) <= size as int) by (nonlinear_arith)
            requires
                1024 <= unit as int,
                0 <= size as int,
        ;
        assert(size_hundredths(size as int, unit as int) >= 0) by (nonlinear_arith)
            requires
                1024 <= unit as int,
                0 <= size as int,
        ;
    }
    let h = h128 as u64;
    push_decimal(s, h / 100);
    s.push('.');
    push_padded_decimal(s, h % 100, 2);
    proof {
        assert(final(s)@ =~= old(s)@ + spec_size_decimal(size as int, unit as int));
    }
}

/// Formats a byte count for display: `500 bytes`, `1.00 KB`, `1.50 MB`,
/// `1.00 GB`.
pub fn format_size(size: u64) -> (r: String)
    ensures
        r@ == spec_format_size(size as int),
{
    let mut s = String::new();
    if size >= GB {
        push_size_decimal(&mut s, size, GB);
        s.append(" GB");
    } else if size >= MB {
        push_size_decimal(&mut s, size, MB);
        s.append(" MB");
    } else if size >= KB {
        push_size_decimal(&mut s, size, KB);
        s.append(" KB");
    } else {
        push_decimal(&mut s, size);
        s.append(" bytes");
    }
    proof {
        assert(s@ =~= spec_format_size(size as int));
    }
    s
}

/// The report heading a category is aggregated under.
pub open spec fn label_of(c: FileCategory) -> Seq<char> {
    match c {
        FileCategory::Document => "Documents"@,
        FileCategory::Image => "Images"@,
        FileCategory::Video => "Videos"@,
        FileCategory::Audio => "Audio"@,
        FileCategory::Archive => "Archives"@,
        FileCategory::Code => "Code"@,
        FileCategory::Executable => "Executables"@,
        FileCategory::Other(s) => if s@ == "unknown"@ {
            "Unknown"@
        } else {
            "Other (."@ + s@ + ")"@
        },
    }
}

/// The report heading for a category, as a fresh string.
pub fn category_label(c: &FileCategory) -> (r: String)
    ensures
        r@ == label_of(*c),
{
    match c {
        FileCategory::Document => String::from_str("Documents"),
        FileCategory::Image => String::from_str("Images"),
        FileCategory::Video => String::from_str("Videos"),
        FileCategory::Audio => String::from_str("Audio"),
        FileCategory::Archive => String::from_str("Archives"),
        FileCategory::Code => String::from_str("Code"),
        FileCategory::Executable => String::from_str("Executables"),
        FileCategory::Other(s) => {
            if str_eq(s.as_str(), "unknown") {
                String::from_str("Unknown")
            } else {
                let mut out = String::from_str("Other (.");
                out.append(s.as_str());
                out.push(')');
                proof {
                    reveal_strlit(")");
                    assert(")"@ =~= seq![')']);
                    assert(out@ =~= "Other (."@ + s@ + ")"@);
                }
                out
            }
        },
    }
}

/// The combined size of all records.
pub open spec fn total_size_all(s: Seq<FileInfo>) -> int
    decreases s.len(),
{
    if s.len() == 0 {
        0
    } else {
        total_size_all(s.drop_last()) + s.last().size
    }
}

/// The combined size of the records whose report heading is `l`.
pub open spec fn sum_size(s: Seq<FileInfo>, l: Seq<char>) -> int
    decreases s.len(),
{
    if s.len() == 0 {
        0
    } else if label_of(s.last().category) == l {
        sum_size(s.drop_last(), l) + s.last().size
    } else {
        sum_size(s.drop_last(), l)
    }
}

/// How many records fall under the report heading `l`.
pub open spec fn count_label(s: Seq<FileInfo>, l: Seq<char>) -> int
    decreases s.len(),
{
    if s.len() == 0 {
        0
    } else if label_of(s.last().category) == l {
        count_label(s.drop_last(), l) + 1
    } else {
        count_label(s.drop_last(), l)
    }
}

proof fn lemma_sum_size_le_total(s: Seq<FileInfo>, l: Seq<char>)
    ensures
        0 <= sum_size(s, l) <= total_size_all(s),
    decreases s.len(),
{
    if s.len() > 0 {
        lemma_sum_size_le_total(s.drop_last(), l);
    }
}

proof fn lemma_total_size_prefix(s: Seq<FileInfo>, i: int)
    requires
        0 <= i <= s.len(),
    ensures
        total_size_all(s.take(i)) <= total_size_all(s),
    decreases s.len() - i,
{
    if i < s.len() {
        lemma_total_size_prefix(s, i + 1);
        assert(s.take(i + 1).drop_last() =~= s.take(i));
        assert(total_size_all(s.take(i)) <= total_size_all(s.take(i + 1)));
    } else {
        assert(s.take(i) =~= s);
    }
}

/// The total size of all records, for the report header.
pub fn total_size_of(records: &Vec<FileInfo>) -> (r: u64)
    requires
        total_size_all(records@) <= u64::MAX,
    ensures
        r == total_size_all(records@),
{
    let mut total: u64 = 0;
    let mut i: usize = 0;
    while i < records.len()
        invariant
            i <= records@.len(),
            total_size_all(records@) <= u64::MAX,
            total == total_size_all(records@.take(i as int)),
        decreases records@.len() - i,
    {
        proof {
            assert(records@.take(i + 1).drop_last() =~= records@.take(i as int));
            lemma_total_size_prefix(records@, i + 1);
        }
        total = total + records[i].size;
        i += 1;
    }
    proof {
        assert(records@.take(records@.len() as int) =~= records@);
    }
    total
}

/// One line of the storage report: a heading with its combined size and
/// file count.
#[derive(Debug)]
pub struct CategoryTotal {
    pub label: String,
    pub total_size: u64,
    pub count: u64,
}

/// Aggregates records by report heading, sorted by combined size,
/// largest first.
pub fn category_totals(records: &Vec<FileInfo>) -> (totals: Vec<CategoryTotal>)
    requires
        total_size_all(records@) <= u64::MAX,
    ensures
        forall|t: int|
            0 <= t < totals@.len() ==> (#[trigger] totals@[t]).total_size == sum_size(
                records@,
                totals@[t].label@,
            ) && totals@[t].count == count_label(records@, totals@[t].label@) && totals@[t].count
                >= 1,
        forall|t1: int, t2: int|
            0 <= t1 < t2 < totals@.len() ==> totals@[t1].label@ != totals@[t2].label@,
        forall|k: int|
            0 <= k < records@.len() ==> exists|t: int|
                0 <= t < totals@.len() && totals@[t].label@ == label_of(
                    (#[trigger] records@[k]).category,
                ),
        forall|t1: int, t2: int|
            0 <= t1 < t2 < totals@.len() ==> totals@[t1].total_size >= totals@[t2].total_size,
{
    let mut acc: Vec<CategoryTotal> = Vec::new();
    let n = records.len();
    let mut i: usize = 0;
    while i < n
        invariant
            n == records@.len(),
            i <= n,
            total_size_all(records@) <= u64::MAX,
            forall|t: int|
                0 <= t < acc@.len() ==> (#[trigger] acc@[t]).total_size == sum_size(
                    records@.take(i as int),
                    acc@[t].label@,
                ) && acc@[t].count == count_label(records@.take(i as int), acc@[t].label@)
                    && acc@[t].count >= 1 && acc@[t].count <= i,
            forall|t1: int, t2: int|
                0 <= t1 < t2 < acc@.len() ==> acc@[t1].label@ != acc@[t2].label@,
            forall|k: int|
                0 <= k < i ==> exists|t: int|
                    0 <= t < acc@.len() && acc@[t].label@ == label_of(
                        (#[trigger] records@[k]).category,
                    ),
        decreases n - i,
    {
        proof {
            assert(records@.take(i + 1).drop_last() =~= records@.take(i as int));
        }
        let rec = &records[i];
        let label = category_label(&rec.category);
        let ghost acc_before = acc@;
        let mut t: usize = 0;
        let mut found = false;
        while t < acc.len() && !found
            invariant
                t <= acc@.len(),
                acc@ == acc_before,
                !found ==> forall|u: int| 0 <= u < t ==> acc@[u].label@ != label@,
                found ==> t < acc@.len() && acc@[t as int].label@ == label@,
            decreases acc@.len() - t, (if found { 0int } else { 1int }),
        {
            if str_eq(acc[t].label.as_str(), label.as_str()) {
                found = true;
            } else {
                t += 1;
            }
        }
        if found {
            proof {
                lemma_sum_size_le_total(records@.take(i + 1), label@);
                lemma_total_size_prefix(records@, i + 1);
            }
            let entry = &mut acc[t];
            entry.total_size = entry.total_size + rec.size;
            entry.count = entry.count + 1;
            proof {
                assert(forall|u: int| 0 <= u < acc@.len() && u != t ==> acc@[u] == acc_before[u]);
                assert forall|k: int| 0 <= k < i + 1 implies exists|u: int|
                    0 <= u < acc@.len() && acc@[u].label@ == label_of(
                        (#[trigger] records@[k]).category,
                    ) by {
                    if k < i {
                        let u0 = choose|u0: int|
                            0 <= u0 < acc_before.len() && acc_before[u0].label@ == label_of(
                                records@[k].category,
                            );
                        assert(acc@[u0].label@ == acc_before[u0].label@);
                    } else {
                        assert(acc@[t as int].label@ == label_of(records@[k].category));
                    }
                };
            }
        } else {
            proof {
                lemma_sum_size_le_total(records@.take(i + 1), label@);
                lemma_total_size_prefix(records@, i + 1);
                lemma_sum_count_absent(records@.take(i as int), label@, acc_before);
            }
            acc.push(CategoryTotal { label, total_size: rec.size, count: 1 });
            proof {
                let last = acc@.len() - 1;
                assert(forall|u: int| 0 <= u < last ==> acc@[u] == acc_before[u]);
                assert forall|k: int| 0 <= k < i + 1 implies exists|u: int|
                    0 <= u < acc@.len() && acc@[u].label@ == label_of(
                        (#[trigger] records@[k]).category,
                    ) by {
                    if k < i {
                        let u0 = choose|u0: int|
                            0 <= u0 < acc_before.len() && acc_before[u0].label@ == label_of(
                                records@[k].category,
                            );
                        assert(acc@[u0].label@ == acc_before[u0].label@);
                    } else {
                        assert(acc@[last].label@ == label_of(records@[k].category));
                    }
                };
            }
        }
        i += 1;
    }
    proof {
        assert(records@.take(n as int) =~= records@);
    }
    let ghost accv = acc@;
    let sorted = sort_totals_desc(acc);
    proof {
        assert forall|t: int| 0 <= t < sorted@.len() implies (#[trigger] sorted@[t]).total_size
            == sum_size(records@, sorted@[t].label@) && sorted@[t].count == count_label(
            records@,
            sorted@[t].label@,
        ) && sorted@[t].count >= 1 by {
            assert(accv.contains(sorted@[t]));
            let u = choose|u: int| 0 <= u < accv.len() && accv[u] == sorted@[t];
            assert(accv[u].total_size == sum_size(records@, accv[u].label@));
        };
        assert forall|k: int| 0 <= k < records@.len() implies exists|t: int|
            0 <= t < sorted@.len() && sorted@[t].label@ == label_of(
            (#[trigger] records@[k]).category,
        ) by {
            let u0 = choose|u0: int|
                0 <= u0 < accv.len() && accv[u0].label@ == label_of(records@[k].category);
            assert(accv.contains(accv[u0]));
            assert(accv.to_multiset().count(accv[u0]) > 0);
            assert(sorted@.to_multiset().count(accv[u0]) > 0);
            assert(sorted@.contains(accv[u0]));
            let t0 = choose|t0: int| 0 <= t0 < sorted@.len() && sorted@[t0] == accv[u0];
            assert(sorted@[t0].label@ == label_of(records@[k].category));
        };
        assert forall|t1: int, t2: int| 0 <= t1 < t2 < sorted@.len() implies sorted@[t1].label@
            != sorted@[t2].label@ by {
            if sorted@[t1].label@ == sorted@[t2].label@ {
                assert(accv.contains(sorted@[t1]));
                assert(accv.contains(sorted@[t2]));
                let u1 = choose|u1: int| 0 <= u1 < accv.len() && accv[u1] == sorted@[t1];
                let u2 = choose|u2: int| 0 <= u2 < accv.len() && accv[u2] == sorted@[t2];
                if u1 != u2 {
                    assert(accv[u1].label@ != accv[u2].label@);
                    assert(false);
                } else {
                    let v = sorted@[t1];
                    assert(sorted@[t2] == v);
                    assert(sorted@.to_multiset().count(v) > 0);
                    assert(sorted@.remove(t2).to_multiset() =~= sorted@.to_multiset().remove(v));
                    assert(sorted@.remove(t2)[t1] == v);
                    assert(sorted@.remove(t2).contains(v));
                    assert(sorted@.remove(t2).to_multiset().count(v) > 0);
                    assert(sorted@.to_multiset().remove(v).count(v) > 0);
                    assert(sorted@.to_multiset().count(v) >= 2);
                    assert(accv.to_multiset().count(v) >= 2);
                    assert(accv.remove(u1).to_multiset() =~= accv.to_multiset().remove(v));
                    assert(accv.remove(u1).to_multiset().count(v) > 0);
                    assert(accv.remove(u1).contains(v));
                    let w = choose|w: int|
                        0 <= w < accv.remove(u1).len() && accv.remove(u1)[w] == v;
                    let w2 = if w < u1 { w } else { w + 1 };
                    assert(accv[w2] == v);
                    assert(accv[w2].label@ == accv[u1].label@);
                    assert(false);
                }
            }
        };
    }
    sorted
}

/// When no accumulated entry carries `l`, and the accumulator covers every
/// record seen so far, no record seen so far carries `l` either.
proof fn lemma_sum_count_absent(s: Seq<FileInfo>, l: Seq<char>, acc: Seq<CategoryTotal>)
    requires
        forall|u: int| 0 <= u < acc.len() ==> (#[trigger] acc[u]).label@ != l,
        forall|k: int|
            0 <= k < s.len() ==> exists|u: int|
                0 <= u < acc.len() && acc[u].label@ == label_of((#[trigger] s[k]).category),
    ensures
        sum_size(s, l) == 0,
        count_label(s, l) == 0,
    decreases s.len(),
{
    if s.len() > 0 {
        assert(s.drop_last() =~= s.take(s.len() - 1));
        assert(forall|k: int| 0 <= k < s.len() - 1 ==> s.drop_last()[k] == s[k]);
        lemma_sum_count_absent(s.drop_last(), l, acc);
        let u0 = choose|u0: int|
            0 <= u0 < acc.len() && acc[u0].label@ == label_of(s[s.len() - 1].category);
        assert(label_of(s.last().category) != l);
    }
}

/// Whether the entries are ordered by combined size, largest first.
pub open spec fn totals_sorted(s: Seq<CategoryTotal>) -> bool {
    forall|t1: int, t2: int| 0 <= t1 < t2 < s.len() ==> s[t1].total_size >= s[t2].total_size
}

/// Orders report lines by combined size, largest first, keeping the entries
/// themselves intact.
fn sort_totals_desc(totals: Vec<CategoryTotal>) -> (r: Vec<CategoryTotal>)
    ensures
        r@.to_multiset() == totals@.to_multiset(),
        totals_sorted(r@),
        r@.len() == totals@.len(),
        forall|t: int| 0 <= t < r@.len() ==> totals@.contains(#[trigger] r@[t]),
{
    let mut src = totals;
    let ghost orig = src@;
    let mut out: Vec<CategoryTotal> = Vec::new();
    proof {
        assert(out@.to_multiset().add(src@.to_multiset()) =~= orig.to_multiset());
    }
    while src.len() > 0
        invariant
            out@.to_multiset().add(src@.to_multiset()) == orig.to_multiset(),
            totals_sorted(out@),
            forall|a: int, b: int|
                0 <= a < out@.len() && 0 <= b < src@.len() ==> out@[a].total_size
                    >= src@[b].total_size,
            forall|t: int| 0 <= t < out@.len() ==> orig.contains(#[trigger] out@[t]),
        decreases src@.len(),
    {
        let mut mi: usize = 0;
        let mut k: usize = 1;
        while k < src.len()
            invariant
                mi < k <= src@.len(),
                src@.len() > 0,
                forall|b: int| 0 <= b < k ==> src@[mi as int].total_size >= src@[b].total_size,
            decreases src@.len() - k,
        {
            if src[k].total_size > src[mi].total_size {
                mi = k;
            }
            k += 1;
        }
        let ghost src_before = src@;
        let item = src.remove(mi);
        proof {
            assert(item == src_before[mi as int]);
            assert(src_before.remove(mi as int).to_multiset() =~= src_before.to_multiset().remove(
                item,
            ));
            assert(forall|b: int|
                0 <= b < src@.len() ==> exists|b0: int|
                    0 <= b0 < src_before.len() && (#[trigger] src@[b]) == src_before[b0]);
        }
        let ghost out_before = out@;
        out.push(item);
        proof {
            assert(out@.to_multiset().add(src@.to_multiset()) =~= orig.to_multiset());
            assert(src_before.contains(item));
            assert(src_before.to_multiset().count(item) > 0);
            assert(out_before.to_multiset().add(src_before.to_multiset()).count(item) > 0);
            assert(orig.to_multiset().count(item) > 0);
            assert(orig.contains(item));
            assert forall|t: int| 0 <= t < out@.len() implies orig.contains(
                #[trigger] out@[t],
            ) by {
                if t < out@.len() - 1 {
                    assert(out@[t] == out_before[t]);
                } else {
                    assert(out@[t] == item);
                }
            };
        }
    }
    proof {
        assert(src@.to_multiset() =~= Multiset::<CategoryTotal>::empty());
        assert(out@.to_multiset() =~= orig.to_multiset());
        assert(out@.len() == out@.to_multiset().len());
        assert(orig.len() == orig.to_multiset().len());
    }
    out
}

/// Whether records are ordered by size, largest first.
pub open spec fn sizes_sorted(s: Seq<FileInfo>) -> bool {
    forall|t1: int, t2: int| 0 <= t1 < t2 < s.len() ==> s[t1].size >= s[t2].size
}

/// A copy of the records ordered by size, largest first.
pub fn sort_by_size_desc(records: &Vec<FileInfo>) -> (r: Vec<FileInfo>)
    ensures
        r@.to_multiset() == records@.to_multiset(),
        sizes_sorted(r@),
        r@.len() == records@.len(),
{
    let mut src: Vec<FileInfo> = Vec::new();
    let mut i: usize = 0;
    while i < records.len()
        invariant
            i <= records@.len(),
            src@ =~= records@.take(i as int),
        decreases records@.len() - i,
    {
        src.push(records[i].clone());
        proof {
            assert(records@.take(i + 1).drop_last() =~= records@.take(i as int));
        }
        i += 1;
    }
    proof {
        assert(records@.take(records@.len() as int) =~= records@);
    }
    let ghost orig = src@;
    let mut out: Vec<FileInfo> = Vec::new();
    proof {
        assert(out@.to_multiset().add(src@.to_multiset()) =~= orig.to_multiset());
    }
    while src.len() > 0
        invariant
            out@.to_multiset().add(src@.to_multiset()) == orig.to_multiset(),
            sizes_sorted(out@),
            forall|a: int, b: int|
                0 <= a < out@.len() && 0 <= b < src@.len() ==> out@[a].size >= src@[b].size,
        decreases src@.len(),
    {
        let mut mi: usize = 0;
        let mut k: usize = 1;
        while k < src.len()
            invariant
                mi < k <= src@.len(),
                src@.len() > 0,
                forall|b: int| 0 <= b < k ==> src@[mi as int].size >= src@[b].size,
            decreases src@.len() - k,
        {
            if src[k].size > src[mi].size {
                mi = k;
            }
            k += 1;
        }
        let ghost src_before = src@;
        let item = src.remove(mi);
        proof {
            assert(item == src_before[mi as int]);
            assert(src_before.remove(mi as int).to_multiset() =~= src_before.to_multiset().remove(
                item,
            ));
            assert(forall|b: int|
                0 <= b < src@.len() ==> exists|b0: int|
                    0 <= b0 < src_before.len() && (#[trigger] src@[b]) == src_before[b0]);
        }
        out.push(item);
        proof {
            assert(out@.to_multiset().add(src@.to_multiset()) =~= orig.to_multiset());
        }
    }
    proof {
        assert(src@.to_multiset() =~= Multiset::<FileInfo>::empty());
        assert(out@.to_multiset() =~= orig.to_multiset());
        orig.to_multiset_ensures();
        out@.to_multiset_ensures();
    }
    out
}

/// The `limit` largest records: the head of the size-ordered copy of the
/// records.
pub fn largest_files(records: &Vec<FileInfo>, limit: usize) -> (r: Vec<FileInfo>)
    ensures
        exists|s: Seq<FileInfo>|
            #[trigger] s.to_multiset() == records@.to_multiset() && sizes_sorted(s) && r@
                == s.take(vstd::math::min(limit as int, records@.len() as int)),
        sizes_sorted(r@),
        r@.len() == vstd::math::min(limit as int, records@.len() as int),
{
    let mut sorted = sort_by_size_desc(records);
    let ghost full = sorted@;
    if sorted.len() > limit {
        sorted.truncate(limit);
        proof {
            assert(sorted@ == full.take(vstd::math::min(limit as int, records@.len() as int)));
        }
    } else {
        proof {
            assert(sorted@ =~= full.take(vstd::math::min(limit as int, records@.len() as int)));
        }
    }
    sorted
}

} // verus!
