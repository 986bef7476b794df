//! Aggregation of pause events into per-group statistics: one summary per
//! synthesized group name, with running count, total, extremes and a
//! millisecond histogram, and the display rows sorted by group name.
use vstd::prelude::*;
use crate::histo::{
    bsum, histo_wf, spec_histo_insert, spec_percentile, DurationHistogram,
};
use crate::numfmt::{push_fixed2, spec_fixed2};
use crate::order::{lex_leq_fn, sort_chars_vecs};
use crate::pauses::{generate_gc_name, spec_gc_name, GCPause};
use crate::strutil::{chars_to_string, str_to_chars};

verus! {

broadcast use crate::strutil::lemma_chars_deep_view;

/// The running statistics of one pause group.
pub struct GCSummary {
    pub gc_name: String,
    pub total_pauses: u64,
    pub total_nanos: u128,
    pub longest_pause_nanos: u64,
    pub shortest_pause_nanos: u64,
    pub pause_histo_millis: DurationHistogram,
}

/// The mathematical model of one group's statistics.
pub struct GroupModel {
    pub name: Seq<char>,
    pub count: int,
    pub total: int,
    pub min: int,
    pub max: int,
    pub buckets: Seq<(u64, u64)>,
}

/// The model a summary holds.
pub open spec fn summary_model(s: GCSummary) -> GroupModel {
    GroupModel {
        name: s.gc_name@,
        count: s.total_pauses as int,
        total: s.total_nanos as int,
        min: s.shortest_pause_nanos as int,
        max: s.longest_pause_nanos as int,
        buckets: s.pause_histo_millis@,
    }
}

/// The group name a pause falls under.
pub open spec fn pause_name(p: GCPause) -> Seq<char> {
    spec_gc_name(p.gc_type@, p.attributes.deep_view())
}

/// The index of the group named `name`, if one exists.
pub open spec fn find_group(gs: Seq<GroupModel>, name: Seq<char>) -> Option<int>
    decreases gs.len(),
{
    if gs.len() == 0 {
        None
    } else if gs[0].name == name {
        Some(0)
    } else {
        match find_group(gs.drop_first(), name) {
            Some(k) => Some(k + 1),
            None => None,
        }
    }
}

proof fn lemma_find_group_at(gs: Seq<GroupModel>, name: Seq<char>, k: int)
    requires
        0 <= k < gs.len(),
        gs[k].name == name,
        forall|j: int| 0 <= j < k ==> (#[trigger] gs[j]).name != name,
    ensures
        find_group(gs, name) == Some(k),
    decreases k,
{
    if k > 0 {
        lemma_find_group_at(gs.drop_first(), name, k - 1);
    }
}

proof fn lemma_find_group_none(gs: Seq<GroupModel>, name: Seq<char>)
    requires
        forall|j: int| 0 <= j < gs.len() ==> (#[trigger] gs[j]).name != name,
    ensures
        find_group(gs, name) is None,
    decreases gs.len(),
{
    if gs.len() > 0 {
        lemma_find_group_none(gs.drop_first(), name);
    }
}

/// Folds one pause into the group list: a new group when its name is
/// unseen, otherwise the named group's statistics updated. The histogram
/// takes the pause's duration rounded to whole milliseconds.
pub open spec fn fold_in(gs: Seq<GroupModel>, p: GCPause) -> Seq<GroupModel> {
    let name = pause_name(p);
    let nanos = p.pause_nanos as int;
    let m = ((p.pause_nanos + 500000) / 1000000) as u64;
    match find_group(gs, name) {
        None => gs.push(
            GroupModel {
                name,
                count: 1,
                total: nanos,
                min: nanos,
                max: nanos,
                buckets: spec_histo_insert(Seq::empty(), m),
            },
        ),
        Some(i) => {
            let g = gs[i];
            gs.update(
                i,
                GroupModel {
                    name: g.name,
                    count: g.count + 1,
                    total: g.total + nanos,
                    min: if nanos < g.min {
                        nanos
                    } else {
                        g.min
                    },
                    max: if nanos > g.max {
                        nanos
                    } else {
                        g.max
                    },
                    buckets: spec_histo_insert(g.buckets, m),
                },
            )
        },
    }
}

/// The groups that a sequence of pauses aggregates into, in order of first
/// appearance.
pub open spec fn agg(ps: Seq<GCPause>) -> Seq<GroupModel>
    decreases ps.len(),
{
    if ps.len() == 0 {
        Seq::empty()
    } else {
        fold_in(agg(ps.drop_last()), ps.last())
    }
}

/// A healthy group: seen at least once, totals bounded by the count, and
/// the histogram holding exactly the group's samples.
pub open spec fn wf_group(g: GroupModel) -> bool {
    &&& 1 <= g.count
    &&& 0 <= g.total <= g.count * (u64::MAX as int)
    &&& 0 <= g.min <= u64::MAX
    &&& 0 <= g.max <= u64::MAX
    &&& bsum(g.buckets) == g.count
    &&& histo_wf(g.buckets)
}

/// The total number of pauses across the groups.
pub open spec fn counts_sum(gs: Seq<GroupModel>) -> int
    decreases gs.len(),
{
    if gs.len() == 0 {
        0
    } else {
        counts_sum(gs.drop_last()) + gs.last().count
    }
}

/// Healthy group lists for `n` pauses: every group healthy, counts summing
/// to `n`, names distinct.
pub open spec fn groups_wf(gs: Seq<GroupModel>, n: int) -> bool {
    &&& counts_sum(gs) == n
    &&& forall|i: int| 0 <= i < gs.len() ==> wf_group(#[trigger] gs[i])
    &&& forall|i: int, j: int|
        0 <= i < j < gs.len() ==> (#[trigger] gs[i]).name != (#[trigger] gs[j]).name
}

proof fn lemma_counts_sum_update(gs: Seq<GroupModel>, i: int, g: GroupModel)
    requires
        0 <= i < gs.len(),
    ensures
        counts_sum(gs.update(i, g)) == counts_sum(gs) - gs[i].count + g.count,
    decreases gs.len(),
{
    let u = gs.update(i, g);
    if i == gs.len() - 1 {
        assert(u.drop_last() =~= gs.drop_last());
        assert(u.last() == g);
    } else {
        assert(u.drop_last() =~= gs.drop_last().update(i, g));
        assert(u.last() == gs.last());
        lemma_counts_sum_update(gs.drop_last(), i, g);
        assert(gs.drop_last()[i] == gs[i]);
    }
}

proof fn lemma_counts_le_sum(gs: Seq<GroupModel>, i: int)
    requires
        0 <= i < gs.len(),
        forall|j: int| 0 <= j < gs.len() ==> (#[trigger] gs[j]).count >= 1,
    ensures
        gs[i].count <= counts_sum(gs),
    decreases gs.len(),
{
    if i == gs.len() - 1 {
        lemma_counts_nonneg(gs.drop_last());
    } else {
        assert(forall|j: int|
            0 <= j < gs.drop_last().len() ==> (#[trigger] gs.drop_last()[j]).count >= 1);
        lemma_counts_le_sum(gs.drop_last(), i);
    }
}

proof fn lemma_counts_nonneg(gs: Seq<GroupModel>)
    ensures
        (forall|j: int| 0 <= j < gs.len() ==> (#[trigger] gs[j]).count >= 0) ==> counts_sum(gs)
            >= 0,
    decreases gs.len(),
{
    if gs.len() > 0 {
        lemma_counts_nonneg(gs.drop_last());
    }
}

/// Folding a pause into a healthy group list keeps it healthy and grows
/// the pause total by one.
proof fn lemma_fold_in_wf(gs: Seq<GroupModel>, p: GCPause, n: int)
    requires
        groups_wf(gs, n),
        0 <= n < u64::MAX,
    ensures
        groups_wf(fold_in(gs, p), n + 1),
{
    let name = pause_name(p);
    let m = ((p.pause_nanos + 500000) / 1000000) as u64;
    crate::histo::lemma_insert_bsum(Seq::empty(), m);
    crate::histo::lemma_insert_wf(Seq::empty(), m);
    match find_group(gs, name) {
        None => {
            let r = fold_in(gs, p);
            assert(r.drop_last() =~= gs);
            lemma_find_group_no_name(gs, name);
            assert(forall|i: int| 0 <= i < gs.len() ==> r[i] == gs[i]);
        },
        Some(i) => {
            lemma_find_group_in_range(gs, name);
            let g = gs[i];
            assert(wf_group(g));
            assert(g.count <= counts_sum(gs)) by {
                assert(forall|j: int| 0 <= j < gs.len() ==> (#[trigger] gs[j]).count >= 1);
                lemma_counts_le_sum(gs, i);
            }
            crate::histo::lemma_insert_bsum(g.buckets, m);
            crate::histo::lemma_insert_wf(g.buckets, m);
            let g2 = fold_in(gs, p)[i];
            assert(g2.total <= g2.count * (u64::MAX as int)) by (nonlinear_arith)
                requires
                    g2.total == g.total + p.pause_nanos as int,
                    g2.count == g.count + 1,
                    g.total <= g.count * (u64::MAX as int),
                    p.pause_nanos as int <= u64::MAX as int,
            ;
            lemma_counts_sum_update(gs, i, g2);
            let r = fold_in(gs, p);
            assert(forall|j: int| 0 <= j < gs.len() && j != i ==> r[j] == gs[j]);
        },
    }
}

/// A found group's index is in range.
proof fn lemma_find_group_in_range(gs: Seq<GroupModel>, name: Seq<char>)
    ensures
        match find_group(gs, name) {
            Some(i) => 0 <= i < gs.len() && gs[i].name == name,
            None => true,
        },
    decreases gs.len(),
{
    if gs.len() > 0 && gs[0].name != name {
        lemma_find_group_in_range(gs.drop_first(), name);
    }
}

/// When no group is found, no group carries the name.
proof fn lemma_find_group_no_name(gs: Seq<GroupModel>, name: Seq<char>)
    requires
        find_group(gs, name) is None,
    ensures
        forall|j: int| 0 <= j < gs.len() ==> (#[trigger] gs[j]).name != name,
    decreases gs.len(),
{
    if gs.len() > 0 {
        lemma_find_group_no_name(gs.drop_first(), name);
        assert(forall|j: int|
            1 <= j < gs.len() ==> gs[j] == gs.drop_first()[j - 1]);
    }
}

/// Aggregating pauses yields a healthy group list.
pub proof fn lemma_agg_wf(ps: Seq<GCPause>)
    requires
        ps.len() <= u64::MAX,
    ensures
        groups_wf(agg(ps), ps.len() as int),
    decreases ps.len(),
{
    if ps.len() == 0 {
        assert(counts_sum(Seq::<GroupModel>::empty()) == 0);
    } else {
        lemma_agg_wf(ps.drop_last());
        lemma_fold_in_wf(agg(ps.drop_last()), ps.last(), ps.len() - 1);
    }
}

/// Builds one summary per group name, in order of first appearance, with
/// count, cumulative time, extremes and the millisecond histogram of each.
pub fn generate_pause_summaries(pauses: &Vec<GCPause>) -> (r: Vec<GCSummary>)
    ensures
        r@.len() == agg(pauses@).len(),
        forall|k: int|
            0 <= k < r@.len() ==> summary_model(#[trigger] r@[k]) == agg(pauses@)[k],
{
    let ghost ps = pauses@;
    let mut out: Vec<GCSummary> = Vec::new();
    let mut i: usize = 0;
    assert(ps.take(0) =~= Seq::<GCPause>::empty());
    while i < pauses.len()
        invariant
            i <= ps.len(),
            ps == pauses@,
            out@.len() == agg(ps.take(i as int)).len(),
            forall|k: int|
                0 <= k < out@.len() ==> summary_model(#[trigger] out@[k]) == agg(
                    ps.take(i as int),
                )[k],
        decreases pauses.len() - i,
    {
        let ghost prev = agg(ps.take(i as int));
        proof {
            lemma_agg_wf(ps.take(i as int));
            assert(ps.take(i as int + 1).drop_last() =~= ps.take(i as int));
            assert(ps.take(i as int + 1).last() == ps[i as int]);
        }
        let p = &pauses[i];
        let name = generate_gc_name(p);
        assert(name@ == pause_name(ps[i as int]));
        let millis_wide: u128 = (p.pause_nanos as u128 + 500000) / 1000000;
        assert(millis_wide <= u64::MAX) by {
            vstd::arithmetic::div_mod::lemma_div_is_ordered(
                p.pause_nanos as int + 500000,
                u64::MAX as int + 500000,
                1000000,
            );
        }
        let millis: u64 = millis_wide as u64;
        // look for an existing group with this name
        let mut k: usize = 0;
        let mut found: Option<usize> = None;
        while k < out.len()
            invariant_except_break
                found is None,
            invariant
                k <= out@.len(),
                out@.len() == prev.len(),
                forall|j: int|
                    0 <= j < out@.len() ==> summary_model(#[trigger] out@[j]) == prev[j],
                forall|j: int| 0 <= j < k ==> (#[trigger] prev[j]).name != name@,
            ensures
                match found {
                    Some(f) => f < out@.len() && prev[f as int].name == name@ && forall|j: int|
                        0 <= j < f ==> (#[trigger] prev[j]).name != name@,
                    None => forall|j: int|
                        0 <= j < prev.len() ==> (#[trigger] prev[j]).name != name@,
                },
            decreases out.len() - k,
        {
            if out[k].gc_name.eq(&name) {
                assert(prev[k as int].name == name@);
                found = Some(k);
                break ;
            }
            k += 1;
        }
        match found {
            Some(f) => {
                proof {
                    lemma_find_group_at(prev, name@, f as int);
                    assert(forall|j: int|
                        0 <= j < prev.len() ==> wf_group(#[trigger] prev[j]));
                    assert(forall|j: int|
                        0 <= j < prev.len() ==> (#[trigger] prev[j]).count >= 1);
                    lemma_counts_le_sum(prev, f as int);
                }
                let mut s = out.remove(f);
                assert(summary_model(s) == prev[f as int]);
                s.total_pauses = s.total_pauses + 1;
                proof {
                    assert(s.total_nanos as int + p.pause_nanos as int <= (prev[f as int].count
                        + 1) * (u64::MAX as int)) by (nonlinear_arith)
                        requires
                            s.total_nanos as int <= prev[f as int].count * (u64::MAX as int),
                            p.pause_nanos as int <= u64::MAX as int,
                            prev[f as int].count >= 0,
                    ;
                    assert((prev[f as int].count + 1) * (u64::MAX as int) <= (u64::MAX as int) * (
                    u64::MAX as int)) by (nonlinear_arith)
                        requires
                            prev[f as int].count + 1 <= u64::MAX as int,
                    ;
                    assert((u64::MAX as int) * (u64::MAX as int) < u128::MAX as int)
                        by (nonlinear_arith);
                }
                s.total_nanos = s.total_nanos + (p.pause_nanos as u128);
                if p.pause_nanos < s.shortest_pause_nanos {
                    s.shortest_pause_nanos = p.pause_nanos;
                }
                if p.pause_nanos > s.longest_pause_nanos {
                    s.longest_pause_nanos = p.pause_nanos;
                }
                s.pause_histo_millis.increment(millis);
                let ghost pre_out = out@;
                out.insert(f, s);
                proof {
                    let cur = agg(ps.take(i as int + 1));
                    assert(cur == fold_in(prev, ps[i as int]));
                    assert(out@.len() == cur.len());
                    assert(forall|j: int|
                        0 <= j < out@.len() ==> summary_model(#[trigger] out@[j]) == cur[j]) by {
                        assert(forall|j: int| 0 <= j < f ==> out@[j] == pre_out[j]);
                        assert(forall|j: int|
                            f < j < out@.len() ==> out@[j] == pre_out[j - 1]);
                    }
                }
            },
            None => {
                proof {
                    lemma_find_group_none(prev, name@);
                }
                let mut h = DurationHistogram::new();
                h.increment(millis);
                let s = GCSummary {
                    gc_name: name,
                    total_pauses: 1,
                    total_nanos: p.pause_nanos as u128,
                    longest_pause_nanos: p.pause_nanos,
                    shortest_pause_nanos: p.pause_nanos,
                    pause_histo_millis: h,
                };
                let ghost pre_out = out@;
                out.push(s);
                proof {
                    let cur = agg(ps.take(i as int + 1));
                    assert(cur == fold_in(prev, ps[i as int]));
                    assert(forall|j: int| 0 <= j < pre_out.len() ==> out@[j] == pre_out[j]);
                }
            },
        }
        i += 1;
    }
    assert(ps.take(ps.len() as int) =~= ps);
    out
}

/// One display row of the summary table: the group's name and count, and
/// its durations rendered in seconds with two decimal places.
pub struct GCSummaryRow {
    pub gc_name: String,
    pub total_pauses: u64,
    pub total_seconds_paused: String,
    pub shortest_pause_seconds: String,
    pub p50: String,
    pub p99: String,
    pub longest_pause_seconds: String,
}

/// The mathematical model of a display row.
pub struct RowModel {
    pub name: Seq<char>,
    pub count: int,
    pub total_s: Seq<char>,
    pub min_s: Seq<char>,
    pub p50_s: Seq<char>,
    pub p99_s: Seq<char>,
    pub max_s: Seq<char>,
}

/// The model a row holds.
pub open spec fn row_model(r: GCSummaryRow) -> RowModel {
    RowModel {
        name: r.gc_name@,
        count: r.total_pauses as int,
        total_s: r.total_seconds_paused@,
        min_s: r.shortest_pause_seconds@,
        p50_s: r.p50@,
        p99_s: r.p99@,
        max_s: r.longest_pause_seconds@,
    }
}

/// The row a group is shown as: seconds with two decimal places, and the
/// 50th and 99th percentiles of its histogram.
pub open spec fn spec_row_of_group(g: GroupModel) -> RowModel {
    RowModel {
        name: g.name,
        count: g.count,
        total_s: spec_fixed2(g.total, 1000000000),
        min_s: spec_fixed2(g.min, 1000000000),
        p50_s: spec_fixed2(spec_percentile(g.buckets, 50) as int, 1000),
        p99_s: spec_fixed2(spec_percentile(g.buckets, 99) as int, 1000),
        max_s: spec_fixed2(g.max, 1000000000),
    }
}

fn fixed2_string(v: u128, den: u128) -> (r: String)
    requires
        2 <= den <= u64::MAX as u128,
    ensures
        r@ == spec_fixed2(v as int, den as int),
{
    let mut out: Vec<char> = Vec::new();
    push_fixed2(&mut out, v, den);
    assert(out@ =~= spec_fixed2(v as int, den as int));
    chars_to_string(&out)
}

fn make_row(s: &GCSummary) -> (r: GCSummaryRow)
    requires
        wf_group(summary_model(*s)),
    ensures
        row_model(r) == spec_row_of_group(summary_model(*s)),
{
    let p50m = s.pause_histo_millis.percentile(50);
    let p99m = s.pause_histo_millis.percentile(99);
    GCSummaryRow {
        gc_name: crate::strutil::str_to_string(s.gc_name.as_str()),
        total_pauses: s.total_pauses,
        total_seconds_paused: fixed2_string(s.total_nanos, 1000000000),
        shortest_pause_seconds: fixed2_string(s.shortest_pause_nanos as u128, 1000000000),
        p50: fixed2_string(p50m as u128, 1000),
        p99: fixed2_string(p99m as u128, 1000),
        longest_pause_seconds: fixed2_string(s.longest_pause_nanos as u128, 1000000000),
    }
}

/// Builds the summary table's rows: one per group, ordered by group name.
pub fn generate_pause_table_rows(pauses: &Vec<GCPause>) -> (r: Vec<GCSummaryRow>)
    ensures
        ({
            let models = agg(pauses@);
            let sorted_names = models.map_values(|g: GroupModel| g.name).sort_by(lex_leq_fn());
            &&& r@.len() == models.len()
            &&& forall|i: int|
                0 <= i < r@.len() ==> #[trigger] row_model(r@[i]) == spec_row_of_group(
                    models[find_group(models, sorted_names[i])->0],
                )
        }),
{
    broadcast use vstd::seq_lib::group_to_multiset_ensures;

    let ghost models = agg(pauses@);
    let n_pauses = pauses.len();
    let summaries = generate_pause_summaries(pauses);
    proof {
        assert(pauses@.len() == n_pauses as int);
        lemma_agg_wf(pauses@);
    }
    let ghost names_model = models.map_values(|g: GroupModel| g.name);
    // the group names, as character vectors
    let mut names: Vec<Vec<char>> = Vec::new();
    let mut i: usize = 0;
    assert(names.deep_view() =~~= names_model.take(0));
    while i < summaries.len()
        invariant
            i <= summaries@.len(),
            summaries@.len() == models.len(),
            forall|k: int|
                0 <= k < summaries@.len() ==> summary_model(#[trigger] summaries@[k])
                    == models[k],
            names.deep_view() =~~= names_model.take(i as int),
            names_model == models.map_values(|g: GroupModel| g.name),
        decreases summaries.len() - i,
    {
        let ghost prev = names.deep_view();
        let nc = str_to_chars(summaries[i].gc_name.as_str());
        assert(nc@ == names_model[i as int]);
        names.push(nc);
        proof {
            assert(names.deep_view() =~~= prev.push(names_model[i as int]));
            assert(names_model.take(i as int + 1) =~= names_model.take(i as int).push(
                names_model[i as int],
            ));
        }
        i += 1;
    }
    assert(names_model.take(names_model.len() as int) =~= names_model);
    let sorted = sort_chars_vecs(names);
    let ghost sorted_names = names_model.sort_by(lex_leq_fn());
    proof {
        crate::order::lemma_lex_total_ordering();
        names_model.lemma_sort_by_ensures(lex_leq_fn());
        assert(sorted_names.len() == sorted_names.to_multiset().len());
        assert(names_model.len() == names_model.to_multiset().len());
    }
    // build the rows in sorted-name order
    let mut rows: Vec<GCSummaryRow> = Vec::new();
    let mut j: usize = 0;
    while j < sorted.len()
        invariant
            j <= sorted@.len(),
            sorted.deep_view() == sorted_names,
            sorted_names == names_model.sort_by(lex_leq_fn()),
            sorted_names.to_multiset() == names_model.to_multiset(),
            sorted_names.len() == models.len(),
            names_model == models.map_values(|g: GroupModel| g.name),
            summaries@.len() == models.len(),
            forall|k: int|
                0 <= k < summaries@.len() ==> summary_model(#[trigger] summaries@[k])
                    == models[k],
            groups_wf(models, pauses@.len() as int),
            rows@.len() == j,
            forall|t: int|
                0 <= t < j ==> #[trigger] row_model(rows@[t]) == spec_row_of_group(
                    models[find_group(models, sorted_names[t])->0],
                ),
        decreases sorted.len() - j,
    {
        let target = &sorted[j];
        assert(target@ == sorted_names[j as int]);
        proof {
            broadcast use vstd::seq_lib::group_to_multiset_ensures;

            assert(sorted_names.contains(sorted_names[j as int]));
            assert(sorted_names.to_multiset().count(sorted_names[j as int]) > 0);
            assert(names_model.to_multiset().count(sorted_names[j as int]) > 0);
            assert(names_model.contains(sorted_names[j as int]));
        }
        // find the group carrying this name
        let mut k: usize = 0;
        let mut found: Option<usize> = None;
        while k < summaries.len()
            invariant_except_break
                found is None,
            invariant
                k <= summaries@.len(),
                summaries@.len() == models.len(),
                forall|t: int|
                    0 <= t < summaries@.len() ==> summary_model(#[trigger] summaries@[t])
                        == models[t],
                target@ == sorted_names[j as int],
                j < sorted_names.len(),
                names_model.contains(sorted_names[j as int]),
                names_model == models.map_values(|g: GroupModel| g.name),
                forall|t: int| 0 <= t < k ==> (#[trigger] models[t]).name != target@,
            ensures
                match found {
                    Some(f) => f < summaries@.len() && models[f as int].name == target@
                        && forall|t: int|
                        0 <= t < f ==> (#[trigger] models[t]).name != target@,
                    None => forall|t: int|
                        0 <= t < models.len() ==> (#[trigger] models[t]).name != target@,
                },
            decreases summaries.len() - k,
        {
            if crate::strutil::chars_eq_str(target, summaries[k].gc_name.as_str()) {
                assert(models[k as int].name == target@);
                found = Some(k);
                break ;
            }
            k += 1;
        }
        let f = match found {
            Some(f) => f,
            None => {
                proof {
                    let w = choose|w: int|
                        0 <= w < names_model.len() && names_model[w] == sorted_names[j as int];
                    assert(models[w].name == sorted_names[j as int]);
                }
                assert(false);
                0
            },
        };
        proof {
            lemma_find_group_at(models, target@, f as int);
        }
        let row = make_row(&summaries[f]);
        rows.push(row);
        j += 1;
    }
    rows
}

} // verus!
