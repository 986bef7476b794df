//! A fixed-resolution duration histogram: millisecond buckets held as a
//! sorted frequency table, answering percentile queries by nearest rank.
use vstd::prelude::*;

verus! {

/// A frequency table of pause durations in whole milliseconds, kept sorted
/// by duration with every bucket occupied.
pub struct DurationHistogram {
    buckets: Vec<(u64, u64)>,
}

impl View for DurationHistogram {
    type V = Seq<(u64, u64)>;

    closed spec fn view(&self) -> Seq<(u64, u64)> {
        self.buckets@
    }
}

/// The well-formed bucket tables: durations strictly increasing, every
/// count positive, and the sample count representable.
pub open spec fn histo_wf(bs: Seq<(u64, u64)>) -> bool {
    &&& forall|i: int, j: int| 0 <= i < j < bs.len() ==> bs[i].0 < bs[j].0
    &&& forall|i: int| 0 <= i < bs.len() ==> (#[trigger] bs[i]).1 >= 1
    &&& bsum(bs) <= u64::MAX
}

/// The number of samples the table holds.
pub open spec fn bsum(bs: Seq<(u64, u64)>) -> int
    decreases bs.len(),
{
    if bs.len() == 0 {
        0
    } else {
        bsum(bs.drop_last()) + bs.last().1
    }
}

pub proof fn lemma_bsum_take_step(bs: Seq<(u64, u64)>, i: int)
    requires
        0 <= i < bs.len(),
    ensures
        bsum(bs.take(i + 1)) == bsum(bs.take(i)) + bs[i].1,
{
    assert(bs.take(i + 1).drop_last() =~= bs.take(i));
    assert(bs.take(i + 1).last() == bs[i]);
}

pub proof fn lemma_bsum_nonneg(bs: Seq<(u64, u64)>)
    ensures
        bsum(bs) >= 0,
    decreases bs.len(),
{
    if bs.len() > 0 {
        lemma_bsum_nonneg(bs.drop_last());
    }
}

/// The table after recording one more sample of `m` milliseconds.
pub open spec fn spec_histo_insert(bs: Seq<(u64, u64)>, m: u64) -> Seq<(u64, u64)>
    decreases bs.len(),
{
    if bs.len() == 0 {
        seq![(m, 1u64)]
    } else if m < bs[0].0 {
        seq![(m, 1u64)] + bs
    } else if m == bs[0].0 {
        seq![(bs[0].0, ((bs[0].1 + 1) as u64))] + bs.drop_first()
    } else {
        seq![bs[0]] + spec_histo_insert(bs.drop_first(), m)
    }
}

proof fn lemma_bsum_front(bs: Seq<(u64, u64)>)
    ensures
        bs.len() > 0 ==> bsum(bs) == bs[0].1 + bsum(bs.drop_first()),
    decreases bs.len(),
{
    if bs.len() == 1 {
        assert(bs.drop_last() =~= Seq::<(u64, u64)>::empty());
        assert(bs.drop_first() =~= Seq::<(u64, u64)>::empty());
    } else if bs.len() > 1 {
        lemma_bsum_front(bs.drop_last());
        assert(bs.drop_last().drop_first() =~= bs.drop_first().drop_last());
        assert(bs.drop_last()[0] == bs[0]);
        lemma_bsum_front(bs.drop_first());
    }
}

/// Recording a sample grows the sample count by one.
pub proof fn lemma_insert_bsum(bs: Seq<(u64, u64)>, m: u64)
    requires
        bsum(bs) < u64::MAX,
        forall|i: int| 0 <= i < bs.len() ==> (#[trigger] bs[i]).1 >= 1,
    ensures
        bsum(spec_histo_insert(bs, m)) == bsum(bs) + 1,
    decreases bs.len(),
{
    lemma_bsum_front(bs);
    lemma_bsum_nonneg(bs);
    assert(bsum(Seq::<(u64, u64)>::empty()) == 0);
    if bs.len() == 0 {
        let r = spec_histo_insert(bs, m);
        assert(r.drop_last() =~= Seq::<(u64, u64)>::empty());
        assert(bsum(r) == bsum(r.drop_last()) + r.last().1);
    } else if m < bs[0].0 {
        let r = seq![(m, 1u64)] + bs;
        lemma_bsum_front(r);
        assert(r.drop_first() =~= bs);
    } else if m == bs[0].0 {
        let r = seq![(bs[0].0, ((bs[0].1 + 1) as u64))] + bs.drop_first();
        lemma_bsum_front(r);
        assert(r.drop_first() =~= bs.drop_first());
        assert(bs[0].1 + 1 <= u64::MAX) by {
            lemma_bsum_nonneg(bs.drop_first());
        }
    } else {
        assert(forall|i: int|
            0 <= i < bs.drop_first().len() ==> (#[trigger] bs.drop_first()[i]).1 >= 1);
        assert(bsum(bs.drop_first()) < u64::MAX);
        lemma_insert_bsum(bs.drop_first(), m);
        let r = seq![bs[0]] + spec_histo_insert(bs.drop_first(), m);
        lemma_bsum_front(r);
        assert(r.drop_first() =~= spec_histo_insert(bs.drop_first(), m));
    }
}

/// Recording a sample keeps the table well formed.
pub proof fn lemma_insert_wf(bs: Seq<(u64, u64)>, m: u64)
    requires
        histo_wf(bs),
        bsum(bs) < u64::MAX,
    ensures
        histo_wf(spec_histo_insert(bs, m)),
    decreases bs.len(),
{
    lemma_insert_bsum(bs, m);
    lemma_bsum_front(bs);
    lemma_bsum_nonneg(bs);
    if bs.len() == 0 {
    } else if m < bs[0].0 {
        let r = seq![(m, 1u64)] + bs;
        assert(forall|i: int| 0 <= i < bs.len() ==> r[i + 1] == bs[i]);
    } else if m == bs[0].0 {
        let r = seq![(bs[0].0, ((bs[0].1 + 1) as u64))] + bs.drop_first();
        assert(bs[0].1 + 1 <= u64::MAX) by {
            lemma_bsum_nonneg(bs.drop_first());
        }
        assert(forall|i: int| 0 <= i < bs.drop_first().len() ==> r[i + 1] == bs.drop_first()[i]);
    } else {
        assert(histo_wf(bs.drop_first())) by {
            lemma_bsum_nonneg(seq![bs[0]].add(Seq::<(u64, u64)>::empty()));
            assert(forall|i: int, j: int|
                0 <= i < j < bs.drop_first().len() ==> bs.drop_first()[i].0 < bs.drop_first()[j].0);
        }
        lemma_insert_wf(bs.drop_first(), m);
        lemma_insert_bsum(bs.drop_first(), m);
        let t = spec_histo_insert(bs.drop_first(), m);
        let r = seq![bs[0]] + t;
        assert(forall|i: int| 0 <= i < t.len() ==> r[i + 1] == t[i]);
        // the head stays smaller than everything inserted behind it
        lemma_insert_lower_bound(bs.drop_first(), m, bs[0].0);
    }
}

/// Inserting a sample larger than `lo` into a table of durations larger
/// than `lo` keeps every duration larger than `lo`.
proof fn lemma_insert_lower_bound(bs: Seq<(u64, u64)>, m: u64, lo: u64)
    requires
        lo < m,
        forall|i: int| 0 <= i < bs.len() ==> lo < (#[trigger] bs[i]).0,
    ensures
        forall|i: int|
            0 <= i < spec_histo_insert(bs, m).len() ==> lo < (#[trigger] spec_histo_insert(
                bs,
                m,
            )[i]).0,
    decreases bs.len(),
{
    if bs.len() == 0 {
        assert(spec_histo_insert(bs, m)[0].0 == m);
    } else if m < bs[0].0 {
        let r = seq![(m, 1u64)] + bs;
        assert forall|i: int| 0 <= i < r.len() implies lo < (#[trigger] r[i]).0 by {
            if i > 0 {
                assert(r[i] == bs[i - 1]);
            }
        }
    } else if m == bs[0].0 {
        let r = seq![(bs[0].0, ((bs[0].1 + 1) as u64))] + bs.drop_first();
        assert forall|i: int| 0 <= i < r.len() implies lo < (#[trigger] r[i]).0 by {
            if i > 0 {
                assert(r[i] == bs.drop_first()[i - 1]);
                assert(bs.drop_first()[i - 1] == bs[i]);
            }
        }
    } else {
        assert(forall|i: int|
            0 <= i < bs.drop_first().len() ==> lo < (#[trigger] bs.drop_first()[i]).0);
        lemma_insert_lower_bound(bs.drop_first(), m, lo);
        let t = spec_histo_insert(bs.drop_first(), m);
        let r = seq![bs[0]] + t;
        assert forall|i: int| 0 <= i < r.len() implies lo < (#[trigger] r[i]).0 by {
            if i > 0 {
                assert(r[i] == t[i - 1]);
            }
        }
    }
}

/// The duration at 1-based rank `r`, walking buckets in duration order.
pub open spec fn rank_value(bs: Seq<(u64, u64)>, r: int) -> u64
    decreases bs.len(),
{
    if bs.len() == 0 {
        0
    } else if r <= bs[0].1 {
        bs[0].0
    } else {
        rank_value(bs.drop_first(), r - bs[0].1)
    }
}

/// The nearest-rank percentile: the duration at rank `ceil(p * n / 100)`
/// of the `n` samples in duration order; zero for an empty table.
pub open spec fn spec_percentile(bs: Seq<(u64, u64)>, p: int) -> u64 {
    let total = bsum(bs);
    if total == 0 {
        0
    } else {
        rank_value(bs, (p * total + 99) / 100)
    }
}

impl DurationHistogram {
    /// An empty histogram.
    pub fn new() -> (h: DurationHistogram)
        ensures
            h@ == Seq::<(u64, u64)>::empty(),
            histo_wf(h@),
    {
        let h = DurationHistogram { buckets: Vec::new() };
        assert(h@ =~= Seq::<(u64, u64)>::empty());
        h
    }

    /// Records one sample of `millis` milliseconds.
    pub fn increment(&mut self, millis: u64)
        requires
            histo_wf(old(self)@),
            bsum(old(self)@) < u64::MAX,
        ensures
            final(self)@ == spec_histo_insert(old(self)@, millis),
            histo_wf(final(self)@),
            bsum(final(self)@) == bsum(old(self)@) + 1,
    {
        proof {
            lemma_insert_wf(old(self)@, millis);
            lemma_insert_bsum(old(self)@, millis);
        }
        let ghost bs = self.buckets@;
        let mut idx: usize = 0;
        while idx < self.buckets.len() && self.buckets[idx].0 < millis
            invariant
                idx <= bs.len(),
                bs == self.buckets@,
                forall|j: int| 0 <= j < idx ==> (#[trigger] bs[j]).0 < millis,
            decreases self.buckets.len() - idx,
        {
            idx += 1;
        }
        proof {
            lemma_insert_split(bs, millis, idx as int);
            lemma_bsum_nonneg(bs.drop_last());
        }
        if idx < self.buckets.len() && self.buckets[idx].0 == millis {
            let c = self.buckets[idx].1;
            assert(c < u64::MAX) by {
                lemma_count_le_bsum(bs, idx as int);
            }
            self.buckets[idx] = (millis, c + 1);
            assert(self.buckets@ =~= spec_histo_insert(bs, millis));
        } else {
            self.buckets.insert(idx, (millis, 1));
            assert(self.buckets@ =~= spec_histo_insert(bs, millis));
        }
    }

    /// Answers the `p`-th percentile, nearest rank, in milliseconds.
    pub fn percentile(&self, p: u64) -> (r: u64)
        requires
            histo_wf(self@),
            1 <= p <= 100,
        ensures
            r == spec_percentile(self@, p as int),
    {
        let ghost bs = self.buckets@;
        // total sample count
        let mut total: u64 = 0;
        let mut i: usize = 0;
        assert(bs.take(0) =~= Seq::<(u64, u64)>::empty());
        while i < self.buckets.len()
            invariant
                i <= bs.len(),
                bs == self.buckets@,
                histo_wf(bs),
                total as int == bsum(bs.take(i as int)),
            decreases self.buckets.len() - i,
        {
            proof {
                lemma_bsum_take_step(bs, i as int);
                lemma_bsum_take_le(bs, i as int + 1);
            }
            total = total + self.buckets[i].1;
            i += 1;
        }
        assert(bs.take(bs.len() as int) =~= bs);
        if total == 0 {
            return 0;
        }
        // the 1-based nearest rank
        assert((p as int) * (total as int) <= 100 * (u64::MAX as int)) by (nonlinear_arith)
            requires
                1 <= p as int <= 100,
                0 <= total as int <= u64::MAX as int,
        ;
        let rank_wide: u128 = ((p as u128) * (total as u128) + 99) / 100;
        proof {
            vstd::arithmetic::div_mod::lemma_fundamental_div_mod(
                (p as int) * (total as int) + 99,
                100,
            );
            assert((p as int) * (total as int) <= 100 * (total as int)) by (nonlinear_arith)
                requires
                    p as int <= 100,
                    total as int >= 0,
            ;
            assert((p as int) * (total as int) >= 1 * (total as int)) by (nonlinear_arith)
                requires
                    p as int >= 1,
                    total as int >= 0,
            ;
            vstd::arithmetic::div_mod::lemma_div_is_ordered(
                (p as int) * (total as int) + 99,
                100 * (total as int) + 99,
                100,
            );
            vstd::arithmetic::div_mod::lemma_fundamental_div_mod_converse(
                100 * (total as int) + 99,
                100,
                total as int,
                99,
            );
        }
        let rank: u64 = rank_wide as u64;
        assert(1 <= rank <= total);
        // walk the buckets to the rank
        let mut cum: u64 = 0;
        let mut j: usize = 0;
        assert(bs.skip(0) =~= bs);
        assert(bs.take(0) =~= Seq::<(u64, u64)>::empty());
        while j < self.buckets.len()
            invariant
                j <= bs.len(),
                bs == self.buckets@,
                histo_wf(bs),
                1 <= p as int <= 100,
                rank as int == ((p as int) * bsum(bs) + 99) / 100,
                cum as int == bsum(bs.take(j as int)),
                cum < rank <= bsum(bs),
                rank_value(bs, rank as int) == rank_value(
                    bs.skip(j as int),
                    rank - cum,
                ),
            decreases self.buckets.len() - j,
        {
            let ghost suf = bs.skip(j as int);
            assert(suf[0] == bs[j as int]);
            assert(suf.drop_first() =~= bs.skip(j as int + 1));
            proof {
                lemma_bsum_take_step(bs, j as int);
                lemma_bsum_take_le(bs, j as int + 1);
            }
            let c = self.buckets[j].1;
            if rank - cum <= c {
                return self.buckets[j].0;
            }
            cum = cum + c;
            j += 1;
        }
        proof {
            assert(bs.take(bs.len() as int) =~= bs);
            assert(false);
        }
        0
    }
}

/// One bucket's count never exceeds the sample count.
proof fn lemma_count_le_bsum(bs: Seq<(u64, u64)>, i: int)
    requires
        0 <= i < bs.len(),
        forall|j: int| 0 <= j < bs.len() ==> (#[trigger] bs[j]).1 >= 1,
    ensures
        bs[i].1 <= bsum(bs),
    decreases bs.len(),
{
    lemma_bsum_nonneg(bs.drop_last());
    if i == bs.len() - 1 {
    } else {
        assert(forall|j: int|
            0 <= j < bs.drop_last().len() ==> (#[trigger] bs.drop_last()[j]).1 >= 1);
        lemma_count_le_bsum(bs.drop_last(), i);
    }
}

/// A prefix of the table holds at most all the samples.
pub proof fn lemma_bsum_take_le(bs: Seq<(u64, u64)>, i: int)
    requires
        0 <= i <= bs.len(),
    ensures
        bsum(bs.take(i)) <= bsum(bs),
    decreases bs.len() - i,
{
    if i == bs.len() {
        assert(bs.take(i) =~= bs);
    } else {
        lemma_bsum_take_step(bs, i);
        lemma_bsum_take_le(bs, i + 1);
    }
}

/// Where the insertion point splits the table, the inserted table is the
/// prefix, the touched bucket, and the suffix.
proof fn lemma_insert_split(bs: Seq<(u64, u64)>, m: u64, idx: int)
    requires
        0 <= idx <= bs.len(),
        forall|j: int| 0 <= j < idx ==> (#[trigger] bs[j]).0 < m,
        idx < bs.len() ==> bs[idx].0 >= m,
    ensures
        spec_histo_insert(bs, m) == if idx < bs.len() && bs[idx].0 == m {
            bs.update(idx, (m, ((bs[idx].1 + 1) as u64)))
        } else {
            bs.take(idx) + seq![(m, 1u64)] + bs.skip(idx)
        },
    decreases idx,
{
    if idx == 0 {
        if bs.len() == 0 {
            assert(spec_histo_insert(bs, m) =~= bs.take(0) + seq![(m, 1u64)] + bs.skip(0));
        } else if bs[0].0 == m {
            assert(spec_histo_insert(bs, m) =~= bs.update(0, (m, ((bs[0].1 + 1) as u64))));
        } else {
            assert(m < bs[0].0);
            assert(spec_histo_insert(bs, m) =~= bs.take(0) + seq![(m, 1u64)] + bs.skip(0));
        }
    } else {
        assert(bs[0].0 < m);
        let t = bs.drop_first();
        assert(forall|j: int| 0 <= j < idx - 1 ==> (#[trigger] t[j]).0 < m);
        lemma_insert_split(t, m, idx - 1);
        if idx < bs.len() && bs[idx].0 == m {
            assert(t[idx - 1].0 == m);
            assert(seq![bs[0]] + t.update(idx - 1, (m, ((t[idx - 1].1 + 1) as u64))) =~= bs.update(
                idx,
                (m, ((bs[idx].1 + 1) as u64)),
            ));
        } else {
            assert(seq![bs[0]] + (t.take(idx - 1) + seq![(m, 1u64)] + t.skip(idx - 1)) =~= bs.take(
                idx,
            ) + seq![(m, 1u64)] + bs.skip(idx));
        }
    }
}

/// A group with a single recorded sample answers every percentile with
/// that sample's millisecond value.
pub proof fn lemma_single_sample_percentile(m: u64, p: int)
    requires
        1 <= p <= 100,
    ensures
        spec_percentile(spec_histo_insert(Seq::empty(), m), p) == m,
{
    let bs = spec_histo_insert(Seq::<(u64, u64)>::empty(), m);
    assert(bs =~= seq![(m, 1u64)]);
    assert(bs.drop_last() =~= Seq::<(u64, u64)>::empty());
    assert(bsum(Seq::<(u64, u64)>::empty()) == 0);
    assert(bsum(bs) == 1);
    assert((p * 1 + 99) / 100 == 1);
}

} // verus!
