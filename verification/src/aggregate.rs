//! The aggregation engine: a pure transform from a billing anchor and an
//! event list to the published usage summary.
//!
//! Every event is evaluated independently against up to four overlapping
//! windows (billing period, today, last 7 days, last 30 days); the windows
//! are reporting lenses, not a partition. Per-model line items cover the
//! billing period only, sorted by cost descending with ties broken by
//! first-seen order (deterministic for identical input order).

use vstd::prelude::*;
use crate::models::{cap_u64, LineItem, PeriodSummary, UsageDisplayData, UsageEvent};
use crate::numbers;
use crate::clock;

verus! {

/// Milliseconds in seven days.
pub const MS_PER_7_DAYS: i64 = 604_800_000;

/// Milliseconds in thirty days.
pub const MS_PER_30_DAYS: i64 = 2_592_000_000;

/// The instant an event is attributed to.
pub open spec fn event_time(e: UsageEvent) -> int {
    numbers::timestamp_of(e.timestamp@)
}

/// Whether an event falls in the window starting at `bound`.
pub open spec fn event_in(e: UsageEvent, bound: int) -> bool {
    event_time(e) >= bound
}

/// Whether an event falls in the window and is attributed to model `m`.
pub open spec fn event_in_model(e: UsageEvent, bound: int, m: Seq<char>) -> bool {
    event_in(e, bound) && e.spec_model() == m
}

/// Number of events at or after `bound`.
pub open spec fn count_from(evs: Seq<UsageEvent>, bound: int) -> int
    decreases evs.len(),
{
    if evs.len() == 0 {
        0
    } else {
        count_from(evs.drop_last(), bound) + if event_in(evs.last(), bound) {
            1int
        } else {
            0int
        }
    }
}

/// Millicent cost summed over events at or after `bound`.
pub open spec fn cost_from(evs: Seq<UsageEvent>, bound: int) -> int
    decreases evs.len(),
{
    if evs.len() == 0 {
        0
    } else {
        cost_from(evs.drop_last(), bound) + if event_in(evs.last(), bound) {
            evs.last().spec_cost_millicents()
        } else {
            0int
        }
    }
}

/// Token total summed over events at or after `bound`.
pub open spec fn tokens_from(evs: Seq<UsageEvent>, bound: int) -> int
    decreases evs.len(),
{
    if evs.len() == 0 {
        0
    } else {
        tokens_from(evs.drop_last(), bound) + if event_in(evs.last(), bound) {
            evs.last().spec_tokens()
        } else {
            0int
        }
    }
}

/// Number of in-window events attributed to model `m`.
pub open spec fn count_from_model(evs: Seq<UsageEvent>, bound: int, m: Seq<char>) -> int
    decreases evs.len(),
{
    if evs.len() == 0 {
        0
    } else {
        count_from_model(evs.drop_last(), bound, m) + if event_in_model(evs.last(), bound, m) {
            1int
        } else {
            0int
        }
    }
}

/// Millicent cost of in-window events attributed to model `m`.
pub open spec fn cost_from_model(evs: Seq<UsageEvent>, bound: int, m: Seq<char>) -> int
    decreases evs.len(),
{
    if evs.len() == 0 {
        0
    } else {
        cost_from_model(evs.drop_last(), bound, m) + if event_in_model(evs.last(), bound, m) {
            evs.last().spec_cost_millicents()
        } else {
            0int
        }
    }
}

/// Token total of in-window events attributed to model `m`.
pub open spec fn tokens_from_model(evs: Seq<UsageEvent>, bound: int, m: Seq<char>) -> int
    decreases evs.len(),
{
    if evs.len() == 0 {
        0
    } else {
        tokens_from_model(evs.drop_last(), bound, m) + if event_in_model(evs.last(), bound, m) {
            evs.last().spec_tokens()
        } else {
            0int
        }
    }
}

/// The distinct models of in-window events, in first-seen order.
pub open spec fn models_from(evs: Seq<UsageEvent>, bound: int) -> Seq<Seq<char>>
    decreases evs.len(),
{
    if evs.len() == 0 {
        Seq::empty()
    } else {
        let pre = models_from(evs.drop_last(), bound);
        let e = evs.last();
        if event_in(e, bound) && !pre.contains(e.spec_model()) {
            pre.push(e.spec_model())
        } else {
            pre
        }
    }
}

/// The position of model `m` in first-seen order, or -1 when unseen.
pub open spec fn model_rank(evs: Seq<UsageEvent>, bound: int, m: Seq<char>) -> int {
    rank_in(models_from(evs, bound), m)
}

/// Index of the first occurrence of `m` in `ms`, or -1 when absent.
pub open spec fn rank_in(ms: Seq<Seq<char>>, m: Seq<char>) -> int
    decreases ms.len(),
{
    if ms.len() == 0 {
        -1
    } else if ms[0] == m {
        0
    } else {
        let rest = rank_in(ms.drop_first(), m);
        if rest == -1 {
            -1
        } else {
            rest + 1
        }
    }
}

/// Sum of the per-item request counts.
pub open spec fn sum_requests(items: Seq<LineItem>) -> int
    decreases items.len(),
{
    if items.len() == 0 {
        0
    } else {
        sum_requests(items.drop_last()) + items.last().request_count
    }
}

// ── facts about the window sums ──

proof fn lemma_push_decomp<A>(s: Seq<A>, e: A)
    ensures
        s.push(e).drop_last() == s,
        s.push(e).last() == e,
{
    assert(s.push(e).drop_last() =~= s);
}

/// One step of every window sum: appending an event adds exactly its own
/// contribution to each accumulator it falls in.
proof fn lemma_sums_push(evs: Seq<UsageEvent>, e: UsageEvent, bound: int, m: Seq<char>)
    ensures
        count_from(evs.push(e), bound) == count_from(evs, bound) + if event_in(e, bound) {
            1int
        } else {
            0int
        },
        cost_from(evs.push(e), bound) == cost_from(evs, bound) + if event_in(e, bound) {
            e.spec_cost_millicents()
        } else {
            0int
        },
        tokens_from(evs.push(e), bound) == tokens_from(evs, bound) + if event_in(e, bound) {
            e.spec_tokens()
        } else {
            0int
        },
        count_from_model(evs.push(e), bound, m) == count_from_model(evs, bound, m)
            + if event_in_model(e, bound, m) {
            1int
        } else {
            0int
        },
        cost_from_model(evs.push(e), bound, m) == cost_from_model(evs, bound, m)
            + if event_in_model(e, bound, m) {
            e.spec_cost_millicents()
        } else {
            0int
        },
        tokens_from_model(evs.push(e), bound, m) == tokens_from_model(evs, bound, m)
            + if event_in_model(e, bound, m) {
            e.spec_tokens()
        } else {
            0int
        },
        models_from(evs.push(e), bound) == if event_in(e, bound) && !models_from(
            evs,
            bound,
        ).contains(e.spec_model()) {
            models_from(evs, bound).push(e.spec_model())
        } else {
            models_from(evs, bound)
        },
{
    lemma_push_decomp(evs, e);
}

/// Every window sum is non-negative and the counts are bounded by the
/// number of events.
proof fn lemma_sums_bounds(evs: Seq<UsageEvent>, bound: int, m: Seq<char>)
    ensures
        0 <= count_from(evs, bound) <= evs.len(),
        0 <= cost_from(evs, bound),
        0 <= tokens_from(evs, bound),
        0 <= count_from_model(evs, bound, m) <= evs.len(),
        0 <= cost_from_model(evs, bound, m),
        0 <= tokens_from_model(evs, bound, m),
    decreases evs.len(),
{
    if evs.len() > 0 {
        lemma_sums_bounds(evs.drop_last(), bound, m);
    }
}

/// A model never seen in the window has empty sums.
proof fn lemma_unseen_model_zero(evs: Seq<UsageEvent>, bound: int, m: Seq<char>)
    requires
        !models_from(evs, bound).contains(m),
    ensures
        count_from_model(evs, bound, m) == 0,
        cost_from_model(evs, bound, m) == 0,
        tokens_from_model(evs, bound, m) == 0,
    decreases evs.len(),
{
    if evs.len() > 0 {
        let pre = models_from(evs.drop_last(), bound);
        assert(!pre.contains(m)) by {
            if pre.contains(m) {
                let i = choose|i: int| 0 <= i < pre.len() && pre[i] == m;
                if event_in(evs.last(), bound) && !pre.contains(evs.last().spec_model()) {
                    assert(models_from(evs, bound)[i] == m);
                } else {
                    assert(models_from(evs, bound)[i] == m);
                }
            }
        }
        lemma_unseen_model_zero(evs.drop_last(), bound, m);
        if event_in_model(evs.last(), bound, m) {
            if event_in(evs.last(), bound) && !pre.contains(evs.last().spec_model()) {
                assert(models_from(evs, bound).last() == m);
            } else {
                assert(pre.contains(m)) by {
                    lemma_models_complete(evs.drop_last(), bound, evs.last().spec_model());
                }
            }
        }
    }
}

/// The first-seen model list holds no duplicates.
proof fn lemma_models_distinct(evs: Seq<UsageEvent>, bound: int)
    ensures
        forall|k1: int, k2: int|
            0 <= k1 < k2 < models_from(evs, bound).len() ==> models_from(evs, bound)[k1]
                != models_from(evs, bound)[k2],
    decreases evs.len(),
{
    if evs.len() > 0 {
        lemma_models_distinct(evs.drop_last(), bound);
        let pre = models_from(evs.drop_last(), bound);
        let ms = models_from(evs, bound);
        if event_in(evs.last(), bound) && !pre.contains(evs.last().spec_model()) {
            assert forall|k1: int, k2: int| 0 <= k1 < k2 < ms.len() implies ms[k1] != ms[k2] by {
                if k2 == ms.len() - 1 {
                    assert(pre[k1] == ms[k1]);
                }
            }
        }
    }
}

/// Helper: the model of an in-window event is in the first-seen list.
proof fn lemma_models_complete(evs: Seq<UsageEvent>, bound: int, m: Seq<char>)
    requires
        exists|i: int| 0 <= i < evs.len() && event_in_model(evs[i], bound, m),
    ensures
        models_from(evs, bound).contains(m),
    decreases evs.len(),
{
    let i = choose|i: int| 0 <= i < evs.len() && event_in_model(evs[i], bound, m);
    let pre = models_from(evs.drop_last(), bound);
    if i == evs.len() - 1 {
        if pre.contains(m) {
            let k = choose|k: int| 0 <= k < pre.len() && pre[k] == m;
            assert(models_from(evs, bound)[k] == m);
        } else {
            assert(models_from(evs, bound).last() == m);
        }
    } else {
        assert(evs.drop_last()[i] == evs[i]);
        lemma_models_complete(evs.drop_last(), bound, m);
        let k = choose|k: int| 0 <= k < pre.len() && pre[k] == m;
        assert(models_from(evs, bound)[k] == m);
    }
}

/// A model's position in first-seen order is its index in the list.
proof fn lemma_rank_of_index(ms: Seq<Seq<char>>, k: int)
    requires
        0 <= k < ms.len(),
        forall|k1: int, k2: int| 0 <= k1 < k2 < ms.len() ==> ms[k1] != ms[k2],
    ensures
        rank_in(ms, ms[k]) == k,
    decreases k,
{
    if k > 0 {
        assert(ms.drop_first()[k - 1] == ms[k]);
        lemma_rank_of_index(ms.drop_first(), k - 1);
    }
}

/// Linearity of the per-model sums: over a concatenation of event batches,
/// each model's request count, cost and token total is the arithmetic sum
/// of the two batches' own sums — equivalently, of each event's own
/// cost and token computation.
pub proof fn lemma_model_sums_concat(
    a: Seq<UsageEvent>,
    b: Seq<UsageEvent>,
    bound: int,
    m: Seq<char>,
)
    ensures
        count_from_model(a + b, bound, m) == count_from_model(a, bound, m) + count_from_model(
            b,
            bound,
            m,
        ),
        cost_from_model(a + b, bound, m) == cost_from_model(a, bound, m) + cost_from_model(
            b,
            bound,
            m,
        ),
        tokens_from_model(a + b, bound, m) == tokens_from_model(a, bound, m) + tokens_from_model(
            b,
            bound,
            m,
        ),
    decreases b.len(),
{
    if b.len() == 0 {
        assert(a + b =~= a);
    } else {
        lemma_model_sums_concat(a, b.drop_last(), bound, m);
        assert((a + b).drop_last() =~= a + b.drop_last());
        assert((a + b).last() == b.last());
    }
}

/// Linearity of the window totals: over a concatenation of event batches
/// the request count, cost and token total are the arithmetic sums of the
/// two batches' own totals.
pub proof fn lemma_window_sums_concat(a: Seq<UsageEvent>, b: Seq<UsageEvent>, bound: int)
    ensures
        count_from(a + b, bound) == count_from(a, bound) + count_from(b, bound),
        cost_from(a + b, bound) == cost_from(a, bound) + cost_from(b, bound),
        tokens_from(a + b, bound) == tokens_from(a, bound) + tokens_from(b, bound),
    decreases b.len(),
{
    if b.len() == 0 {
        assert(a + b =~= a);
    } else {
        lemma_window_sums_concat(a, b.drop_last(), bound);
        assert((a + b).drop_last() =~= a + b.drop_last());
        assert((a + b).last() == b.last());
    }
}

/// A single in-window event contributes exactly its own cost and tokens to
/// its model's sums.
pub proof fn lemma_model_sums_single(e: UsageEvent, bound: int)
    ensures
        count_from_model(seq![e], bound, e.spec_model()) == if event_in(e, bound) {
            1int
        } else {
            0int
        },
        cost_from_model(seq![e], bound, e.spec_model()) == if event_in(e, bound) {
            e.spec_cost_millicents()
        } else {
            0int
        },
        tokens_from_model(seq![e], bound, e.spec_model()) == if event_in(e, bound) {
            e.spec_tokens()
        } else {
            0int
        },
{
    let s = seq![e];
    assert(s.drop_last() =~= Seq::<UsageEvent>::empty());
    assert(s.last() == e);
    assert(count_from_model(s.drop_last(), bound, e.spec_model()) == 0);
    assert(cost_from_model(s.drop_last(), bound, e.spec_model()) == 0);
    assert(tokens_from_model(s.drop_last(), bound, e.spec_model()) == 0);
}

proof fn lemma_items_agree_up_to(
    items1: Seq<LineItem>,
    items2: Seq<LineItem>,
    evs: Seq<UsageEvent>,
    b: int,
    k: int,
)
    requires
        line_items_ok(items1, evs, b),
        line_items_ok(items2, evs, b),
        0 <= k <= items1.len(),
    ensures
        forall|j: int|
            0 <= j < k ==> (#[trigger] items1[j]).model_name@ == items2[j].model_name@,
    decreases k,
{
    let ms = models_from(evs, b);
    if k > 0 {
        lemma_items_agree_up_to(items1, items2, evs, b, k - 1);
        let m1 = items1[k - 1].model_name@;
        let m2 = items2[k - 1].model_name@;
        if m1 != m2 {
            let j1 = choose|j: int| 0 <= j < ms.len() && ms[j] == m1;
            let p2 = choose|p: int| 0 <= p < items2.len() && items2[p].model_name@ == ms[j1];
            assert(items2[p2].model_name@ == m1);
            if p2 < k - 1 {
                assert(items1[p2].model_name@ == m1);
                assert(items1[p2].cost_millicents == items1[k - 1].cost_millicents);
            }
            assert(p2 > k - 1);
            let j2 = choose|j: int| 0 <= j < ms.len() && ms[j] == m2;
            let p1 = choose|p: int| 0 <= p < items1.len() && items1[p].model_name@ == ms[j2];
            assert(items1[p1].model_name@ == m2);
            if p1 < k - 1 {
                assert(items2[p1].model_name@ == m2);
                assert(items2[p1].cost_millicents == items2[k - 1].cost_millicents);
            }
            assert(p1 > k - 1);
            let c1 = items1[k - 1].cost_millicents;
            let c2 = items2[k - 1].cost_millicents;
            assert(items1[p1].cost_millicents == c2);
            assert(items2[p2].cost_millicents == c1);
            assert(c1 > c2 || (c1 == c2 && rank_in(ms, m1) < rank_in(ms, m2)));
            assert(c2 > c1 || (c2 == c1 && rank_in(ms, m2) < rank_in(ms, m1)));
            assert(false);
        }
    }
}

/// The published order is fully determined: any two line-item sequences
/// that satisfy `line_items_ok` for the same events and billing start
/// agree item by item. Together with the engine's postcondition this makes
/// the output order deterministic for a fixed input.
pub proof fn lemma_line_items_unique(
    items1: Seq<LineItem>,
    items2: Seq<LineItem>,
    evs: Seq<UsageEvent>,
    b: int,
)
    requires
        line_items_ok(items1, evs, b),
        line_items_ok(items2, evs, b),
    ensures
        items1.len() == items2.len(),
        forall|k: int|
            0 <= k < items1.len() ==> (#[trigger] items1[k]).model_name@ == items2[k].model_name@
                && items1[k].request_count == items2[k].request_count
                && items1[k].cost_millicents == items2[k].cost_millicents
                && items1[k].total_tokens == items2[k].total_tokens,
{
    lemma_items_agree_up_to(items1, items2, evs, b, items1.len() as int);
}

// ── the accumulator ──

/// Running per-model totals while walking the event list.
struct ModelAcc {
    model: String,
    count: u64,
    cost: u64,
    tokens: u64,
}

/// The accumulator rows mirror the first-seen model list: row `k` holds
/// exactly the billing-window sums of model `k`.
spec fn acc_ok(acc: Seq<ModelAcc>, evs: Seq<UsageEvent>, b: int) -> bool {
    let ms = models_from(evs, b);
    &&& acc.len() == ms.len()
    &&& forall|k: int|
        0 <= k < acc.len() ==> (#[trigger] acc[k]).model@ == ms[k] && acc[k].count
            == count_from_model(evs, b, ms[k]) && acc[k].cost == cap_u64(
            cost_from_model(evs, b, ms[k]),
        ) && acc[k].tokens == cap_u64(tokens_from_model(evs, b, ms[k]))
}

/// Sum of the accumulator request counts.
spec fn sum_counts(acc: Seq<ModelAcc>) -> int
    decreases acc.len(),
{
    if acc.len() == 0 {
        0
    } else {
        sum_counts(acc.drop_last()) + acc.last().count
    }
}

proof fn lemma_sum_counts_update(acc: Seq<ModelAcc>, k: int, v: ModelAcc)
    requires
        0 <= k < acc.len(),
    ensures
        sum_counts(acc.update(k, v)) == sum_counts(acc) - acc[k].count + v.count,
    decreases acc.len(),
{
    let u = acc.update(k, v);
    if k == acc.len() - 1 {
        assert(u.drop_last() =~= acc.drop_last());
        assert(u.last() == v);
    } else {
        assert(u.drop_last() =~= acc.drop_last().update(k, v));
        assert(u.last() == acc.last());
        lemma_sum_counts_update(acc.drop_last(), k, v);
    }
}

proof fn lemma_sum_counts_push(acc: Seq<ModelAcc>, v: ModelAcc)
    ensures
        sum_counts(acc.push(v)) == sum_counts(acc) + v.count,
{
    assert(acc.push(v).drop_last() =~= acc);
    assert(acc.push(v).last() == v);
}

/// Walks the events once and accumulates the billing-period totals and the
/// per-model rows, in first-seen order.
fn accumulate(events: &Vec<UsageEvent>, b: i64) -> (r: (Vec<ModelAcc>, u64, u64, u64))
    ensures
        acc_ok(r.0@, events@, b as int),
        sum_counts(r.0@) == count_from(events@, b as int),
        r.1 == count_from(events@, b as int),
        r.2 == cap_u64(cost_from(events@, b as int)),
        r.3 == cap_u64(tokens_from(events@, b as int)),
{
    let ghost bb = b as int;
    let mut acc: Vec<ModelAcc> = Vec::new();
    let mut total_count: u64 = 0;
    let mut total_cost: u64 = 0;
    let mut total_tokens: u64 = 0;
    let n = events.len();
    let mut i: usize = 0;
    proof {
        assert(events@.subrange(0, 0) =~= Seq::<UsageEvent>::empty());
    }
    while i < n
        invariant
            0 <= i <= n,
            n == events@.len(),
            acc_ok(acc@, events@.subrange(0, i as int), bb),
            sum_counts(acc@) == count_from(events@.subrange(0, i as int), bb),
            total_count == count_from(events@.subrange(0, i as int), bb),
            total_cost == cap_u64(cost_from(events@.subrange(0, i as int), bb)),
            total_tokens == cap_u64(tokens_from(events@.subrange(0, i as int), bb)),
            bb == b as int,
        decreases n - i,
    {
        let ghost prefix = events@.subrange(0, i as int);
        let ghost prefix2 = events@.subrange(0, i as int + 1);
        let e = &events[i];
        let ghost ee = events@[i as int];
        proof {
            assert(prefix2 =~= prefix.push(ee));
            lemma_sums_push(prefix, ee, bb, ee.spec_model());
            lemma_sums_bounds(prefix, bb, ee.spec_model());
        }
        let ts = numbers::parse_timestamp_ms(e.timestamp.as_str());
        let cost_e = e.cost_millicents();
        let toks_e = e.tokens();
        if ts >= b {
            assert(event_in(ee, bb));
            total_count = total_count + 1;
            total_cost = total_cost.saturating_add(cost_e);
            total_tokens = total_tokens.saturating_add(toks_e);
            proof {
                assert(total_cost == cap_u64(cost_from(prefix2, bb)));
                assert(total_tokens == cap_u64(tokens_from(prefix2, bb)));
            }
            let model = e.model_name();
            let ghost ms = models_from(prefix, bb);
            let ghost ms2 = models_from(prefix2, bb);
            proof {
                lemma_models_distinct(prefix, bb);
            }
            let mut j: usize = 0;
            let len = acc.len();
            let mut found = false;
            while j < len && !found
                invariant
                    0 <= j <= len,
                    len == acc@.len(),
                    !found ==> forall|t: int| 0 <= t < j ==> (#[trigger] acc@[t]).model@ != model@,
                    found ==> j < len && acc@[j as int].model@ == model@,
                    acc_ok(acc@, prefix, bb),
                    model@ == ee.spec_model(),
                    ms == models_from(prefix, bb),
                decreases len - j + if found { 0int } else { 1int },
            {
                if acc[j].model == model {
                    found = true;
                } else {
                    j = j + 1;
                }
            }
            if found {
                proof {
                    assert(ms[j as int] == model@);
                    assert(ms.contains(ee.spec_model()));
                    assert(ms2 == ms);
                    lemma_sums_push(prefix, ee, bb, ms[j as int]);
                }
                let row = &acc[j];
                assert(row.count < u64::MAX) by {
                    lemma_sums_bounds(prefix, bb, ms[j as int]);
                }
                let new_row = ModelAcc {
                    model,
                    count: row.count + 1,
                    cost: row.cost.saturating_add(cost_e),
                    tokens: row.tokens.saturating_add(toks_e),
                };
                proof {
                    lemma_sum_counts_update(acc@, j as int, new_row);
                    lemma_sums_bounds(prefix, bb, ms[j as int]);
                }
                acc.set(j, new_row);
                proof {
                    assert forall|k: int| 0 <= k < acc@.len() implies (#[trigger] acc@[k]).model@
                        == ms2[k] && acc@[k].count == count_from_model(prefix2, bb, ms2[k])
                        && acc@[k].cost == cap_u64(cost_from_model(prefix2, bb, ms2[k]))
                        && acc@[k].tokens == cap_u64(tokens_from_model(prefix2, bb, ms2[k])) by {
                        lemma_sums_push(prefix, ee, bb, ms[k]);
                        if k != j {
                            assert(ms[k] != ms[j as int]);
                            assert(!event_in_model(ee, bb, ms[k]));
                        } else {
                            lemma_sums_bounds(prefix, bb, ms[j as int]);
                        }
                    }
                }
            } else {
                proof {
                    assert(forall|t: int|
                        0 <= t < acc@.len() ==> (#[trigger] acc@[t]).model@ != model@);
                    assert(!ms.contains(ee.spec_model())) by {
                        if ms.contains(ee.spec_model()) {
                            let t = choose|t: int|
                                0 <= t < ms.len() && ms[t] == ee.spec_model();
                            assert(acc@[t].model@ == ms[t]);
                        }
                    }
                    assert(ms2 == ms.push(ee.spec_model()));
                    lemma_unseen_model_zero(prefix, bb, ee.spec_model());
                }
                let new_row = ModelAcc { model, count: 1, cost: cost_e, tokens: toks_e };
                proof {
                    lemma_sum_counts_push(acc@, new_row);
                }
                acc.push(new_row);
                proof {
                    assert forall|k: int| 0 <= k < acc@.len() implies (#[trigger] acc@[k]).model@
                        == ms2[k] && acc@[k].count == count_from_model(prefix2, bb, ms2[k])
                        && acc@[k].cost == cap_u64(cost_from_model(prefix2, bb, ms2[k]))
                        && acc@[k].tokens == cap_u64(tokens_from_model(prefix2, bb, ms2[k])) by {
                        lemma_sums_push(prefix, ee, bb, ms2[k]);
                        if k < acc@.len() - 1 {
                            assert(ms[k] != ee.spec_model()) by {
                                if ms[k] == ee.spec_model() {
                                    assert(ms.contains(ee.spec_model()));
                                }
                            }
                            assert(!event_in_model(ee, bb, ms[k]));
                        } else {
                            assert(ms2[k] == ee.spec_model());
                        }
                    }
                }
            }
        } else {
            proof {
                assert(!event_in(ee, bb));
                assert(models_from(prefix2, bb) == models_from(prefix, bb));
                assert forall|k: int| 0 <= k < acc@.len() implies (#[trigger] acc@[k]).model@
                    == models_from(prefix2, bb)[k] && acc@[k].count == count_from_model(
                    prefix2,
                    bb,
                    models_from(prefix2, bb)[k],
                ) && acc@[k].cost == cap_u64(cost_from_model(prefix2, bb, models_from(prefix2, bb)[k]))
                    && acc@[k].tokens == cap_u64(
                    tokens_from_model(prefix2, bb, models_from(prefix2, bb)[k]),
                ) by {
                    lemma_sums_push(prefix, ee, bb, models_from(prefix, bb)[k]);
                }
            }
        }
        i = i + 1;
    }
    proof {
        assert(events@.subrange(0, n as int) =~= events@);
    }
    (acc, total_count, total_cost, total_tokens)
}

// ── sorting the line items ──

/// A sortable handle on one accumulator row: its cost and its first-seen
/// position.
#[derive(Clone, Copy)]
struct SortKey {
    cost: u64,
    seen: usize,
}

/// Strict order on the line items: higher cost first; equal costs keep
/// first-seen order. Total on keys with distinct `seen`.
spec fn key_before(a: SortKey, b: SortKey) -> bool {
    a.cost > b.cost || (a.cost == b.cost && a.seen < b.seen)
}

fn key_before_exec(a: SortKey, b: SortKey) -> (r: bool)
    ensures
        r == key_before(a, b),
{
    a.cost > b.cost || (a.cost == b.cost && a.seen < b.seen)
}

/// Some key points at row `j`.
spec fn covers(keys: Seq<SortKey>, j: int) -> bool {
    exists|k: int| 0 <= k < keys.len() && (#[trigger] keys[k]).seen == j
}

/// The keys are a permutation of the accumulator rows, each carrying its
/// row's cost.
spec fn keys_ok(keys: Seq<SortKey>, acc: Seq<ModelAcc>) -> bool {
    &&& keys.len() == acc.len()
    &&& forall|k: int|
        0 <= k < keys.len() ==> ((#[trigger] keys[k]).seen as int) < acc.len() && keys[k].cost
            == acc[keys[k].seen as int].cost
    &&& forall|k1: int, k2: int|
        0 <= k1 < k2 < keys.len() ==> (#[trigger] keys[k1]).seen != (#[trigger] keys[k2]).seen
    &&& forall|j: int| 0 <= j < acc.len() ==> #[trigger] covers(keys, j)
}

/// The request count a key contributes: its row's count.
spec fn key_contrib(x: SortKey, acc: Seq<ModelAcc>) -> int {
    if (x.seen as int) < acc.len() {
        acc[x.seen as int].count as int
    } else {
        0
    }
}

/// Sum of the request counts reached through a key sequence.
spec fn skc(keys: Seq<SortKey>, acc: Seq<ModelAcc>) -> int
    decreases keys.len(),
{
    if keys.len() == 0 {
        0
    } else {
        skc(keys.drop_last(), acc) + key_contrib(keys.last(), acc)
    }
}

proof fn lemma_skc_update(keys: Seq<SortKey>, j: int, v: SortKey, acc: Seq<ModelAcc>)
    requires
        0 <= j < keys.len(),
    ensures
        skc(keys.update(j, v), acc) == skc(keys, acc) - key_contrib(keys[j], acc) + key_contrib(
            v,
            acc,
        ),
    decreases keys.len(),
{
    let u = keys.update(j, v);
    if j == keys.len() - 1 {
        assert(u.drop_last() =~= keys.drop_last());
        assert(u.last() == v);
    } else {
        assert(u.drop_last() =~= keys.drop_last().update(j, v));
        assert(u.last() == keys.last());
        lemma_skc_update(keys.drop_last(), j, v, acc);
    }
}

proof fn lemma_skc_push(keys: Seq<SortKey>, v: SortKey, acc: Seq<ModelAcc>)
    ensures
        skc(keys.push(v), acc) == skc(keys, acc) + key_contrib(v, acc),
{
    assert(keys.push(v).drop_last() =~= keys);
    assert(keys.push(v).last() == v);
}

/// How the published line items relate to the events: one item per model
/// seen in the billing window, in first-seen order of appearance, each
/// carrying that model's exact request count and capped cost and token
/// sums; sorted by cost descending, ties broken by first-seen rank — a
/// deterministic order for identical input order.
pub open spec fn line_items_ok(items: Seq<LineItem>, evs: Seq<UsageEvent>, b: int) -> bool {
    let ms = models_from(evs, b);
    &&& items.len() == ms.len()
    &&& forall|k: int|
        0 <= k < items.len() ==> ms.contains((#[trigger] items[k]).model_name@) && items[k].request_count
            == count_from_model(evs, b, items[k].model_name@) && items[k].cost_millicents == cap_u64(
            cost_from_model(evs, b, items[k].model_name@),
        ) && items[k].total_tokens == cap_u64(tokens_from_model(evs, b, items[k].model_name@))
    &&& forall|j: int|
        0 <= j < ms.len() ==> exists|k: int|
            0 <= k < items.len() && (#[trigger] items[k]).model_name@ == #[trigger] ms[j]
    &&& forall|k1: int, k2: int|
        0 <= k1 < k2 < items.len() ==> (#[trigger] items[k1]).cost_millicents > (
        #[trigger] items[k2]).cost_millicents || (items[k1].cost_millicents
            == items[k2].cost_millicents && rank_in(ms, items[k1].model_name@) < rank_in(
            ms,
            items[k2].model_name@,
        ))
}

/// Orders the accumulator rows into the published line items.
fn sorted_line_items(
    acc: Vec<ModelAcc>,
    Ghost(evs): Ghost<Seq<UsageEvent>>,
    Ghost(b): Ghost<int>,
) -> (items: Vec<LineItem>)
    requires
        acc_ok(acc@, evs, b),
    ensures
        line_items_ok(items@, evs, b),
        sum_requests(items@) == sum_counts(acc@),
{
    let n = acc.len();
    let ghost ms = models_from(evs, b);
    let ghost acc0 = acc@;
    proof {
        lemma_models_distinct(evs, b);
    }

    let mut keys: Vec<SortKey> = Vec::new();
    let mut k: usize = 0;
    while k < n
        invariant
            0 <= k <= n,
            n == acc@.len(),
            acc@ == acc0,
            keys@.len() == k,
            forall|t: int|
                0 <= t < k ==> ((#[trigger] keys@[t]).seen as int) == t && keys@[t].cost
                    == acc@[t].cost,
            skc(keys@, acc@) == sum_counts(acc@.subrange(0, k as int)),
        decreases n - k,
    {
        let row_cost = acc[k].cost;
        let sk = SortKey { cost: row_cost, seen: k };
        proof {
            lemma_skc_push(keys@, sk, acc@);
            assert(acc@.subrange(0, k as int + 1).drop_last() =~= acc@.subrange(0, k as int));
            assert(acc@.subrange(0, k as int + 1).last() == acc@[k as int]);
        }
        keys.push(sk);
        k = k + 1;
    }
    proof {
        assert(acc@.subrange(0, n as int) =~= acc@);
        assert forall|j: int| 0 <= j < acc@.len() implies #[trigger] covers(keys@, j) by {
            assert(keys@[j].seen == j);
        }
        assert(keys_ok(keys@, acc@));
    }

    let mut i: usize = 0;
    while i < n
        invariant
            0 <= i <= n,
            n == acc@.len(),
            acc@ == acc0,
            keys@.len() == n,
            keys_ok(keys@, acc@),
            skc(keys@, acc@) == sum_counts(acc@),
            forall|k1: int, k2: int|
                0 <= k1 < k2 < i ==> key_before(#[trigger] keys@[k1], #[trigger] keys@[k2]),
            forall|k1: int, k2: int|
                0 <= k1 < i && i <= k2 < n ==> key_before(
                    #[trigger] keys@[k1],
                    #[trigger] keys@[k2],
                ),
        decreases n - i,
    {
        let mut best: usize = i;
        let mut j: usize = i + 1;
        while j < n
            invariant
                i <= best < j <= n,
                i < n,
                n == keys@.len(),
                n == acc@.len(),
                keys_ok(keys@, acc@),
                forall|t: int|
                    i <= t < j && t != best ==> key_before(
                        keys@[best as int],
                        #[trigger] keys@[t],
                    ),
            decreases n - j,
        {
            let kj = keys[j];
            let kb = keys[best];
            if key_before_exec(kj, kb) {
                proof {
                    assert forall|t: int|
                        i <= t < j + 1 && t != j implies key_before(
                        keys@[j as int],
                        #[trigger] keys@[t],
                    ) by {
                        if t == best {
                        } else {
                            assert(key_before(keys@[best as int], keys@[t]));
                            assert(keys@[t].seen != keys@[j as int].seen);
                        }
                    }
                }
                best = j;
            } else {
                proof {
                    assert(keys@[j as int].seen != keys@[best as int].seen);
                    assert(key_before(keys@[best as int], keys@[j as int]));
                }
            }
            j = j + 1;
        }
        let ghost old_keys = keys@;
        if best != i {
            let ki = keys[i];
            let kb = keys[best];
            proof {
                lemma_skc_update(keys@, i as int, kb, acc@);
                lemma_skc_update(keys@.update(i as int, kb), best as int, ki, acc@);
            }
            keys.set(i, kb);
            keys.set(best, ki);
            proof {
                assert(keys@ =~= old_keys.update(i as int, old_keys[best as int]).update(
                    best as int,
                    old_keys[i as int],
                ));
                assert forall|j2: int| 0 <= j2 < acc@.len() implies #[trigger] covers(keys@, j2) by {
                    assert(covers(old_keys, j2));
                    let w = choose|w: int|
                        0 <= w < old_keys.len() && (#[trigger] old_keys[w]).seen == j2;
                    if w == i {
                        assert(keys@[best as int].seen == j2);
                    } else if w == best {
                        assert(keys@[i as int].seen == j2);
                    } else {
                        assert(keys@[w].seen == j2);
                    }
                }
            }
        }
        proof {
            assert forall|k1: int, k2: int| 0 <= k1 < i + 1 && i + 1 <= k2 < n implies key_before(
                #[trigger] keys@[k1],
                #[trigger] keys@[k2],
            ) by {
                if k1 < i {
                    if best != i && k2 == best {
                        assert(keys@[k2] == old_keys[i as int]);
                        assert(key_before(old_keys[k1], old_keys[i as int]));
                    } else {
                        assert(keys@[k2] == old_keys[k2]);
                        assert(key_before(old_keys[k1], old_keys[k2]));
                    }
                } else {
                    assert(keys@[i as int] == old_keys[best as int]);
                    if best != i && k2 == best {
                        assert(keys@[k2] == old_keys[i as int]);
                        assert(key_before(old_keys[best as int], old_keys[i as int]));
                    } else {
                        assert(keys@[k2] == old_keys[k2]);
                        assert(key_before(old_keys[best as int], old_keys[k2]));
                    }
                }
            }
        }
        i = i + 1;
    }

    let mut items: Vec<LineItem> = Vec::new();
    let mut t: usize = 0;
    while t < n
        invariant
            0 <= t <= n,
            n == acc@.len(),
            acc@ == acc0,
            acc_ok(acc@, evs, b),
            ms == models_from(evs, b),
            keys@.len() == n,
            keys_ok(keys@, acc@),
            skc(keys@, acc@) == sum_counts(acc@),
            forall|k1: int, k2: int|
                0 <= k1 < k2 < n ==> key_before(#[trigger] keys@[k1], #[trigger] keys@[k2]),
            items@.len() == t,
            forall|u: int|
                0 <= u < t ==> (#[trigger] items@[u]).model_name@ == ms[keys@[u].seen as int]
                    && items@[u].request_count == acc@[keys@[u].seen as int].count
                    && items@[u].cost_millicents == keys@[u].cost && items@[u].total_tokens
                    == acc@[keys@[u].seen as int].tokens,
            sum_requests(items@) == skc(keys@.subrange(0, t as int), acc@),
        decreases n - t,
    {
        let sk = keys[t];
        let row = &acc[sk.seen];
        let item = LineItem {
            model_name: row.model.clone(),
            request_count: row.count,
            cost_millicents: row.cost,
            total_tokens: row.tokens,
        };
        proof {
            assert(keys@.subrange(0, t as int + 1).drop_last() =~= keys@.subrange(0, t as int));
            assert(keys@.subrange(0, t as int + 1).last() == keys@[t as int]);
            assert(sum_requests(items@.push(item)) == sum_requests(items@) + item.request_count)
                by {
                assert(items@.push(item).drop_last() =~= items@);
                assert(items@.push(item).last() == item);
            }
        }
        items.push(item);
        t = t + 1;
    }
    proof {
        assert(keys@.subrange(0, n as int) =~= keys@);
        assert forall|k2: int| 0 <= k2 < items@.len() implies ms.contains(
            (#[trigger] items@[k2]).model_name@,
        ) && items@[k2].request_count == count_from_model(evs, b, items@[k2].model_name@)
            && items@[k2].cost_millicents == cap_u64(cost_from_model(evs, b, items@[k2].model_name@))
            && items@[k2].total_tokens == cap_u64(
            tokens_from_model(evs, b, items@[k2].model_name@),
        ) by {
            let s = keys@[k2].seen as int;
            assert(items@[k2].model_name@ == ms[s]);
            assert(ms.contains(ms[s]));
        }
        assert forall|j: int| 0 <= j < ms.len() implies exists|k2: int|
            0 <= k2 < items@.len() && (#[trigger] items@[k2]).model_name@ == #[trigger] ms[j] by {
            assert(covers(keys@, j));
            let w = choose|w: int| 0 <= w < keys@.len() && (#[trigger] keys@[w]).seen == j;
            assert(items@[w].model_name@ == ms[j]);
        }
        assert forall|k1: int, k2: int| 0 <= k1 < k2 < items@.len() implies (
        #[trigger] items@[k1]).cost_millicents > (#[trigger] items@[k2]).cost_millicents || (
        items@[k1].cost_millicents == items@[k2].cost_millicents && rank_in(
            ms,
            items@[k1].model_name@,
        ) < rank_in(ms, items@[k2].model_name@)) by {
            let s1 = keys@[k1].seen as int;
            let s2 = keys@[k2].seen as int;
            assert(key_before(keys@[k1], keys@[k2]));
            lemma_rank_of_index(ms, s1);
            lemma_rank_of_index(ms, s2);
            assert(items@[k1].model_name@ == ms[s1]);
            assert(items@[k2].model_name@ == ms[s2]);
        }
    }
    items
}

// ── the window summaries ──

/// Requests, spend and tokens over one reporting window, labelled.
fn window_summary(events: &Vec<UsageEvent>, bound: i64, label: &str) -> (r: PeriodSummary)
    ensures
        r.label@ == label@,
        r.requests == count_from(events@, bound as int),
        r.spend_millicents == cap_u64(cost_from(events@, bound as int)),
        r.tokens == cap_u64(tokens_from(events@, bound as int)),
{
    let mut requests: u64 = 0;
    let mut spend: u64 = 0;
    let mut tokens: u64 = 0;
    let n = events.len();
    let mut i: usize = 0;
    proof {
        assert(events@.subrange(0, 0) =~= Seq::<UsageEvent>::empty());
    }
    while i < n
        invariant
            0 <= i <= n,
            n == events@.len(),
            requests == count_from(events@.subrange(0, i as int), bound as int),
            spend == cap_u64(cost_from(events@.subrange(0, i as int), bound as int)),
            tokens == cap_u64(tokens_from(events@.subrange(0, i as int), bound as int)),
        decreases n - i,
    {
        let ghost prefix = events@.subrange(0, i as int);
        let e = &events[i];
        let ghost ee = events@[i as int];
        proof {
            assert(events@.subrange(0, i as int + 1) =~= prefix.push(ee));
            lemma_sums_push(prefix, ee, bound as int, ee.spec_model());
            lemma_sums_bounds(prefix, bound as int, ee.spec_model());
        }
        let ts = numbers::parse_timestamp_ms(e.timestamp.as_str());
        if ts >= bound {
            requests = requests + 1;
            spend = spend.saturating_add(e.cost_millicents());
            tokens = tokens.saturating_add(e.tokens());
        }
        i = i + 1;
    }
    proof {
        assert(events@.subrange(0, n as int) =~= events@);
    }
    PeriodSummary { label: String::from_str(label), requests, spend_millicents: spend, tokens }
}

// ── the engine ──

/// Aggregates the event list into the published snapshot, against explicit
/// window anchors: the billing-period start, the capture instant `now`,
/// and local midnight `today_start`. Pure and deterministic.
///
/// Every event is considered for each window independently; the windows
/// overlap by design. Per-model line items cover the billing period only.
pub fn aggregate_at(
    billing_start: i64,
    now: i64,
    today_start: i64,
    events: &Vec<UsageEvent>,
) -> (r: UsageDisplayData)
    requires
        now >= i64::MIN + MS_PER_30_DAYS,
    ensures
        r.total_requests == count_from(events@, billing_start as int),
        r.total_spend_millicents == cap_u64(cost_from(events@, billing_start as int)),
        r.total_tokens == cap_u64(tokens_from(events@, billing_start as int)),
        line_items_ok(r.line_items@, events@, billing_start as int),
        sum_requests(r.line_items@) == count_from(events@, billing_start as int),
        r.billing_period_start@ == clock::rfc3339_rendered(billing_start),
        r.today.label@ == "Today"@,
        r.today.requests == count_from(events@, today_start as int),
        r.today.spend_millicents == cap_u64(cost_from(events@, today_start as int)),
        r.today.tokens == cap_u64(tokens_from(events@, today_start as int)),
        r.last7_days.label@ == "Last 7 Days"@,
        r.last7_days.requests == count_from(events@, now - MS_PER_7_DAYS),
        r.last7_days.spend_millicents == cap_u64(cost_from(events@, now - MS_PER_7_DAYS)),
        r.last7_days.tokens == cap_u64(tokens_from(events@, now - MS_PER_7_DAYS)),
        r.last30_days.label@ == "Last 30 Days"@,
        r.last30_days.requests == count_from(events@, now - MS_PER_30_DAYS),
        r.last30_days.spend_millicents == cap_u64(cost_from(events@, now - MS_PER_30_DAYS)),
        r.last30_days.tokens == cap_u64(tokens_from(events@, now - MS_PER_30_DAYS)),
{
    let (acc, total_requests, total_spend, total_tokens) = accumulate(events, billing_start);
    let line_items = sorted_line_items(acc, Ghost(events@), Ghost(billing_start as int));
    let seven_days_ago = now - MS_PER_7_DAYS;
    let thirty_days_ago = now - MS_PER_30_DAYS;
    let today = window_summary(events, today_start, "Today");
    let last7_days = window_summary(events, seven_days_ago, "Last 7 Days");
    let last30_days = window_summary(events, thirty_days_ago, "Last 30 Days");
    let billing_period_start = clock::format_rfc3339_ms(billing_start);
    UsageDisplayData {
        total_requests,
        total_spend_millicents: total_spend,
        total_tokens,
        line_items,
        billing_period_start,
        today,
        last7_days,
        last30_days,
    }
}

/// Aggregates against the machine clock: `now` is the capture instant
/// (clamped below at the epoch) and today's window starts at local
/// midnight. The billing-period results are exact whatever the clock says;
/// of the clock-relative windows this promises their shape, each computed
/// from some anchor instant.
pub fn aggregate(billing_start: i64, events: &Vec<UsageEvent>) -> (r: UsageDisplayData)
    ensures
        r.total_requests == count_from(events@, billing_start as int),
        r.total_spend_millicents == cap_u64(cost_from(events@, billing_start as int)),
        r.total_tokens == cap_u64(tokens_from(events@, billing_start as int)),
        line_items_ok(r.line_items@, events@, billing_start as int),
        sum_requests(r.line_items@) == count_from(events@, billing_start as int),
        r.billing_period_start@ == clock::rfc3339_rendered(billing_start),
        r.today.label@ == "Today"@,
        r.last7_days.label@ == "Last 7 Days"@,
        r.last30_days.label@ == "Last 30 Days"@,
        exists|t: int|
            #![auto]
            r.today.requests == count_from(events@, t) && r.today.spend_millicents == cap_u64(
                cost_from(events@, t),
            ) && r.today.tokens == cap_u64(tokens_from(events@, t)),
        exists|t: int|
            #![auto]
            r.last7_days.requests == count_from(events@, t) && r.last7_days.spend_millicents
                == cap_u64(cost_from(events@, t)) && r.last7_days.tokens == cap_u64(
                tokens_from(events@, t),
            ),
        exists|t: int|
            #![auto]
            r.last30_days.requests == count_from(events@, t) && r.last30_days.spend_millicents
                == cap_u64(cost_from(events@, t)) && r.last30_days.tokens == cap_u64(
                tokens_from(events@, t),
            ),
{
    let now_raw = clock::now_utc_ms();
    let now = if now_raw < 0 {
        0
    } else {
        now_raw
    };
    let today_start = clock::local_day_start_ms();
    let r = aggregate_at(billing_start, now, today_start, events);
    proof {
        assert(r.today.requests == count_from(events@, today_start as int));
        assert(r.last7_days.requests == count_from(events@, now - MS_PER_7_DAYS));
        assert(r.last30_days.requests == count_from(events@, now - MS_PER_30_DAYS));
    }
    r
}

} // verus!
