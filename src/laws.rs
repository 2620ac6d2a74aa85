//! Properties that relate the parser and the history across inputs and calls.
use vstd::prelude::*;

use crate::model::{merged_history, metric_from_scrape, MetricType, MetricView, ScrapeView};
use crate::parser::{blocks_of, decode_block, is_help_line, label_map, pairs_map, parse_pair};
use crate::scrape::{body_blocks, history_after};
use crate::text::split_on;

verus! {

/// Number of `# HELP` lines among `lines`.
pub open spec fn help_count(lines: Seq<Seq<char>>) -> nat
    decreases lines.len(),
{
    if lines.len() == 0 {
        0
    } else {
        help_count(lines.drop_last()) + if is_help_line(lines.last()) {
            1nat
        } else {
            0nat
        }
    }
}

/// Block splitting loses, adds and reorders nothing: the blocks, concatenated, are the lines.
/// Each block is non-empty, each block but the first starts with a `# HELP` line and no block
/// holds one past its start; so when the first line is a `# HELP` line there is exactly one
/// block per `# HELP` line.
pub proof fn lemma_blocks_partition(lines: Seq<Seq<char>>)
    ensures
        blocks_of(lines).flatten() == lines,
        forall|i: int| 0 <= i < blocks_of(lines).len() ==> #[trigger] blocks_of(lines)[i].len() > 0,
        forall|i: int| 0 < i < blocks_of(lines).len() ==> is_help_line(#[trigger] blocks_of(lines)[i][0]),
        forall|i: int, j: int|
            0 <= i < blocks_of(lines).len() && 0 < j < blocks_of(lines)[i].len() ==> !is_help_line(
                #[trigger] blocks_of(lines)[i][j],
            ),
        lines.len() > 0 && is_help_line(lines[0]) ==> blocks_of(lines).len() == help_count(lines),
    decreases lines.len(),
{
    let b = blocks_of(lines);
    if lines.len() > 0 {
        let pre = lines.drop_last();
        let l = lines.last();
        let c = blocks_of(pre);
        lemma_blocks_partition(pre);
        c.lemma_flatten_and_flatten_alt_are_equivalent();
        b.lemma_flatten_and_flatten_alt_are_equivalent();
        if c.len() == 0 || is_help_line(l) {
            assert(b.drop_last() =~= c);
            assert(b.flatten_alt() =~= lines);
        } else {
            assert(b.drop_last() =~= c.drop_last());
            assert(c.flatten_alt() == c.drop_last().flatten_alt() + c.last());
            assert(b.last() == c.last().push(l));
            assert(b.flatten_alt() == b.drop_last().flatten_alt() + b.last());
            assert(lines =~= pre.push(l));
            assert(c.drop_last().flatten_alt() + c.last().push(l) =~= (c.drop_last().flatten_alt()
                + c.last()).push(l));
            assert(b.flatten_alt() =~= lines);
            assert forall|i: int, j: int| 0 <= i < b.len() && 0 < j < b[i].len() implies !is_help_line(
                #[trigger] b[i][j],
            ) by {
                if i < c.len() - 1 || j < c[i].len() {
                    assert(b[i][j] == c[i][j]);
                }
            }
        }
        crate::parser::lemma_blocks_of_empty(pre);
        if lines.len() > 1 && is_help_line(lines[0]) {
            assert(pre[0] == lines[0]);
            assert(c.len() == help_count(pre));
            assert(c.len() > 0);
            if is_help_line(l) {
                assert(b.len() == c.len() + 1);
            } else {
                assert(b.len() == c.len());
            }
            assert(help_count(lines) == help_count(pre) + if is_help_line(l) { 1nat } else { 0nat });
        }
        if lines.len() == 1 {
            assert(pre.len() == 0);
            assert(help_count(pre) == 0);
            assert(lines[0] == l);
        }
    } else {
        assert(b.flatten() =~= lines);
    }
}

/// The history after merging the scrapes in order.
pub open spec fn merge_all(h: Map<Seq<char>, MetricView>, scrapes: Seq<ScrapeView>) -> Map<
    Seq<char>,
    MetricView,
>
    decreases scrapes.len(),
{
    if scrapes.len() == 0 {
        h
    } else {
        merged_history(merge_all(h, scrapes.drop_last()), scrapes.last())
    }
}

/// Number of samples that `h` holds for metric `name` and label-key `k`.
pub open spec fn sample_count(h: Map<Seq<char>, MetricView>, name: Seq<char>, k: Seq<char>) -> nat {
    if h.contains_key(name) && h[name].series.contains_key(k) {
        h[name].series[k].samples.len()
    } else {
        0
    }
}

/// Each scrape of a metric adds exactly one sample to the series of each label-key it reports:
/// after N scrapes of metric `name` (of one type) that all report label-key `k`, that series
/// holds N samples more than before.
pub proof fn lemma_merge_counts(
    h: Map<Seq<char>, MetricView>,
    scrapes: Seq<ScrapeView>,
    name: Seq<char>,
    t: MetricType,
    k: Seq<char>,
)
    requires
        forall|i: int| 0 <= i < scrapes.len() ==> (#[trigger] scrapes[i]).name == name,
        forall|i: int| 0 <= i < scrapes.len() ==> (#[trigger] scrapes[i]).metric_type == t,
        forall|i: int| 0 <= i < scrapes.len() ==> (#[trigger] scrapes[i]).values.contains_key(k),
        h.contains_key(name) ==> h[name].metric_type == t,
    ensures
        sample_count(merge_all(h, scrapes), name, k) == sample_count(h, name, k) + scrapes.len(),
        merge_all(h, scrapes).contains_key(name) ==> merge_all(h, scrapes)[name].metric_type == t,
        scrapes.len() > 0 ==> merge_all(h, scrapes).contains_key(name),
    decreases scrapes.len(),
{
    if scrapes.len() > 0 {
        let pre = scrapes.drop_last();
        let s = scrapes.last();
        assert(s == scrapes[scrapes.len() - 1]);
        assert forall|i: int| 0 <= i < pre.len() implies (#[trigger] pre[i]).name == name
            && pre[i].metric_type == t && pre[i].values.contains_key(k) by {
            assert(pre[i] == scrapes[i]);
        }
        lemma_merge_counts(h, pre, name, t, k);
    }
}

/// A scrape of a metric that the history does not hold adds it with exactly the label-keys
/// of the scrape, each series holding that scrape's one sample.
pub proof fn lemma_new_metric(h: Map<Seq<char>, MetricView>, s: ScrapeView)
    requires
        !h.contains_key(s.name),
    ensures
        merged_history(h, s).contains_key(s.name),
        merged_history(h, s)[s.name].series.dom() == s.values.dom(),
        forall|k: Seq<char>| #[trigger] s.values.contains_key(k) ==> merged_history(h, s)[s.name].series[k].samples
            == seq![s.values[k]],
{
    assert(merged_history(h, s)[s.name].series.dom() =~= s.values.dom());
}

proof fn lemma_unreported_blocks(
    h: Map<Seq<char>, MetricView>,
    blocks: Seq<Seq<Seq<char>>>,
    ts: u64,
    name: Seq<char>,
)
    requires
        h.contains_key(name),
        forall|i: int|
            0 <= i < blocks.len() && (#[trigger] decode_block(blocks[i], ts)) is Ok ==> decode_block(
                blocks[i],
                ts,
            )->Ok_0.name != name,
    ensures
        history_after(h, blocks, ts).contains_key(name),
        history_after(h, blocks, ts)[name] == h[name],
    decreases blocks.len(),
{
    if blocks.len() > 0 {
        let pre = blocks.drop_last();
        assert forall|i: int|
            0 <= i < pre.len() && (#[trigger] decode_block(pre[i], ts)) is Ok implies decode_block(
            pre[i],
            ts,
        )->Ok_0.name != name by {
            assert(pre[i] == blocks[i]);
        }
        lemma_unreported_blocks(h, pre, ts, name);
        assert(blocks.last() == blocks[blocks.len() - 1]);
    }
}

/// A metric that a scrape body does not report keeps its series exactly as they were.
pub proof fn lemma_unreported_metric(
    h: Map<Seq<char>, MetricView>,
    body: Seq<char>,
    ts: u64,
    name: Seq<char>,
)
    requires
        h.contains_key(name),
        forall|i: int|
            0 <= i < body_blocks(body).len() && (#[trigger] decode_block(body_blocks(body)[i], ts)) is Ok
                ==> decode_block(body_blocks(body)[i], ts)->Ok_0.name != name,
    ensures
        history_after(h, body_blocks(body), ts).contains_key(name),
        history_after(h, body_blocks(body), ts)[name] == h[name],
{
    lemma_unreported_blocks(h, body_blocks(body), ts, name);
}

proof fn lemma_split_concat(x: Seq<char>, y: Seq<char>, sep: char)
    ensures
        split_on(x + seq![sep] + y, sep) == split_on(x, sep) + split_on(y, sep),
    decreases y.len(),
{
    let s = x + seq![sep] + y;
    if y.len() == 0 {
        assert(s.drop_last() =~= x);
        assert(split_on(x, sep).push(Seq::empty()) =~= split_on(x, sep) + split_on(y, sep));
    } else {
        let y0 = y.drop_last();
        lemma_split_concat(x, y0, sep);
        assert(s.drop_last() =~= x + seq![sep] + y0);
        crate::text::lemma_split_on_nonempty(y0, sep);
        let p = split_on(x, sep);
        let q = split_on(y0, sep);
        if y.last() == sep {
            assert((p + q).push(Seq::empty()) =~= p + q.push(Seq::empty()));
        } else {
            assert((p + q).update((p + q).len() - 1, (p + q).last().push(y.last())) =~= p + q.update(
                q.len() - 1,
                q.last().push(y.last()),
            ));
        }
    }
}

proof fn lemma_split_plain(y: Seq<char>, sep: char)
    requires
        !y.contains(sep),
    ensures
        split_on(y, sep) == seq![y],
    decreases y.len(),
{
    if y.len() > 0 {
        let y0 = y.drop_last();
        assert(!y0.contains(sep)) by {
            if y0.contains(sep) {
                let i = choose|i: int| 0 <= i < y0.len() && y0[i] == sep;
                assert(y[i] == sep);
            }
        }
        lemma_split_plain(y0, sep);
        assert(y[y.len() - 1] != sep);
        assert(y0.push(y.last()) =~= y);
        assert(seq![y0].update(0, y0.push(y.last())) =~= seq![y]);
    } else {
        assert(y =~= Seq::<char>::empty());
    }
}

proof fn lemma_pairs_skip(p: Seq<Seq<char>>, bad: Seq<char>, q: Seq<Seq<char>>)
    requires
        parse_pair(bad) is None,
    ensures
        pairs_map(p + seq![bad] + q) == pairs_map(p + q),
    decreases q.len(),
{
    if q.len() == 0 {
        assert((p + seq![bad] + q).drop_last() =~= p);
        assert(p + q =~= p);
    } else {
        let q0 = q.drop_last();
        lemma_pairs_skip(p, bad, q0);
        assert((p + seq![bad] + q).drop_last() =~= p + seq![bad] + q0);
        assert((p + q).drop_last() =~= p + q0);
    }
}

/// A malformed pair in a label substring is skipped and costs the other pairs nothing, wherever
/// it stands: at the end, at the start or between two others.
pub proof fn lemma_malformed_pair_skipped(a: Seq<char>, bad: Seq<char>, c: Seq<char>)
    requires
        parse_pair(bad) is None,
        !bad.contains(','),
    ensures
        label_map(a + seq![','] + bad) == label_map(a),
        label_map(bad + seq![','] + c) == label_map(c),
        label_map(a + seq![','] + bad + seq![','] + c) == label_map(a + seq![','] + c),
{
    lemma_split_plain(bad, ',');
    lemma_split_concat(a, bad, ',');
    lemma_split_concat(bad, c, ',');
    lemma_split_concat(a + seq![','] + bad, c, ',');
    lemma_split_concat(a, c, ',');
    let pa = split_on(a, ',');
    let pc = split_on(c, ',');
    lemma_pairs_skip(pa, bad, Seq::empty());
    assert(pa + seq![bad] + Seq::<Seq<char>>::empty() =~= pa + seq![bad]);
    assert(pa + Seq::<Seq<char>>::empty() =~= pa);
    lemma_pairs_skip(Seq::empty(), bad, pc);
    assert(Seq::<Seq<char>>::empty() + seq![bad] + pc =~= seq![bad] + pc);
    assert(Seq::<Seq<char>>::empty() + pc =~= pc);
    lemma_pairs_skip(pa, bad, pc);
    assert(split_on(a + seq![','] + bad, ',') + pc =~= pa + seq![bad] + pc);
}

/// A malformed pair is skipped whatever else the substring holds: the labels of a label
/// substring are exactly those of its well-formed pairs, in order, a later pair of a key
/// winning.
pub proof fn lemma_labels_of_well_formed_pairs(s: Seq<char>)
    ensures
        label_map(s) == pairs_map(
            split_on(s, ',').filter(|p: Seq<char>| parse_pair(p) is Some),
        ),
{
    lemma_pairs_map_filter(split_on(s, ','));
}

proof fn lemma_pairs_map_filter(parts: Seq<Seq<char>>)
    ensures
        pairs_map(parts) == pairs_map(parts.filter(|p: Seq<char>| parse_pair(p) is Some)),
    decreases parts.len(),
{
    reveal(Seq::filter);
    if parts.len() > 0 {
        let f = |p: Seq<char>| parse_pair(p) is Some;
        lemma_pairs_map_filter(parts.drop_last());
        let sub = parts.drop_last().filter(f);
        if f(parts.last()) {
            assert(sub.push(parts.last()).drop_last() =~= sub);
        }
    }
}

/// The scrape that block `b` decodes to names metric `name`, of type `t`, and reports
/// label-key `k`.
pub open spec fn reports(b: Seq<Seq<char>>, ts: u64, name: Seq<char>, t: MetricType, k: Seq<char>) -> bool {
    &&& decode_block(b, ts) is Ok
    &&& decode_block(b, ts)->Ok_0.name == name
    &&& decode_block(b, ts)->Ok_0.metric_type == t
    &&& decode_block(b, ts)->Ok_0.values.contains_key(k)
}

/// No block of `blocks` but the `i`-th decodes to a scrape of metric `name`.
pub open spec fn only_at(blocks: Seq<Seq<Seq<char>>>, ts: u64, name: Seq<char>, i: int) -> bool {
    forall|j: int|
        0 <= j < blocks.len() && j != i && (#[trigger] decode_block(blocks[j], ts)) is Ok
            ==> decode_block(blocks[j], ts)->Ok_0.name != name
}

/// One scrape body (its blocks and timestamp) reports metric `name` exactly once, with
/// label-key `k`.
pub open spec fn reports_once(
    cycle: (Seq<Seq<Seq<char>>>, u64),
    name: Seq<char>,
    t: MetricType,
    k: Seq<char>,
) -> bool {
    exists|i: int|
        0 <= i < cycle.0.len() && reports(#[trigger] cycle.0[i], cycle.1, name, t, k) && only_at(
            cycle.0,
            cycle.1,
            name,
            i,
        )
}

/// The history after `update_history_with_new_scrape` ran on each cycle in turn.
pub open spec fn after_cycles(
    h: Map<Seq<char>, MetricView>,
    cycles: Seq<(Seq<Seq<Seq<char>>>, u64)>,
) -> Map<Seq<char>, MetricView>
    decreases cycles.len(),
{
    if cycles.len() == 0 {
        h
    } else {
        let prev = after_cycles(h, cycles.drop_last());
        history_after(prev, cycles.last().0, cycles.last().1)
    }
}

proof fn lemma_one_report(
    h: Map<Seq<char>, MetricView>,
    blocks: Seq<Seq<Seq<char>>>,
    ts: u64,
    i: int,
    name: Seq<char>,
    t: MetricType,
    k: Seq<char>,
)
    requires
        0 <= i,
        h.contains_key(name) ==> h[name].metric_type == t,
        i < blocks.len() ==> reports(blocks[i], ts, name, t, k),
        only_at(blocks, ts, name, i),
    ensures
        sample_count(history_after(h, blocks, ts), name, k) == sample_count(h, name, k) + if i
            < blocks.len() {
            1nat
        } else {
            0nat
        },
        history_after(h, blocks, ts).contains_key(name) ==> history_after(h, blocks, ts)[name].metric_type
            == t,
        i < blocks.len() ==> history_after(h, blocks, ts).contains_key(name),
        h.contains_key(name) ==> history_after(h, blocks, ts).contains_key(name),
    decreases blocks.len(),
{
    if blocks.len() > 0 {
        let pre = blocks.drop_last();
        let last = blocks.len() - 1;
        assert(blocks.last() == blocks[last]);
        assert forall|j: int|
            0 <= j < pre.len() && j != i && (#[trigger] decode_block(pre[j], ts)) is Ok implies decode_block(
            pre[j],
            ts,
        )->Ok_0.name != name by {
            assert(pre[j] == blocks[j]);
        }
        if i < pre.len() {
            assert(pre[i] == blocks[i]);
        }
        lemma_one_report(h, pre, ts, i, name, t, k);
    }
}

/// Each run of `update_history_with_new_scrape` on a body that reports metric `name` once,
/// with label-key `k`, adds exactly one sample to that series: after N such runs it holds N
/// samples more than before (N from an empty history). Scrapes of one metric keep one type.
pub proof fn lemma_cycles_count(
    h: Map<Seq<char>, MetricView>,
    cycles: Seq<(Seq<Seq<Seq<char>>>, u64)>,
    name: Seq<char>,
    t: MetricType,
    k: Seq<char>,
)
    requires
        forall|c: int| 0 <= c < cycles.len() ==> reports_once(#[trigger] cycles[c], name, t, k),
        h.contains_key(name) ==> h[name].metric_type == t,
    ensures
        sample_count(after_cycles(h, cycles), name, k) == sample_count(h, name, k) + cycles.len(),
        after_cycles(h, cycles).contains_key(name) ==> after_cycles(h, cycles)[name].metric_type == t,
    decreases cycles.len(),
{
    if cycles.len() > 0 {
        let pre = cycles.drop_last();
        assert forall|c: int| 0 <= c < pre.len() implies reports_once(#[trigger] pre[c], name, t, k) by {
            assert(pre[c] == cycles[c]);
        }
        lemma_cycles_count(h, pre, name, t, k);
        let cy = cycles.last();
        assert(cy == cycles[cycles.len() - 1]);
        assert(reports_once(cy, name, t, k));
        let i = choose|i: int|
            0 <= i < cy.0.len() && reports(#[trigger] cy.0[i], cy.1, name, t, k) && only_at(
                cy.0,
                cy.1,
                name,
                i,
            );
        lemma_one_report(after_cycles(h, pre), cy.0, cy.1, i, name, t, k);
    }
}

proof fn lemma_first_report(
    h: Map<Seq<char>, MetricView>,
    blocks: Seq<Seq<Seq<char>>>,
    ts: u64,
    i: int,
    s: ScrapeView,
)
    requires
        0 <= i,
        !h.contains_key(s.name),
        i < blocks.len() ==> decode_block(blocks[i], ts) == Ok::<ScrapeView, crate::parser::DecodeError>(s),
        only_at(blocks, ts, s.name, i),
    ensures
        i < blocks.len() ==> history_after(h, blocks, ts).contains_key(s.name)
            && history_after(h, blocks, ts)[s.name] == metric_from_scrape(s),
        i >= blocks.len() ==> !history_after(h, blocks, ts).contains_key(s.name),
    decreases blocks.len(),
{
    if blocks.len() > 0 {
        let pre = blocks.drop_last();
        let last = blocks.len() - 1;
        assert(blocks.last() == blocks[last]);
        assert forall|j: int|
            0 <= j < pre.len() && j != i && (#[trigger] decode_block(pre[j], ts)) is Ok implies decode_block(
            pre[j],
            ts,
        )->Ok_0.name != s.name by {
            assert(pre[j] == blocks[j]);
        }
        if i < pre.len() {
            assert(pre[i] == blocks[i]);
        }
        lemma_first_report(h, pre, ts, i, s);
    }
}

/// A run of `update_history_with_new_scrape` on a body whose only block for a new metric
/// decodes to scrape `s` adds that metric with exactly the label-keys of `s`, each series
/// holding that one sample.
pub proof fn lemma_new_metric_in_cycle(
    h: Map<Seq<char>, MetricView>,
    blocks: Seq<Seq<Seq<char>>>,
    ts: u64,
    i: int,
)
    requires
        0 <= i < blocks.len(),
        decode_block(blocks[i], ts) is Ok,
        !h.contains_key(decode_block(blocks[i], ts)->Ok_0.name),
        only_at(blocks, ts, decode_block(blocks[i], ts)->Ok_0.name, i),
    ensures
        ({
            let s = decode_block(blocks[i], ts)->Ok_0;
            let r = history_after(h, blocks, ts);
            &&& r.contains_key(s.name)
            &&& r[s.name].series.dom() == s.values.dom()
            &&& forall|k: Seq<char>| #[trigger] s.values.contains_key(k) ==> r[s.name].series[k].samples
                == seq![s.values[k]]
        }),
{
    let s = decode_block(blocks[i], ts)->Ok_0;
    lemma_first_report(h, blocks, ts, i, s);
    lemma_new_metric(Map::empty(), s);
}

} // verus!
