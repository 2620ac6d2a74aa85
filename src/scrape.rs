//! One scrape cycle: folding a fetched body into the history and recording the outcome.
use vstd::prelude::*;

use crate::model::{merged_history, MetricHistory, MetricView};
use crate::parser::{blocks_of, blocks_view, decode_block, decode_single_scrape_metric, split_metric_lines};
use crate::text::{split_lines, split_on, views};

verus! {

/// The history after merging every block that decodes; blocks that do not are skipped.
pub open spec fn history_after(
    h: Map<Seq<char>, MetricView>,
    blocks: Seq<Seq<Seq<char>>>,
    ts: u64,
) -> Map<Seq<char>, MetricView>
    decreases blocks.len(),
{
    if blocks.len() == 0 {
        h
    } else {
        let prev = history_after(h, blocks.drop_last(), ts);
        match decode_block(blocks.last(), ts) {
            Ok(s) => merged_history(prev, s),
            Err(_) => prev,
        }
    }
}

/// The metric blocks of a scrape body.
pub open spec fn body_blocks(body: Seq<char>) -> Seq<Seq<Seq<char>>> {
    blocks_of(split_on(body, '\n'))
}

/// Splits a scrape body into lines and the lines into metric blocks.
pub fn split_body(body: &str) -> (r: Vec<Vec<String>>)
    ensures
        blocks_view(r@) == body_blocks(body@),
{
    split_metric_lines(split_lines(body))
}

/// Decodes each block and merges it into the history, all at one timestamp. A block that does
/// not decode, or whose metric changed type, leaves the history as it is.
pub fn update_history_with_new_scrape(
    history: &mut MetricHistory,
    splitted_metrics: Vec<Vec<String>>,
    timestamp: u64,
)
    ensures
        final(history)@ == history_after(old(history)@, blocks_view(splitted_metrics@), timestamp),
{
    let ghost start = history@;
    let ghost bs = blocks_view(splitted_metrics@);
    assert(bs.subrange(0, 0) =~= Seq::<Seq<Seq<char>>>::empty());
    for part in it: splitted_metrics
        invariant
            bs == blocks_view(it.seq()),
            history@ == history_after(start, bs.subrange(0, it.index() as int), timestamp),
    {
        let ghost i = it.index() as int;
        assert(bs.subrange(0, i + 1).drop_last() =~= bs.subrange(0, i));
        assert(bs[i] == views(part@));
        match decode_single_scrape_metric(part, timestamp) {
            Ok(scrape) => {
                let _ = history.merge_scrape(scrape);
            },
            Err(_) => {},
        }
    }
    assert(bs.subrange(0, bs.len() as int) =~= bs);
}

/// Records the outcome of the latest scrape: an error message, or none.
pub fn update_error_status(error_msg: &mut Option<String>, error_message: Option<String>)
    ensures
        *final(error_msg) == error_message,
{
    *error_msg = error_message;
}

/// One scrape cycle after the fetch. A fetched body is merged into the history at `timestamp`
/// and clears the error; a failed fetch leaves the history as it is and records its message.
pub fn scrape_cycle(
    history: &mut MetricHistory,
    error_msg: &mut Option<String>,
    fetched: Result<String, String>,
    timestamp: u64,
)
    ensures
        match fetched {
            Ok(body) => final(history)@ == history_after(old(history)@, body_blocks(body@), timestamp)
                && *final(error_msg) == None::<String>,
            Err(msg) => final(history)@ == old(history)@ && *final(error_msg) == Some(msg),
        },
{
    match fetched {
        Ok(body) => {
            let blocks = split_body(body.as_str());
            update_history_with_new_scrape(history, blocks, timestamp);
            update_error_status(error_msg, None);
        },
        Err(msg) => {
            update_error_status(error_msg, Some(msg));
        },
    }
}

/// The scrape interval in milliseconds; an interval under one second counts as one second.
pub open spec fn tick_ms(interval_secs: u64) -> int {
    if interval_secs == 0 {
        1000
    } else {
        interval_secs * 1000
    }
}

/// Milliseconds to wait before the next scrape, so that scrapes start one interval apart:
/// the interval less the time the cycle took (at most `u64::MAX`), or nothing when it took
/// longer.
pub fn remaining_tick_ms(interval_secs: u64, elapsed_ms: u64) -> (r: u64)
    ensures
        elapsed_ms >= tick_ms(interval_secs) ==> r == 0,
        elapsed_ms < tick_ms(interval_secs) ==> r == vstd::math::min(
            tick_ms(interval_secs) - elapsed_ms,
            u64::MAX as int,
        ),
{
    let secs: u128 = if interval_secs == 0 {
        1
    } else {
        interval_secs as u128
    };
    let tick: u128 = secs * 1000;
    if (elapsed_ms as u128) < tick {
        let left = tick - elapsed_ms as u128;
        if left > u64::MAX as u128 {
            u64::MAX
        } else {
            left as u64
        }
    } else {
        0
    }
}

} // verus!
