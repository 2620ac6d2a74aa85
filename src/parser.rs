//! Decoding of the Prometheus text exposition format.
use vstd::prelude::*;

use crate::keyed::KeyedList;
use crate::model::{
    buckets_view, no_labels_key, Bucket, FloatLiteral, HistogramSample, MetricType, Sample,
    SampleView, ScrapeView, SingleScrapeMetric, SingleValueSample,
};
use crate::number::{count_of, float_literal_ok, is_float_literal, parse_count};
use crate::text::{
    chars_of, find_char, has_prefix, index_of, last_token, last_token_bounds, lemma_index_of,
    slice_of, split_on, starts_with, string_of, trim, trim_bounds, first_word, first_word_len, views, contains, has_infix,
};

verus! {

/// Why a line or a block of the exposition text could not be decoded.
#[derive(Clone, Copy, PartialEq, Eq, Debug, Structural)]
pub enum DecodeError {
    /// The block does not start with a `# HELP <name> <docstring>` line.
    MalformedHelp,
    /// The second line of the block is not a `# TYPE <name> <type>` line.
    MalformedType,
    /// The declared type is none of `gauge`, `counter` and `histogram`.
    UnknownType,
    /// The last token of a sample line is not a number of the expected form.
    InvalidValue,
    /// The history already holds the metric with another type.
    TypeChanged,
}

/// `v` without one pair of surrounding double quotes.
pub open spec fn strip_quotes(v: Seq<char>) -> Seq<char> {
    if v.len() >= 2 && v[0] == '"' && v.last() == '"' {
        v.subrange(1, v.len() - 1)
    } else {
        v
    }
}

/// A `key=value` pair, split at its first `=`: the key before it and the value after it, both
/// non-empty, the value without surrounding quotes.
pub open spec fn parse_pair(p: Seq<char>) -> Option<(Seq<char>, Seq<char>)> {
    let e = index_of(p, '=');
    let rest = p.subrange(e + 1, p.len() as int);
    if 0 < e && e + 1 < p.len() {
        Some((p.subrange(0, e), strip_quotes(rest)))
    } else {
        None
    }
}

/// The labels that a list of pairs gives; malformed pairs are skipped, a later pair wins.
pub open spec fn pairs_map(parts: Seq<Seq<char>>) -> Map<Seq<char>, Seq<char>>
    decreases parts.len(),
{
    if parts.len() == 0 {
        Map::empty()
    } else {
        let m = pairs_map(parts.drop_last());
        match parse_pair(parts.last()) {
            Some(kv) => m.insert(kv.0, kv.1),
            None => m,
        }
    }
}

/// The labels of a label substring such as `a="1",b="2"`.
pub open spec fn label_map(s: Seq<char>) -> Map<Seq<char>, Seq<char>> {
    pairs_map(split_on(s, ','))
}

/// Decodes the pair `s[from..to]`.
fn decode_pair(s: &[char], from: usize, to: usize) -> (r: Option<(String, String)>)
    requires
        from <= to <= s@.len(),
    ensures
        match r {
            Some(kv) => parse_pair(s@.subrange(from as int, to as int)) == Some((kv.0@, kv.1@)),
            None => parse_pair(s@.subrange(from as int, to as int)) is None,
        },
{
    let part = slice_of(s, from, to);
    let ghost p = part@;
    let e = match find_char(&part, '=') {
        Some(e) => e,
        None => return None,
    };
    proof {
        lemma_index_of(p, '=');
    }
    if e == 0 || e + 1 >= part.len() {
        return None;
    }
    let rest = slice_of(&part, e + 1, part.len());
    let key = string_of(&part, 0, e);
    let n = rest.len();
    let value = if n >= 2 && rest[0] == '"' && rest[n - 1] == '"' {
        string_of(&rest, 1, n - 1)
    } else {
        string_of(&rest, 0, n)
    };
    assert(rest@.subrange(0, n as int) =~= rest@);
    Some((key, value))
}

/// Decodes a label substring (`key1="value1",key2="0"`) into its labels. Each pair is split
/// at its first `=`; a pair without `=`, or with an empty key or value, is skipped, the others
/// stay.
pub fn decode_labels(labels: &str) -> (r: KeyedList<String>)
    ensures
        r@ == label_map(labels@),
{
    let cs = chars_of(labels);
    let mut map: KeyedList<String> = KeyedList::new();
    let ghost mut done: Seq<Seq<char>> = Seq::empty();
    let mut start: usize = 0;
    let mut i: usize = 0;
    assert(cs@.subrange(0, 0) =~= Seq::<char>::empty());
    assert(done.push(cs@.subrange(0, 0)) =~= split_on(cs@.subrange(0, 0), ','));
    while i < cs.len()
        invariant
            start <= i <= cs@.len(),
            split_on(cs@.subrange(0, i as int), ',') == done.push(cs@.subrange(start as int, i as int)),
            map@ == pairs_map(done),
        decreases cs@.len() - i,
    {
        let ghost pre = cs@.subrange(0, i as int);
        assert(cs@.subrange(0, i + 1).drop_last() =~= pre);
        if cs[i] == ',' {
            let ghost part = cs@.subrange(start as int, i as int);
            match decode_pair(&cs, start, i) {
                Some((k, v)) => {
                    map.insert(k, v);
                },
                None => {},
            }
            proof {
                assert(done.push(part).drop_last() =~= done);
                done = done.push(part);
            }
            start = i + 1;
            assert(cs@.subrange(start as int, i + 1) =~= Seq::<char>::empty());
        } else {
            let ghost p = split_on(pre, ',');
            assert(cs@.subrange(start as int, i + 1) =~= cs@.subrange(start as int, i as int).push(
                cs@[i as int],
            ));
            assert(p.update(p.len() - 1, p.last().push(cs@[i as int])) =~= done.push(
                cs@.subrange(start as int, i + 1),
            ));
        }
        i = i + 1;
    }
    let ghost last = cs@.subrange(start as int, cs@.len() as int);
    match decode_pair(&cs, start, cs.len()) {
        Some((k, v)) => {
            map.insert(k, v);
        },
        None => {},
    }
    assert(done.push(last).drop_last() =~= done);
    assert(cs@.subrange(0, cs@.len() as int) =~= labels@);
    map
}

pub open spec fn help_prefix() -> Seq<char> {
    "# HELP "@
}

pub open spec fn type_prefix() -> Seq<char> {
    "# TYPE "@
}

/// The first word after `prefix` on `line`, and the trimmed text after it, when `line` starts
/// with `prefix` and both are non-empty.
pub open spec fn header_fields(line: Seq<char>, prefix: Seq<char>) -> Option<(Seq<char>, Seq<char>)> {
    if starts_with(line, prefix) {
        let rest = line.subrange(prefix.len() as int, line.len() as int);
        let i = index_of(rest, ' ');
        let tail = trim(rest.subrange(i + 1, rest.len() as int));
        if i > 0 && tail.len() > 0 {
            Some((rest.subrange(0, i), tail))
        } else {
            None
        }
    } else {
        None
    }
}

/// Name and docstring of a `# HELP <name> <docstring>` line.
pub open spec fn help_fields(line: Seq<char>) -> Option<(Seq<char>, Seq<char>)> {
    header_fields(line, help_prefix())
}

/// The type word of a `# TYPE <name> <type>` line: the first word after the name.
pub open spec fn type_field(line: Seq<char>) -> Option<Seq<char>> {
    match header_fields(line, type_prefix()) {
        Some(f) => Some(first_word(f.1)),
        None => None,
    }
}

/// The text between the first `{` of `line` and the first `}` after it.
pub open spec fn label_substring(line: Seq<char>) -> Option<Seq<char>> {
    let i = index_of(line, '{');
    let rest = line.subrange(i + 1, line.len() as int);
    let j = index_of(rest, '}');
    if i >= 0 && j >= 0 {
        Some(rest.subrange(0, j))
    } else {
        None
    }
}

/// The label-key of a sample line: its label substring, or the no-labels key.
pub open spec fn series_key(line: Seq<char>) -> Seq<char> {
    match label_substring(line) {
        Some(s) => s,
        None => no_labels_key(),
    }
}

/// The value of a sample line: its last token, when that is a float literal.
pub open spec fn sample_literal(line: Seq<char>) -> Option<Seq<char>> {
    if is_float_literal(last_token(line)) {
        Some(last_token(line))
    } else {
        None
    }
}

fn header_of(line: &str, prefix: &str) -> (r: Option<(String, String)>)
    ensures
        match r {
            Some(f) => header_fields(line@, prefix@) == Some((f.0@, f.1@)),
            None => header_fields(line@, prefix@) is None,
        },
{
    let cs = chars_of(line);
    let pre = chars_of(prefix);
    if !has_prefix(&cs, &pre) {
        return None;
    }
    let rest = slice_of(&cs, pre.len(), cs.len());
    let i = match find_char(&rest, ' ') {
        Some(i) => i,
        None => return None,
    };
    proof {
        lemma_index_of(rest@, ' ');
    }
    let after = slice_of(&rest, i + 1, rest.len());
    let (from, to) = trim_bounds(&after);
    if i == 0 || from == to {
        return None;
    }
    Some((string_of(&rest, 0, i), string_of(&after, from, to)))
}

/// Parses `# HELP <name> <docstring>` into the name and the trimmed docstring.
pub fn extract_name_docstring(line: &str) -> (r: Option<(String, String)>)
    ensures
        match r {
            Some(f) => help_fields(line@) == Some((f.0@, f.1@)),
            None => help_fields(line@) is None,
        },
{
    header_of(line, "# HELP ")
}

/// Parses `# TYPE <name> <type>` into the type word.
pub fn extract_type(line: &str) -> (r: Option<String>)
    ensures
        match r {
            Some(t) => type_field(line@) == Some(t@),
            None => type_field(line@) is None,
        },
{
    match header_of(line, "# TYPE ") {
        Some((_, rest)) => {
            let cs = chars_of(rest.as_str());
            let n = first_word_len(&cs);
            Some(string_of(&cs, 0, n))
        },
        None => None,
    }
}

/// The label substring of a sample line (`shard="0"` in `m{shard="0"} 1`), if it has one.
pub fn extract_labels(line: &String) -> (r: Option<String>)
    ensures
        match r {
            Some(s) => label_substring(line@) == Some(s@),
            None => label_substring(line@) is None,
        },
{
    let cs = chars_of(line.as_str());
    let n = cs.len();
    let i = match find_char(&cs, '{') {
        Some(i) => i,
        None => return None,
    };
    proof {
        lemma_index_of(cs@, '{');
    }
    let rest = slice_of(&cs, i + 1, n);
    match find_char(&rest, '}') {
        Some(j) => {
            proof {
                lemma_index_of(rest@, '}');
            }
            Some(string_of(&rest, 0, j))
        },
        None => None,
    }
}

/// The labels and the label-key of a sample line, from its label substring: decoded labels and
/// the substring itself, or for a line without labels the no-labels map and key.
pub fn extract_labels_key_and_map(labels: Option<String>) -> (r: (KeyedList<String>, String))
    ensures
        match labels {
            Some(s) => r.0@ == label_map(s@) && r.1@ == s@,
            None => r.0@ == crate::model::no_labels_map() && r.1@ == no_labels_key(),
        },
{
    match labels {
        Some(s) => (decode_labels(s.as_str()), s),
        None => {
            let mut m: KeyedList<String> = KeyedList::new();
            m.insert(String::from_str("key"), String::from_str("single-value-with-no-labels"));
            assert(m@ =~= crate::model::no_labels_map());
            (m, String::from_str("single-value-with-no-labels"))
        },
    }
}

/// The value of a sample line: its last whitespace-separated token, as a float literal.
pub fn extract_value(line: &String) -> (r: Result<FloatLiteral, DecodeError>)
    ensures
        match r {
            Ok(v) => sample_literal(line@) == Some(v@),
            Err(e) => sample_literal(line@) is None && e == DecodeError::InvalidValue,
        },
{
    let cs = chars_of(line.as_str());
    let (from, to) = last_token_bounds(&cs);
    let token = slice_of(&cs, from, to);
    if float_literal_ok(&token) {
        Ok(FloatLiteral { text: string_of(&cs, from, to) })
    } else {
        Err(DecodeError::InvalidValue)
    }
}

/// The count on a sample line: its last token, as `Digit+ ('.' Digit*)?`, truncated.
pub fn extract_count(line: &String) -> (r: Result<u64, DecodeError>)
    ensures
        match r {
            Ok(c) => count_of(last_token(line@)) == Some(c),
            Err(e) => count_of(last_token(line@)) is None && e == DecodeError::InvalidValue,
        },
{
    let cs = chars_of(line.as_str());
    let (from, to) = last_token_bounds(&cs);
    let token = slice_of(&cs, from, to);
    match parse_count(&token) {
        Some(c) => Ok(c),
        None => Err(DecodeError::InvalidValue),
    }
}

/// A line that opens a metric block.
pub open spec fn is_help_line(line: Seq<char>) -> bool {
    starts_with(line, "# HELP"@)
}

/// The views of a list of blocks of lines.
pub open spec fn blocks_view(bs: Seq<Vec<String>>) -> Seq<Seq<Seq<char>>> {
    bs.map_values(|b: Vec<String>| views(b@))
}

/// The lines cut into metric blocks: a block starts at the first line and at each `# HELP`
/// line, and runs up to the next one.
pub open spec fn blocks_of(lines: Seq<Seq<char>>) -> Seq<Seq<Seq<char>>>
    decreases lines.len(),
{
    if lines.len() == 0 {
        Seq::empty()
    } else {
        let b = blocks_of(lines.drop_last());
        let l = lines.last();
        if b.len() == 0 || is_help_line(l) {
            b.push(seq![l])
        } else {
            b.update(b.len() - 1, b.last().push(l))
        }
    }
}

fn is_help(line: &String) -> (r: bool)
    ensures
        r == is_help_line(line@),
{
    let cs = chars_of(line.as_str());
    let p = chars_of("# HELP");
    has_prefix(&cs, &p)
}

pub proof fn lemma_blocks_of_empty(lines: Seq<Seq<char>>)
    ensures
        blocks_of(lines).len() == 0 <==> lines.len() == 0,
    decreases lines.len(),
{
    if lines.len() > 0 {
        lemma_blocks_of_empty(lines.drop_last());
    }
}

/// Splits the lines of a scrape into metric blocks, each starting at a `# HELP` line (the
/// first block starts at the first line, whatever it holds).
pub fn split_metric_lines(lines: Vec<String>) -> (r: Vec<Vec<String>>)
    ensures
        blocks_view(r@) == blocks_of(views(lines@)),
{
    let ghost all = views(lines@);
    let mut out: Vec<Vec<String>> = Vec::new();
    let mut cur: Vec<String> = Vec::new();
    assert(all.subrange(0, 0) =~= Seq::<Seq<char>>::empty());
    for line in it: lines
        invariant
            all == views(it.seq()),
            it.index() == 0 ==> out@.len() == 0 && cur@.len() == 0,
            it.index() > 0 ==> cur@.len() > 0 && blocks_view(out@).push(views(cur@))
                == blocks_of(all.subrange(0, it.index() as int)),
    {
        let ghost i = it.index() as int;
        let ghost pre = all.subrange(0, i);
        assert(all.subrange(0, i + 1).drop_last() =~= pre);
        assert(all[i] == line@);
        proof {
            lemma_blocks_of_empty(pre);
        }
        let help = is_help(&line);
        if cur.len() > 0 && help {
            let ghost b = blocks_view(out@).push(views(cur@));
            let done = cur;
            out.push(done);
            cur = Vec::new();
            cur.push(line);
            assert(blocks_view(out@) =~= b);
            assert(views(cur@) =~= seq![all[i]]);
        } else {
            let ghost old_cur = cur@;
            cur.push(line);
            assert(views(cur@) =~= views(old_cur).push(all[i]));
            proof {
                if i == 0 {
                    assert(blocks_view(out@) =~= Seq::<Seq<Seq<char>>>::empty());
                    assert(views(cur@) =~= seq![all[i]]);
                    assert(blocks_view(out@).push(views(cur@)) =~= seq![seq![all[i]]]);
                } else {
                    let b = blocks_of(pre);
                    assert(blocks_view(out@).push(views(cur@)) =~= b.update(
                        b.len() - 1,
                        b.last().push(all[i]),
                    ));
                }
            }
        }
    }
    assert(all.subrange(0, all.len() as int) =~= all);
    if cur.len() > 0 {
        out.push(cur);
    } else {
        assert(blocks_view(out@) =~= Seq::<Seq<Seq<char>>>::empty());
    }
    out
}

/// The lines of a block after its `# HELP` and `# TYPE` lines.
pub open spec fn body_lines(block: Seq<Seq<char>>) -> Seq<Seq<char>> {
    if block.len() >= 2 {
        block.subrange(2, block.len() as int)
    } else {
        Seq::empty()
    }
}

/// Completed groups and the open run, after grouping `lines` into runs that each end at a
/// `_count{` line; empty lines are skipped.
pub open spec fn group_state(lines: Seq<Seq<char>>) -> (Seq<Seq<Seq<char>>>, Seq<Seq<char>>)
    decreases lines.len(),
{
    if lines.len() == 0 {
        (Seq::empty(), Seq::empty())
    } else {
        let (done, cur) = group_state(lines.drop_last());
        let l = lines.last();
        if l.len() == 0 {
            (done, cur)
        } else if contains(l, "_count{"@) {
            (done.push(cur.push(l)), Seq::empty())
        } else {
            (done, cur.push(l))
        }
    }
}

/// The label-set groups of a histogram block: runs of its body lines, each ending at a
/// `_count{` line. Lines after the last such line belong to no group.
pub open spec fn histogram_groups(block: Seq<Seq<char>>) -> Seq<Seq<Seq<char>>> {
    group_state(body_lines(block)).0
}

/// Groups the body of a histogram block by label set: each group is the bucket lines, the
/// `_sum` line and the `_count` line of one label set.
pub fn further_split_metric_lines_for_histogram(lines: &[String]) -> (r: Vec<Vec<String>>)
    ensures
        blocks_view(r@) == histogram_groups(views(lines@)),
{
    let ghost body = body_lines(views(lines@));
    let marker = chars_of("_count{");
    let mut out: Vec<Vec<String>> = Vec::new();
    let mut cur: Vec<String> = Vec::new();
    if lines.len() < 2 {
        return out;
    }
    let mut i: usize = 2;
    assert(body.subrange(0, 0) =~= Seq::<Seq<char>>::empty());
    while i < lines.len()
        invariant
            2 <= i <= lines@.len(),
            body == views(lines@).subrange(2, lines@.len() as int),
            marker@ == "_count{"@,
            group_state(body.subrange(0, i - 2)) == (blocks_view(out@), views(cur@)),
        decreases lines@.len() - i,
    {
        let ghost pre = body.subrange(0, i - 2);
        assert(body.subrange(0, i - 1).drop_last() =~= pre);
        assert(body[i - 2] == lines@[i as int]@);
        let line = lines[i].clone();
        let cs = chars_of(line.as_str());
        if cs.len() == 0 {
        } else if has_infix(&cs, &marker) {
            let ghost b = blocks_view(out@);
            let ghost c = views(cur@);
            cur.push(line);
            assert(views(cur@) =~= c.push(body[i - 2]));
            let done = cur;
            out.push(done);
            cur = Vec::new();
            assert(blocks_view(out@) =~= b.push(c.push(body[i - 2])));
            assert(views(cur@) =~= Seq::<Seq<char>>::empty());
        } else {
            let ghost c = views(cur@);
            cur.push(line);
            assert(views(cur@) =~= c.push(body[i - 2]));
        }
        i = i + 1;
    }
    assert(body.subrange(0, i - 2) =~= body);
    out
}

/// The sample that a gauge or counter line with value `v` gives.
pub open spec fn single_sample(ts: u64, v: Seq<char>, t: MetricType) -> SampleView {
    if t == MetricType::Counter {
        SampleView::Counter { timestamp: ts, value: v }
    } else {
        SampleView::Gauge { timestamp: ts, value: v }
    }
}

/// The samples of the lines of a gauge or counter block, by label-key. A line without a
/// valid value is skipped; a later line of the same key wins.
pub open spec fn single_values(lines: Seq<Seq<char>>, ts: u64, t: MetricType) -> Map<
    Seq<char>,
    SampleView,
>
    decreases lines.len(),
{
    if lines.len() == 0 {
        Map::empty()
    } else {
        let m = single_values(lines.drop_last(), ts, t);
        let l = lines.last();
        match sample_literal(l) {
            Some(v) => m.insert(series_key(l), single_sample(ts, v, t)),
            None => m,
        }
    }
}

/// The bucket of a `_bucket{...,le="..."} <count>` line.
pub open spec fn bucket_of(line: Seq<char>) -> Option<(Seq<char>, u64)> {
    match label_substring(line) {
        Some(s) => {
            let m = label_map(s);
            match count_of(last_token(line)) {
                Some(c) => if m.contains_key("le"@) {
                    Some((m["le"@], c))
                } else {
                    None
                },
                None => None,
            }
        },
        None => None,
    }
}

/// The buckets of a run of bucket lines, in order; lines that give no bucket are skipped.
pub open spec fn buckets_of(lines: Seq<Seq<char>>) -> Seq<(Seq<char>, u64)>
    decreases lines.len(),
{
    if lines.len() == 0 {
        Seq::empty()
    } else {
        let b = buckets_of(lines.drop_last());
        match bucket_of(lines.last()) {
            Some(x) => b.push(x),
            None => b,
        }
    }
}

/// The label-key and sample of one histogram group: all lines but the last two are buckets,
/// the second to last gives the sum and the last the count and the label-key.
pub open spec fn histogram_entry(group: Seq<Seq<char>>, ts: u64) -> Option<(Seq<char>, SampleView)> {
    if group.len() >= 2 {
        let n = group.len() as int;
        match (sample_literal(group[n - 2]), count_of(last_token(group[n - 1]))) {
            (Some(sum), Some(count)) => Some(
                (
                    series_key(group[n - 1]),
                    SampleView::Histogram {
                        timestamp: ts,
                        buckets: buckets_of(group.subrange(0, n - 2)),
                        sum,
                        count,
                    },
                ),
            ),
            _ => None,
        }
    } else {
        None
    }
}

/// The samples of the groups of a histogram block, by label-key.
pub open spec fn histogram_values(groups: Seq<Seq<Seq<char>>>, ts: u64) -> Map<
    Seq<char>,
    SampleView,
>
    decreases groups.len(),
{
    if groups.len() == 0 {
        Map::empty()
    } else {
        let m = histogram_values(groups.drop_last(), ts);
        match histogram_entry(groups.last(), ts) {
            Some(e) => m.insert(e.0, e.1),
            None => m,
        }
    }
}

/// What a metric block decodes to, at timestamp `ts`.
pub open spec fn decode_block(block: Seq<Seq<char>>, ts: u64) -> Result<ScrapeView, DecodeError> {
    if block.len() == 0 || help_fields(block[0]) is None {
        Err(DecodeError::MalformedHelp)
    } else if block.len() < 2 || type_field(block[1]) is None {
        Err(DecodeError::MalformedType)
    } else {
        let fields = help_fields(block[0])->0;
        let name = fields.0;
        let doc = fields.1;
        let t = type_field(block[1])->0;
        if t == "gauge"@ {
            Ok(
                ScrapeView {
                    name,
                    docstring: doc,
                    metric_type: MetricType::Gauge,
                    values: single_values(body_lines(block), ts, MetricType::Gauge),
                },
            )
        } else if t == "counter"@ {
            Ok(
                ScrapeView {
                    name,
                    docstring: doc,
                    metric_type: MetricType::Counter,
                    values: single_values(body_lines(block), ts, MetricType::Counter),
                },
            )
        } else if t == "histogram"@ {
            Ok(
                ScrapeView {
                    name,
                    docstring: doc,
                    metric_type: MetricType::Histogram,
                    values: histogram_values(histogram_groups(block), ts),
                },
            )
        } else {
            Err(DecodeError::UnknownType)
        }
    }
}

/// The samples of the gauge or counter lines `lines[2..]`.
fn decode_single_values(lines: &Vec<String>, timestamp: u64, t: MetricType) -> (r: KeyedList<
    Sample,
>)
    ensures
        r@ == single_values(body_lines(views(lines@)), timestamp, t),
{
    let ghost body = body_lines(views(lines@));
    let mut m: KeyedList<Sample> = KeyedList::new();
    if lines.len() < 2 {
        return m;
    }
    let mut i: usize = 2;
    assert(body.subrange(0, 0) =~= Seq::<Seq<char>>::empty());
    while i < lines.len()
        invariant
            2 <= i <= lines@.len(),
            body == views(lines@).subrange(2, lines@.len() as int),
            m@ == single_values(body.subrange(0, i - 2), timestamp, t),
        decreases lines@.len() - i,
    {
        let ghost pre = body.subrange(0, i - 2);
        assert(body.subrange(0, i - 1).drop_last() =~= pre);
        assert(body[i - 2] == lines@[i as int]@);
        let line = &lines[i];
        match extract_value(line) {
            Ok(value) => {
                let (_, key) = extract_labels_key_and_map(extract_labels(line));
                let sample = match t {
                    MetricType::Counter => Sample::CounterSample(SingleValueSample { timestamp, value }),
                    _ => Sample::GaugeSample(SingleValueSample { timestamp, value }),
                };
                m.insert(key, sample);
            },
            Err(_) => {},
        }
        i = i + 1;
    }
    assert(body.subrange(0, i - 2) =~= body);
    m
}

/// The bucket of a bucket line.
fn decode_bucket(line: &String) -> (r: Option<Bucket>)
    ensures
        match r {
            Some(b) => bucket_of(line@) == Some(b@),
            None => bucket_of(line@) is None,
        },
{
    let labels = match extract_labels(line) {
        Some(s) => s,
        None => return None,
    };
    let count = match extract_count(line) {
        Ok(c) => c,
        Err(_) => return None,
    };
    let (map, _) = extract_labels_key_and_map(Some(labels));
    match map.get("le") {
        Some(le) => Some(Bucket::new(le.clone(), count)),
        None => None,
    }
}

/// The label-key and sample of one histogram group.
fn decode_histogram_group(group: &Vec<String>, timestamp: u64) -> (r: Option<(String, Sample)>)
    ensures
        match r {
            Some(e) => histogram_entry(views(group@), timestamp) == Some((e.0@, e.1@)),
            None => histogram_entry(views(group@), timestamp) is None,
        },
{
    let ghost g = views(group@);
    let n = group.len();
    if n < 2 {
        return None;
    }
    let sum = match extract_value(&group[n - 2]) {
        Ok(v) => v,
        Err(_) => return None,
    };
    let count = match extract_count(&group[n - 1]) {
        Ok(c) => c,
        Err(_) => return None,
    };
    let mut buckets: Vec<Bucket> = Vec::new();
    let mut i: usize = 0;
    assert(g.subrange(0, 0) =~= Seq::<Seq<char>>::empty());
    while i < n - 2
        invariant
            n == group@.len(),
            n >= 2,
            i <= n - 2,
            g == views(group@),
            buckets_view(buckets@) == buckets_of(g.subrange(0, i as int)),
        decreases n - 2 - i,
    {
        assert(g.subrange(0, i + 1).drop_last() =~= g.subrange(0, i as int));
        assert(g[i as int] == group@[i as int]@);
        match decode_bucket(&group[i]) {
            Some(b) => {
                let ghost before = buckets@;
                buckets.push(b);
                assert(buckets_view(buckets@) =~= buckets_view(before).push(b@));
            },
            None => {},
        }
        i = i + 1;
    }
    let (_, key) = extract_labels_key_and_map(extract_labels(&group[n - 1]));
    Some((key, Sample::HistogramSample(HistogramSample { timestamp, bucket_values: buckets, sum, count })))
}

/// Decodes one metric block (its `# HELP` line, its `# TYPE` line and its sample lines) into
/// what the scrape reported for that metric, every sample stamped with `timestamp`.
pub fn decode_single_scrape_metric(lines: Vec<String>, timestamp: u64) -> (r: Result<
    SingleScrapeMetric,
    DecodeError,
>)
    ensures
        match r {
            Ok(m) => decode_block(views(lines@), timestamp) == Ok::<ScrapeView, DecodeError>(m@),
            Err(e) => decode_block(views(lines@), timestamp) == Err::<ScrapeView, DecodeError>(e),
        },
{
    let ghost block = views(lines@);
    if lines.len() == 0 {
        return Err(DecodeError::MalformedHelp);
    }
    assert(block[0] == lines@[0]@);
    let (name, docstring) = match extract_name_docstring(lines[0].as_str()) {
        Some(f) => f,
        None => return Err(DecodeError::MalformedHelp),
    };
    if lines.len() < 2 {
        return Err(DecodeError::MalformedType);
    }
    assert(block[1] == lines@[1]@);
    let t = match extract_type(lines[1].as_str()) {
        Some(t) => t,
        None => return Err(DecodeError::MalformedType),
    };
    if t == String::from_str("gauge") {
        let values = decode_single_values(&lines, timestamp, MetricType::Gauge);
        Ok(SingleScrapeMetric { name, docstring, metric_type: MetricType::Gauge, value_per_labels: values })
    } else if t == String::from_str("counter") {
        let values = decode_single_values(&lines, timestamp, MetricType::Counter);
        Ok(SingleScrapeMetric { name, docstring, metric_type: MetricType::Counter, value_per_labels: values })
    } else if t == String::from_str("histogram") {
        let groups = further_split_metric_lines_for_histogram(lines.as_slice());
        let ghost gs = blocks_view(groups@);
        let mut values: KeyedList<Sample> = KeyedList::new();
        let mut i: usize = 0;
        assert(gs.subrange(0, 0) =~= Seq::<Seq<Seq<char>>>::empty());
        while i < groups.len()
            invariant
                i <= groups@.len(),
                gs == blocks_view(groups@),
                values@ == histogram_values(gs.subrange(0, i as int), timestamp),
            decreases groups@.len() - i,
        {
            assert(gs.subrange(0, i + 1).drop_last() =~= gs.subrange(0, i as int));
            assert(gs[i as int] == views(groups@[i as int]@));
            match decode_histogram_group(&groups[i], timestamp) {
                Some((key, sample)) => {
                    values.insert(key, sample);
                },
                None => {},
            }
            i = i + 1;
        }
        assert(gs.subrange(0, i as int) =~= gs);
        Ok(SingleScrapeMetric { name, docstring, metric_type: MetricType::Histogram, value_per_labels: values })
    } else {
        Err(DecodeError::UnknownType)
    }
}

} // verus!
