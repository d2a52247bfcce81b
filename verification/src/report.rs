//! The benchmark report: terminal tables fitted to the terminal width, and
//! the self-contained HTML page.

use vstd::prelude::*;
use vstd::utf8::{encode_utf8, is_ascii_chars, is_ascii_chars_encode_utf8};
use crate::config::Endpoint;
use crate::stats::{EndpointSummary, PairwiseSummary};
use crate::text::{before_char, redact_url, visible_len, decimal, repeated, u64_text, repeat_char};

verus! {

// ---------------------------------------------------------------------------
// Column widths

/// The sum of the widths.
pub open spec fn sum_of(ws: Seq<usize>) -> nat
    decreases ws.len(),
{
    if ws.len() == 0 {
        0
    } else {
        sum_of(ws.drop_last()) + ws.last() as nat
    }
}

/// Whether column `i` may still shrink.
pub open spec fn shrinkable(ws: Seq<usize>, mins: Seq<usize>, i: int) -> bool {
    0 <= i < ws.len() && ws[i] > mins[i]
}

/// Among columns `0..n`, the widest shrinkable one, the last of them on a
/// tie; -1 when none may shrink.
pub open spec fn widest_shrinkable(ws: Seq<usize>, mins: Seq<usize>, n: int) -> int
    decreases n,
{
    if n <= 0 {
        -1
    } else {
        let b = widest_shrinkable(ws, mins, n - 1);
        if shrinkable(ws, mins, n - 1) && (b < 0 || ws[n - 1] >= ws[b]) {
            n - 1
        } else {
            b
        }
    }
}

/// The column to shrink next (-1 when none may shrink): the widest
/// shrinkable one, the last of them on a tie.
pub open spec fn shrink_target(ws: Seq<usize>, mins: Seq<usize>) -> int {
    widest_shrinkable(ws, mins, ws.len() as int)
}

/// `widest_shrinkable` is what it says.
pub proof fn lemma_widest_shrinkable(ws: Seq<usize>, mins: Seq<usize>, n: int)
    requires
        0 <= n <= ws.len(),
    ensures
        widest_shrinkable(ws, mins, n) < n,
        widest_shrinkable(ws, mins, n) >= 0 ==> shrinkable(ws, mins, widest_shrinkable(ws, mins, n)),
        widest_shrinkable(ws, mins, n) < 0 ==> forall|j: int| 0 <= j < n ==> !#[trigger] shrinkable(ws, mins, j),
        widest_shrinkable(ws, mins, n) >= 0 ==> forall|j: int| 0 <= j < n && #[trigger] shrinkable(ws, mins, j) ==> ws[j] <= ws[widest_shrinkable(ws, mins, n)],
        widest_shrinkable(ws, mins, n) >= 0 ==> forall|j: int| widest_shrinkable(ws, mins, n) < j < n && #[trigger] shrinkable(ws, mins, j) ==> ws[j] < ws[widest_shrinkable(ws, mins, n)],
    decreases n,
{
    if n > 0 {
        lemma_widest_shrinkable(ws, mins, n - 1);
    }
}

pub proof fn lemma_sum_update(ws: Seq<usize>, i: int, v: usize)
    requires
        0 <= i < ws.len(),
    ensures
        sum_of(ws.update(i, v)) + ws[i] == sum_of(ws) + v,
    decreases ws.len(),
{
    if i < ws.len() - 1 {
        lemma_sum_update(ws.drop_last(), i, v);
        assert(ws.update(i, v).drop_last() == ws.drop_last().update(i, v));
    } else {
        assert(ws.update(i, v).drop_last() == ws.drop_last());
    }
}

/// The widths once shrunk, one column by one step at a time, until the table
/// fits `max_total` (with `fixed` columns of fixed width) or no column may
/// shrink further.
pub open spec fn shrunk(ws: Seq<usize>, mins: Seq<usize>, max_total: nat, fixed: nat) -> Seq<usize>
    decreases sum_of(ws),
{
    let i = shrink_target(ws, mins);
    if fixed + sum_of(ws) <= max_total || i < 0 || i >= ws.len() || ws[i] == 0 {
        ws
    } else {
        proof {
            lemma_sum_update(ws, i, (ws[i] - 1) as usize);
        }
        shrunk(ws.update(i, (ws[i] - 1) as usize), mins, max_total, fixed)
    }
}

/// The result of shrinking keeps every column within its bounds, and stops
/// only where the table fits or nothing may shrink.
pub proof fn lemma_shrunk_bounds(ws: Seq<usize>, mins: Seq<usize>, max_total: nat, fixed: nat)
    requires
        mins.len() >= ws.len(),
    ensures
        shrunk(ws, mins, max_total, fixed).len() == ws.len(),
        forall|i: int| 0 <= i < ws.len() ==> #[trigger] shrunk(ws, mins, max_total, fixed)[i] <= ws[i],
        forall|i: int| 0 <= i < ws.len() ==> #[trigger] shrunk(ws, mins, max_total, fixed)[i] >= if ws[i] < mins[i] { ws[i] } else { mins[i] },
        fixed + sum_of(shrunk(ws, mins, max_total, fixed)) <= max_total || forall|i: int| 0 <= i < ws.len() ==> #[trigger] shrunk(ws, mins, max_total, fixed)[i] <= mins[i],
        fixed + sum_of(ws) <= max_total ==> shrunk(ws, mins, max_total, fixed) == ws,
    decreases sum_of(ws),
{
    lemma_widest_shrinkable(ws, mins, ws.len() as int);
    let i = shrink_target(ws, mins);
    if fixed + sum_of(ws) > max_total && i >= 0 {
        let next = ws.update(i, (ws[i] - 1) as usize);
        lemma_sum_update(ws, i, (ws[i] - 1) as usize);
        lemma_shrunk_bounds(next, mins, max_total, fixed);
    } else if i < 0 {
        assert forall|j: int| 0 <= j < ws.len() implies #[trigger] ws[j] <= mins[j] by {
            assert(!shrinkable(ws, mins, j));
        }
    }
}

proof fn lemma_sum_prefix(ws: Seq<usize>, n: int)
    requires
        0 <= n <= ws.len(),
    ensures
        sum_of(ws.take(n)) <= sum_of(ws),
    decreases ws.len() - n,
{
    if n < ws.len() {
        lemma_sum_prefix(ws, n + 1);
        assert(ws.take(n + 1).drop_last() == ws.take(n));
    } else {
        assert(ws.take(n) == ws);
    }
}

/// `fixed` plus the sum of the widths.
fn total_width(widths: &Vec<usize>, fixed: usize) -> (res: usize)
    requires
        fixed + sum_of(widths@) <= usize::MAX,
    ensures
        res == fixed + sum_of(widths@),
{
    let mut total = fixed;
    for i in 0..widths.len()
        invariant
            fixed + sum_of(widths@) <= usize::MAX,
            total == fixed + sum_of(widths@.take(i as int)),
    {
        assert(widths@.take(i + 1).drop_last() == widths@.take(i as int));
        proof { lemma_sum_prefix(widths@, i + 1); }
        total = total + widths[i];
    }
    assert(widths@.take(widths@.len() as int) == widths@);
    total
}

/// The column to shrink next, if any.
fn widest_column(widths: &Vec<usize>, min_widths: &[usize]) -> (res: Option<usize>)
    requires
        widths@.len() <= min_widths@.len(),
    ensures
        match res {
            None => shrink_target(widths@, min_widths@) < 0,
            Some(i) => shrink_target(widths@, min_widths@) == i as int && i < widths@.len(),
        },
{
    let mut best: Option<usize> = None;
    for i in 0..widths.len()
        invariant
            widths@.len() <= min_widths@.len(),
            match best {
                None => widest_shrinkable(widths@, min_widths@, i as int) < 0,
                Some(b) => widest_shrinkable(widths@, min_widths@, i as int) == b as int && b < i,
            },
    {
        proof { lemma_widest_shrinkable(widths@, min_widths@, i as int); }
        if widths[i] > min_widths[i] {
            match best {
                None => {
                    best = Some(i);
                },
                Some(b) => {
                    if widths[i] >= widths[b] {
                        best = Some(i);
                    }
                },
            }
        }
    }
    best
}

/// Narrows the widest columns one step at a time until the table fits
/// `max_total_width`, never taking a column below its minimum.
pub fn shrink_columns(widths: &mut Vec<usize>, min_widths: &[usize], max_total_width: usize, fixed_width: usize)
    requires
        old(widths)@.len() <= min_widths@.len(),
        fixed_width + sum_of(old(widths)@) <= usize::MAX,
    ensures
        final(widths)@ == shrunk(old(widths)@, min_widths@, max_total_width as nat, fixed_width as nat),
{
    let ghost orig = widths@;
    loop
        invariant
            widths@.len() == orig.len(),
            orig.len() <= min_widths@.len(),
            fixed_width + sum_of(widths@) <= usize::MAX,
            shrunk(widths@, min_widths@, max_total_width as nat, fixed_width as nat) == shrunk(orig, min_widths@, max_total_width as nat, fixed_width as nat),
        ensures
            widths@ == shrunk(orig, min_widths@, max_total_width as nat, fixed_width as nat),
        decreases sum_of(widths@),
    {
        let total = total_width(widths, fixed_width);
        if total <= max_total_width {
            break;
        }
        match widest_column(widths, min_widths) {
            None => {
                break;
            },
            Some(i) => {
                proof {
                    lemma_widest_shrinkable(widths@, min_widths@, widths@.len() as int);
                    lemma_sum_update(widths@, i as int, (widths@[i as int] - 1) as usize);
                }
                let w = widths[i] - 1;
                widths.set(i, w);
            },
        }
    }
}

// ---------------------------------------------------------------------------
// Table layouts

/// The length of the longest text, 0 when there is none.
pub open spec fn max_len(s: Seq<Seq<char>>) -> nat
    decreases s.len(),
{
    if s.len() == 0 {
        0
    } else {
        let m = max_len(s.drop_last());
        if s.last().len() > m {
            s.last().len()
        } else {
            m
        }
    }
}

/// The larger of `a` and `b`.
pub open spec fn at_least(a: nat, b: nat) -> nat {
    if a >= b {
        a
    } else {
        b
    }
}

proof fn lemma_max_len_step(s: Seq<Seq<char>>, i: int)
    requires
        0 <= i < s.len(),
    ensures
        max_len(s.take(i + 1)) == at_least(s[i].len(), max_len(s.take(i))),
{
    assert(s.take(i + 1).drop_last() == s.take(i));
    assert(s.take(i + 1).last() == s[i]);
}

/// The endpoint aliases.
pub open spec fn aliases(eps: Seq<Endpoint>) -> Seq<Seq<char>> {
    eps.map_values(|e: Endpoint| e.alias@)
}

/// The endpoint protocol labels.
pub open spec fn labels(eps: Seq<Endpoint>) -> Seq<Seq<char>> {
    eps.map_values(|e: Endpoint| e.protocol.title())
}

/// The endpoint URLs without query strings.
pub open spec fn redacted_urls(eps: Seq<Endpoint>) -> Seq<Seq<char>> {
    eps.map_values(|e: Endpoint| before_char(e.url@, '?'))
}

/// The column widths of the configured-streams table: alias, protocol,
/// endpoint URL.
#[derive(Debug)]
pub struct StreamsTableLayout {
    pub alias_width: usize,
    pub protocol_width: usize,
    pub endpoint_width: usize,
}

impl StreamsTableLayout {
    /// The width of a table row.
    pub open spec fn width(&self) -> nat {
        (2 + self.alias_width + 1 + self.protocol_width + 1 + self.endpoint_width) as nat
    }

    /// The width of a table row.
    pub fn total_width(&self) -> (res: usize)
        requires
            self.width() <= usize::MAX,
        ensures
            res == self.width(),
    {
        2 + self.alias_width + 1 + self.protocol_width + 1 + self.endpoint_width
    }
}

/// The natural widths of the configured-streams table, before fitting.
pub open spec fn stream_widths(eps: Seq<Endpoint>) -> Seq<usize> {
    seq![
        at_least(max_len(aliases(eps)), 5) as usize,
        at_least(max_len(labels(eps)), 8) as usize,
        at_least(max_len(redacted_urls(eps)), 8) as usize,
    ]
}

/// The layout of the configured-streams table: each column as wide as its
/// widest entry or heading, shrunk to fit `terminal_width`, never below
/// 5, 8 and 24 characters.
pub fn streams_table_layout(endpoints: &[Endpoint], terminal_width: usize) -> (res: StreamsTableLayout)
    requires
        max_len(aliases(endpoints@)) + max_len(labels(endpoints@)) + max_len(redacted_urls(endpoints@)) + 25 <= usize::MAX,
    ensures
        seq![res.alias_width, res.protocol_width, res.endpoint_width] == shrunk(stream_widths(endpoints@), seq![5usize, 8, 24], terminal_width as nat, 4),
        res.width() <= usize::MAX,
{
    let ghost eps = endpoints@;
    let mut alias_w: usize = 0;
    let mut label_w: usize = 0;
    let mut url_w: usize = 0;
    for i in 0..endpoints.len()
        invariant
            eps == endpoints@,
            alias_w == max_len(aliases(eps).take(i as int)),
            label_w == max_len(labels(eps).take(i as int)),
            url_w == max_len(redacted_urls(eps).take(i as int)),
            max_len(aliases(eps)) + max_len(labels(eps)) + max_len(redacted_urls(eps)) + 25 <= usize::MAX,
    {
        proof {
            lemma_max_len_step(aliases(eps), i as int);
            lemma_max_len_step(labels(eps), i as int);
            lemma_max_len_step(redacted_urls(eps), i as int);
            lemma_max_len_prefix(aliases(eps), i + 1);
            lemma_max_len_prefix(labels(eps), i + 1);
            lemma_max_len_prefix(redacted_urls(eps), i + 1);
        }
        let e = &endpoints[i];
        let a = visible_len(e.alias.as_str());
        if a > alias_w {
            alias_w = a;
        }
        let l = visible_len(e.protocol.label());
        if l > label_w {
            label_w = l;
        }
        let u = redact_url(e.url.as_str());
        let ul = visible_len(u.as_str());
        if ul > url_w {
            url_w = ul;
        }
    }
    proof {
        assert(aliases(eps).take(eps.len() as int) == aliases(eps));
        assert(labels(eps).take(eps.len() as int) == labels(eps));
        assert(redacted_urls(eps).take(eps.len() as int) == redacted_urls(eps));
    }
    let mut widths: Vec<usize> = Vec::new();
    widths.push(if alias_w > 5 { alias_w } else { 5 });
    widths.push(if label_w > 8 { label_w } else { 8 });
    widths.push(if url_w > 8 { url_w } else { 8 });
    let mins: [usize; 3] = [5, 8, 24];
    proof {
        assert(widths@ == stream_widths(eps));
        reveal_with_fuel(sum_of, 4);
        lemma_shrunk_bounds(widths@, mins@, terminal_width as nat, 4);
    }
    shrink_columns(&mut widths, &mins, terminal_width, 4);
    assert(mins@ == seq![5usize, 8, 24]);
    StreamsTableLayout { alias_width: widths[0], protocol_width: widths[1], endpoint_width: widths[2] }
}

proof fn lemma_max_len_prefix(s: Seq<Seq<char>>, n: int)
    requires
        0 <= n <= s.len(),
    ensures
        max_len(s.take(n)) <= max_len(s),
    decreases s.len() - n,
{
    if n < s.len() {
        lemma_max_len_prefix(s, n + 1);
        assert(s.take(n + 1).drop_last() == s.take(n));
    } else {
        assert(s.take(n) == s);
    }
}

/// The aliases of ranked endpoints.
pub open spec fn summary_aliases(s: Seq<EndpointSummary>) -> Seq<Seq<char>> {
    s.map_values(|e: EndpointSummary| e.alias@)
}

/// The protocol labels of ranked endpoints.
pub open spec fn summary_labels(s: Seq<EndpointSummary>) -> Seq<Seq<char>> {
    s.map_values(|e: EndpointSummary| e.protocol_label@)
}

/// The faster aliases of pairwise rows.
pub open spec fn faster_aliases(s: Seq<PairwiseSummary>) -> Seq<Seq<char>> {
    s.map_values(|e: PairwiseSummary| e.faster_alias@)
}

/// The slower aliases of pairwise rows.
pub open spec fn slower_aliases(s: Seq<PairwiseSummary>) -> Seq<Seq<char>> {
    s.map_values(|e: PairwiseSummary| e.slower_alias@)
}

/// The column widths of the ranking table: endpoint, protocol.
#[derive(Debug)]
pub struct RankingTableLayout {
    pub endpoint_width: usize,
    pub protocol_width: usize,
}

impl RankingTableLayout {
    /// The width of a table row.
    pub open spec fn width(&self) -> nat {
        (2 + 3 + 1 + self.endpoint_width + 1 + self.protocol_width + 1 + 10 + 1 + 9 + 1 + 8 + 1 + 9 + 1
            + 11 + 1 + 11) as nat
    }

    /// The width of a table row.
    pub fn total_width(&self) -> (res: usize)
        requires
            self.width() <= usize::MAX,
        ensures
            res == self.width(),
    {
        2 + 3 + 1 + self.endpoint_width + 1 + self.protocol_width + 1 + 10 + 1 + 9 + 1 + 8 + 1 + 9 + 1
            + 11 + 1 + 11
    }
}

/// The natural widths of the ranking table, before fitting.
pub open spec fn ranking_widths(s: Seq<EndpointSummary>) -> Seq<usize> {
    seq![
        at_least(max_len(summary_aliases(s)), 8) as usize,
        at_least(max_len(summary_labels(s)), 8) as usize,
    ]
}

/// The layout of the ranking table: endpoint and protocol columns as wide
/// as their widest entry or heading, shrunk to fit `terminal_width`, never
/// below 8 characters.
pub fn ranking_table_layout(endpoints: &[EndpointSummary], terminal_width: usize) -> (res: RankingTableLayout)
    requires
        max_len(summary_aliases(endpoints@)) + max_len(summary_labels(endpoints@)) + 90 <= usize::MAX,
    ensures
        seq![res.endpoint_width, res.protocol_width] == shrunk(ranking_widths(endpoints@), seq![8usize, 8], terminal_width as nat, 71),
        res.width() <= usize::MAX,
{
    let ghost eps = endpoints@;
    let mut alias_w: usize = 0;
    let mut label_w: usize = 0;
    for i in 0..endpoints.len()
        invariant
            eps == endpoints@,
            alias_w == max_len(summary_aliases(eps).take(i as int)),
            label_w == max_len(summary_labels(eps).take(i as int)),
            max_len(summary_aliases(eps)) + max_len(summary_labels(eps)) + 90 <= usize::MAX,
    {
        proof {
            lemma_max_len_step(summary_aliases(eps), i as int);
            lemma_max_len_step(summary_labels(eps), i as int);
            lemma_max_len_prefix(summary_aliases(eps), i + 1);
            lemma_max_len_prefix(summary_labels(eps), i + 1);
        }
        let a = visible_len(endpoints[i].alias.as_str());
        if a > alias_w {
            alias_w = a;
        }
        let l = visible_len(endpoints[i].protocol_label.as_str());
        if l > label_w {
            label_w = l;
        }
    }
    proof {
        assert(summary_aliases(eps).take(eps.len() as int) == summary_aliases(eps));
        assert(summary_labels(eps).take(eps.len() as int) == summary_labels(eps));
    }
    let mut widths: Vec<usize> = Vec::new();
    widths.push(if alias_w > 8 { alias_w } else { 8 });
    widths.push(if label_w > 8 { label_w } else { 8 });
    let mins: [usize; 2] = [8, 8];
    proof {
        assert(widths@ == ranking_widths(eps));
        reveal_with_fuel(sum_of, 3);
        lemma_shrunk_bounds(widths@, mins@, terminal_width as nat, 71);
    }
    shrink_columns(&mut widths, &mins, terminal_width, 71);
    assert(mins@ == seq![8usize, 8]);
    RankingTableLayout { endpoint_width: widths[0], protocol_width: widths[1] }
}

/// The column widths of the pairwise table: faster and slower endpoint.
#[derive(Debug)]
pub struct PairwiseTableLayout {
    pub faster_width: usize,
    pub slower_width: usize,
}

impl PairwiseTableLayout {
    /// The width of a table row.
    pub open spec fn width(&self) -> nat {
        (2 + self.faster_width + 1 + self.slower_width + 1 + 9 + 1 + 8 + 1 + 9 + 1 + 11 + 1 + 11 + 1 + 11
            + 1 + 11) as nat
    }

    /// The width of a table row.
    pub fn total_width(&self) -> (res: usize)
        requires
            self.width() <= usize::MAX,
        ensures
            res == self.width(),
    {
        2 + self.faster_width + 1 + self.slower_width + 1 + 9 + 1 + 8 + 1 + 9 + 1 + 11 + 1 + 11 + 1 + 11
            + 1 + 11
    }
}

/// The natural widths of the pairwise table (its first ten rows), before
/// fitting.
pub open spec fn pairwise_widths(s: Seq<PairwiseSummary>) -> Seq<usize> {
    let shown = if s.len() > 10 { s.take(10) } else { s };
    seq![
        at_least(max_len(faster_aliases(shown)), 6) as usize,
        at_least(max_len(slower_aliases(shown)), 6) as usize,
    ]
}

/// The layout of the pairwise table over its first ten rows: the endpoint
/// columns as wide as their widest entry or heading, shrunk to fit
/// `terminal_width`, never below 12 characters.
pub fn pairwise_table_layout(pairs: &[PairwiseSummary], terminal_width: usize) -> (res: PairwiseTableLayout)
    requires
        max_len(faster_aliases(pairs@)) + max_len(slower_aliases(pairs@)) + 100 <= usize::MAX,
    ensures
        seq![res.faster_width, res.slower_width] == shrunk(pairwise_widths(pairs@), seq![12usize, 12], terminal_width as nat, 80),
        res.width() <= usize::MAX,
{
    let ghost ps = pairs@;
    let n = if pairs.len() > 10 { 10 } else { pairs.len() };
    let ghost shown = if ps.len() > 10 { ps.take(10) } else { ps };
    assert(shown.len() == n);
    let mut fast_w: usize = 0;
    let mut slow_w: usize = 0;
    proof {
        lemma_max_len_sub(faster_aliases(ps), n as int);
        lemma_max_len_sub(slower_aliases(ps), n as int);
        assert(faster_aliases(shown) == faster_aliases(ps).take(n as int));
        assert(slower_aliases(shown) == slower_aliases(ps).take(n as int));
    }
    for i in 0..n
        invariant
            ps == pairs@,
            n <= ps.len(),
            shown.len() == n,
            forall|j: int| 0 <= j < n ==> #[trigger] shown[j] == ps[j],
            fast_w == max_len(faster_aliases(shown).take(i as int)),
            slow_w == max_len(slower_aliases(shown).take(i as int)),
            max_len(faster_aliases(shown)) + max_len(slower_aliases(shown)) + 100 <= usize::MAX,
    {
        proof {
            lemma_max_len_step(faster_aliases(shown), i as int);
            lemma_max_len_step(slower_aliases(shown), i as int);
            lemma_max_len_prefix(faster_aliases(shown), i + 1);
            lemma_max_len_prefix(slower_aliases(shown), i + 1);
        }
        let a = visible_len(pairs[i].faster_alias.as_str());
        if a > fast_w {
            fast_w = a;
        }
        let b = visible_len(pairs[i].slower_alias.as_str());
        if b > slow_w {
            slow_w = b;
        }
    }
    proof {
        assert(faster_aliases(shown).take(n as int) == faster_aliases(shown));
        assert(slower_aliases(shown).take(n as int) == slower_aliases(shown));
    }
    let mut widths: Vec<usize> = Vec::new();
    widths.push(if fast_w > 6 { fast_w } else { 6 });
    widths.push(if slow_w > 6 { slow_w } else { 6 });
    let mins: [usize; 2] = [12, 12];
    proof {
        assert(widths@ == pairwise_widths(ps));
        reveal_with_fuel(sum_of, 3);
        lemma_shrunk_bounds(widths@, mins@, terminal_width as nat, 80);
    }
    shrink_columns(&mut widths, &mins, terminal_width, 80);
    assert(mins@ == seq![12usize, 12]);
    PairwiseTableLayout { faster_width: widths[0], slower_width: widths[1] }
}

proof fn lemma_max_len_sub(s: Seq<Seq<char>>, n: int)
    requires
        0 <= n <= s.len(),
    ensures
        max_len(s.take(n)) <= max_len(s),
{
    lemma_max_len_prefix(s, n);
}

// ---------------------------------------------------------------------------
// Terminal colours

/// `text` in 24-bit colour `r`, `g`, `b`, followed by a reset.
pub open spec fn ansi(text: Seq<char>, r: nat, g: nat, b: nat) -> Seq<char> {
    "\x1b[38;2;"@ + decimal(r) + ";"@ + decimal(g) + ";"@ + decimal(b) + "m"@ + text + "\x1b[0m"@
}

/// `text` in bold 24-bit colour `r`, `g`, `b`, followed by a reset.
pub open spec fn ansi_bold(text: Seq<char>, r: nat, g: nat, b: nat) -> Seq<char> {
    "\x1b[1;38;2;"@ + decimal(r) + ";"@ + decimal(g) + ";"@ + decimal(b) + "m"@ + text + "\x1b[0m"@
}

pub open spec fn coral(t: Seq<char>) -> Seq<char> {
    ansi(t, 255, 105, 40)
}

pub open spec fn peach(t: Seq<char>) -> Seq<char> {
    ansi(t, 255, 205, 159)
}

pub open spec fn blue(t: Seq<char>) -> Seq<char> {
    ansi(t, 180, 220, 250)
}

pub open spec fn bold_blue(t: Seq<char>) -> Seq<char> {
    ansi_bold(t, 180, 220, 250)
}

pub open spec fn violet(t: Seq<char>) -> Seq<char> {
    ansi(t, 227, 180, 250)
}

pub open spec fn white(t: Seq<char>) -> Seq<char> {
    ansi(t, 255, 255, 255)
}

pub open spec fn muted(t: Seq<char>) -> Seq<char> {
    ansi(t, 200, 200, 200)
}

fn push_rgb_code(out: &mut String, r: u8, g: u8, b: u8)
    ensures
        final(out)@ == old(out)@ + decimal(r as nat) + ";"@ + decimal(g as nat) + ";"@ + decimal(b as nat) + "m"@,
{
    let rs = u64_text(r as u64);
    let gs = u64_text(g as u64);
    let bs = u64_text(b as u64);
    out.append(rs.as_str());
    out.append(";");
    out.append(gs.as_str());
    out.append(";");
    out.append(bs.as_str());
    out.append("m");
}

/// `text` in 24-bit colour.
pub fn ansi_rgb(text: &str, r: u8, g: u8, b: u8) -> (res: String)
    ensures
        res@ == ansi(text@, r as nat, g as nat, b as nat),
{
    let mut out = String::from_str("\x1b[38;2;");
    push_rgb_code(&mut out, r, g, b);
    out.append(text);
    out.append("\x1b[0m");
    out
}

/// `text` in bold 24-bit colour.
pub fn ansi_bold_rgb(text: &str, r: u8, g: u8, b: u8) -> (res: String)
    ensures
        res@ == ansi_bold(text@, r as nat, g as nat, b as nat),
{
    let mut out = String::from_str("\x1b[1;38;2;");
    push_rgb_code(&mut out, r, g, b);
    out.append(text);
    out.append("\x1b[0m");
    out
}

pub fn term_coral(text: &str) -> (res: String)
    ensures
        res@ == coral(text@),
{
    ansi_rgb(text, 255, 105, 40)
}

pub fn term_peach(text: &str) -> (res: String)
    ensures
        res@ == peach(text@),
{
    ansi_rgb(text, 255, 205, 159)
}

pub fn term_blue(text: &str) -> (res: String)
    ensures
        res@ == blue(text@),
{
    ansi_rgb(text, 180, 220, 250)
}

pub fn term_bold_blue(text: &str) -> (res: String)
    ensures
        res@ == bold_blue(text@),
{
    ansi_bold_rgb(text, 180, 220, 250)
}

pub fn term_violet(text: &str) -> (res: String)
    ensures
        res@ == violet(text@),
{
    ansi_rgb(text, 227, 180, 250)
}

pub fn term_white(text: &str) -> (res: String)
    ensures
        res@ == white(text@),
{
    ansi_rgb(text, 255, 255, 255)
}

pub fn term_muted(text: &str) -> (res: String)
    ensures
        res@ == muted(text@),
{
    ansi_rgb(text, 200, 200, 200)
}

// ---------------------------------------------------------------------------
// Terminal lines

/// A line of text and its line break.
pub open spec fn line(t: Seq<char>) -> Seq<char> {
    t + "\n"@
}

/// A section heading: `-- title ` followed by as many dashes as `width`
/// exceeds the length of `-- title ` in UTF-8 bytes (as a `usize`), so an
/// ASCII title fills exactly `width` columns.
pub open spec fn section_rule(title: Seq<char>, width: nat) -> Seq<char> {
    let prefix = "-- "@ + title + " "@;
    let n = (encode_utf8(prefix).len() as usize) as nat;
    prefix + repeated('-', if width > n { (width - n) as nat } else { 0 })
}

/// A table separator: two spaces and dashes out to `width` columns.
pub open spec fn separator_rule(width: nat) -> Seq<char> {
    "  "@ + repeated('-', if width > 2 { (width - 2) as nat } else { 0 })
}

/// Appends `coloured` and a line break.
pub fn push_line(out: &mut String, coloured: String)
    ensures
        final(out)@ == old(out)@ + line(coloured@),
{
    out.append(coloured.as_str());
    out.append("\n");
}

pub fn terminal_line(out: &mut String, text: &str)
    ensures
        final(out)@ == old(out)@ + line(coral(text@)),
{
    push_line(out, term_coral(text));
}

pub fn terminal_header(out: &mut String, text: &str)
    ensures
        final(out)@ == old(out)@ + line(peach(text@)),
{
    push_line(out, term_peach(text));
}

pub fn terminal_data(out: &mut String, text: &str)
    ensures
        final(out)@ == old(out)@ + line(white(text@)),
{
    push_line(out, term_white(text));
}

/// Appends the heading of section `title`, ruled out to `width` columns.
pub fn terminal_section(out: &mut String, title: &str, width: usize)
    ensures
        final(out)@ == old(out)@ + line(coral(section_rule(title@, width as nat))),
{
    let mut prefix = String::from_str("-- ");
    prefix.append(title);
    prefix.append(" ");
    let n = prefix.as_str().len();
    let dashes = repeat_char('-', if width > n { width - n } else { 0 });
    prefix.append(dashes.as_str());
    terminal_line(out, prefix.as_str());
}

/// Appends a table separator `width` columns wide.
pub fn terminal_table_separator(out: &mut String, width: usize)
    ensures
        final(out)@ == old(out)@ + line(coral(separator_rule(width as nat))),
{
    let mut text = String::from_str("  ");
    let dashes = repeat_char('-', if width > 2 { width - 2 } else { 0 });
    text.append(dashes.as_str());
    terminal_line(out, text.as_str());
}

/// A section rule with an ASCII title and a table separator for the same
/// width are equally long.
pub proof fn lemma_section_matches_separator(title: Seq<char>, width: nat)
    requires
        is_ascii_chars(title),
        title.len() + 4 <= usize::MAX,
        width >= title.len() + 4,
    ensures
        section_rule(title, width).len() == width,
        separator_rule(width).len() == width,
{
    reveal_strlit("-- ");
    reveal_strlit(" ");
    reveal_strlit("  ");
    let prefix = "-- "@ + title + " "@;
    assert(is_ascii_chars(prefix)) by {
        assert forall|i: int| 0 <= i < prefix.len() implies '\0' <= #[trigger] prefix[i] <= '\u{7f}' by {
            if 3 <= i < 3 + title.len() {
                assert(prefix[i] == title[i - 3]);
            }
        }
    }
    is_ascii_chars_encode_utf8(prefix);
}

} // verus!
