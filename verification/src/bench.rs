//! Measuring the compression claim.
//!
//! Two costs are being compared and they scale differently, which is the whole
//! point:
//!
//! - **whole file** grows linearly with the program: every bucket you never
//!   touch is still paid for on every request
//! - **subgraph** tracks the edited bucket's *neighbourhood*: its body plus the
//!   signatures and descriptions of what it calls. Flat in program size, but
//!   **not** flat: it rises with fan-out, which is what [`fanout_sweep`] isolates
//!
//! There is also a third, easy to forget and large: the **agent's fixed
//! overhead**, the system prompt plus the tool schemas, paid on every turn. On a
//! small program that overhead dwarfs both context strategies. A row reports all
//! three so the crossover is a measurement rather than an assertion.
//!
//! Nothing here calls the API: these are deterministic counts, taken by the
//! caller on the programs generated here.

use crate::text;
use vstd::prelude::*;

verus! {

/// One measured program.
#[derive(Debug, Clone, Copy)]
pub struct Row {
    /// Number of user buckets in the generated program.
    pub buckets: usize,
    /// How many buckets the edited one calls: what drives subgraph size.
    pub fanout: usize,
    pub file_tokens: usize,
    pub subgraph_tokens: usize,
    /// System prompt + tool schemas, paid once per turn.
    pub agent_overhead: usize,
}

impl Row {
    /// How much cheaper the neighbourhood is, as a fraction: `file / subgraph`.
    pub fn context_ratio(&self) -> (r: (usize, usize))
        ensures
            r.0 == self.file_tokens,
            r.1 == if self.subgraph_tokens == 0 {
                1
            } else {
                self.subgraph_tokens
            },
    {
        let d: usize = if self.subgraph_tokens == 0 {
            1
        } else {
            self.subgraph_tokens
        };
        (self.file_tokens, d)
    }

    /// Whole file plus overhead vs subgraph plus overhead, as a fraction: what
    /// an agent actually pays per turn under each strategy.
    pub fn effective_ratio(&self) -> (r: (usize, usize))
        requires
            self.file_tokens + self.agent_overhead <= usize::MAX,
            self.subgraph_tokens + self.agent_overhead <= usize::MAX,
        ensures
            r.0 == self.file_tokens + self.agent_overhead,
            r.1 == if self.subgraph_tokens + self.agent_overhead == 0 {
                1
            } else {
                self.subgraph_tokens + self.agent_overhead
            },
    {
        let d: usize = self.subgraph_tokens + self.agent_overhead;
        let d1: usize = if d == 0 {
            1
        } else {
            d
        };
        (self.file_tokens + self.agent_overhead, d1)
    }
}

// ------------------------------------------------------------------- program

/// The smaller of two counts.
pub open spec fn least(a: nat, b: nat) -> nat {
    if a <= b {
        a
    } else {
        b
    }
}

/// The calls of the first `fan` helpers.
pub open spec fn helper_calls(fan: nat) -> Seq<Seq<char>> {
    Seq::new(fan, |i: int| "helper_"@ + text::decimal(i as nat) + "(p)"@)
}

/// The body of the bucket to edit: it calls `fan` helpers, so its neighbourhood
/// is genuinely populated.
pub open spec fn target_body(fan: nat) -> Seq<char> {
    if fan == 0 {
        "p * 2 * 1.08"@
    } else {
        text::joined(helper_calls(fan), " + "@)
    }
}

/// The body of a helper. Helpers chain into each other so the graph has depth,
/// not just width.
pub open spec fn helper_body(i: nat, n: nat, fan: nat) -> Seq<char> {
    if i + 1 < n && i < fan {
        "helper_"@ + text::decimal(i + 1) + "(x) + "@ + text::decimal(i)
    } else {
        "x + "@ + text::decimal(i) + " * 2 - 1"@
    }
}

/// A helper.
pub open spec fn helper(i: nat, n: nat, fan: nat) -> Seq<char> {
    "helper_"@ + text::decimal(i) + "(x: Num) -> Num \"apply adjustment number "@ + text::decimal(i)
        + " to a running order total\" {\n  "@ + helper_body(i, n, fan) + "\n}\n\n"@
}

/// The first `k` of `n` helpers.
pub open spec fn helpers(k: nat, n: nat, fan: nat) -> Seq<char>
    decreases k,
{
    if k == 0 {
        Seq::empty()
    } else {
        helpers((k - 1) as nat, n, fan) + helper((k - 1) as nat, n, fan)
    }
}

/// A program of `n` helpers with a real call graph: the target calls `fanout`
/// of them.
pub open spec fn program_text(n: nat, fanout: nat) -> Seq<char> {
    let fan = least(fanout, n);
    "price_total(p: Num) -> Num \"total price for two of an item including sales tax\" {\n  "@
        + target_body(fan) + "\n}\n\n"@ + helpers(n, n, fan)
        + "@entry\nmain() -> Num \"checkout total\" {\n  price_total(19.99)\n}\n"@
}

fn calls_of(fan: usize) -> (r: String)
    ensures
        r@ == target_body(fan as nat),
{
    if fan == 0 {
        return "p * 2 * 1.08".to_owned();
    }
    let mut calls: Vec<String> = Vec::new();
    let mut i: usize = 0;
    while i < fan
        invariant
            i <= fan,
            calls@.len() == i,
            forall|k: int| 0 <= k < i ==> (#[trigger] calls@[k])@ == helper_calls(fan as nat)[k],
        decreases fan - i,
    {
        let mut s = "helper_".to_owned();
        s.append(&text::decimal_of(i as u64));
        s.append("(p)");
        calls.push(s);
        i = i + 1;
    }
    assert(text::texts(calls@) =~= helper_calls(fan as nat));
    text::join(&calls, " + ")
}

fn helper_of(i: usize, n: usize, fan: usize) -> (r: String)
    requires
        i < n,
    ensures
        r@ == helper(i as nat, n as nat, fan as nat),
{
    let number = text::decimal_of(i as u64);
    let mut inner = String::new();
    if i + 1 < n && i < fan {
        inner = "helper_".to_owned();
        inner.append(&text::decimal_of((i + 1) as u64));
        inner.append("(x) + ");
        inner.append(&number);
    } else {
        inner = "x + ".to_owned();
        inner.append(&number);
        inner.append(" * 2 - 1");
    }
    let mut s = "helper_".to_owned();
    s.append(&number);
    s.append("(x: Num) -> Num \"apply adjustment number ");
    s.append(&number);
    s.append(" to a running order total\" {\n  ");
    s.append(&inner);
    s.append("\n}\n\n");
    s
}

/// Build a program of `n` helpers with a **real call graph**.
///
/// Helpers form a chain and the target calls `fanout` of them, so the subgraph
/// carries real neighbours. Cost then tracks the neighbourhood while the file
/// keeps growing with `n`.
pub fn program(n: usize, fanout: usize) -> (r: String)
    ensures
        r@ == program_text(n as nat, fanout as nat),
{
    let fan: usize = if fanout <= n {
        fanout
    } else {
        n
    };
    let mut all = String::new();
    let mut i: usize = 0;
    while i < n
        invariant
            i <= n,
            all@ == helpers(i as nat, n as nat, fan as nat),
        decreases n - i,
    {
        all.append(&helper_of(i, n, fan));
        i = i + 1;
    }
    let mut s =
        "price_total(p: Num) -> Num \"total price for two of an item including sales tax\" {\n  ".to_owned();
    s.append(&calls_of(fan));
    s.append("\n}\n\n");
    s.append(&all);
    s.append("@entry\nmain() -> Num \"checkout total\" {\n  price_total(19.99)\n}\n");
    s
}

// -------------------------------------------------------------------- sweeps

/// What was measured on one program: the cost of the whole file and that of the
/// neighbourhood of `price_total`.
#[derive(Debug, Clone, Copy)]
pub struct Costs {
    pub file_tokens: usize,
    pub subgraph_tokens: usize,
}

/// The row of a program of `n` helpers. It has two buckets more than helpers:
/// the target and the entry.
pub open spec fn row(n: usize, fanout: usize, costs: Costs, overhead: usize) -> Row {
    Row {
        buckets: (n + 2) as usize,
        fanout: least(fanout as nat, n as nat) as usize,
        file_tokens: costs.file_tokens,
        subgraph_tokens: costs.subgraph_tokens,
        agent_overhead: overhead,
    }
}

fn row_of(n: usize, fanout: usize, costs: Costs, overhead: usize) -> (r: Row)
    requires
        n + 2 <= usize::MAX,
    ensures
        r == row(n, fanout, costs, overhead),
{
    Row {
        buckets: n + 2,
        fanout: if fanout <= n {
            fanout
        } else {
            n
        },
        file_tokens: costs.file_tokens,
        subgraph_tokens: costs.subgraph_tokens,
        agent_overhead: overhead,
    }
}

/// Sweep program sizes at a fixed fan-out.
///
/// `fanout` is how many helpers the edited bucket calls: the thing subgraph
/// cost actually depends on. Holding it constant while the size grows isolates
/// the claim: file cost rises with the program, neighbourhood cost does not.
/// `costs` holds what was measured on the program of each size.
pub fn sweep_with_fanout(sizes: &[usize], fanout: usize, costs: &[Costs], overhead: usize) -> (r: Vec<
    Row,
>)
    requires
        sizes@.len() == costs@.len(),
        forall|i: int| 0 <= i < sizes@.len() ==> #[trigger] sizes@[i] + 2 <= usize::MAX,
    ensures
        r@.len() == sizes@.len(),
        forall|i: int|
            0 <= i < r@.len() ==> #[trigger] r@[i] == row(sizes@[i], fanout, costs@[i], overhead),
{
    let mut rows: Vec<Row> = Vec::new();
    let mut i: usize = 0;
    while i < sizes.len()
        invariant
            i <= sizes@.len(),
            sizes@.len() == costs@.len(),
            forall|k: int| 0 <= k < sizes@.len() ==> #[trigger] sizes@[k] + 2 <= usize::MAX,
            rows@.len() == i,
            forall|k: int|
                0 <= k < i ==> #[trigger] rows@[k] == row(sizes@[k], fanout, costs@[k], overhead),
        decreases sizes@.len() - i,
    {
        rows.push(row_of(sizes[i], fanout, costs[i], overhead));
        i = i + 1;
    }
    rows
}

/// The sum of some counts.
pub open spec fn sum(counts: Seq<usize>) -> nat
    decreases counts.len(),
{
    if counts.len() == 0 {
        0
    } else {
        sum(counts.drop_last()) + counts.last() as nat
    }
}

/// The fixed overhead of a turn, from the sizes of all that is sent on every
/// one; `None` if it is too large to count.
pub fn overhead(counts: &Vec<usize>) -> (r: Option<usize>)
    ensures
        match r {
            Some(n) => n == sum(counts@),
            None => sum(counts@) > usize::MAX,
        },
{
    let ghost all = counts@;
    let mut total: usize = 0;
    let mut i: usize = 0;
    assert(all.take(0) =~= Seq::<usize>::empty());
    while i < counts.len()
        invariant
            i <= all.len(),
            all == counts@,
            total == sum(all.take(i as int)),
        decreases all.len() - i,
    {
        assert(all.take(i + 1).drop_last() =~= all.take(i as int));
        if counts[i] > usize::MAX - total {
            proof {
                lemma_sum_grows(all, i + 1);
            }
            return None;
        }
        total = total + counts[i];
        i = i + 1;
    }
    assert(all.take(all.len() as int) =~= all);
    Some(total)
}

proof fn lemma_sum_grows(counts: Seq<usize>, n: int)
    requires
        0 <= n <= counts.len(),
    ensures
        sum(counts.take(n)) <= sum(counts),
    decreases counts.len() - n,
{
    if n < counts.len() {
        lemma_sum_grows(counts, n + 1);
        assert(counts.take(n + 1).drop_last() =~= counts.take(n));
    } else {
        assert(counts.take(n) =~= counts);
    }
}

/// The fan-out of the default sweep.
pub const FANOUT: usize = 3;

/// Default sweep: a realistic fan-out of 3.
pub fn sweep(sizes: &[usize], costs: &[Costs], overhead: usize) -> (r: Vec<Row>)
    requires
        sizes@.len() == costs@.len(),
        forall|i: int| 0 <= i < sizes@.len() ==> #[trigger] sizes@[i] + 2 <= usize::MAX,
    ensures
        r@.len() == sizes@.len(),
        forall|i: int|
            0 <= i < r@.len() ==> #[trigger] r@[i] == row(sizes@[i], FANOUT, costs@[i], overhead),
{
    sweep_with_fanout(sizes, FANOUT, costs, overhead)
}

/// Hold the program size constant and vary fan-out, to show what subgraph cost
/// actually responds to.
pub fn fanout_sweep(buckets: usize, fanouts: &[usize], costs: &[Costs], overhead: usize) -> (r: Vec<
    Row,
>)
    requires
        fanouts@.len() == costs@.len(),
        buckets + 2 <= usize::MAX,
    ensures
        r@.len() == fanouts@.len(),
        forall|i: int|
            0 <= i < r@.len() ==> #[trigger] r@[i] == row(buckets, fanouts@[i], costs@[i], overhead),
{
    let mut rows: Vec<Row> = Vec::new();
    let mut i: usize = 0;
    while i < fanouts.len()
        invariant
            i <= fanouts@.len(),
            fanouts@.len() == costs@.len(),
            buckets + 2 <= usize::MAX,
            rows@.len() == i,
            forall|k: int|
                0 <= k < i ==> #[trigger] rows@[k] == row(buckets, fanouts@[k], costs@[k], overhead),
        decreases fanouts@.len() - i,
    {
        rows.push(row_of(buckets, fanouts[i], costs[i], overhead));
        i = i + 1;
    }
    rows
}

// ----------------------------------------------------------------------- csv

/// A line of the table. The two ratios are given as texts.
pub open spec fn csv_line(r: Row, ratios: (Seq<char>, Seq<char>)) -> Seq<char> {
    text::decimal(r.buckets as nat) + ","@ + text::decimal(r.fanout as nat) + ","@ + text::decimal(
        r.file_tokens as nat,
    ) + ","@ + text::decimal(r.subgraph_tokens as nat) + ","@ + text::decimal(
        r.agent_overhead as nat,
    ) + ","@ + ratios.0 + ","@ + ratios.1 + "\n"@
}

/// The first `k` lines of the table.
pub open spec fn csv_lines(rows: Seq<Row>, ratios: Seq<(Seq<char>, Seq<char>)>, k: int) -> Seq<char>
    decreases k,
{
    if k <= 0 {
        Seq::empty()
    } else {
        csv_lines(rows, ratios, k - 1) + csv_line(rows[k - 1], ratios[k - 1])
    }
}

/// The ratios that a list holds.
pub open spec fn ratio_texts(v: Seq<(String, String)>) -> Seq<(Seq<char>, Seq<char>)> {
    v.map_values(|p: (String, String)| (p.0@, p.1@))
}

/// The table as comma-separated values. `ratios` holds the two ratios of every
/// row, each with three decimals.
pub fn to_csv(rows: &[Row], ratios: &[(String, String)]) -> (r: String)
    requires
        rows@.len() == ratios@.len(),
    ensures
        r@
            == "buckets,fanout,file_tokens,subgraph_tokens,agent_overhead,context_ratio,effective_ratio\n"@
            + csv_lines(rows@, ratio_texts(ratios@), rows@.len() as int),
{
    let mut lines = String::new();
    let mut i: usize = 0;
    while i < rows.len()
        invariant
            i <= rows@.len(),
            rows@.len() == ratios@.len(),
            lines@ == csv_lines(rows@, ratio_texts(ratios@), i as int),
        decreases rows@.len() - i,
    {
        let row = &rows[i];
        let mut s = text::decimal_of(row.buckets as u64);
        s.append(",");
        s.append(&text::decimal_of(row.fanout as u64));
        s.append(",");
        s.append(&text::decimal_of(row.file_tokens as u64));
        s.append(",");
        s.append(&text::decimal_of(row.subgraph_tokens as u64));
        s.append(",");
        s.append(&text::decimal_of(row.agent_overhead as u64));
        s.append(",");
        s.append(&ratios[i].0);
        s.append(",");
        s.append(&ratios[i].1);
        s.append("\n");
        lines.append(&s);
        i = i + 1;
    }
    let mut s =
        "buckets,fanout,file_tokens,subgraph_tokens,agent_overhead,context_ratio,effective_ratio\n".to_owned();
    s.append(&lines);
    s
}

// ---------------------------------------------------------------------- laws

/// A program has no more calls in its target than helpers, and beyond that
/// fan-out makes no difference.
pub proof fn law_fanout_is_capped(n: nat, fanout: nat)
    requires
        fanout >= n,
    ensures
        program_text(n, fanout) == program_text(n, n),
{
}

/// With the fan-out held constant, the target of two programs is the same text
/// however many helpers there are: only the file grows.
pub proof fn law_target_does_not_grow_with_the_program(n: nat, m: nat, fanout: nat)
    requires
        fanout <= n,
        fanout <= m,
    ensures
        target_body(least(fanout, n)) == target_body(least(fanout, m)),
{
}

/// A table line holds its seven columns in the order of the header.
pub proof fn law_table_columns_are_in_order(r: Row, ratios: (Seq<char>, Seq<char>))
    ensures
        csv_line(r, ratios) == text::joined(
            seq![
                text::decimal(r.buckets as nat),
                text::decimal(r.fanout as nat),
                text::decimal(r.file_tokens as nat),
                text::decimal(r.subgraph_tokens as nat),
                text::decimal(r.agent_overhead as nat),
                ratios.0,
                ratios.1,
            ],
            ","@,
        ) + "\n"@,
{
    let a = text::decimal(r.buckets as nat);
    let b = text::decimal(r.fanout as nat);
    let c = text::decimal(r.file_tokens as nat);
    let d = text::decimal(r.subgraph_tokens as nat);
    let e = text::decimal(r.agent_overhead as nat);
    let seven = seq![a, b, c, d, e, ratios.0, ratios.1];
    assert(seven.drop_last() =~= seq![a, b, c, d, e, ratios.0]);
    assert(seq![a, b, c, d, e, ratios.0].drop_last() =~= seq![a, b, c, d, e]);
    assert(seq![a, b, c, d, e].drop_last() =~= seq![a, b, c, d]);
    assert(seq![a, b, c, d].drop_last() =~= seq![a, b, c]);
    assert(seq![a, b, c].drop_last() =~= seq![a, b]);
    assert(seq![a, b].drop_last() =~= seq![a]);
    reveal_with_fuel(text::joined, 8);
}

/// The table has a line for each row, in order.
pub proof fn law_table_has_a_line_for_each_row(
    rows: Seq<Row>,
    ratios: Seq<(Seq<char>, Seq<char>)>,
    k: int,
)
    requires
        0 <= k,
    ensures
        csv_lines(rows, ratios, 0) == Seq::<char>::empty(),
        csv_lines(rows, ratios, k + 1) == csv_lines(rows, ratios, k) + csv_line(rows[k], ratios[k]),
{
}

/// A measured row tells the size of the program, which is its helpers, the target
/// and the entry point; the calls of the target, of which there are no more than
/// helpers; and what was measured.
pub proof fn law_row_tells_what_was_measured(n: usize, fanout: usize, costs: Costs, overhead: usize)
    requires
        n + 2 <= usize::MAX,
    ensures
        ({
            let r = row(n, fanout, costs, overhead);
            &&& r.buckets == n + 2
            &&& r.fanout <= n
            &&& r.fanout <= fanout
            &&& r.fanout == n || r.fanout == fanout
            &&& r.file_tokens == costs.file_tokens
            &&& r.subgraph_tokens == costs.subgraph_tokens
            &&& r.agent_overhead == overhead
        }),
{
}

/// A generated program starts with its target, holds each of its helpers, and
/// ends with the entry point that calls the target.
pub proof fn law_program_holds_its_helpers(n: nat, fanout: nat, i: nat)
    requires
        i < n,
    ensures
        ({
            let t = program_text(n, fanout);
            let chained = i + 1 < n && i < fanout;
            &&& text::starts_with(
                t,
                "price_total(p: Num) -> Num \"total price for two of an item including sales tax\" {\n  "@,
            )
            &&& text::ends_with(
                t,
                "@entry\nmain() -> Num \"checkout total\" {\n  price_total(19.99)\n}\n"@,
            )
            &&& text::contains_text(
                t,
                "helper_"@ + text::decimal(i)
                    + "(x: Num) -> Num \"apply adjustment number "@ + text::decimal(i)
                    + " to a running order total\" {\n  "@ + (if chained {
                    "helper_"@ + text::decimal(i + 1) + "(x) + "@ + text::decimal(i)
                } else {
                    "x + "@ + text::decimal(i) + " * 2 - 1"@
                }) + "\n}\n\n"@,
            )
        }),
{
    let fan = least(fanout, n);
    let t = program_text(n, fanout);
    let head =
        "price_total(p: Num) -> Num \"total price for two of an item including sales tax\" {\n  "@;
    let tail = "@entry\nmain() -> Num \"checkout total\" {\n  price_total(19.99)\n}\n"@;
    let target = target_body(fan) + "\n}\n\n"@;
    let all = helpers(n, n, fan);
    assert(t =~= head + (target + all + tail));
    text::law_parts_of_a_text(Seq::empty(), target + all + tail, head);
    assert(t =~= head + target + all + tail);
    text::law_parts_of_a_text(head + target + all, Seq::empty(), tail);
    let k = lemma_helper_listed(n, n, fan, i);
    let h = helper(i, n, fan);
    let at = (head + target).len() + k;
    assert(t.subrange(at, at + h.len()) =~= all.subrange(k, k + h.len()));
    assert(text::occurs_at(t, h, at));
}

proof fn lemma_helper_listed(k: nat, n: nat, fan: nat, i: nat) -> (at: int)
    requires
        i < k,
    ensures
        text::occurs_at(helpers(k, n, fan), helper(i, n, fan), at),
    decreases k,
{
    let all = helpers(k, n, fan);
    let front = helpers((k - 1) as nat, n, fan);
    let h = helper(i, n, fan);
    if i == k - 1 {
        let at = front.len() as int;
        assert(all.subrange(at, at + h.len()) =~= h);
        at
    } else {
        let at = lemma_helper_listed((k - 1) as nat, n, fan, i);
        assert(all.subrange(at, at + h.len()) =~= front.subrange(at, at + h.len()));
        at
    }
}

/// The target adds up a call of each of its first helpers, in order; without a
/// call it computes a price of its own.
pub proof fn law_target_calls_each_helper(fan: nat)
    ensures
        target_body(0) == "p * 2 * 1.08"@,
        target_body(1) == "helper_"@ + text::decimal(0) + "(p)"@,
        fan > 0 ==> target_body(fan + 1) == target_body(fan) + " + "@ + ("helper_"@
            + text::decimal(fan) + "(p)"@),
{
    assert(helper_calls(1).len() == 1);
    assert(helper_calls(fan + 1).drop_last() =~= helper_calls(fan));
}

} // verus!
