//! Spend limits.
//!
//! A retry loop wired to a paid API is exactly the shape that runs up a bill
//! when something goes wrong. Every limit here is enforced in two places:
//! before a request (would this call take us over?) and after it (did it?). The
//! pre-check matters more: it refuses to *start* a call that could exceed the
//! ceiling, rather than discovering the overspend once it has been paid for.
//!
//! Money is counted exactly. Prices are in US cents per million tokens, so the
//! cost of some tokens is a whole number of microcents (millionths of a cent);
//! a dollar is 100 000 000 of them.

use crate::llm::Usage;
use crate::text;
use vstd::prelude::*;

verus! {

/// A dollar in microcents.
pub const DOLLAR: u64 = 100_000_000;

/// Prices in cents per million tokens, used only to enforce the USD ceiling.
///
/// A stale price here makes the guard *more* conservative or less, so it is
/// checked alongside the token ceilings rather than trusted alone.
#[derive(Debug, Clone, Copy)]
pub struct Pricing {
    pub input_per_mtok: u64,
    pub output_per_mtok: u64,
    pub cache_read_per_mtok: u64,
    pub cache_write_per_mtok: u64,
}

/// The price of input tokens for a model, in cents per million.
pub open spec fn input_price(model: Seq<char>) -> u64 {
    if text::contains_text(model, "haiku"@) {
        100
    } else if text::contains_text(model, "sonnet"@) {
        300
    } else if text::contains_text(model, "fable"@) || text::contains_text(model, "mythos"@) {
        1000
    } else {
        500
    }
}

/// The prices of a model: output bills at five times input, cache reads at a
/// tenth, cache writes at one and a quarter.
pub open spec fn prices(model: Seq<char>) -> Pricing {
    let input = input_price(model);
    Pricing {
        input_per_mtok: input,
        output_per_mtok: (input * 5) as u64,
        cache_read_per_mtok: input / 10,
        cache_write_per_mtok: (input + input / 4) as u64,
    }
}

impl Pricing {
    /// Published rates for the given model, or a deliberately pessimistic
    /// fallback for anything unrecognized so an unknown model cannot slip
    /// under the USD ceiling by being priced at zero.
    pub fn for_model(model: &str) -> (r: Pricing)
        ensures
            r == prices(model@),
    {
        let input: u64 = if text::has_part(model, "haiku") {
            100
        } else if text::has_part(model, "sonnet") {
            300
        } else if text::has_part(model, "fable") || text::has_part(model, "mythos") {
            1000
        } else {
            // Opus tier, and the fallback for anything unknown.
            500
        };
        Pricing {
            input_per_mtok: input,
            output_per_mtok: input * 5,
            cache_read_per_mtok: input / 10,
            cache_write_per_mtok: input + input / 4,
        }
    }
}

/// The ceilings of a run. `max_usd` is in microcents.
#[derive(Debug, Clone, Copy)]
pub struct Budget {
    pub max_requests: u32,
    pub max_input_tokens: u32,
    pub max_output_tokens: u32,
    pub max_usd: u64,
}

impl Default for Budget {
    /// Enough for a handful of edits, not enough to matter if it misbehaves.
    fn default() -> (r: Budget)
        ensures
            r == (Budget {
                max_requests: 8,
                max_input_tokens: 200_000,
                max_output_tokens: 32_000,
                max_usd: DOLLAR,
            }),
    {
        Budget {
            max_requests: 8,
            max_input_tokens: 200_000,
            max_output_tokens: 32_000,
            max_usd: DOLLAR,
        }
    }
}

impl Budget {
    /// A single call, for smoke tests against the live API.
    pub fn one_shot() -> (r: Budget)
        ensures
            r == (Budget {
                max_requests: 1,
                max_input_tokens: 20_000,
                max_output_tokens: 4_000,
                max_usd: DOLLAR / 4,
            }),
    {
        Budget {
            max_requests: 1,
            max_input_tokens: 20_000,
            max_output_tokens: 4_000,
            max_usd: DOLLAR / 4,
        }
    }
}

/// What has been spent. `usd` is in microcents.
#[derive(Debug, Clone, Copy)]
pub struct Spend {
    pub requests: u32,
    pub input_tokens: u32,
    pub output_tokens: u32,
    pub cache_read_tokens: u32,
    pub cache_write_tokens: u32,
    pub usd: u64,
}

/// Nothing spent.
pub open spec fn no_spend() -> Spend {
    Spend {
        requests: 0,
        input_tokens: 0,
        output_tokens: 0,
        cache_read_tokens: 0,
        cache_write_tokens: 0,
        usd: 0,
    }
}

impl Default for Spend {
    fn default() -> (r: Spend)
        ensures
            r == no_spend(),
    {
        Spend {
            requests: 0,
            input_tokens: 0,
            output_tokens: 0,
            cache_read_tokens: 0,
            cache_write_tokens: 0,
            usd: 0,
        }
    }
}

/// The cost of some tokens in microcents.
pub open spec fn cost_of_tokens(
    input: int,
    output: int,
    cache_read: int,
    cache_write: int,
    p: Pricing,
) -> int {
    input * p.input_per_mtok + output * p.output_per_mtok + cache_read * p.cache_read_per_mtok
        + cache_write * p.cache_write_per_mtok
}

/// The cost of one response in microcents.
pub open spec fn cost_of(u: Usage, p: Pricing) -> int {
    cost_of_tokens(
        u.input_tokens as int,
        u.output_tokens as int,
        u.cache_read_input_tokens as int,
        u.cache_creation_input_tokens as int,
        p,
    )
}

/// The cost of a request before it is made, with every token at full price.
pub open spec fn projected_cost(input: u32, output: u32, p: Pricing) -> int {
    input * p.input_per_mtok + output * p.output_per_mtok
}

/// No price is above a thousand dollars per million tokens.
pub open spec fn plausible(p: Pricing) -> bool {
    &&& p.input_per_mtok <= 100_000
    &&& p.output_per_mtok <= 100_000
    &&& p.cache_read_per_mtok <= 100_000
    &&& p.cache_write_per_mtok <= 100_000
}

fn cost(usage: &Usage, p: Pricing) -> (r: u64)
    requires
        cost_of(*usage, p) <= u64::MAX,
    ensures
        r == cost_of(*usage, p),
{
    proof {
        lemma_product_nonnegative(usage.input_tokens as int, p.input_per_mtok as int);
        lemma_product_nonnegative(usage.output_tokens as int, p.output_per_mtok as int);
        lemma_product_nonnegative(
            usage.cache_read_input_tokens as int,
            p.cache_read_per_mtok as int,
        );
        lemma_product_nonnegative(
            usage.cache_creation_input_tokens as int,
            p.cache_write_per_mtok as int,
        );
    }
    usage.input_tokens as u64 * p.input_per_mtok + usage.output_tokens as u64 * p.output_per_mtok
        + usage.cache_read_input_tokens as u64 * p.cache_read_per_mtok
        + usage.cache_creation_input_tokens as u64 * p.cache_write_per_mtok
}

proof fn lemma_product_nonnegative(tokens: int, price: int)
    requires
        0 <= tokens,
        0 <= price,
    ensures
        0 <= tokens * price,
{
    assert(0 <= tokens * price) by (nonlinear_arith)
        requires
            0 <= tokens,
            0 <= price,
    ;
}

proof fn lemma_product_bound(tokens: int, price: int)
    requires
        0 <= tokens <= 0xffff_ffff,
        0 <= price <= 100_000,
    ensures
        0 <= tokens * price <= 0xffff_ffff * 100_000,
{
    assert(0 <= tokens * price <= 0xffff_ffff * 100_000) by (nonlinear_arith)
        requires
            0 <= tokens <= 0xffff_ffff,
            0 <= price <= 100_000,
    ;
}

impl Spend {
    /// The counters have room for one more response.
    pub open spec fn room_for(self, u: Usage) -> bool {
        &&& self.requests + 1 <= u32::MAX
        &&& self.input_tokens + u.input_tokens <= u32::MAX
        &&& self.output_tokens + u.output_tokens <= u32::MAX
        &&& self.cache_read_tokens + u.cache_read_input_tokens <= u32::MAX
        &&& self.cache_write_tokens + u.cache_creation_input_tokens <= u32::MAX
    }

    /// What is spent after one more response.
    pub open spec fn plus(self, u: Usage, p: Pricing) -> Spend {
        Spend {
            requests: (self.requests + 1) as u32,
            input_tokens: (self.input_tokens + u.input_tokens) as u32,
            output_tokens: (self.output_tokens + u.output_tokens) as u32,
            cache_read_tokens: (self.cache_read_tokens + u.cache_read_input_tokens) as u32,
            cache_write_tokens: (self.cache_write_tokens + u.cache_creation_input_tokens) as u32,
            usd: (self.usd + cost_of(u, p)) as u64,
        }
    }

    /// The money is what the tokens cost.
    pub open spec fn adds_up(self, p: Pricing) -> bool {
        self.usd == cost_of_tokens(
            self.input_tokens as int,
            self.output_tokens as int,
            self.cache_read_tokens as int,
            self.cache_write_tokens as int,
            p,
        )
    }

    /// Whether the counters have room for one more response.
    pub fn has_room_for(&self, usage: &Usage) -> (r: bool)
        ensures
            r == self.room_for(*usage),
    {
        self.requests < u32::MAX && self.input_tokens <= u32::MAX - usage.input_tokens
            && self.output_tokens <= u32::MAX - usage.output_tokens && self.cache_read_tokens
            <= u32::MAX - usage.cache_read_input_tokens && self.cache_write_tokens <= u32::MAX
            - usage.cache_creation_input_tokens
    }

    pub fn record(&mut self, usage: &Usage, pricing: Pricing)
        requires
            old(self).room_for(*usage),
            old(self).usd + cost_of(*usage, pricing) <= u64::MAX,
        ensures
            *final(self) == old(self).plus(*usage, pricing),
            final(self).usd == old(self).usd + cost_of(*usage, pricing),
            old(self).adds_up(pricing) ==> final(self).adds_up(pricing),
    {
        let c: u64 = cost(usage, pricing);
        self.requests = self.requests + 1;
        self.input_tokens = self.input_tokens + usage.input_tokens;
        self.output_tokens = self.output_tokens + usage.output_tokens;
        self.cache_read_tokens = self.cache_read_tokens + usage.cache_read_input_tokens;
        self.cache_write_tokens = self.cache_write_tokens + usage.cache_creation_input_tokens;
        self.usd = self.usd + c;
        proof {
            lemma_cost_adds(*old(self), *usage, pricing);
        }
    }

    pub fn summary(&self) -> (r: String)
        ensures
            r@ == spend_summary(*self),
    {
        let mut s = text::decimal_of(self.requests as u64);
        s.append(" request(s), ");
        s.append(&text::decimal_of(self.input_tokens as u64));
        s.append(" in / ");
        s.append(&text::decimal_of(self.output_tokens as u64));
        s.append(" out tokens (");
        s.append(&text::decimal_of(self.cache_read_tokens as u64));
        s.append(" cached), $");
        s.append(&dollars_of(self.usd));
        s
    }
}

/// The cost of two responses together is the sum of their costs.
proof fn lemma_cost_adds(s: Spend, u: Usage, p: Pricing)
    ensures
        cost_of_tokens(
            s.input_tokens + u.input_tokens,
            s.output_tokens + u.output_tokens,
            s.cache_read_tokens + u.cache_read_input_tokens,
            s.cache_write_tokens + u.cache_creation_input_tokens,
            p,
        ) == cost_of_tokens(
            s.input_tokens as int,
            s.output_tokens as int,
            s.cache_read_tokens as int,
            s.cache_write_tokens as int,
            p,
        ) + cost_of(u, p),
{
    lemma_distribute(s.input_tokens as int, u.input_tokens as int, p.input_per_mtok as int);
    lemma_distribute(s.output_tokens as int, u.output_tokens as int, p.output_per_mtok as int);
    lemma_distribute(
        s.cache_read_tokens as int,
        u.cache_read_input_tokens as int,
        p.cache_read_per_mtok as int,
    );
    lemma_distribute(
        s.cache_write_tokens as int,
        u.cache_creation_input_tokens as int,
        p.cache_write_per_mtok as int,
    );
}

proof fn lemma_distribute(a: int, b: int, p: int)
    ensures
        (a + b) * p == a * p + b * p,
{
    assert((a + b) * p == a * p + b * p) by (nonlinear_arith);
}

/// The line that reports a spend.
pub open spec fn spend_summary(s: Spend) -> Seq<char> {
    text::decimal(s.requests as nat) + " request(s), "@ + text::decimal(s.input_tokens as nat) + " in / "@
        + text::decimal(s.output_tokens as nat) + " out tokens ("@ + text::decimal(s.cache_read_tokens as nat)
        + " cached), $"@ + dollars(s.usd as nat)
}

/// Microcents as dollars with four decimals, rounded to the nearest; half of
/// the last digit rounds up.
pub open spec fn dollars(microcents: nat) -> Seq<char> {
    let n = (microcents + 5_000) / 10_000;
    text::decimal(n / 10_000) + "."@ + seq![
        text::digit(n / 1_000 % 10),
        text::digit(n / 100 % 10),
        text::digit(n / 10 % 10),
        text::digit(n % 10),
    ]
}

pub fn dollars_of(microcents: u64) -> (r: String)
    ensures
        r@ == dollars(microcents as nat),
{
    let up: u64 = if microcents % 10_000 >= 5_000 {
        1
    } else {
        0
    };
    let n: u64 = microcents / 10_000 + up;
    assert(n == (microcents + 5_000) / 10_000);
    let mut s = text::decimal_of(n / 10_000);
    s.append(".");
    let ghost head = s@;
    let d: [u64; 4] = [n / 1_000 % 10, n / 100 % 10, n / 10 % 10, n % 10];
    let mut i: usize = 0;
    while i < 4
        invariant
            i <= 4,
            d@ == seq![
                (n / 1_000 % 10) as u64,
                (n / 100 % 10) as u64,
                (n / 10 % 10) as u64,
                (n % 10) as u64,
            ],
            s@ == head + Seq::new(i as nat, |k: int| text::digit(d@[k] as nat)),
        decreases 4 - i,
    {
        let ghost was = s@;
        s.push(text::digit_of(d[i]));
        i = i + 1;
        assert(s@ =~= head + Seq::new(i as nat, |k: int| text::digit(d@[k] as nat)));
    }
    assert(Seq::new(4, |k: int| text::digit(d@[k] as nat)) =~= seq![
        text::digit((n / 1_000 % 10) as nat),
        text::digit((n / 100 % 10) as nat),
        text::digit((n / 10 % 10) as nat),
        text::digit((n % 10) as nat),
    ]);
    s
}

/// The ceiling that a run would cross, or has crossed.
#[derive(Debug, Clone, Copy, PartialEq, Eq, Structural)]
pub enum LimitHit {
    Requests,
    InputTokens,
    OutputTokens,
    Usd,
}

impl LimitHit {
    /// The limit in words.
    pub open spec fn words(self) -> Seq<char> {
        match self {
            LimitHit::Requests => "request count"@,
            LimitHit::InputTokens => "input tokens"@,
            LimitHit::OutputTokens => "output tokens"@,
            LimitHit::Usd => "estimated spend"@,
        }
    }

    pub fn describe(&self) -> (r: String)
        ensures
            r@ == self.words(),
    {
        match self {
            LimitHit::Requests => "request count".to_owned(),
            LimitHit::InputTokens => "input tokens".to_owned(),
            LimitHit::OutputTokens => "output tokens".to_owned(),
            LimitHit::Usd => "estimated spend".to_owned(),
        }
    }
}

/// The first ceiling of `b` that the given totals are above.
pub open spec fn first_over(
    b: Budget,
    requests: int,
    input: int,
    output: int,
    usd: int,
) -> Result<(), LimitHit> {
    if requests > b.max_requests {
        Err(LimitHit::Requests)
    } else if input > b.max_input_tokens {
        Err(LimitHit::InputTokens)
    } else if output > b.max_output_tokens {
        Err(LimitHit::OutputTokens)
    } else if usd > b.max_usd {
        Err(LimitHit::Usd)
    } else {
        Ok(())
    }
}

/// Whether a request of that size may be made: the totals it would lead to,
/// every token at full price, against the ceilings.
pub open spec fn admits(b: Budget, p: Pricing, s: Spend, input: u32, output: u32) -> Result<
    (),
    LimitHit,
> {
    first_over(
        b,
        s.requests + 1,
        s.input_tokens + input,
        s.output_tokens + output,
        s.usd + projected_cost(input, output, p),
    )
}

/// The ceiling that a spend is over, if any.
pub open spec fn exceeded(b: Budget, s: Spend) -> Result<(), LimitHit> {
    first_over(
        b,
        s.requests as int,
        s.input_tokens as int,
        s.output_tokens as int,
        s.usd as int,
    )
}

/// Tracks spend against a budget and refuses to go over.
#[derive(Debug, Clone, Copy)]
pub struct Guard {
    budget: Budget,
    pricing: Pricing,
    spend: Spend,
}

impl Guard {
    pub closed spec fn limits(self) -> Budget {
        self.budget
    }

    pub closed spec fn rates(self) -> Pricing {
        self.pricing
    }

    pub closed spec fn spent(self) -> Spend {
        self.spend
    }

    /// The money spent is exactly what the tokens spent cost.
    pub open spec fn wf(self) -> bool {
        &&& plausible(self.rates())
        &&& self.spent().adds_up(self.rates())
    }

    pub fn new(budget: Budget, model: &str) -> (r: Guard)
        ensures
            r.wf(),
            r.limits() == budget,
            r.rates() == prices(model@),
            r.spent() == no_spend(),
    {
        Guard { budget, pricing: Pricing::for_model(model), spend: Spend::default() }
    }

    pub fn spend(&self) -> (r: &Spend)
        ensures
            *r == self.spent(),
    {
        &self.spend
    }

    pub fn budget(&self) -> (r: &Budget)
        ensures
            *r == self.limits(),
    {
        &self.budget
    }

    /// Check before issuing a request.
    ///
    /// `projected_input` is the size of the prompt about to be sent; the
    /// projected output is the configured `max_tokens`, since that is the most
    /// the call can produce. Both are counted at full price: a pre-check that
    /// assumed a cache hit would let a cold call cross the ceiling.
    pub fn check_before(&self, projected_input: u32, projected_output: u32) -> (r: Result<
        (),
        LimitHit,
    >)
        requires
            self.wf(),
        ensures
            r == admits(
                self.limits(),
                self.rates(),
                self.spent(),
                projected_input,
                projected_output,
            ),
    {
        if self.spend.requests as u64 + 1 > self.budget.max_requests as u64 {
            return Err(LimitHit::Requests);
        }
        if self.spend.input_tokens as u64 + projected_input as u64
            > self.budget.max_input_tokens as u64 {
            return Err(LimitHit::InputTokens);
        }
        if self.spend.output_tokens as u64 + projected_output as u64
            > self.budget.max_output_tokens as u64 {
            return Err(LimitHit::OutputTokens);
        }
        proof {
            lemma_spend_bound(self.spend, self.pricing);
            lemma_product_bound(projected_input as int, self.pricing.input_per_mtok as int);
            lemma_product_bound(projected_output as int, self.pricing.output_per_mtok as int);
        }
        let projected_usd: u64 = self.spend.usd + projected_input as u64
            * self.pricing.input_per_mtok + projected_output as u64 * self.pricing.output_per_mtok;
        if projected_usd > self.budget.max_usd {
            return Err(LimitHit::Usd);
        }
        Ok(())
    }

    /// Record actual usage after a response, and report whether that call put
    /// us over. The call already happened, so this stops the *next* one.
    pub fn record(&mut self, usage: &Usage) -> (r: Result<(), LimitHit>)
        requires
            old(self).wf(),
            old(self).spent().room_for(*usage),
        ensures
            final(self).wf(),
            final(self).limits() == old(self).limits(),
            final(self).rates() == old(self).rates(),
            final(self).spent() == old(self).spent().plus(*usage, old(self).rates()),
            final(self).spent().usd == old(self).spent().usd + cost_of(*usage, old(self).rates()),
            r == exceeded(final(self).limits(), final(self).spent()),
    {
        proof {
            lemma_spend_bound(self.spend, self.pricing);
            lemma_usage_bound(*usage, self.pricing);
        }
        let p = self.pricing;
        self.spend.record(usage, p);
        if self.spend.requests > self.budget.max_requests {
            return Err(LimitHit::Requests);
        }
        if self.spend.input_tokens > self.budget.max_input_tokens {
            return Err(LimitHit::InputTokens);
        }
        if self.spend.output_tokens > self.budget.max_output_tokens {
            return Err(LimitHit::OutputTokens);
        }
        if self.spend.usd > self.budget.max_usd {
            return Err(LimitHit::Usd);
        }
        Ok(())
    }
}

proof fn lemma_spend_bound(s: Spend, p: Pricing)
    requires
        plausible(p),
        s.adds_up(p),
    ensures
        s.usd <= 4 * 0xffff_ffff * 100_000,
{
    lemma_product_bound(s.input_tokens as int, p.input_per_mtok as int);
    lemma_product_bound(s.output_tokens as int, p.output_per_mtok as int);
    lemma_product_bound(s.cache_read_tokens as int, p.cache_read_per_mtok as int);
    lemma_product_bound(s.cache_write_tokens as int, p.cache_write_per_mtok as int);
}

proof fn lemma_usage_bound(u: Usage, p: Pricing)
    requires
        plausible(p),
    ensures
        0 <= cost_of(u, p) <= 4 * 0xffff_ffff * 100_000,
{
    lemma_product_bound(u.input_tokens as int, p.input_per_mtok as int);
    lemma_product_bound(u.output_tokens as int, p.output_per_mtok as int);
    lemma_product_bound(u.cache_read_input_tokens as int, p.cache_read_per_mtok as int);
    lemma_product_bound(u.cache_creation_input_tokens as int, p.cache_write_per_mtok as int);
}

// ---------------------------------------------------------------------- laws

/// The ceiling is enforced before the money is spent: when the pre-check admits
/// a request, and the response stays within what was projected, in tokens and
/// in cost, then recording it crosses no ceiling.
pub proof fn law_admitted_request_stays_within_budget(
    b: Budget,
    p: Pricing,
    s: Spend,
    input: u32,
    output: u32,
    u: Usage,
)
    requires
        admits(b, p, s, input, output) is Ok,
        s.room_for(u),
        u.input_tokens <= input,
        u.output_tokens <= output,
        0 <= cost_of(u, p) <= projected_cost(input, output, p),
        s.usd + cost_of(u, p) <= u64::MAX,
    ensures
        exceeded(b, s.plus(u, p)) is Ok,
{
}

/// Where cache reads are no dearer than input and nothing is written to the
/// cache, a response to a prompt of the projected size costs no more than was
/// projected, however much of the prompt came out of the cache.
pub proof fn law_projection_bounds_cost(p: Pricing, input: u32, output: u32, u: Usage)
    requires
        p.cache_read_per_mtok <= p.input_per_mtok,
        u.input_tokens + u.cache_read_input_tokens <= input,
        u.output_tokens <= output,
        u.cache_creation_input_tokens == 0,
    ensures
        0 <= cost_of(u, p) <= projected_cost(input, output, p),
{
    let a = u.input_tokens as int;
    let b = u.cache_read_input_tokens as int;
    assert(0 <= a * p.input_per_mtok + b * p.cache_read_per_mtok <= input * p.input_per_mtok)
        by (nonlinear_arith)
        requires
            0 <= a,
            0 <= b,
            a + b <= input,
            0 <= p.cache_read_per_mtok <= p.input_per_mtok,
    ;
    assert(0 <= u.output_tokens * p.output_per_mtok <= output * p.output_per_mtok)
        by (nonlinear_arith)
        requires
            0 <= u.output_tokens <= output,
            0 <= p.output_per_mtok,
    ;
    assert(0 * p.cache_write_per_mtok == 0) by (nonlinear_arith);
}

/// Once a ceiling is crossed every later request is refused, whatever its size.
pub proof fn law_exceeded_budget_admits_nothing(b: Budget, p: Pricing, s: Spend, input: u32, output: u32)
    requires
        exceeded(b, s) is Err,
    ensures
        admits(b, p, s, input, output) is Err,
{
    assert(input * p.input_per_mtok >= 0) by (nonlinear_arith)
        requires
            input >= 0,
            p.input_per_mtok >= 0,
    ;
    assert(output * p.output_per_mtok >= 0) by (nonlinear_arith)
        requires
            output >= 0,
            p.output_per_mtok >= 0,
    ;
}

/// No model is priced at zero, cache reads are never dearer than input, output
/// bills at five times input, and a model whose name says nothing is priced no
/// lower than the haiku and sonnet tiers.
pub proof fn law_no_model_is_free(model: Seq<char>, known: Seq<char>)
    ensures
        prices(model).input_per_mtok > 0,
        prices(model).output_per_mtok > 0,
        prices(model).cache_read_per_mtok > 0,
        prices(model).cache_write_per_mtok > 0,
        plausible(prices(model)),
        prices(model).cache_read_per_mtok <= prices(model).input_per_mtok,
        prices(model).output_per_mtok == 5 * prices(model).input_per_mtok,
        !text::contains_text(model, "haiku"@) && !text::contains_text(model, "sonnet"@) && (text::contains_text(
            known,
            "haiku"@,
        ) || text::contains_text(known, "sonnet"@)) ==> prices(model).input_per_mtok >= prices(
            known,
        ).input_per_mtok && prices(model).output_per_mtok >= prices(known).output_per_mtok,
{
}

/// The price list: input bills by the tier that the model's name tells, output
/// at five times that, a cache read at a tenth and a cache write at one and a
/// quarter.
pub proof fn law_price_list(model: Seq<char>)
    ensures
        ({
            let p = prices(model);
            let haiku = text::contains_text(model, "haiku"@);
            let sonnet = text::contains_text(model, "sonnet"@);
            let large = text::contains_text(model, "fable"@) || text::contains_text(
                model,
                "mythos"@,
            );
            &&& haiku ==> p.input_per_mtok == 100
            &&& !haiku && sonnet ==> p.input_per_mtok == 300
            &&& !haiku && !sonnet && large ==> p.input_per_mtok == 1000
            &&& !haiku && !sonnet && !large ==> p.input_per_mtok == 500
            &&& p.output_per_mtok == 5 * p.input_per_mtok
            &&& 10 * p.cache_read_per_mtok == p.input_per_mtok
            &&& 4 * p.cache_write_per_mtok == 5 * p.input_per_mtok
        }),
{
}

/// Each token costs its own price: one more of a kind adds the price of that
/// kind, whatever else was used, and nothing used costs nothing.
pub proof fn law_each_token_costs_its_price(u: Usage, v: Usage, p: Pricing)
    ensures
        u.input_tokens == v.input_tokens + 1 && u.output_tokens == v.output_tokens
            && u.cache_read_input_tokens == v.cache_read_input_tokens
            && u.cache_creation_input_tokens == v.cache_creation_input_tokens ==> cost_of(u, p)
            == cost_of(v, p) + p.input_per_mtok,
        u.input_tokens == v.input_tokens && u.output_tokens == v.output_tokens + 1
            && u.cache_read_input_tokens == v.cache_read_input_tokens
            && u.cache_creation_input_tokens == v.cache_creation_input_tokens ==> cost_of(u, p)
            == cost_of(v, p) + p.output_per_mtok,
        u.input_tokens == v.input_tokens && u.output_tokens == v.output_tokens
            && u.cache_read_input_tokens == v.cache_read_input_tokens + 1
            && u.cache_creation_input_tokens == v.cache_creation_input_tokens ==> cost_of(u, p)
            == cost_of(v, p) + p.cache_read_per_mtok,
        u.input_tokens == v.input_tokens && u.output_tokens == v.output_tokens
            && u.cache_read_input_tokens == v.cache_read_input_tokens
            && u.cache_creation_input_tokens == v.cache_creation_input_tokens + 1 ==> cost_of(u, p)
            == cost_of(v, p) + p.cache_write_per_mtok,
        u.input_tokens == 0 && u.output_tokens == 0 && u.cache_read_input_tokens == 0
            && u.cache_creation_input_tokens == 0 ==> cost_of(u, p) == 0,
{
    lemma_one_more(v.input_tokens as int, p.input_per_mtok as int);
    lemma_one_more(v.output_tokens as int, p.output_per_mtok as int);
    lemma_one_more(v.cache_read_input_tokens as int, p.cache_read_per_mtok as int);
    lemma_one_more(v.cache_creation_input_tokens as int, p.cache_write_per_mtok as int);
}

proof fn lemma_one_more(n: int, price: int)
    ensures
        (n + 1) * price == n * price + price,
        0 * price == 0,
{
    assert((n + 1) * price == n * price + price) by (nonlinear_arith);
}

/// Recording a response adds one request, each count to its own total, and its
/// cost to the spend.
pub proof fn law_recording_adds_up(s: Spend, u: Usage, p: Pricing)
    requires
        s.room_for(u),
        0 <= s.usd + cost_of(u, p) <= u64::MAX,
    ensures
        ({
            let t = s.plus(u, p);
            &&& t.requests == s.requests + 1
            &&& t.input_tokens == s.input_tokens + u.input_tokens
            &&& t.output_tokens == s.output_tokens + u.output_tokens
            &&& t.cache_read_tokens == s.cache_read_tokens + u.cache_read_input_tokens
            &&& t.cache_write_tokens == s.cache_write_tokens + u.cache_creation_input_tokens
            &&& t.usd == s.usd + cost_of(u, p)
        }),
        no_spend().requests == 0 && no_spend().input_tokens == 0 && no_spend().output_tokens == 0
            && no_spend().cache_read_tokens == 0 && no_spend().cache_write_tokens == 0
            && no_spend().usd == 0,
{
}

/// A request is admitted exactly when with it no ceiling is passed: one request
/// more, the projected input and output more, and what they cost. The limit that
/// is told is the first that would be passed, in the order requests, input,
/// output, spend.
pub proof fn law_admission_checks_every_ceiling(
    b: Budget,
    p: Pricing,
    s: Spend,
    input: u32,
    output: u32,
)
    ensures
        ({
            let requests = s.requests + 1 <= b.max_requests;
            let tokens_in = s.input_tokens + input <= b.max_input_tokens;
            let tokens_out = s.output_tokens + output <= b.max_output_tokens;
            let money = s.usd + input * p.input_per_mtok + output * p.output_per_mtok <= b.max_usd;
            let r = admits(b, p, s, input, output);
            &&& r is Ok <==> requests && tokens_in && tokens_out && money
            &&& !requests ==> r == Err::<(), LimitHit>(LimitHit::Requests)
            &&& requests && !tokens_in ==> r == Err::<(), LimitHit>(LimitHit::InputTokens)
            &&& requests && tokens_in && !tokens_out ==> r == Err::<(), LimitHit>(
                LimitHit::OutputTokens,
            )
            &&& requests && tokens_in && tokens_out && !money ==> r == Err::<(), LimitHit>(
                LimitHit::Usd,
            )
        }),
{
}

/// A budget is exceeded exactly when some total is past its ceiling; the first
/// such total is told.
pub proof fn law_exceeding_names_the_first_ceiling(b: Budget, s: Spend)
    ensures
        ({
            let r = exceeded(b, s);
            &&& r is Ok <==> s.requests <= b.max_requests && s.input_tokens <= b.max_input_tokens
                && s.output_tokens <= b.max_output_tokens && s.usd <= b.max_usd
            &&& r == Err::<(), LimitHit>(LimitHit::Requests) <==> s.requests > b.max_requests
            &&& r == Err::<(), LimitHit>(LimitHit::InputTokens) <==> s.requests <= b.max_requests
                && s.input_tokens > b.max_input_tokens
            &&& r == Err::<(), LimitHit>(LimitHit::OutputTokens) <==> s.requests
                <= b.max_requests && s.input_tokens <= b.max_input_tokens && s.output_tokens
                > b.max_output_tokens
        }),
{
}

/// An amount is written in dollars with four digits behind the point: read as a
/// number of hundredths of a cent it is the amount, rounded to the nearest, and
/// up from the middle.
pub proof fn law_dollars_read_back(microcents: nat)
    ensures
        exists|whole: Seq<char>, part: Seq<char>|
            {
                &&& dollars(microcents) == #[trigger] (whole + "."@ + part)
                &&& part.len() == 4
                &&& text::all_digits(whole)
                &&& text::all_digits(part)
                &&& ({
                    let n = 10_000 * text::number(whole) + text::number(part);
                    10_000 * n <= microcents + 5_000 < 10_000 * (n + 1)
                })
            },
{
    let n = (microcents + 5_000) / 10_000;
    let whole = text::decimal(n / 10_000);
    let part = seq![
        text::digit(n / 1_000 % 10),
        text::digit(n / 100 % 10),
        text::digit(n / 10 % 10),
        text::digit(n % 10),
    ];
    text::law_decimal_reads_back(n / 10_000);
    lemma_four_digits(n / 1_000 % 10, n / 100 % 10, n / 10 % 10, n % 10);
    lemma_places(n);
    assert(dollars(microcents) == whole + "."@ + part);
    assert(10_000 * text::number(whole) + text::number(part) == n);
    lemma_rounding(microcents);
}

proof fn lemma_places(n: nat)
    ensures
        n == 10_000 * (n / 10_000) + 1_000 * (n / 1_000 % 10) + 100 * (n / 100 % 10) + 10 * (n / 10
            % 10) + n % 10,
{
    assert(n / 100 == n / 10 / 10);
    assert(n / 1_000 == n / 100 / 10);
    assert(n / 10_000 == n / 1_000 / 10);
}

proof fn lemma_rounding(microcents: nat)
    ensures
        ({
            let n = (microcents + 5_000) / 10_000;
            10_000 * n <= microcents + 5_000 < 10_000 * (n + 1)
        }),
{
}

proof fn lemma_four_digits(a: nat, b: nat, c: nat, d: nat)
    requires
        a < 10,
        b < 10,
        c < 10,
        d < 10,
    ensures
        ({
            let s = seq![text::digit(a), text::digit(b), text::digit(c), text::digit(d)];
            &&& text::all_digits(s)
            &&& text::number(s) == 1_000 * a + 100 * b + 10 * c + d
        }),
{
    let s = seq![text::digit(a), text::digit(b), text::digit(c), text::digit(d)];
    assert(s[0] == text::digit(a) && s[1] == text::digit(b) && s[2] == text::digit(c) && s[3]
        == text::digit(d));
    lemma_digit(a);
    lemma_digit(b);
    lemma_digit(c);
    lemma_digit(d);
    assert(text::all_digits(s));
    let three = s.drop_last();
    let two = three.drop_last();
    let one = two.drop_last();
    assert(three.last() == s[2] && two.last() == s[1] && one.last() == s[0]);
    assert(one.drop_last().len() == 0);
    assert(text::number(one.drop_last()) == 0);
    assert(text::number(one) == a);
    assert(text::number(two) == 10 * a + b);
    assert(text::number(three) == 100 * a + 10 * b + c);
}

proof fn lemma_digit(d: nat)
    requires
        d < 10,
    ensures
        text::digit_value(text::digit(d)) == d,
{
}

/// A summary tells requests, input, output and cached tokens, each before its
/// own name, and the spend in dollars.
pub proof fn law_summary_tells_each_total(s: Spend)
    ensures
        spend_summary(s) == text::decimal(s.requests as nat) + " request(s), "@ + text::decimal(
            s.input_tokens as nat,
        ) + " in / "@ + text::decimal(s.output_tokens as nat) + " out tokens ("@ + text::decimal(
            s.cache_read_tokens as nat,
        ) + " cached), $"@ + dollars(s.usd as nat),
        LimitHit::Requests.words() == "request count"@,
        LimitHit::InputTokens.words() == "input tokens"@,
        LimitHit::OutputTokens.words() == "output tokens"@,
        LimitHit::Usd.words() == "estimated spend"@,
{
}

/// There is room for a response exactly when none of the totals would overflow.
pub proof fn law_room_is_for_what_fits(s: Spend, u: Usage)
    ensures
        s.room_for(u) <==> s.requests < 0xffff_ffff && s.input_tokens + u.input_tokens
            <= 0xffff_ffff && s.output_tokens + u.output_tokens <= 0xffff_ffff
            && s.cache_read_tokens + u.cache_read_input_tokens <= 0xffff_ffff
            && s.cache_write_tokens + u.cache_creation_input_tokens <= 0xffff_ffff,
        DOLLAR == 100_000_000,
{
}

/// A guard's spend is never anything but what its tokens cost: each total times
/// its own price, all four together.
pub proof fn law_spend_is_what_the_tokens_cost(g: Guard)
    requires
        g.wf(),
    ensures
        g.spent().usd == g.spent().input_tokens * g.rates().input_per_mtok
            + g.spent().output_tokens * g.rates().output_per_mtok + g.spent().cache_read_tokens
            * g.rates().cache_read_per_mtok + g.spent().cache_write_tokens
            * g.rates().cache_write_per_mtok,
{
}

/// Recording keeps the spend equal to what the tokens cost.
pub proof fn law_recording_keeps_the_sum(s: Spend, u: Usage, p: Pricing)
    requires
        s.usd == s.input_tokens * p.input_per_mtok + s.output_tokens * p.output_per_mtok
            + s.cache_read_tokens * p.cache_read_per_mtok + s.cache_write_tokens
            * p.cache_write_per_mtok,
        s.room_for(u),
        0 <= s.usd + cost_of(u, p) <= u64::MAX,
    ensures
        ({
            let t = s.plus(u, p);
            t.usd == t.input_tokens * p.input_per_mtok + t.output_tokens * p.output_per_mtok
                + t.cache_read_tokens * p.cache_read_per_mtok + t.cache_write_tokens
                * p.cache_write_per_mtok
        }),
{
    lemma_sum_of_products(
        s.input_tokens as int,
        u.input_tokens as int,
        p.input_per_mtok as int,
    );
    lemma_sum_of_products(
        s.output_tokens as int,
        u.output_tokens as int,
        p.output_per_mtok as int,
    );
    lemma_sum_of_products(
        s.cache_read_tokens as int,
        u.cache_read_input_tokens as int,
        p.cache_read_per_mtok as int,
    );
    lemma_sum_of_products(
        s.cache_write_tokens as int,
        u.cache_creation_input_tokens as int,
        p.cache_write_per_mtok as int,
    );
}

proof fn lemma_sum_of_products(a: int, b: int, price: int)
    ensures
        (a + b) * price == a * price + b * price,
{
    assert((a + b) * price == a * price + b * price) by (nonlinear_arith);
}

} // verus!
