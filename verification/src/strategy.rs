//! How much of the program to send.
//!
//! The experiment needs a control. `WholeFile` is what a conventional coding
//! agent does: paste the file and ask for an edit; `Subgraph` is the bucket
//! neighbourhood. Both feed the *same* system prompt, the *same* schema, and
//! the *same* gates, so a difference in outcome is attributable to the context
//! and nothing else.
//!
//! `Auto` is the dynamic policy: measure both and send whichever is smaller.
//! It exists because the subgraph is *not* always smaller: on a small file the
//! pack's scaffolding costs more than the file it replaces, and pretending
//! otherwise would make the comparison dishonest.

use crate::text;
use vstd::prelude::*;

verus! {

#[derive(Debug, Clone, Copy, PartialEq, Eq, Structural)]
pub enum Strategy {
    /// Send the entire source file. The conventional baseline.
    WholeFile,
    /// Send the target bucket's body plus neighbour signatures and descriptions.
    Subgraph,
    /// Measure both, send the cheaper one.
    Auto,
}

impl Strategy {
    /// The name of a strategy.
    pub open spec fn name(self) -> Seq<char> {
        match self {
            Strategy::WholeFile => "whole_file"@,
            Strategy::Subgraph => "subgraph"@,
            Strategy::Auto => "auto"@,
        }
    }

    pub fn as_str(self) -> (r: &'static str)
        ensures
            r@ == self.name(),
    {
        match self {
            Strategy::WholeFile => "whole_file",
            Strategy::Subgraph => "subgraph",
            Strategy::Auto => "auto",
        }
    }

    /// The strategy that a text names, by its name or another one in use.
    pub open spec fn named(s: Seq<char>) -> Option<Strategy> {
        if s == "whole_file"@ || s == "whole-file"@ || s == "file"@ || s == "classic"@ {
            Some(Strategy::WholeFile)
        } else if s == "subgraph"@ || s == "buckets"@ || s == "bucket"@ {
            Some(Strategy::Subgraph)
        } else if s == "auto"@ {
            Some(Strategy::Auto)
        } else {
            None
        }
    }

    pub fn parse(s: &str) -> (r: Result<Strategy, String>)
        ensures
            match r {
                Ok(strategy) => Strategy::named(s@) == Some(strategy),
                Err(e) => Strategy::named(s@) is None && e@ == "unknown strategy '"@ + s@
                    + "' (expected whole_file, subgraph, or auto)"@,
            },
    {
        if text::same(s, "whole_file") || text::same(s, "whole-file") || text::same(s, "file")
            || text::same(s, "classic") {
            Ok(Strategy::WholeFile)
        } else if text::same(s, "subgraph") || text::same(s, "buckets") || text::same(s, "bucket") {
            Ok(Strategy::Subgraph)
        } else if text::same(s, "auto") {
            Ok(Strategy::Auto)
        } else {
            let mut e = "unknown strategy '".to_owned();
            e.append(s);
            e.append("' (expected whole_file, subgraph, or auto)");
            Err(e)
        }
    }
}

impl std::str::FromStr for Strategy {
    type Err = String;

    fn from_str(s: &str) -> (r: Result<Strategy, String>)
        ensures
            match r {
                Ok(strategy) => Strategy::named(s@) == Some(strategy),
                Err(e) => Strategy::named(s@) is None && e@ == "unknown strategy '"@ + s@
                    + "' (expected whole_file, subgraph, or auto)"@,
            },
    {
        Strategy::parse(s)
    }
}

/// The context to send, plus what it cost and what the alternative would have.
#[derive(Debug, Clone)]
pub struct RenderedContext {
    /// Which strategy actually produced `text`: for `Auto`, the one it chose.
    pub strategy: Strategy,
    pub text: String,
    pub tokens: usize,
    /// Cost of the strategy not taken, so every run reports the comparison
    /// rather than only the arm that ran.
    pub alternative_tokens: usize,
}

/// The context to send, as contracts speak of it.
pub struct RenderedContextView {
    pub strategy: Strategy,
    pub text: Seq<char>,
    pub tokens: usize,
    pub alternative_tokens: usize,
}

impl View for RenderedContext {
    type V = RenderedContextView;

    open spec fn view(&self) -> RenderedContextView {
        RenderedContextView {
            strategy: self.strategy,
            text: self.text@,
            tokens: self.tokens,
            alternative_tokens: self.alternative_tokens,
        }
    }
}

/// A neighbourhood that was rendered and measured.
#[derive(Debug, Clone)]
pub struct Measured {
    pub text: String,
    pub tokens: usize,
}

/// The whole file, with the target named so the model knows what to change.
pub open spec fn file_text(source: Seq<char>, target: Seq<char>) -> Seq<char> {
    "# edit the bucket `"@ + target + "` in this file\n\n"@ + source + "\n"@
}

/// Render the file as a conventional agent would: the whole thing, with the
/// target named so the model knows what to change.
pub fn whole_file(source: &str, target: &str) -> (r: String)
    ensures
        r@ == file_text(source@, target@),
{
    let mut s = "# edit the bucket `".to_owned();
    s.append(target);
    s.append("` in this file\n\n");
    s.append(source);
    s.append("\n");
    s
}

/// The whole file as the context; a neighbourhood that cannot be had counts as
/// nothing.
pub open spec fn by_file(
    source: Seq<char>,
    target: Seq<char>,
    file_tokens: usize,
    sub: Option<Measured>,
) -> RenderedContextView {
    RenderedContextView {
        strategy: Strategy::WholeFile,
        text: file_text(source, target),
        tokens: file_tokens,
        alternative_tokens: match sub {
            Some(m) => m.tokens,
            None => 0,
        },
    }
}

/// The neighbourhood as the context.
pub open spec fn by_subgraph(m: Measured, file_tokens: usize) -> RenderedContextView {
    RenderedContextView {
        strategy: Strategy::Subgraph,
        text: m.text@,
        tokens: m.tokens,
        alternative_tokens: file_tokens,
    }
}

/// The context for one edit under a strategy. `file_tokens` is what the whole
/// file costs; `sub` is the neighbourhood, which can legitimately be missing
/// where the file cannot: for an imported or unknown target.
pub open spec fn context(
    strategy: Strategy,
    source: Seq<char>,
    target: Seq<char>,
    file_tokens: usize,
    sub: Option<Measured>,
) -> Result<RenderedContextView, Seq<char>> {
    match strategy {
        Strategy::WholeFile => Ok(by_file(source, target, file_tokens, sub)),
        Strategy::Subgraph => match sub {
            Some(m) => Ok(by_subgraph(m, file_tokens)),
            None => Err(
                "cannot build a subgraph for "@ + target + "; try --strategy whole_file"@,
            ),
        },
        Strategy::Auto => match sub {
            Some(m) => if m.tokens < file_tokens {
                Ok(by_subgraph(m, file_tokens))
            } else {
                Ok(by_file(source, target, file_tokens, sub))
            },
            None => Ok(by_file(source, target, file_tokens, sub)),
        },
    }
}

/// Build the context for one edit under `strategy`.
pub fn build(
    strategy: Strategy,
    source: &str,
    target: &str,
    file_tokens: usize,
    sub: Option<Measured>,
) -> (r: Result<RenderedContext, String>)
    ensures
        match r {
            Ok(c) => context(strategy, source@, target@, file_tokens, sub) == Ok::<
                RenderedContextView,
                Seq<char>,
            >(c@),
            Err(e) => context(strategy, source@, target@, file_tokens, sub) == Err::<
                RenderedContextView,
                Seq<char>,
            >(e@),
        },
{
    let cheaper = match &sub {
        Some(m) => m.tokens < file_tokens,
        None => false,
    };
    let other: usize = match &sub {
        Some(m) => m.tokens,
        None => 0,
    };
    if strategy == Strategy::Subgraph || (strategy == Strategy::Auto && cheaper) {
        return match sub {
            Some(m) => Ok(
                RenderedContext {
                    strategy: Strategy::Subgraph,
                    text: m.text,
                    tokens: m.tokens,
                    alternative_tokens: file_tokens,
                },
            ),
            None => {
                let mut e = "cannot build a subgraph for ".to_owned();
                e.append(target);
                e.append("; try --strategy whole_file");
                Err(e)
            },
        };
    }
    Ok(
        RenderedContext {
            strategy: Strategy::WholeFile,
            text: whole_file(source, target),
            tokens: file_tokens,
            alternative_tokens: other,
        },
    )
}

// ---------------------------------------------------------------------- laws

/// `Auto` always has a context to send, never costs more than either
/// alternative that exists, and reports which one it took.
pub proof fn law_auto_sends_the_cheaper(
    source: Seq<char>,
    target: Seq<char>,
    file_tokens: usize,
    sub: Option<Measured>,
)
    ensures
        ({
            let r = context(Strategy::Auto, source, target, file_tokens, sub);
            &&& r is Ok
            &&& r->Ok_0.tokens <= file_tokens
            &&& sub matches Some(m) ==> r->Ok_0.tokens <= m.tokens
            &&& r->Ok_0.strategy == Strategy::WholeFile || r->Ok_0.strategy == Strategy::Subgraph
            &&& r == context(r->Ok_0.strategy, source, target, file_tokens, sub)
        }),
{
}

/// Every strategy is known by its own name.
pub proof fn law_strategy_names_read_back(strategy: Strategy)
    ensures
        Strategy::named(strategy.name()) == Some(strategy),
{
    reveal_strlit("whole_file");
    reveal_strlit("whole-file");
    reveal_strlit("file");
    reveal_strlit("classic");
    reveal_strlit("subgraph");
    reveal_strlit("buckets");
    reveal_strlit("bucket");
    reveal_strlit("auto");
    assert("subgraph"@.len() == 8 && "auto"@.len() == 4 && "file"@.len() == 4);
    assert("whole_file"@.len() == 10 && "whole-file"@.len() == 10 && "classic"@.len() == 7);
    assert("buckets"@.len() == 7 && "bucket"@.len() == 6);
    assert("auto"@[0] == 'a' && "file"@[0] == 'f');
}

/// The whole file as context names the bucket and holds the source; the
/// neighbourhood is sent as it was rendered. Each tells its own size and that of
/// the other, and a neighbourhood that cannot be had is refused by name.
pub proof fn law_context_is_what_was_asked_for(
    source: Seq<char>,
    target: Seq<char>,
    file_tokens: usize,
    sub: Option<Measured>,
)
    ensures
        context(Strategy::WholeFile, source, target, file_tokens, sub) matches Ok(c) && {
            &&& c.strategy == Strategy::WholeFile
            &&& c.text == "# edit the bucket `"@ + target + "` in this file\n\n"@ + source + "\n"@
            &&& c.tokens == file_tokens
            &&& sub matches Some(m) ==> c.alternative_tokens == m.tokens
            &&& sub is None ==> c.alternative_tokens == 0
        },
        sub matches Some(m) ==> (context(
            Strategy::Subgraph,
            source,
            target,
            file_tokens,
            sub,
        ) matches Ok(c) && c.strategy == Strategy::Subgraph && c.text == m.text@ && c.tokens
            == m.tokens && c.alternative_tokens == file_tokens),
        sub is None ==> (context(
            Strategy::Subgraph,
            source,
            target,
            file_tokens,
            sub,
        ) matches Err(e) && text::contains_text(e, target)),
        context(Strategy::Auto, source, target, file_tokens, sub) == match sub {
            Some(m) => if m.tokens < file_tokens {
                context(Strategy::Subgraph, source, target, file_tokens, sub)
            } else {
                context(Strategy::WholeFile, source, target, file_tokens, sub)
            },
            None => context(Strategy::WholeFile, source, target, file_tokens, sub),
        },
{
    text::law_parts_of_a_text(
        "cannot build a subgraph for "@,
        "; try --strategy whole_file"@,
        target,
    );
}

/// The names that a strategy goes by, its own and the others, and none besides.
pub proof fn law_names_of_strategies(s: Seq<char>)
    ensures
        Strategy::named(s) == Some(Strategy::WholeFile) <==> s == "whole_file"@ || s
            == "whole-file"@ || s == "file"@ || s == "classic"@,
        Strategy::named(s) == Some(Strategy::Subgraph) <==> s == "subgraph"@ || s == "buckets"@
            || s == "bucket"@,
        Strategy::named(s) == Some(Strategy::Auto) <==> s == "auto"@,
{
    reveal_strlit("whole_file");
    reveal_strlit("whole-file");
    reveal_strlit("file");
    reveal_strlit("classic");
    reveal_strlit("subgraph");
    reveal_strlit("buckets");
    reveal_strlit("bucket");
    reveal_strlit("auto");
    assert("whole_file"@.len() == 10 && "whole-file"@.len() == 10 && "file"@.len() == 4);
    assert("auto"@.len() == 4 && "auto"@[0] == 'a' && "file"@[0] == 'f');
    assert("classic"@.len() == 7 && "classic"@[0] == 'c');
    assert("subgraph"@.len() == 8 && "bucket"@.len() == 6);
    assert("buckets"@.len() == 7 && "buckets"@[0] == 'b');
}

/// What contracts say of a rendered context is what it holds, field by field.
pub proof fn law_contexts_are_read_as_they_are(c: RenderedContext)
    ensures
        c@.strategy == c.strategy && c@.text == c.text@ && c@.tokens == c.tokens
            && c@.alternative_tokens == c.alternative_tokens,
{
}

/// What is said where there is no neighbourhood to send, word for word.
pub proof fn law_missing_neighbourhood_is_told(
    source: Seq<char>,
    target: Seq<char>,
    file_tokens: usize,
)
    ensures
        context(Strategy::Subgraph, source, target, file_tokens, None) == Err::<
            RenderedContextView,
            Seq<char>,
        >("cannot build a subgraph for "@ + target + "; try --strategy whole_file"@),
{
}

} // verus!
