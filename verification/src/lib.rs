//! An agentic coding harness for bucketlang.
//!
//! Conventional coding agents send a file and ask for a rewrite. This one gives
//! the model a map of the program, every bucket's address, contract, and English
//! description, and lets it pull in only what it decides it needs. Every change
//! goes through deterministic gates before it is taken over.
//!
//! The pieces:
//!
//! - [`index`]: English in, bucket addresses out. The step that decides *what*
//!   to edit, matched against descriptions.
//! - [`strategy`]: how much to send: the whole file (the conventional
//!   baseline), the subgraph, or whichever is cheaper.
//! - [`prompt`]: what the model is told, including why descriptions are the
//!   index and must be rewritten with every edit.
//! - [`llm`]: the requests to the Anthropic Messages API and what its answers
//!   mean.
//! - [`budget`]: hard spend ceilings, checked before a call is made.
//! - [`agent`]: the session: turns, tool calls, and what a run came to. Its
//!   tools are described in [`toolset`] and carried out by [`dispatch`], on the
//!   model of a compiled [`program`], with the cuts of [`surgery`] and the
//!   verdicts of [`gate`].
//! - [`sandbox`]: the guards on files and commands.
//! - [`serve`]: a local web UI, with its JSON in [`payload`].
//! - [`bench`]: what the context costs, measured on generated programs.
//! - [`json`] and [`text`]: what all of it is built with.
//!
//! Compiling, evaluating, files, processes and the network are the caller's.

pub mod agent;
pub mod bench;
pub mod budget;
pub mod dispatch;
pub mod gate;
pub mod index;
pub mod json;
pub mod llm;
pub mod payload;
pub mod program;
pub mod prompt;
pub mod sandbox;
pub mod serve;
pub mod strategy;
pub mod surgery;
pub mod text;
pub mod toolset;

pub use budget::{Budget, Guard, LimitHit, Pricing, Spend};
pub use index::{search, Match};
pub use llm::{Client, Completion, Config, LlmError, Usage, DEFAULT_MODEL};
pub use prompt::Reply;
pub use strategy::{RenderedContext, Strategy};
