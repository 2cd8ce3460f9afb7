//! What a compiled program is made of, as far as the harness reads it.
//!
//! Compiling, resolving names and evaluating are the language's own business.
//! This is the part of a compiled program that decisions are taken on: the
//! buckets with their contracts and where their bodies stand in the source, the
//! call graph, and a hash of every user bucket.

use crate::text;
use vstd::prelude::*;

verus! {

/// A range of bytes in the source.
#[derive(Debug, Clone, Copy)]
pub struct Span {
    pub start: usize,
    pub end: usize,
}

/// A parameter of a contract.
#[derive(Debug, Clone)]
pub struct Param {
    pub name: String,
    pub ty: String,
}

/// A bucket of the program.
#[derive(Debug, Clone)]
pub struct Bucket {
    pub address: String,
    /// Written by the user, as opposed to built in or synthesised from a test.
    pub user: bool,
    pub label: Option<String>,
    pub desc: String,
    pub params: Vec<Param>,
    pub ret: String,
    /// Where the body stands in the source; `None` for one that is not there.
    pub body: Option<Span>,
}

/// The edges of the call graph at one bucket.
#[derive(Debug, Clone)]
pub struct Node {
    pub address: String,
    pub calls: Vec<String>,
    pub called_by: Vec<String>,
}

/// A compiled program. Buckets and nodes are in the order of their addresses.
#[derive(Debug, Clone)]
pub struct Program {
    pub buckets: Vec<Bucket>,
    pub graph: Vec<Node>,
    /// The address and content hash of every user bucket.
    pub hashes: Vec<(String, String)>,
}

/// A test of the program.
#[derive(Debug, Clone)]
pub struct TestCase {
    pub subject: Option<String>,
    pub desc: String,
}

/// One test that was evaluated.
#[derive(Debug, Clone)]
pub struct TestOutcome {
    pub id: String,
    pub subject: Option<String>,
    pub desc: String,
    /// The test is meant to fail.
    pub expect_error: bool,
    /// The diagnostic, if the evaluation failed.
    pub error: Option<String>,
}

impl TestOutcome {
    /// The evaluation failed exactly when it was meant to.
    pub open spec fn passes(self) -> bool {
        self.expect_error == (self.error is Some)
    }

    /// The bucket that the test is about; its own id in the absence of one.
    pub open spec fn about(self) -> Seq<char> {
        text::or_else(text::opt_text(self.subject), self.id@)
    }

    pub fn passed(&self) -> (r: bool)
        ensures
            r == self.passes(),
    {
        self.expect_error == self.error.is_some()
    }

    pub fn subject_or_id(&self) -> (r: String)
        ensures
            r@ == self.about(),
    {
        text::text_or(&self.subject, &self.id)
    }
}

// ------------------------------------------------------------------- lookups

/// The first bucket with that address.
pub open spec fn bucket_at(buckets: Seq<Bucket>, address: Seq<char>) -> Option<Bucket>
    decreases buckets.len(),
{
    if buckets.len() == 0 {
        None
    } else if buckets[0].address@ == address {
        Some(buckets[0])
    } else {
        bucket_at(buckets.skip(1), address)
    }
}

/// The first node of the call graph with that address.
pub open spec fn node_at(graph: Seq<Node>, address: Seq<char>) -> Option<Node>
    decreases graph.len(),
{
    if graph.len() == 0 {
        None
    } else if graph[0].address@ == address {
        Some(graph[0])
    } else {
        node_at(graph.skip(1), address)
    }
}

impl Program {
    pub fn get(&self, address: &str) -> (r: Option<&Bucket>)
        ensures
            match r {
                Some(b) => bucket_at(self.buckets@, address@) == Some(*b),
                None => bucket_at(self.buckets@, address@) is None,
            },
    {
        let mut i: usize = 0;
        assert(self.buckets@.skip(0) =~= self.buckets@);
        while i < self.buckets.len()
            invariant
                i <= self.buckets@.len(),
                bucket_at(self.buckets@, address@) == bucket_at(
                    self.buckets@.skip(i as int),
                    address@,
                ),
            decreases self.buckets@.len() - i,
        {
            if text::same(&self.buckets[i].address, address) {
                return Some(&self.buckets[i]);
            }
            assert(self.buckets@.skip(i as int).skip(1) =~= self.buckets@.skip(i + 1));
            i = i + 1;
        }
        None
    }

    pub fn node(&self, address: &str) -> (r: Option<&Node>)
        ensures
            match r {
                Some(n) => node_at(self.graph@, address@) == Some(*n),
                None => node_at(self.graph@, address@) is None,
            },
    {
        let mut i: usize = 0;
        assert(self.graph@.skip(0) =~= self.graph@);
        while i < self.graph.len()
            invariant
                i <= self.graph@.len(),
                node_at(self.graph@, address@) == node_at(self.graph@.skip(i as int), address@),
            decreases self.graph@.len() - i,
        {
            if text::same(&self.graph[i].address, address) {
                return Some(&self.graph[i]);
            }
            assert(self.graph@.skip(i as int).skip(1) =~= self.graph@.skip(i + 1));
            i = i + 1;
        }
        None
    }
}

// ----------------------------------------------------------------- renderings

/// The parameters as texts of the form `name: type`.
pub open spec fn param_texts(params: Seq<Param>) -> Seq<Seq<char>> {
    params.map_values(|p: Param| p.name@ + ": "@ + p.ty@)
}

/// The parameters as one text.
pub open spec fn param_list(params: Seq<Param>) -> Seq<char> {
    text::joined(param_texts(params), ", "@)
}

pub fn params_of(params: &Vec<Param>) -> (r: String)
    ensures
        r@ == param_list(params@),
{
    let mut out: Vec<String> = Vec::new();
    let mut i: usize = 0;
    while i < params.len()
        invariant
            i <= params@.len(),
            out@.len() == i,
            forall|j: int| 0 <= j < i ==> out@[j]@ == param_texts(params@)[j],
        decreases params@.len() - i,
    {
        let mut s = params[i].name.clone();
        s.append(": ");
        s.append(&params[i].ty);
        out.push(s);
        i = i + 1;
    }
    assert(text::texts(out@) =~= param_texts(params@));
    text::join(&out, ", ")
}

/// The contract of a bucket: `(name: type, ..) -> type`.
pub open spec fn contract(b: Bucket) -> Seq<char> {
    "("@ + param_list(b.params@) + ") -> "@ + b.ret@
}

pub fn contract_of(b: &Bucket) -> (r: String)
    ensures
        r@ == contract(*b),
{
    let mut s = "(".to_owned();
    s.append(&params_of(&b.params));
    s.append(") -> ");
    s.append(&b.ret);
    s
}

/// The label of a bucket; the address it was asked for in the absence of one.
pub open spec fn label_or(b: Bucket, address: Seq<char>) -> Seq<char> {
    text::or_else(text::opt_text(b.label), address)
}

// ---------------------------------------------------------------------- laws

/// The bucket at an address is the first one with that address, and there is
/// none where no bucket has it.
pub proof fn law_first_bucket_at_an_address(buckets: Seq<Bucket>, address: Seq<char>, i: int)
    ensures
        0 <= i < buckets.len() && buckets[i].address@ == address && (forall|j: int|
            0 <= j < i ==> (#[trigger] buckets[j]).address@ != address) ==> bucket_at(
            buckets,
            address,
        ) == Some(buckets[i]),
        (forall|j: int| 0 <= j < buckets.len() ==> (#[trigger] buckets[j]).address@ != address)
            ==> bucket_at(buckets, address) is None,
    decreases buckets.len(),
{
    if buckets.len() > 0 && buckets[0].address@ != address {
        let rest = buckets.skip(1);
        law_first_bucket_at_an_address(rest, address, i - 1);
        assert forall|j: int| 0 <= j < rest.len() implies rest[j] == buckets[j + 1] by {}
    }
}

/// The node of an address is the first one with that address, and there is none
/// where no node has it.
pub proof fn law_first_node_at_an_address(graph: Seq<Node>, address: Seq<char>, i: int)
    ensures
        0 <= i < graph.len() && graph[i].address@ == address && (forall|j: int|
            0 <= j < i ==> (#[trigger] graph[j]).address@ != address) ==> node_at(graph, address)
            == Some(graph[i]),
        (forall|j: int| 0 <= j < graph.len() ==> (#[trigger] graph[j]).address@ != address)
            ==> node_at(graph, address) is None,
    decreases graph.len(),
{
    if graph.len() > 0 && graph[0].address@ != address {
        let rest = graph.skip(1);
        law_first_node_at_an_address(rest, address, i - 1);
        assert forall|j: int| 0 <= j < rest.len() implies rest[j] == graph[j + 1] by {}
    }
}

/// A parameter list names each parameter with its type, in order, with commas
/// between them.
pub proof fn law_parameter_list_names_each(a: Seq<Param>, b: Seq<Param>)
    ensures
        param_list(Seq::empty()) == Seq::<char>::empty(),
        a.len() == 1 ==> param_list(a) == a[0].name@ + ": "@ + a[0].ty@,
        a.len() > 0 && b.len() > 0 ==> param_list(a + b) == param_list(a) + ", "@ + param_list(b),
{
    assert(param_texts(Seq::empty()) =~= Seq::<Seq<char>>::empty());
    assert(param_texts(a + b) =~= param_texts(a) + param_texts(b));
    text::law_joining_puts_the_separator_between(param_texts(a), param_texts(b), ", "@);
}

/// A contract is the parameter list in brackets, an arrow, and the return type;
/// a bucket goes by its label, and by its address where it has none.
pub proof fn law_contract_and_name(b: Bucket, address: Seq<char>)
    ensures
        contract(b) == "("@ + param_list(b.params@) + ") -> "@ + b.ret@,
        b.label matches Some(l) ==> label_or(b, address) == l@,
        b.label is None ==> label_or(b, address) == address,
{
}

/// A test that expects an error passes when there is one, another one when there
/// is none; a test is about its subject, and about itself where it has none.
pub proof fn law_tests_pass_as_expected(t: TestOutcome)
    ensures
        t.expect_error ==> (t.passes() <==> t.error is Some),
        !t.expect_error ==> (t.passes() <==> t.error is None),
        t.subject matches Some(x) ==> t.about() == x@,
        t.subject is None ==> t.about() == t.id@,
{
}

} // verus!
