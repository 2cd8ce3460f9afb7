//! Filesystem and command guards.
//!
//! Everything a tool receives is model output, and model output is untrusted:
//! not because the model is adversarial, but because a prompt-injected file, a
//! misread instruction, or a plain mistake all arrive through the same channel.
//! So the guards here are structural rather than advisory.
//!
//! Three decisions do most of the work:
//!
//! - **No shell.** Commands are executed directly with an argv array, so `;`,
//!   `&&`, `|`, backticks, and `$()` are inert text rather than syntax.
//! - **Allowlist, not blocklist.** Only named executables run.
//! - **Paths are resolved before use.** A path is canonicalised and checked to
//!   be inside the project root. `..`, absolute paths, and symlinks pointing
//!   out all fail.
//!
//! The file system and the processes are the caller's. This module decides what
//! may be looked up, what may be started, and what becomes of what the caller
//! saw. Paths are written with `/`.

use crate::text;
use vstd::prelude::*;
use vstd::slice::slice_subrange;

verus! {

/// Who decides whether a command runs.
#[derive(Debug, Clone, Copy, PartialEq, Eq, Structural)]
pub enum ApprovalMode {
    /// Allowlisted commands run without asking.
    Auto,
    /// Every command is described and must be approved by the caller.
    Ask,
    /// No commands run at all.
    Never,
}

impl ApprovalMode {
    /// The mode that a text names.
    pub open spec fn named(s: Seq<char>) -> Option<ApprovalMode> {
        if s == "auto"@ {
            Some(ApprovalMode::Auto)
        } else if s == "ask"@ {
            Some(ApprovalMode::Ask)
        } else if s == "never"@ {
            Some(ApprovalMode::Never)
        } else {
            None
        }
    }

    pub fn parse(s: &str) -> (r: Result<ApprovalMode, String>)
        ensures
            match r {
                Ok(mode) => ApprovalMode::named(s@) == Some(mode),
                Err(e) => ApprovalMode::named(s@) is None && e@ == "unknown --commands mode '"@
                    + s@ + "'"@,
            },
    {
        if text::same(s, "auto") {
            Ok(ApprovalMode::Auto)
        } else if text::same(s, "ask") {
            Ok(ApprovalMode::Ask)
        } else if text::same(s, "never") {
            Ok(ApprovalMode::Never)
        } else {
            let mut e = "unknown --commands mode '".to_owned();
            e.append(s);
            e.append("'");
            Err(e)
        }
    }
}

/// A command that was attempted, allowed or refused.
#[derive(Debug, Clone)]
pub struct CommandRecord {
    pub argv: Vec<String>,
    pub allowed: bool,
    pub exit_code: Option<i32>,
    pub reason: Option<String>,
}

/// What a record says.
pub struct CommandRecordView {
    pub argv: Seq<Seq<char>>,
    pub allowed: bool,
    pub exit_code: Option<i32>,
    pub reason: Option<Seq<char>>,
}

impl View for CommandRecord {
    type V = CommandRecordView;

    open spec fn view(&self) -> CommandRecordView {
        CommandRecordView {
            argv: text::texts(self.argv@),
            allowed: self.allowed,
            exit_code: self.exit_code,
            reason: text::opt_text(self.reason),
        }
    }
}

/// Seconds after which a command is killed.
pub const TIMEOUT: u64 = 60;

/// Milliseconds between two looks at a running command.
pub const POLL: u64 = 25;

/// The longest output handed back, in bytes.
pub const MAX_OUTPUT: usize = 16_000;

/// What a sandbox holds for itself. It is made by [`Sandbox::new`] and changed
/// only by what is logged.
#[derive(Debug, Clone)]
pub struct Holdings {
    /// Canonical project root. The file tools read and write nothing outside it.
    root: String,
    allowed: Vec<String>,
    /// Every command attempted, allowed or refused.
    log: Vec<CommandRecord>,
}

impl Holdings {
    pub closed spec fn base(self) -> Seq<char> {
        self.root@
    }

    pub closed spec fn allowlist(self) -> Seq<Seq<char>> {
        text::texts(self.allowed@)
    }

    pub closed spec fn records(self) -> Seq<CommandRecordView> {
        self.log@.map_values(|r: CommandRecord| r@)
    }
}

/// The guards on one project.
#[derive(Debug, Clone)]
pub struct Sandbox {
    pub approval: ApprovalMode,
    pub holdings: Holdings,
}

// ------------------------------------------------------------------ commands

/// Commands permitted by default.
///
/// Read-mostly and project-scoped. `git` is among them but gated to inspection
/// subcommands below: a bare allowlist entry would permit `git push`.
pub open spec fn default_allowed() -> Seq<Seq<char>> {
    seq![
        "bkt"@, "cargo"@, "ls"@, "cat"@, "head"@, "tail"@, "wc"@, "grep"@, "rg"@, "find"@,
        "git"@, "echo"@, "diff"@,
    ]
}

/// The subcommands of `git` that only read.
pub open spec fn git_read_only() -> Seq<Seq<char>> {
    seq![
        "status"@, "diff"@, "log"@, "show"@, "branch"@, "blame"@, "ls-files"@, "rev-parse"@,
    ]
}

/// The subcommands of `cargo` that are safe to run.
pub open spec fn cargo_safe() -> Seq<Seq<char>> {
    seq!["build"@, "test"@, "check"@, "run"@, "fmt"@, "clippy"@, "tree"@]
}

fn names(v: &[&str]) -> (r: Vec<String>)
    ensures
        text::texts(r@) == v@.map_values(|s: &str| s@),
{
    let mut out: Vec<String> = Vec::new();
    let mut i: usize = 0;
    while i < v.len()
        invariant
            i <= v@.len(),
            out@.len() == i,
            forall|j: int| 0 <= j < i ==> out@[j]@ == v@[j]@,
        decreases v@.len() - i,
    {
        out.push(v[i].to_owned());
        i = i + 1;
    }
    assert(text::texts(out@) =~= v@.map_values(|s: &str| s@));
    out
}

fn allowed_list() -> (r: Vec<String>)
    ensures
        text::texts(r@) == default_allowed(),
{
    let r = names(
        &[
            "bkt", "cargo", "ls", "cat", "head", "tail", "wc", "grep", "rg", "find", "git", "echo",
            "diff",
        ],
    );
    assert(text::texts(r@) =~= default_allowed());
    r
}

fn git_list() -> (r: Vec<String>)
    ensures
        text::texts(r@) == git_read_only(),
{
    let r = names(&["status", "diff", "log", "show", "branch", "blame", "ls-files", "rev-parse"]);
    assert(text::texts(r@) =~= git_read_only());
    r
}

fn cargo_list() -> (r: Vec<String>)
    ensures
        text::texts(r@) == cargo_safe(),
{
    let r = names(&["build", "test", "check", "run", "fmt", "clippy", "tree"]);
    assert(text::texts(r@) =~= cargo_safe());
    r
}

/// The first text of a list; the empty text if there is none.
pub open spec fn first_or_empty(v: Seq<Seq<char>>) -> Seq<char> {
    if v.len() > 0 {
        v[0]
    } else {
        Seq::empty()
    }
}

fn first_of(v: &[String]) -> (r: String)
    ensures
        r@ == first_or_empty(text::texts(v@)),
{
    if v.len() > 0 {
        v[0].clone()
    } else {
        String::new()
    }
}

/// Whether the subcommand of a program is one of those permitted for it.
pub open spec fn subcommand_verdict(program: Seq<char>, args: Seq<Seq<char>>) -> Result<
    (),
    Seq<char>,
> {
    let first = first_or_empty(args);
    if program == "git"@ {
        if git_read_only().contains(first) {
            Ok(())
        } else {
            Err(
                "git "@ + first + " is not permitted; only "@ + text::joined(
                    git_read_only(),
                    ", "@,
                ) + " are"@,
            )
        }
    } else if program == "cargo"@ {
        if cargo_safe().contains(first) {
            Ok(())
        } else {
            Err(
                "cargo "@ + first + " is not permitted; only "@ + text::joined(cargo_safe(), ", "@)
                    + " are"@,
            )
        }
    } else {
        Ok(())
    }
}

/// Subcommands permitted for tools where the executable alone is too coarse.
pub fn subcommand_allowed(program: &str, args: &[String]) -> (r: Result<(), String>)
    ensures
        text::verdict(r) == subcommand_verdict(program@, text::texts(args@)),
{
    let first = first_of(args);
    if text::same(program, "git") {
        let list = git_list();
        if text::has_text(&list, &first) {
            return Ok(());
        }
        let mut s = "git ".to_owned();
        s.append(&first);
        s.append(" is not permitted; only ");
        s.append(&text::join(&list, ", "));
        s.append(" are");
        return Err(s);
    }
    if text::same(program, "cargo") {
        let list = cargo_list();
        if text::has_text(&list, &first) {
            return Ok(());
        }
        let mut s = "cargo ".to_owned();
        s.append(&first);
        s.append(" is not permitted; only ");
        s.append(&text::join(&list, ", "));
        s.append(" are");
        return Err(s);
    }
    Ok(())
}

/// A shell operator stands in the argument.
pub open spec fn shell_syntax(arg: Seq<char>) -> bool {
    ||| arg.contains(';')
    ||| arg.contains('|')
    ||| arg.contains('&')
    ||| arg.contains('`')
    ||| text::contains_text(arg, "$("@)
    ||| arg.contains('>')
    ||| arg.contains('<')
}

fn has_shell_syntax(arg: &str) -> (r: bool)
    ensures
        r == shell_syntax(arg@),
{
    text::has_char(arg, ';') || text::has_char(arg, '|') || text::has_char(arg, '&')
        || text::has_char(arg, '`') || text::has_part(arg, "$(") || text::has_char(arg, '>')
        || text::has_char(arg, '<')
}

/// The first text at or after `from` that holds a shell operator.
pub open spec fn first_shell_syntax(args: Seq<Seq<char>>, from: int) -> Option<Seq<char>>
    decreases args.len() - from,
{
    if from >= args.len() {
        None
    } else if shell_syntax(args[from]) {
        Some(args[from])
    } else {
        first_shell_syntax(args, from + 1)
    }
}

/// The first argument that holds a shell operator.
///
/// Nothing goes through a shell, but a shell operator in an argument almost
/// always means the model believed it was writing a shell line, and running
/// half of that intent is worse than refusing it.
fn find_shell_syntax(argv: &[String]) -> (r: Option<usize>)
    ensures
        match r {
            Some(i) => i < argv@.len() && first_shell_syntax(text::texts(argv@), 1) == Some(
                argv@[i as int]@,
            ),
            None => first_shell_syntax(text::texts(argv@), 1) is None,
        },
{
    let ghost words = text::texts(argv@);
    let mut i: usize = 1;
    while i < argv.len()
        invariant
            1 <= i,
            words == text::texts(argv@),
            first_shell_syntax(words, 1) == first_shell_syntax(words, i as int),
        decreases argv@.len() - i,
    {
        if has_shell_syntax(&argv[i]) {
            return Some(i);
        }
        i = i + 1;
    }
    None
}

/// What is said of an argument that holds a shell operator.
pub open spec fn shell_syntax_message(arg: Seq<char>) -> Seq<char> {
    "argument "@ + text::quoted(arg)
        + " looks like shell syntax; commands run without a shell, so pass a plain argument list instead"@
}

/// Whether a command may run, and why not.
pub open spec fn command_verdict(allowed: Seq<Seq<char>>, argv: Seq<Seq<char>>) -> Result<
    (),
    Seq<char>,
> {
    if argv.len() == 0 {
        Err("empty command"@)
    } else if argv[0].contains('/') {
        Err("give a bare command name, not a path"@)
    } else if !allowed.contains(argv[0]) {
        Err(argv[0] + " is not on the allowlist ("@ + text::joined(allowed, ", "@) + ")"@)
    } else if subcommand_verdict(argv[0], argv.skip(1)) is Err {
        subcommand_verdict(argv[0], argv.skip(1))
    } else {
        match first_shell_syntax(argv, 1) {
            Some(arg) => Err(shell_syntax_message(arg)),
            None => Ok(()),
        }
    }
}

// --------------------------------------------------------------------- paths

/// The path starts at the file system's root.
pub open spec fn is_absolute(path: Seq<char>) -> bool {
    path.len() > 0 && path[0] == '/'
}

/// The path names a parent directory somewhere.
pub open spec fn climbs(path: Seq<char>) -> bool {
    text::pieces(path, text::Cut::At('/')).contains(".."@)
}

/// A relative path below a directory.
pub open spec fn joined_path(dir: Seq<char>, path: Seq<char>) -> Seq<char> {
    if dir.len() > 0 && dir.last() == '/' {
        dir + path
    } else {
        dir + "/"@ + path
    }
}

fn join_path(dir: &str, path: &str) -> (r: String)
    ensures
        r@ == joined_path(dir@, path@),
{
    let v = text::chars_of(dir);
    let mut s = dir.to_owned();
    if !(v.len() > 0 && v[v.len() - 1] == '/') {
        s.append("/");
    }
    s.append(path);
    s
}

/// The path without trailing separators and trailing `.` parts.
pub open spec fn settled(path: Seq<char>) -> Seq<char>
    decreases path.len(),
{
    if path.len() == 0 {
        path
    } else if path.last() == '/' {
        settled(path.drop_last())
    } else if path.last() == '.' && path.len() >= 2 && path[path.len() - 2] == '/' {
        settled(path.drop_last())
    } else {
        path
    }
}

fn settle(v: &[char], to: usize) -> (r: usize)
    requires
        to <= v@.len(),
    ensures
        r <= to,
        v@.take(r as int) == settled(v@.take(to as int)),
{
    let mut n: usize = to;
    while n > 0 && (v[n - 1] == '/' || (v[n - 1] == '.' && n >= 2 && v[n - 2] == '/'))
        invariant
            n <= to <= v@.len(),
            settled(v@.take(to as int)) == settled(v@.take(n as int)),
        decreases n,
    {
        assert(v@.take(n as int).drop_last() =~= v@.take(n - 1));
        n = n - 1;
    }
    n
}

/// The directory that holds the path: empty for a relative path of one part,
/// `None` for the file system's root and the empty path.
pub open spec fn parent(path: Seq<char>) -> Option<Seq<char>> {
    let t = settled(path);
    if t.len() == 0 {
        None
    } else {
        let k = text::after_last(t, '/', t.len() as int);
        let p = settled(t.take(k));
        Some(
            if p.len() == 0 && k > 0 {
                "/"@
            } else {
                p
            },
        )
    }
}

/// The last part of the path; `None` if it names a directory by `/`, `.` or
/// `..`.
pub open spec fn file_name(path: Seq<char>) -> Option<Seq<char>> {
    let t = settled(path);
    let name = t.skip(text::after_last(t, '/', t.len() as int));
    if t.len() == 0 || name == "."@ || name == ".."@ {
        None
    } else {
        Some(name)
    }
}

proof fn lemma_after_last(s: Seq<char>, t: Seq<char>, c: char, to: int)
    requires
        0 <= to <= s.len(),
        to <= t.len(),
        forall|i: int| 0 <= i < to ==> s[i] == t[i],
    ensures
        text::after_last(s, c, to) == text::after_last(t, c, to),
        0 <= text::after_last(s, c, to) <= to,
    decreases to,
{
    if to > 0 && s[to - 1] != c {
        lemma_after_last(s, t, c, to - 1);
    }
}

/// The last part of a path holds no separator.
pub proof fn lemma_file_name_is_bare(path: Seq<char>)
    ensures
        file_name(path) matches Some(name) ==> !name.contains('/'),
{
    let t = settled(path);
    let n = t.len() as int;
    lemma_after_last(t, t, '/', n);
    let k = text::after_last(t, '/', n);
    assert forall|i: int| k <= i < n implies t[i] != '/' by {
        lemma_none_after_last(t, '/', n, i);
    }
    let name = t.skip(k);
    assert forall|i: int| 0 <= i < name.len() implies #[trigger] name[i] != '/' by {
        assert(name[i] == t[k + i]);
    }
}

/// The position after the last `c`, where it is known.
pub proof fn lemma_after_last_is(s: Seq<char>, c: char, to: int, k: int)
    requires
        0 < k <= to <= s.len(),
        s[k - 1] == c,
        forall|i: int| k <= i < to ==> #[trigger] s[i] != c,
    ensures
        text::after_last(s, c, to) == k,
    decreases to,
{
    if k < to {
        lemma_after_last_is(s, c, to - 1, k);
    }
}

proof fn lemma_none_after_last(s: Seq<char>, c: char, to: int, i: int)
    requires
        0 <= to <= s.len(),
        text::after_last(s, c, to) <= i < to,
    ensures
        s[i] != c,
    decreases to,
{
    if to > 0 && s[to - 1] != c && i < to - 1 {
        lemma_none_after_last(s, c, to - 1, i);
    }
}

pub fn parent_of(path: &str) -> (r: Option<String>)
    ensures
        text::opt_text(r) == parent(path@),
{
    let v = text::chars_of(path);
    assert(v@.take(v@.len() as int) =~= v@);
    let n: usize = settle(&v, v.len());
    if n == 0 {
        return None;
    }
    let k: usize = text::find_back(&v, '/', n);
    let m: usize = settle(&v, k);
    proof {
        let t = settled(path@);
        lemma_after_last(v@, t, '/', n as int);
        assert(t.take(k as int) =~= v@.take(k as int));
    }
    if m == 0 && k > 0 {
        return Some("/".to_owned());
    }
    assert(v@.subrange(0, m as int) =~= v@.take(m as int));
    Some(text::string_of(&v, 0, m))
}

pub fn name_of(path: &str) -> (r: Option<String>)
    ensures
        text::opt_text(r) == file_name(path@),
{
    let v = text::chars_of(path);
    assert(v@.take(v@.len() as int) =~= v@);
    let n: usize = settle(&v, v.len());
    if n == 0 {
        return None;
    }
    let k: usize = text::find_back(&v, '/', n);
    let name = text::string_of(&v, k, n);
    proof {
        let t = settled(path@);
        lemma_after_last(v@, t, '/', n as int);
        assert(t.skip(k as int) =~= v@.subrange(k as int, n as int));
    }
    if text::same(&name, ".") || text::same(&name, "..") {
        return None;
    }
    Some(name)
}

/// The parts of a path, from the top.
pub open spec fn parts(path: Seq<char>) -> Seq<Seq<char>> {
    text::words(path, text::Cut::At('/'))
}

/// A canonical path is the directory itself or lies below it.
pub open spec fn within(path: Seq<char>, dir: Seq<char>) -> bool {
    &&& is_absolute(path) == is_absolute(dir)
    &&& parts(dir).is_prefix_of(parts(path))
}

fn is_within(path: &str, dir: &str) -> (r: bool)
    ensures
        r == within(path@, dir@),
{
    if text::begins(path, "/") != text::begins(dir, "/") {
        proof {
            lemma_begins_with_slash(path@);
            lemma_begins_with_slash(dir@);
        }
        return false;
    }
    proof {
        lemma_begins_with_slash(path@);
        lemma_begins_with_slash(dir@);
    }
    let p = text::words_of(path, text::Cut::At('/'));
    let d = text::words_of(dir, text::Cut::At('/'));
    if d.len() > p.len() {
        assert(parts(dir@).len() > parts(path@).len());
        return false;
    }
    let mut i: usize = 0;
    while i < d.len()
        invariant
            i <= d@.len() <= p@.len(),
            text::texts(p@) == parts(path@),
            text::texts(d@) == parts(dir@),
            forall|j: int| 0 <= j < i ==> d@[j]@ == p@[j]@,
        decreases d@.len() - i,
    {
        if !text::same(&d[i], &p[i]) {
            assert(parts(dir@)[i as int] != parts(path@)[i as int]);
            return false;
        }
        i = i + 1;
    }
    assert(parts(dir@) =~= parts(path@).take(parts(dir@).len() as int));
    true
}

proof fn lemma_begins_with_slash(s: Seq<char>)
    ensures
        text::starts_with(s, "/"@) == is_absolute(s),
{
    reveal_strlit("/");
    assert("/"@ =~= seq!['/']);
    if is_absolute(s) {
        assert(s.subrange(0, 1) =~= seq!['/']);
    }
    if text::starts_with(s, "/"@) {
        assert(s.subrange(0, 1)[0] == s[0]);
    }
}

/// The path to look up for a path that was asked for, or why it is refused.
pub open spec fn lookup(root: Seq<char>, path: Seq<char>) -> Result<Seq<char>, Seq<char>> {
    if is_absolute(path) {
        Err("absolute paths are not allowed; give a path relative to "@ + root)
    } else if climbs(path) {
        Err("path may not contain '..'"@)
    } else {
        Ok(joined_path(root, path))
    }
}

/// What the file system has at a path that was looked up.
#[derive(Debug)]
pub enum Found {
    /// Something, with that canonical form.
    At(String),
    /// Nothing. A file could be created there.
    Missing,
    /// A link whose target cannot be named: it does not exist, or its canonical
    /// form is no text. What is written there lands wherever the link points.
    BrokenLink,
}

/// What the file system has at a path, as contracts speak of it.
pub enum FoundView {
    At(Seq<char>),
    Missing,
    BrokenLink,
}

impl View for Found {
    type V = FoundView;

    open spec fn view(&self) -> FoundView {
        match self {
            Found::At(p) => FoundView::At(p@),
            Found::Missing => FoundView::Missing,
            Found::BrokenLink => FoundView::BrokenLink,
        }
    }
}

/// What a path resolves to. `whole` is what the file system has at the path that
/// was looked up; `holder` is the canonical form of its parent directory, if
/// that exists. A link that leads nowhere is refused: nothing shows that its
/// target lies inside the root.
pub open spec fn resolution(
    root: Seq<char>,
    path: Seq<char>,
    whole: FoundView,
    holder: Option<Seq<char>>,
) -> Result<Seq<char>, Seq<char>> {
    match lookup(root, path) {
        Err(e) => Err(e),
        Ok(full) => match whole {
            FoundView::At(p) => confined(root, p),
            FoundView::BrokenLink => Err("path is a link that leads nowhere"@),
            FoundView::Missing => match parent(full) {
                None => Err("path has no parent"@),
                Some(dir) => match holder {
                    None => Err("no such directory: "@ + dir),
                    Some(h) => match file_name(full) {
                        None => Err("path has no file name"@),
                        Some(name) => confined(root, joined_path(h, name)),
                    },
                },
            },
        },
    }
}

/// A canonical path, if it is inside the root.
pub open spec fn confined(root: Seq<char>, path: Seq<char>) -> Result<Seq<char>, Seq<char>> {
    if within(path, root) {
        Ok(path)
    } else {
        Err("path escapes the project root ("@ + root + ")"@)
    }
}

/// A path that was resolved and lies inside the project root.
#[derive(Debug)]
pub struct Place {
    asked: String,
    path: String,
}

impl Place {
    /// The path that was asked for.
    pub closed spec fn name(self) -> Seq<char> {
        self.asked@
    }

    /// What it resolved to.
    pub closed spec fn location(self) -> Seq<char> {
        self.path@
    }

    /// What the path that was asked for resolved to.
    pub fn path(&self) -> (r: &str)
        ensures
            r@ == self.location(),
    {
        self.path.as_str()
    }
}

/// A resolution, as contracts speak of it.
pub open spec fn place_outcome(r: Result<Place, String>) -> Result<Seq<char>, Seq<char>> {
    match r {
        Ok(p) => Ok(p.location()),
        Err(e) => Err(e@),
    }
}

// ---------------------------------------------------------------------- runs

/// A command that passed every check and may be started.
#[derive(Debug)]
pub struct Job {
    argv: Vec<String>,
    ask: bool,
}

impl Job {
    pub closed spec fn command(self) -> Seq<Seq<char>> {
        text::texts(self.argv@)
    }

    pub closed spec fn asks(self) -> bool {
        self.ask
    }

    /// The program and its arguments.
    pub fn argv(&self) -> (r: &Vec<String>)
        ensures
            text::texts(r@) == self.command(),
    {
        &self.argv
    }

    /// Whether the command must be described and approved before it starts.
    pub fn needs_approval(&self) -> (r: bool)
        ensures
            r == self.asks(),
    {
        self.ask
    }
}

/// What the caller saw of a job.
#[derive(Debug)]
pub enum Event {
    /// The command was described and not approved.
    Declined,
    /// The process could not be started.
    StartFailed(String),
    /// The process could not be waited for.
    WaitFailed(String),
    /// The process is still running, so many nanoseconds after its start.
    Running(u64),
    /// The process ended, with its exit code and all that it wrote.
    Exited(Option<i32>, String, String),
}

/// An event, as contracts speak of it.
pub enum EventView {
    Declined,
    StartFailed(Seq<char>),
    WaitFailed(Seq<char>),
    Running(u64),
    Exited(Option<i32>, Seq<char>, Seq<char>),
}

impl View for Event {
    type V = EventView;

    open spec fn view(&self) -> EventView {
        match self {
            Event::Declined => EventView::Declined,
            Event::StartFailed(e) => EventView::StartFailed(e@),
            Event::WaitFailed(e) => EventView::WaitFailed(e@),
            Event::Running(n) => EventView::Running(*n),
            Event::Exited(c, out, err) => EventView::Exited(*c, out@, err@),
        }
    }
}

/// What to do after an event.
#[derive(Debug)]
pub enum Reaction {
    /// Look again after [`POLL`] milliseconds.
    Wait,
    /// Kill the process. The message is the job's failure.
    Kill(String),
    /// The job is over, with this reply.
    Done(Result<String, String>),
}

/// A reaction, as contracts speak of it.
pub enum ReactionView {
    Wait,
    Kill(Seq<char>),
    Done(Result<Seq<char>, Seq<char>>),
}

impl View for Reaction {
    type V = ReactionView;

    open spec fn view(&self) -> ReactionView {
        match self {
            Reaction::Wait => ReactionView::Wait,
            Reaction::Kill(e) => ReactionView::Kill(e@),
            Reaction::Done(r) => ReactionView::Done(text::answer(*r)),
        }
    }
}

/// All that a process wrote, and how it ended.
pub open spec fn combined_output(code: Option<i32>, out: Seq<char>, err: Seq<char>) -> Seq<char> {
    let shown = if err.len() > 0 {
        out + "\n[stderr]\n"@ + err
    } else {
        out
    };
    let exit: int = match code {
        Some(c) => c as int,
        None => -1,
    };
    shown + "\n[exit "@ + text::signed_decimal(exit) + "]"@
}

/// What to do after an event.
pub open spec fn reaction(argv: Seq<Seq<char>>, event: EventView) -> ReactionView {
    match event {
        EventView::Declined => ReactionView::Done(Err("the command was not approved"@)),
        EventView::StartFailed(e) => ReactionView::Done(
            Err("could not start "@ + first_or_empty(argv) + ": "@ + e),
        ),
        EventView::WaitFailed(e) => ReactionView::Done(Err(e)),
        EventView::Running(nanos) => if nanos > TIMEOUT * 1_000_000_000 {
            ReactionView::Kill(
                text::joined(argv, " "@) + " timed out after "@ + text::decimal(TIMEOUT as nat)
                    + "s and was killed"@,
            )
        } else {
            ReactionView::Wait
        },
        EventView::Exited(code, out, err) => ReactionView::Done(
            Ok(truncated(combined_output(code, out, err), MAX_OUTPUT as nat)),
        ),
    }
}

/// The record that an event leaves; `None` while the process runs on.
pub open spec fn record_of(argv: Seq<Seq<char>>, event: EventView) -> Option<CommandRecordView> {
    match event {
        EventView::Declined => Some(
            CommandRecordView {
                argv,
                allowed: false,
                exit_code: None,
                reason: Some("the command was not approved"@),
            },
        ),
        EventView::StartFailed(e) => Some(
            CommandRecordView {
                argv,
                allowed: true,
                exit_code: None,
                reason: Some("could not start "@ + first_or_empty(argv) + ": "@ + e),
            },
        ),
        EventView::WaitFailed(e) => Some(
            CommandRecordView { argv, allowed: true, exit_code: None, reason: Some(e) },
        ),
        EventView::Running(nanos) => if nanos > TIMEOUT * 1_000_000_000 {
            Some(
                CommandRecordView {
                    argv,
                    allowed: true,
                    exit_code: None,
                    reason: Some("timed out"@),
                },
            )
        } else {
            None
        },
        EventView::Exited(code, _, _) => Some(
            CommandRecordView { argv, allowed: true, exit_code: code, reason: None },
        ),
    }
}

/// Whether a command may be started under an approval mode, and why not.
pub open spec fn admission(
    mode: ApprovalMode,
    allowed: Seq<Seq<char>>,
    argv: Seq<Seq<char>>,
) -> Result<(), Seq<char>> {
    if mode == ApprovalMode::Never {
        Err("command execution is disabled for this run"@)
    } else {
        command_verdict(allowed, argv)
    }
}

/// The record that a command leaves when it is refused.
pub open spec fn refusal_record(
    mode: ApprovalMode,
    allowed: Seq<Seq<char>>,
    argv: Seq<Seq<char>>,
) -> CommandRecordView {
    CommandRecordView {
        argv,
        allowed: false,
        exit_code: None,
        reason: if mode == ApprovalMode::Never {
            Some("command execution is disabled"@)
        } else {
            command_verdict(allowed, argv).err()
        },
    }
}

/// The start of a text that fits into `max` bytes, with a note of how long the
/// whole is; the text itself if it fits.
pub open spec fn truncated(s: Seq<char>, max: nat) -> Seq<char> {
    if text::size(s) <= max {
        s
    } else {
        s.take(text::fitting(s, max) as int) + "\n… truncated, "@ + text::decimal(text::size(s))
            + " bytes total"@
    }
}

pub fn truncate(s: &str, max: usize) -> (r: String)
    ensures
        r@ == truncated(s@, max as nat),
{
    let n: usize = text::byte_len(s);
    if n <= max {
        return s.to_owned();
    }
    let v = text::chars_of(s);
    let k: usize = text::fit(&v, max);
    let mut out = text::string_of(&v, 0, k);
    assert(v@.subrange(0, k as int) =~= v@.take(k as int));
    out.append("\n… truncated, ");
    out.append(&text::decimal_of(n as u64));
    out.append(" bytes total");
    out
}

impl Sandbox {
    /// The project root.
    pub open spec fn base(self) -> Seq<char> {
        self.holdings.base()
    }

    /// The programs that may run.
    pub open spec fn allowlist(self) -> Seq<Seq<char>> {
        self.holdings.allowlist()
    }

    /// Who decides whether a command runs.
    pub open spec fn mode(self) -> ApprovalMode {
        self.approval
    }

    /// Every command attempted so far.
    pub open spec fn records(self) -> Seq<CommandRecordView> {
        self.holdings.records()
    }

    /// A sandbox for the project root, from what became of canonicalising it.
    pub fn new(root: &str, canonical: Result<String, String>) -> (r: Result<Sandbox, String>)
        ensures
            match (r, canonical) {
                (Ok(sandbox), Ok(c)) => {
                    &&& sandbox.base() == c@
                    &&& sandbox.allowlist() == default_allowed()
                    &&& sandbox.mode() == ApprovalMode::Auto
                    &&& sandbox.records() == Seq::<CommandRecordView>::empty()
                },
                (Err(s), Err(e)) => s@ == "cannot resolve project root "@ + root@ + ": "@ + e@,
                _ => false,
            },
    {
        match canonical {
            Ok(root) => {
                let sandbox = Sandbox {
                    approval: ApprovalMode::Auto,
                    holdings: Holdings { root, allowed: allowed_list(), log: Vec::new() },
                };
                assert(sandbox.records() =~= Seq::<CommandRecordView>::empty());
                Ok(sandbox)
            },
            Err(e) => {
                let mut s = "cannot resolve project root ".to_owned();
                s.append(root);
                s.append(": ");
                s.append(&e);
                Err(s)
            },
        }
    }

    pub fn with_approval(self, mode: ApprovalMode) -> (r: Sandbox)
        ensures
            r.mode() == mode,
            r.base() == self.base(),
            r.allowlist() == self.allowlist(),
            r.records() == self.records(),
    {
        let mut r = self;
        r.approval = mode;
        r
    }

    pub fn root(&self) -> (r: &str)
        ensures
            r@ == self.base(),
    {
        self.holdings.root.as_str()
    }

    pub fn log(&self) -> (r: &[CommandRecord])
        ensures
            r@.map_values(|c: CommandRecord| c@) == self.records(),
    {
        self.holdings.log.as_slice()
    }

    /// The path to canonicalise for a model-supplied path.
    ///
    /// An absolute path and one with `..` in it are refused as they stand. What
    /// the rest come to is settled by [`Sandbox::resolved`], on the *resolved*
    /// path, so that a symlink out of the tree fails too.
    pub fn resolve(&self, path: &str) -> (r: Result<String, String>)
        ensures
            text::answer(r) == lookup(self.base(), path@),
    {
        proof {
            lemma_begins_with_slash(path@);
        }
        if text::begins(path, "/") {
            let mut s = "absolute paths are not allowed; give a path relative to ".to_owned();
            s.append(&self.holdings.root);
            return Err(s);
        }
        let pieces = text::split(path, text::Cut::At('/'));
        if text::has_text(&pieces, "..") {
            return Err("path may not contain '..'".to_owned());
        }
        Ok(join_path(&self.holdings.root, path))
    }

    /// What a model-supplied path resolves to, confined to the project root.
    ///
    /// `whole` is what the file system has at the path that [`Sandbox::resolve`]
    /// gave. For a file that does not exist yet the parent directory stands in,
    /// `holder` being its canonical form: otherwise nothing could ever be
    /// created. A link that leads nowhere is not such a file.
    pub fn resolved(&self, path: &str, whole: Found, holder: Option<String>) -> (r: Result<
        Place,
        String,
    >)
        ensures
            place_outcome(r) == resolution(self.base(), path@, whole@, text::opt_text(holder)),
            whole is BrokenLink ==> r is Err,
            r matches Ok(p) ==> p.name() == path@ && within(p.location(), self.base()),
    {
        let full = match self.resolve(path) {
            Ok(full) => full,
            Err(e) => {
                return Err(e);
            },
        };
        let found = match whole {
            Found::At(p) => p,
            Found::BrokenLink => {
                return Err("path is a link that leads nowhere".to_owned());
            },
            Found::Missing => {
                let dir = match parent_of(&full) {
                    Some(dir) => dir,
                    None => {
                        return Err("path has no parent".to_owned());
                    },
                };
                let holder = match holder {
                    Some(h) => h,
                    None => {
                        let mut s = "no such directory: ".to_owned();
                        s.append(&dir);
                        return Err(s);
                    },
                };
                match name_of(&full) {
                    Some(name) => join_path(&holder, &name),
                    None => {
                        return Err("path has no file name".to_owned());
                    },
                }
            },
        };
        if !is_within(&found, &self.holdings.root) {
            let mut s = "path escapes the project root (".to_owned();
            s.append(&self.holdings.root);
            s.append(")");
            return Err(s);
        }
        Ok(Place { asked: path.to_owned(), path: found })
    }

    /// What a read gives back, from what became of reading the resolved file.
    pub fn read_file(&self, place: &Place, read: Result<String, String>) -> (r: Result<
        String,
        String,
    >)
        ensures
            match (r, read) {
                (Ok(t), Ok(contents)) => t@ == truncated(contents@, MAX_OUTPUT as nat),
                (Err(s), Err(e)) => s@ == place.name() + ": "@ + e@,
                _ => false,
            },
    {
        match read {
            Ok(contents) => Ok(truncate(&contents, MAX_OUTPUT)),
            Err(e) => {
                let mut s = place.asked.clone();
                s.append(": ");
                s.append(&e);
                Err(s)
            },
        }
    }

    /// What a write gives back, from what became of writing the resolved file.
    pub fn write_file(&self, place: &Place, contents: &str, written: Result<(), String>) -> (r: Result<
        String,
        String,
    >)
        ensures
            match (r, written) {
                (Ok(t), Ok(_)) => t@ == "wrote "@ + place.name() + " ("@ + text::decimal(
                    text::size(contents@),
                ) + " bytes)"@,
                (Err(s), Err(e)) => s@ == place.name() + ": "@ + e@,
                _ => false,
            },
    {
        match written {
            Ok(_) => {
                let mut s = "wrote ".to_owned();
                s.append(&place.asked);
                s.append(" (");
                s.append(&text::decimal_of(text::byte_len(contents) as u64));
                s.append(" bytes)");
                Ok(s)
            },
            Err(e) => {
                let mut s = place.asked.clone();
                s.append(": ");
                s.append(&e);
                Err(s)
            },
        }
    }

    /// Check a command without running it. Separated so an approval prompt can
    /// describe exactly what would happen.
    pub fn check(&self, argv: &[String]) -> (r: Result<(), String>)
        ensures
            text::verdict(r) == command_verdict(self.allowlist(), text::texts(argv@)),
    {
        if argv.len() == 0 {
            return Err("empty command".to_owned());
        }
        let ghost words = text::texts(argv@);
        let program = &argv[0];
        if text::has_char(program, '/') {
            return Err("give a bare command name, not a path".to_owned());
        }
        if !text::has_text(&self.holdings.allowed, program) {
            let mut s = program.clone();
            s.append(" is not on the allowlist (");
            s.append(&text::join(&self.holdings.allowed, ", "));
            s.append(")");
            return Err(s);
        }
        let args = slice_subrange(argv, 1, argv.len());
        assert(text::texts(args@) =~= words.skip(1));
        let sub = subcommand_allowed(program, args);
        if sub.is_err() {
            return sub;
        }
        match find_shell_syntax(argv) {
            Some(i) => {
                let mut s = "argument ".to_owned();
                s.append(&text::debug_text(&argv[i]));
                s.append(
                    " looks like shell syntax; commands run without a shell, so pass a plain argument list instead",
                );
                Err(s)
            },
            None => Ok(()),
        }
    }

    fn note(&mut self, argv: &[String], allowed: bool, exit_code: Option<i32>, reason: Option<String>)
        ensures
            final(self).base() == old(self).base(),
            final(self).allowlist() == old(self).allowlist(),
            final(self).mode() == old(self).mode(),
            final(self).records() == old(self).records().push(
                CommandRecordView {
                    argv: text::texts(argv@),
                    allowed,
                    exit_code,
                    reason: text::opt_text(reason),
                },
            ),
    {
        let record = CommandRecord { argv: text::copy_texts(argv), allowed, exit_code, reason };
        self.holdings.log.push(record);
        assert(self.records() =~= old(self).records().push(record@));
    }

    /// Ask to run a command inside the project root.
    ///
    /// A command that is refused is logged. One that is not comes back as a
    /// [`Job`], to be executed directly, never via a shell.
    pub fn run(&mut self, argv: &[String]) -> (r: Result<Job, String>)
        ensures
            final(self).base() == old(self).base(),
            final(self).allowlist() == old(self).allowlist(),
            final(self).mode() == old(self).mode(),
            match r {
                Ok(job) => {
                    &&& admission(
                        old(self).mode(),
                        old(self).allowlist(),
                        text::texts(argv@),
                    ) is Ok
                    &&& job.command() == text::texts(argv@)
                    &&& job.asks() == (old(self).mode() == ApprovalMode::Ask)
                    &&& final(self).records() == old(self).records()
                },
                Err(e) => {
                    &&& admission(old(self).mode(), old(self).allowlist(), text::texts(argv@))
                        == Err::<(), Seq<char>>(e@)
                    &&& final(self).records() == old(self).records().push(
                        refusal_record(
                            old(self).mode(),
                            old(self).allowlist(),
                            text::texts(argv@),
                        ),
                    )
                },
            },
    {
        if self.approval == ApprovalMode::Never {
            self.note(argv, false, None, Some("command execution is disabled".to_owned()));
            return Err("command execution is disabled for this run".to_owned());
        }
        match self.check(argv) {
            Err(reason) => {
                self.note(argv, false, None, Some(reason.clone()));
                Err(reason)
            },
            Ok(_) => Ok(
                Job { argv: text::copy_texts(argv), ask: self.approval == ApprovalMode::Ask },
            ),
        }
    }

    /// What to do with a job after an event, with the record that it leaves.
    ///
    /// The caller polls rather than blocks, so a runaway command is killed
    /// rather than hanging the whole run.
    pub fn step(&mut self, job: &Job, event: Event) -> (r: Reaction)
        ensures
            r@ == reaction(job.command(), event@),
            final(self).base() == old(self).base(),
            final(self).allowlist() == old(self).allowlist(),
            final(self).mode() == old(self).mode(),
            final(self).records() == match record_of(job.command(), event@) {
                Some(record) => old(self).records().push(record),
                None => old(self).records(),
            },
    {
        match event {
            Event::Declined => {
                let s = "the command was not approved".to_owned();
                self.note(&job.argv, false, None, Some(s.clone()));
                Reaction::Done(Err(s))
            },
            Event::StartFailed(e) => {
                let mut s = "could not start ".to_owned();
                s.append(&first_of(&job.argv));
                s.append(": ");
                s.append(&e);
                self.note(&job.argv, true, None, Some(s.clone()));
                Reaction::Done(Err(s))
            },
            Event::WaitFailed(e) => {
                self.note(&job.argv, true, None, Some(e.clone()));
                Reaction::Done(Err(e))
            },
            Event::Running(nanos) => {
                if nanos <= TIMEOUT * 1_000_000_000 {
                    return Reaction::Wait;
                }
                self.note(&job.argv, true, None, Some("timed out".to_owned()));
                let mut s = text::join(&job.argv, " ");
                s.append(" timed out after ");
                s.append(&text::decimal_of(TIMEOUT));
                s.append("s and was killed");
                Reaction::Kill(s)
            },
            Event::Exited(code, out, err) => {
                self.note(&job.argv, true, code, None);
                let mut s = out;
                if !err.as_str().is_empty() {
                    s.append("\n[stderr]\n");
                    s.append(&err);
                }
                s.append("\n[exit ");
                let exit: i32 = match code {
                    Some(c) => c,
                    None => -1,
                };
                s.append(&text::signed_decimal_of(exit));
                s.append("]");
                Reaction::Done(Ok(truncate(&s, MAX_OUTPUT)))
            },
        }
    }
}

// ---------------------------------------------------------------------- laws

/// Whatever the file system answers, a path that resolves lies inside the
/// project root, and was asked for by a relative path without `..`.
pub proof fn law_resolved_path_is_confined(
    root: Seq<char>,
    path: Seq<char>,
    whole: FoundView,
    holder: Option<Seq<char>>,
)
    requires
        resolution(root, path, whole, holder) is Ok,
    ensures
        within(resolution(root, path, whole, holder)->Ok_0, root),
        !is_absolute(path),
        !climbs(path),
{
}

/// A path whose canonical form lies outside the root is refused however
/// innocent its spelling, and so is a link that leads nowhere, wherever its
/// target would be.
pub proof fn law_escape_is_refused(
    root: Seq<char>,
    path: Seq<char>,
    target: Seq<char>,
    holder: Option<Seq<char>>,
)
    requires
        !within(target, root),
    ensures
        resolution(root, path, FoundView::At(target), holder) is Err,
        resolution(root, path, FoundView::BrokenLink, holder) is Err,
{
}

/// A command that passes the check is on the allowlist by its bare name, keeps
/// to the permitted subcommands of `git` and `cargo`, and has no shell operator
/// in any argument.
pub proof fn law_checked_command_is_harmless(allowed: Seq<Seq<char>>, argv: Seq<Seq<char>>)
    requires
        command_verdict(allowed, argv) is Ok,
    ensures
        argv.len() > 0,
        allowed.contains(argv[0]),
        !argv[0].contains('/'),
        argv[0] == "git"@ ==> argv.len() > 1 && git_read_only().contains(argv[1]),
        argv[0] == "cargo"@ ==> argv.len() > 1 && cargo_safe().contains(argv[1]),
        forall|i: int| 1 <= i < argv.len() ==> !shell_syntax(#[trigger] argv[i]),
{
    assert forall|i: int| 1 <= i < argv.len() implies !shell_syntax(#[trigger] argv[i]) by {
        lemma_no_shell_syntax(argv, 1, i);
    }
    lemma_subcommands_are_not_empty();
    reveal_strlit("git");
    reveal_strlit("cargo");
    assert("git"@.len() != "cargo"@.len());
}

proof fn lemma_no_shell_syntax(argv: Seq<Seq<char>>, from: int, i: int)
    requires
        0 <= from <= i < argv.len(),
        first_shell_syntax(argv, from) is None,
    ensures
        !shell_syntax(argv[i]),
    decreases i - from,
{
    if from < i {
        lemma_no_shell_syntax(argv, from + 1, i);
    }
}

proof fn lemma_subcommands_are_not_empty()
    ensures
        !git_read_only().contains(Seq::<char>::empty()),
        !cargo_safe().contains(Seq::<char>::empty()),
{
    reveal_strlit("status");
    reveal_strlit("diff");
    reveal_strlit("log");
    reveal_strlit("show");
    reveal_strlit("branch");
    reveal_strlit("blame");
    reveal_strlit("ls-files");
    reveal_strlit("rev-parse");
    reveal_strlit("build");
    reveal_strlit("test");
    reveal_strlit("check");
    reveal_strlit("run");
    reveal_strlit("fmt");
    reveal_strlit("clippy");
    reveal_strlit("tree");
    let git = git_read_only();
    let cargo = cargo_safe();
    assert(git[0] == "status"@ && "status"@.len() == 6);
    assert(git[1] == "diff"@ && "diff"@.len() == 4);
    assert(git[2] == "log"@ && "log"@.len() == 3);
    assert(git[3] == "show"@ && "show"@.len() == 4);
    assert(git[4] == "branch"@ && "branch"@.len() == 6);
    assert(git[5] == "blame"@ && "blame"@.len() == 5);
    assert(git[6] == "ls-files"@ && "ls-files"@.len() == 8);
    assert(git[7] == "rev-parse"@ && "rev-parse"@.len() == 9);
    assert(cargo[0] == "build"@ && "build"@.len() == 5);
    assert(cargo[1] == "test"@ && "test"@.len() == 4);
    assert(cargo[2] == "check"@ && "check"@.len() == 5);
    assert(cargo[3] == "run"@ && "run"@.len() == 3);
    assert(cargo[4] == "fmt"@ && "fmt"@.len() == 3);
    assert(cargo[5] == "clippy"@ && "clippy"@.len() == 6);
    assert(cargo[6] == "tree"@ && "tree"@.len() == 4);
}

/// When commands are switched off none is admitted.
pub proof fn law_never_mode_admits_nothing(allowed: Seq<Seq<char>>, argv: Seq<Seq<char>>)
    ensures
        admission(ApprovalMode::Never, allowed, argv) is Err,
{
}

/// Every job leaves exactly one record: an event leaves one if and only if it
/// ends the job, and the record shows the command and that it was admitted
/// unless the caller declined it.
pub proof fn law_every_job_is_logged_once(argv: Seq<Seq<char>>, event: EventView)
    ensures
        record_of(argv, event) is None <==> reaction(argv, event) is Wait,
        record_of(argv, event) matches Some(r) ==> r.argv == argv && r.allowed == !(event
            is Declined),
{
}

/// A command that was attempted, and all that was seen of it.
pub struct Attempt {
    pub argv: Seq<Seq<char>>,
    pub events: Seq<EventView>,
}

/// The log after some events of a job.
pub open spec fn after_events(
    log: Seq<CommandRecordView>,
    argv: Seq<Seq<char>>,
    events: Seq<EventView>,
) -> Seq<CommandRecordView>
    decreases events.len(),
{
    if events.len() == 0 {
        log
    } else {
        let before = after_events(log, argv, events.drop_last());
        match record_of(argv, events.last()) {
            Some(r) => before.push(r),
            None => before,
        }
    }
}

/// The log after an attempt: a command that is refused leaves its record at
/// once, one that is admitted leaves those of its events.
pub open spec fn after_attempt(
    mode: ApprovalMode,
    allowed: Seq<Seq<char>>,
    log: Seq<CommandRecordView>,
    a: Attempt,
) -> Seq<CommandRecordView> {
    if admission(mode, allowed, a.argv) is Err {
        log.push(refusal_record(mode, allowed, a.argv))
    } else {
        after_events(log, a.argv, a.events)
    }
}

/// The log after a sequence of attempts.
pub open spec fn after_attempts(
    mode: ApprovalMode,
    allowed: Seq<Seq<char>>,
    log: Seq<CommandRecordView>,
    attempts: Seq<Attempt>,
) -> Seq<CommandRecordView>
    decreases attempts.len(),
{
    if attempts.len() == 0 {
        log
    } else {
        after_attempt(
            mode,
            allowed,
            after_attempts(mode, allowed, log, attempts.drop_last()),
            attempts.last(),
        )
    }
}

/// The attempt is over: the command was refused, or the last event and no other
/// ended its job.
pub open spec fn is_over(mode: ApprovalMode, allowed: Seq<Seq<char>>, a: Attempt) -> bool {
    admission(mode, allowed, a.argv) is Err || {
        &&& a.events.len() > 0
        &&& !(reaction(a.argv, a.events.last()) is Wait)
        &&& forall|i: int|
            0 <= i < a.events.len() - 1 ==> reaction(a.argv, #[trigger] a.events[i]) is Wait
    }
}

/// The command was admitted, and not declined by the caller.
pub open spec fn was_allowed(mode: ApprovalMode, allowed: Seq<Seq<char>>, a: Attempt) -> bool {
    admission(mode, allowed, a.argv) is Ok && !(a.events.last() is Declined)
}

/// The log is append-only and holds every attempt: a sequence of attempts that
/// are over adds exactly one record for each, in order, with its command, and
/// shows as allowed those that were admitted and not declined.
pub proof fn law_log_holds_every_attempt(
    mode: ApprovalMode,
    allowed: Seq<Seq<char>>,
    log: Seq<CommandRecordView>,
    attempts: Seq<Attempt>,
)
    requires
        forall|i: int|
            0 <= i < attempts.len() ==> is_over(mode, allowed, #[trigger] attempts[i]),
    ensures
        ({
            let after = after_attempts(mode, allowed, log, attempts);
            &&& after.len() == log.len() + attempts.len()
            &&& log.is_prefix_of(after)
            &&& forall|i: int|
                #![trigger attempts[i]]
                0 <= i < attempts.len() ==> {
                    &&& after[log.len() + i].argv == attempts[i].argv
                    &&& after[log.len() + i].allowed == was_allowed(mode, allowed, attempts[i])
                }
        }),
    decreases attempts.len(),
{
    if attempts.len() == 0 {
        assert(log =~= log.take(log.len() as int));
    } else {
        let head = attempts.drop_last();
        let a = attempts.last();
        assert(is_over(mode, allowed, attempts[attempts.len() - 1]));
        assert forall|i: int| 0 <= i < head.len() implies is_over(
            mode,
            allowed,
            #[trigger] head[i],
        ) by {
            assert(is_over(mode, allowed, attempts[i]));
        }
        law_log_holds_every_attempt(mode, allowed, log, head);
        let before = after_attempts(mode, allowed, log, head);
        let after = after_attempts(mode, allowed, log, attempts);
        if admission(mode, allowed, a.argv) is Ok {
            lemma_waiting_leaves_no_record(before, a.argv, a.events.drop_last());
        }
        assert(after.drop_last() =~= before);
        assert(log =~= after.take(log.len() as int));
        assert forall|i: int| #![trigger attempts[i]] 0 <= i < attempts.len() implies {
            &&& after[log.len() + i].argv == attempts[i].argv
            &&& after[log.len() + i].allowed == was_allowed(mode, allowed, attempts[i])
        } by {
            if i < head.len() {
                assert(head[i] == attempts[i]);
                assert(after[log.len() + i] == before[log.len() + i]);
            }
        }
    }
}

proof fn lemma_waiting_leaves_no_record(
    log: Seq<CommandRecordView>,
    argv: Seq<Seq<char>>,
    events: Seq<EventView>,
)
    requires
        forall|i: int| 0 <= i < events.len() ==> reaction(argv, #[trigger] events[i]) is Wait,
    ensures
        after_events(log, argv, events) == log,
    decreases events.len(),
{
    if events.len() > 0 {
        assert(reaction(argv, events[events.len() - 1]) is Wait);
        lemma_waiting_leaves_no_record(log, argv, events.drop_last());
    }
}

/// A text that fits is handed back whole. Of a longer one the longest start
/// that fits is kept, in front of the note.
pub proof fn law_truncation_keeps_the_longest_start(s: Seq<char>, max: nat)
    ensures
        text::size(s) <= max ==> truncated(s, max) == s,
        text::size(s) > max ==> {
            let k = text::fitting(s, max) as int;
            &&& s.take(k).is_prefix_of(truncated(s, max))
            &&& text::size(s.take(k)) <= max
            &&& forall|j: int| k < j <= s.len() ==> text::size(#[trigger] s.take(j)) > max
        },
{
    text::lemma_fitting(s, max);
    if text::size(s) > max {
        let k = text::fitting(s, max) as int;
        assert(s.take(k) =~= truncated(s, max).take(k));
    }
}

/// A command that is on the allowlist by its bare name, keeps to the permitted
/// subcommands of `git` and `cargo`, and has no shell operator in any argument
/// passes the check.
pub proof fn law_harmless_command_passes(allowed: Seq<Seq<char>>, argv: Seq<Seq<char>>)
    requires
        argv.len() > 0,
        allowed.contains(argv[0]),
        !argv[0].contains('/'),
        argv[0] == "git"@ ==> argv.len() > 1 && git_read_only().contains(argv[1]),
        argv[0] == "cargo"@ ==> argv.len() > 1 && cargo_safe().contains(argv[1]),
        forall|i: int| 1 <= i < argv.len() ==> !shell_syntax(#[trigger] argv[i]),
    ensures
        command_verdict(allowed, argv) is Ok,
        admission(ApprovalMode::Auto, allowed, argv) is Ok,
        admission(ApprovalMode::Ask, allowed, argv) is Ok,
{
    lemma_all_plain(argv, 1);
    if argv.len() > 1 {
        assert(argv.skip(1)[0] == argv[1]);
    }
}

proof fn lemma_all_plain(argv: Seq<Seq<char>>, from: int)
    requires
        1 <= from,
        forall|i: int| 1 <= i < argv.len() ==> !shell_syntax(#[trigger] argv[i]),
    ensures
        first_shell_syntax(argv, from) is None,
    decreases argv.len() - from,
{
    if from < argv.len() {
        assert(!shell_syntax(argv[from]));
        lemma_all_plain(argv, from + 1);
    }
}

/// Shell operators are the separators, pipes, background and redirection marks,
/// backquotes and command substitution; a text without any of them is plain.
pub proof fn law_shell_operators(a: Seq<char>, c: char, b: Seq<char>)
    ensures
        c == ';' || c == '|' || c == '&' || c == '`' || c == '>' || c == '<' ==> shell_syntax(
            a.push(c) + b,
        ),
        shell_syntax(a + "$("@ + b),
        (forall|i: int|
            0 <= i < a.len() ==> {
                let d = #[trigger] a[i];
                d != ';' && d != '|' && d != '&' && d != '`' && d != '>' && d != '<' && d != '$'
            }) ==> !shell_syntax(a),
{
    let s = a.push(c) + b;
    assert(s[a.len() as int] == c);
    assert(s.contains(c));
    text::law_parts_of_a_text(a, b, "$("@);
    reveal_strlit("$(");
    if shell_syntax(a) && text::contains_text(a, "$("@) {
        let i = choose|i: int| #[trigger] text::occurs_at(a, "$("@, i);
        assert(a.subrange(i, i + 2)[0] == '$');
        assert(a[i] == '$');
    }
}

/// The commands that may run at all, and the subcommands of `git` and `cargo`
/// that may: those of `git` only look.
pub proof fn law_commands_that_may_run(name: Seq<char>)
    ensures
        default_allowed().contains(name) <==> name == "bkt"@ || name == "cargo"@ || name == "ls"@
            || name == "cat"@ || name == "head"@ || name == "tail"@ || name == "wc"@ || name
            == "grep"@ || name == "rg"@ || name == "find"@ || name == "git"@ || name == "echo"@
            || name == "diff"@,
        git_read_only().contains(name) <==> name == "status"@ || name == "diff"@ || name == "log"@
            || name == "show"@ || name == "branch"@ || name == "blame"@ || name == "ls-files"@
            || name == "rev-parse"@,
        cargo_safe().contains(name) <==> name == "build"@ || name == "test"@ || name == "check"@
            || name == "run"@ || name == "fmt"@ || name == "clippy"@ || name == "tree"@,
{
    let all = default_allowed();
    let git = git_read_only();
    let cargo = cargo_safe();
    assert(all[0] == "bkt"@ && all[1] == "cargo"@ && all[2] == "ls"@ && all[3] == "cat"@ && all[4]
        == "head"@ && all[5] == "tail"@ && all[6] == "wc"@ && all[7] == "grep"@ && all[8] == "rg"@
        && all[9] == "find"@ && all[10] == "git"@ && all[11] == "echo"@ && all[12] == "diff"@);
    assert(git[0] == "status"@ && git[1] == "diff"@ && git[2] == "log"@ && git[3] == "show"@
        && git[4] == "branch"@ && git[5] == "blame"@ && git[6] == "ls-files"@ && git[7]
        == "rev-parse"@);
    assert(cargo[0] == "build"@ && cargo[1] == "test"@ && cargo[2] == "check"@ && cargo[3]
        == "run"@ && cargo[4] == "fmt"@ && cargo[5] == "clippy"@ && cargo[6] == "tree"@);
}

/// A refused command is told what was wrong with it: the name that is not on the
/// list, the subcommand that is not permitted, or that it was empty, a path, or
/// written for a shell.
pub proof fn law_refused_command_is_told_why(allowed: Seq<Seq<char>>, argv: Seq<Seq<char>>)
    ensures
        argv.len() == 0 ==> command_verdict(allowed, argv) == Err::<(), Seq<char>>(
            "empty command"@,
        ),
        argv.len() > 0 && argv[0].contains('/') ==> command_verdict(allowed, argv) == Err::<
            (),
            Seq<char>,
        >("give a bare command name, not a path"@),
        argv.len() > 0 && !argv[0].contains('/') && !allowed.contains(argv[0]) ==> (command_verdict(
            allowed,
            argv,
        ) matches Err(e) && text::starts_with(e, argv[0]) && text::contains_text(
            e,
            text::joined(allowed, ", "@),
        )),
        argv.len() > 1 && allowed.contains(argv[0]) && argv[0] == "git"@
            && !git_read_only().contains(argv[1]) ==> (command_verdict(allowed, argv) matches Err(e)
            && text::contains_text(e, argv[1])),
        argv.len() > 1 && allowed.contains(argv[0]) && argv[0] == "cargo"@
            && !cargo_safe().contains(argv[1]) ==> (command_verdict(allowed, argv) matches Err(e)
            && text::contains_text(e, argv[1])),
{
    reveal_strlit("git");
    reveal_strlit("cargo");
    assert("git"@.len() != "cargo"@.len());
    assert(!"git"@.contains('/'));
    assert(!"cargo"@.contains('/'));
    if argv.len() > 0 {
        let list = text::joined(allowed, ", "@);
        let w = " is not on the allowlist ("@;
        text::law_parts_of_a_text(argv[0] + w, ")"@, list);
        text::law_parts_of_a_text(Seq::empty(), w + list + ")"@, argv[0]);
        assert(argv[0] + w + list + ")"@ =~= argv[0] + (w + list + ")"@));
    }
    if argv.len() > 1 {
        assert(argv.skip(1)[0] == argv[1]);
        let git = text::joined(git_read_only(), ", "@);
        let cargo = text::joined(cargo_safe(), ", "@);
        let w = " is not permitted; only "@;
        text::law_parts_of_a_text("git "@, w + git + " are"@, argv[1]);
        assert("git "@ + argv[1] + w + git + " are"@ =~= "git "@ + argv[1] + (w + git + " are"@));
        text::law_parts_of_a_text("cargo "@, w + cargo + " are"@, argv[1]);
        assert("cargo "@ + argv[1] + w + cargo + " are"@ =~= "cargo "@ + argv[1] + (w + cargo
            + " are"@));
    }
}

/// A path climbs when one of its parts is `..`: the parts are looked at one by
/// one.
pub proof fn law_climbing_is_a_part(a: Seq<char>, b: Seq<char>)
    ensures
        climbs(a.push('/') + b) <==> climbs(a) || climbs(b),
        !a.contains('/') ==> (climbs(a) <==> a == ".."@),
{
    let cut = text::Cut::At('/');
    text::law_pieces_part_at_cuts(a, '/', b, cut);
    let x = text::pieces(a, cut);
    let y = text::pieces(b, cut);
    if x.contains(".."@) {
        let i = choose|i: int| 0 <= i < x.len() && x[i] == ".."@;
        assert((x + y)[i] == ".."@);
    }
    if y.contains(".."@) {
        let i = choose|i: int| 0 <= i < y.len() && y[i] == ".."@;
        assert((x + y)[x.len() + i] == ".."@);
    }
    if !a.contains('/') {
        assert forall|i: int| 0 <= i < a.len() implies !text::cuts(cut, #[trigger] a[i]) by {
            assert(a.contains(a[i]));
        }
        assert(x == seq![a]);
        assert(x[0] == a);
    }
}

/// A path is within a directory when its parts begin with all of those of the
/// directory, both being absolute or neither: a name that merely starts alike is
/// not within.
pub proof fn law_within_goes_by_parts(path: Seq<char>, dir: Seq<char>, rest: Seq<char>)
    ensures
        within(path, dir) <==> {
            &&& is_absolute(path) <==> is_absolute(dir)
            &&& parts(dir).len() <= parts(path).len()
            &&& forall|i: int|
                0 <= i < parts(dir).len() ==> #[trigger] parts(dir)[i] == parts(path)[i]
        },
        dir.len() > 0 ==> within(dir.push('/') + rest, dir),
        parts(dir.push('/') + rest) == parts(dir) + parts(rest),
{
    let cut = text::Cut::At('/');
    text::law_words_part_at_cuts(dir, '/', rest, cut);
    let p = parts(dir.push('/') + rest);
    assert(p.subrange(0, parts(dir).len() as int) =~= parts(dir));
    if dir.len() > 0 {
        assert((dir.push('/') + rest)[0] == dir[0]);
    }
    if parts(dir).len() <= parts(path).len() {
        if forall|i: int| 0 <= i < parts(dir).len() ==> #[trigger] parts(dir)[i] == parts(path)[i] {
            assert(parts(path).subrange(0, parts(dir).len() as int) =~= parts(dir));
        }
        if parts(dir).is_prefix_of(parts(path)) {
            assert forall|i: int| 0 <= i < parts(dir).len() implies #[trigger] parts(dir)[i]
                == parts(path)[i] by {
                assert(parts(path).subrange(0, parts(dir).len() as int)[i] == parts(path)[i]);
            }
        }
    }
}

/// A path is joined to a directory with one slash between them.
pub proof fn law_paths_are_joined_with_one_slash(dir: Seq<char>, path: Seq<char>)
    ensures
        dir.len() > 0 && dir.last() == '/' ==> joined_path(dir, path) == dir + path,
        dir.len() == 0 || dir.last() != '/' ==> joined_path(dir, path) == dir.push('/') + path,
{
    reveal_strlit("/");
    assert(dir + "/"@ =~= dir.push('/'));
}

/// The last part of a path is its file name and what is before it its directory;
/// slashes at the end do not matter, and `..` is no file name.
pub proof fn law_last_part_is_the_file_name(dir: Seq<char>, name: Seq<char>)
    requires
        name.len() > 0,
        !name.contains('/'),
        name != "."@,
    ensures
        name != ".."@ ==> file_name(dir.push('/') + name) == Some(name) && file_name(name) == Some(
            name,
        ),
        name == ".."@ ==> file_name(dir.push('/') + name) is None && file_name(name) is None,
        dir.len() > 0 && settled(dir) == dir ==> parent(dir.push('/') + name) == Some(dir),
        parent(seq!['/'] + name) == Some("/"@),
        parent(name) == Some(Seq::<char>::empty()),
        settled(dir.push('/')) == settled(dir),
        file_name(dir.push('/')) == file_name(dir),
        parent(dir.push('/')) == parent(dir),
{
    reveal_strlit(".");
    reveal_strlit("..");
    reveal_strlit("/");
    assert("/"@ =~= seq!['/']);
    let t = dir.push('/') + name;
    let n = t.len() as int;
    assert(name.contains(name.last()));
    assert(t.last() == name.last());
    assert(name.last() != '/');
    if name.len() == 1 {
        if name[0] == '.' {
            assert(name =~= "."@);
        }
    } else {
        assert(t[n - 2] == name[name.len() - 2]);
        assert(name.contains(name[name.len() - 2]));
    }
    assert(settled(t) == t);
    lemma_after_last_slash(dir, name);
    assert(t.skip((dir.len() + 1) as int) =~= name);
    assert(t.take((dir.len() + 1) as int) =~= dir.push('/'));
    assert(dir.push('/').drop_last() =~= dir);
    assert(settled(dir.push('/')) == settled(dir));
    // A bare name.
    assert(settled(name) == name);
    text::law_after_last_is_the_last(name, '/', name.len() as int);
    let k = text::after_last(name, '/', name.len() as int);
    if k > 0 {
        assert(name.contains(name[k - 1]));
    }
    assert(name.skip(0) =~= name);
    assert(name.take(0) =~= Seq::<char>::empty());
    // A name at the root.
    let none = Seq::<char>::empty();
    let r = seq!['/'] + name;
    lemma_after_last_slash(none, name);
    assert(none.push('/') + name =~= r);
    assert(r.last() == name.last());
    if name.len() > 1 {
        assert(r[r.len() - 2] == name[name.len() - 2]);
    }
    assert(settled(r) == r);
    assert(r.take(1).drop_last() =~= none);
    assert(r.take(1).last() == '/');
    assert(settled(r.take(1)) == none);
}

proof fn lemma_after_last_slash(dir: Seq<char>, name: Seq<char>)
    requires
        !name.contains('/'),
    ensures
        ({
            let t = dir.push('/') + name;
            text::after_last(t, '/', t.len() as int) == dir.len() + 1
        }),
{
    let t = dir.push('/') + name;
    let n = t.len() as int;
    text::law_after_last_is_the_last(t, '/', n);
    let k = text::after_last(t, '/', n);
    assert(t[dir.len() as int] == '/');
    if k > dir.len() + 1 {
        assert(t[k - 1] == name[k - 1 - dir.len() - 1]);
        assert(name.contains(name[k - 1 - dir.len() - 1]));
    }
}

/// What is inside the root resolves: an existing file to its canonical place, a
/// file that is not there yet to its name in the canonical directory.
pub proof fn law_path_inside_resolves(
    root: Seq<char>,
    path: Seq<char>,
    at: Seq<char>,
    holder: Seq<char>,
    name: Seq<char>,
)
    requires
        !is_absolute(path),
        !climbs(path),
    ensures
        within(at, root) ==> resolution(root, path, FoundView::At(at), None) == Ok::<
            Seq<char>,
            Seq<char>,
        >(at),
        parent(joined_path(root, path)) is Some && file_name(joined_path(root, path)) == Some(name)
            && within(joined_path(holder, name), root) ==> resolution(
            root,
            path,
            FoundView::Missing,
            Some(holder),
        ) == Ok::<Seq<char>, Seq<char>>(joined_path(holder, name)),
        resolution(root, path, FoundView::Missing, None) is Err,
        lookup(root, path) == Ok::<Seq<char>, Seq<char>>(joined_path(root, path)),
{
}

/// What a command gave is shown whole: its output first, its error output under
/// a heading of its own where there is any, and its exit code last; `-1` stands
/// for a code that there was none of.
pub proof fn law_output_ends_with_the_exit_code(
    code: i32,
    out: Seq<char>,
    err: Seq<char>,
)
    ensures
        combined_output(Some(code), out, Seq::empty()) == out + "\n[exit "@ + text::signed_decimal(
            code as int,
        ) + "]"@,
        err.len() > 0 ==> combined_output(Some(code), out, err) == out + "\n[stderr]\n"@ + err
            + "\n[exit "@ + text::signed_decimal(code as int) + "]"@,
        combined_output(None, out, err) == combined_output(Some((-1) as i32), out, err),
{
}

/// What becomes of each event: a command runs on for a minute and is killed
/// after that; one that ends is answered with its output, cut to size; one that
/// was declined, or could not be started or waited for, with an error.
pub proof fn law_events_are_answered(
    argv: Seq<Seq<char>>,
    nanos: u64,
    code: Option<i32>,
    out: Seq<char>,
    err: Seq<char>,
)
    ensures
        nanos <= 60_000_000_000 ==> reaction(argv, EventView::Running(nanos)) == ReactionView::Wait,
        nanos > 60_000_000_000 ==> reaction(argv, EventView::Running(nanos)) is Kill,
        reaction(argv, EventView::Exited(code, out, err)) == ReactionView::Done(
            Ok(truncated(combined_output(code, out, err), 16_000)),
        ),
        reaction(argv, EventView::Declined) matches ReactionView::Done(Err(_)),
        reaction(argv, EventView::WaitFailed(err)) == ReactionView::Done(Err(err)),
        argv.len() > 0 ==> (reaction(argv, EventView::StartFailed(err)) matches ReactionView::Done(
            Err(e),
        ) && text::contains_text(e, argv[0]) && text::ends_with(e, err)),
{
    if argv.len() > 0 {
        let e = "could not start "@ + argv[0] + ": "@ + err;
        text::law_parts_of_a_text("could not start "@, ": "@ + err, argv[0]);
        assert(e =~= "could not start "@ + argv[0] + (": "@ + err));
        text::law_parts_of_a_text("could not start "@ + argv[0] + ": "@, Seq::empty(), err);
    }
}

/// A record tells how a job went: the exit code of one that ended, and the
/// reason, which is what was answered, for one that did not.
pub proof fn law_records_tell_the_outcome(
    argv: Seq<Seq<char>>,
    code: Option<i32>,
    out: Seq<char>,
    err: Seq<char>,
    nanos: u64,
)
    ensures
        record_of(argv, EventView::Exited(code, out, err)) matches Some(r) && r.exit_code == code
            && r.reason is None,
        record_of(argv, EventView::Declined) matches Some(r) && r.exit_code is None && reaction(
            argv,
            EventView::Declined,
        ) == ReactionView::Done(Err(r.reason->0)) && r.reason is Some,
        record_of(argv, EventView::StartFailed(err)) matches Some(r) && r.exit_code is None
            && reaction(argv, EventView::StartFailed(err)) == ReactionView::Done(
            Err(r.reason->0),
        ) && r.reason is Some,
        record_of(argv, EventView::WaitFailed(err)) matches Some(r) && r.exit_code is None
            && r.reason == Some(err),
        record_of(argv, EventView::Running(nanos)) matches Some(r) ==> r.exit_code is None
            && r.reason == Some("timed out"@),
{
}

/// A command that is not admitted is recorded as such, with the reason.
pub proof fn law_refusals_are_recorded(allowed: Seq<Seq<char>>, argv: Seq<Seq<char>>)
    ensures
        ({
            let r = refusal_record(ApprovalMode::Never, allowed, argv);
            r.argv == argv && !r.allowed && r.exit_code is None && r.reason == Some(
                "command execution is disabled"@,
            )
        }),
        command_verdict(allowed, argv) matches Err(e) ==> ({
            let r = refusal_record(ApprovalMode::Auto, allowed, argv);
            r.argv == argv && !r.allowed && r.exit_code is None && r.reason == Some(e)
        }),
        refusal_record(ApprovalMode::Ask, allowed, argv) == refusal_record(
            ApprovalMode::Auto,
            allowed,
            argv,
        ),
        admission(ApprovalMode::Auto, allowed, argv) == command_verdict(allowed, argv),
        admission(ApprovalMode::Ask, allowed, argv) == command_verdict(allowed, argv),
{
}

/// A text that was cut says how many bytes there were in all.
pub proof fn law_cut_text_tells_its_size(s: Seq<char>, max: nat)
    requires
        text::size(s) > max,
    ensures
        text::ends_with(
            truncated(s, max),
            "truncated, "@ + text::decimal(text::size(s)) + " bytes total"@,
        ),
{
    reveal_strlit("\n… truncated, ");
    reveal_strlit("truncated, ");
    let d = text::decimal(text::size(s));
    let note = "truncated, "@ + d + " bytes total"@;
    let t = truncated(s, max);
    let head = s.take(text::fitting(s, max) as int);
    text::lemma_fitting(s, max);
    assert(t == head + "\n… truncated, "@ + d + " bytes total"@);
    assert(t.subrange(t.len() - note.len(), t.len() as int) =~= note);
}

/// A command with shell syntax in an argument is refused, and the first such
/// argument is shown.
pub proof fn law_shell_syntax_is_refused(allowed: Seq<Seq<char>>, argv: Seq<Seq<char>>, i: int)
    requires
        1 <= i < argv.len(),
        shell_syntax(argv[i]),
        forall|j: int| 1 <= j < i ==> !shell_syntax(#[trigger] argv[j]),
    ensures
        command_verdict(allowed, argv) is Err,
        !argv[0].contains('/') && allowed.contains(argv[0]) && argv[0] != "git"@ && argv[0]
            != "cargo"@ ==> (command_verdict(allowed, argv) matches Err(e) && text::contains_text(
            e,
            text::quoted(argv[i]),
        )),
{
    lemma_first_shell_syntax(argv, 1, i);
    text::law_parts_of_a_text(
        "argument "@,
        " looks like shell syntax; commands run without a shell, so pass a plain argument list instead"@,
        text::quoted(argv[i]),
    );
}

proof fn lemma_first_shell_syntax(argv: Seq<Seq<char>>, from: int, i: int)
    requires
        1 <= from <= i < argv.len(),
        shell_syntax(argv[i]),
        forall|j: int| 1 <= j < i ==> !shell_syntax(#[trigger] argv[j]),
    ensures
        first_shell_syntax(argv, from) == Some(argv[i]),
    decreases i - from,
{
    if from < i {
        assert(!shell_syntax(argv[from]));
        lemma_first_shell_syntax(argv, from + 1, i);
    }
}

/// The modes go by their own names and no others.
pub proof fn law_approval_modes_are_named(s: Seq<char>)
    ensures
        ApprovalMode::named(s) == Some(ApprovalMode::Auto) <==> s == "auto"@,
        ApprovalMode::named(s) == Some(ApprovalMode::Ask) <==> s == "ask"@,
        ApprovalMode::named(s) == Some(ApprovalMode::Never) <==> s == "never"@,
{
    reveal_strlit("auto");
    reveal_strlit("ask");
    reveal_strlit("never");
    assert("auto"@.len() == 4 && "ask"@.len() == 3 && "never"@.len() == 5);
}

/// A dot as the last part does not matter either.
pub proof fn law_trailing_dots_do_not_matter(path: Seq<char>)
    ensures
        settled(path + seq!['/', '.']) == settled(path),
        parent(path + seq!['/', '.']) == parent(path),
        file_name(path + seq!['/', '.']) == file_name(path),
        path.len() > 0 && path.last() != '/' && path.last() != '.' ==> settled(path) == path,
{
    let t = path + seq!['/', '.'];
    assert(t.last() == '.' && t[t.len() - 2] == '/');
    assert(t.drop_last() =~= path.push('/'));
    assert(path.push('/').drop_last() =~= path);
    assert(path.push('/').last() == '/');
    assert(settled(path.push('/')) == settled(path));
}

/// A refused path is told the reason: an absolute one or one outside, the root
/// that it has to lie in; one whose directory is not there, that directory.
pub proof fn law_refused_path_is_told_why(
    root: Seq<char>,
    path: Seq<char>,
    at: Seq<char>,
    whole: FoundView,
    holder: Option<Seq<char>>,
)
    ensures
        is_absolute(path) ==> (resolution(root, path, whole, holder) matches Err(e)
            && text::ends_with(e, root)),
        !is_absolute(path) && climbs(path) ==> (resolution(root, path, whole, holder) matches Err(e)
            && e == "path may not contain '..'"@),
        !within(at, root) && !is_absolute(path) && !climbs(path) ==> (resolution(
            root,
            path,
            FoundView::At(at),
            holder,
        ) matches Err(e) && text::contains_text(e, root)),
        !is_absolute(path) && !climbs(path) ==> (parent(joined_path(root, path)) matches Some(dir)
            ==> (resolution(root, path, FoundView::Missing, None) matches Err(e)
            && text::ends_with(e, dir))),
        path.len() > 0 && path[0] == '/' ==> is_absolute(path),
        path.len() == 0 || path[0] != '/' ==> !is_absolute(path),
{
    lemma_ends("absolute paths are not allowed; give a path relative to "@, root);
    let head = "path escapes the project root ("@;
    let e = head + root + ")"@;
    assert(e.subrange(head.len() as int, (head.len() + root.len()) as int) =~= root);
    assert(text::occurs_at(e, root, head.len() as int));
    if let Some(dir) = parent(joined_path(root, path)) {
        lemma_ends("no such directory: "@, dir);
    }
}

proof fn lemma_ends(a: Seq<char>, b: Seq<char>)
    ensures
        text::ends_with(a + b, b),
{
    assert((a + b).subrange(a.len() as int, (a + b).len() as int) =~= b);
}

/// A command that is killed is told which it was.
pub proof fn law_killed_command_is_named(argv: Seq<Seq<char>>, nanos: u64)
    ensures
        reaction(argv, EventView::Running(nanos)) matches ReactionView::Kill(e)
            ==> text::starts_with(e, text::joined(argv, " "@)) && text::contains_text(
            e,
            text::decimal(60),
        ),
{
    let j = text::joined(argv, " "@);
    let w = " timed out after "@;
    let d = text::decimal(60);
    let x = "s and was killed"@;
    text::law_parts_of_a_text(Seq::empty(), w + d + x, j);
    assert(j + w + d + x =~= j + (w + d + x));
    text::law_parts_of_a_text(j + w, x, d);
}

/// What contracts say of records, events and reactions is what they hold, field
/// by field.
pub proof fn law_events_are_read_as_they_are(
    r: CommandRecord,
    code: Option<i32>,
    a: String,
    b: String,
    n: u64,
)
    ensures
        r@.argv == text::texts(r.argv@) && r@.allowed == r.allowed && r@.exit_code == r.exit_code
            && r@.reason == text::opt_text(r.reason),
        Found::At(a)@ == FoundView::At(a@),
        Found::Missing@ == FoundView::Missing,
        Found::BrokenLink@ == FoundView::BrokenLink,
        Event::Declined@ == EventView::Declined,
        Event::StartFailed(a)@ == EventView::StartFailed(a@),
        Event::WaitFailed(a)@ == EventView::WaitFailed(a@),
        Event::Running(n)@ == EventView::Running(n),
        Event::Exited(code, a, b)@ == EventView::Exited(code, a@, b@),
        Reaction::Wait@ == ReactionView::Wait,
        Reaction::Kill(a)@ == ReactionView::Kill(a@),
        Reaction::Done(Ok(a))@ == ReactionView::Done(Ok(a@)),
        Reaction::Done(Err(a))@ == ReactionView::Done(Err(a@)),
{
}

/// What is said of a path that is refused, word for word.
pub proof fn law_path_refusals(
    root: Seq<char>,
    path: Seq<char>,
    at: Seq<char>,
    dir: Seq<char>,
    holder: Seq<char>,
)
    ensures
        is_absolute(path) ==> lookup(root, path) == Err::<Seq<char>, Seq<char>>(
            "absolute paths are not allowed; give a path relative to "@ + root,
        ),
        !is_absolute(path) && !climbs(path) ==> ({
            let full = joined_path(root, path);
            let outside = "path escapes the project root ("@ + root + ")"@;
            &&& resolution(root, path, FoundView::BrokenLink, None) == Err::<Seq<char>, Seq<char>>(
                "path is a link that leads nowhere"@,
            )
            &&& !within(at, root) ==> resolution(root, path, FoundView::At(at), None) == Err::<
                Seq<char>,
                Seq<char>,
            >(outside)
            &&& parent(full) == Some(dir) ==> resolution(root, path, FoundView::Missing, None)
                == Err::<Seq<char>, Seq<char>>("no such directory: "@ + dir)
            &&& parent(full) is None ==> resolution(root, path, FoundView::Missing, None) == Err::<
                Seq<char>,
                Seq<char>,
            >("path has no parent"@)
            &&& parent(full) is Some && file_name(full) is None ==> resolution(
                root,
                path,
                FoundView::Missing,
                Some(holder),
            ) == Err::<Seq<char>, Seq<char>>("path has no file name"@)
        }),
{
}

/// What is said of a command that is refused or ends badly, word for word.
pub proof fn law_command_refusals(
    allowed: Seq<Seq<char>>,
    argv: Seq<Seq<char>>,
    e: Seq<char>,
    nanos: u64,
)
    requires
        argv.len() > 0,
    ensures
        admission(ApprovalMode::Never, allowed, argv) == Err::<(), Seq<char>>(
            "command execution is disabled for this run"@,
        ),
        !argv[0].contains('/') && !allowed.contains(argv[0]) ==> command_verdict(allowed, argv)
            == Err::<(), Seq<char>>(
            argv[0] + " is not on the allowlist ("@ + text::joined(allowed, ", "@) + ")"@,
        ),
        reaction(argv, EventView::Declined) == ReactionView::Done(
            Err("the command was not approved"@),
        ),
        reaction(argv, EventView::StartFailed(e)) == ReactionView::Done(
            Err("could not start "@ + argv[0] + ": "@ + e),
        ),
        nanos > 60_000_000_000 ==> reaction(argv, EventView::Running(nanos)) == ReactionView::Kill(
            text::joined(argv, " "@) + " timed out after "@ + text::decimal(60)
                + "s and was killed"@,
        ),
{
}

/// What is said of a subcommand that is not permitted, and of an argument with
/// shell syntax, word for word.
pub proof fn law_argument_refusals(allowed: Seq<Seq<char>>, argv: Seq<Seq<char>>)
    requires
        argv.len() > 1,
        allowed.contains(argv[0]),
        !argv[0].contains('/'),
    ensures
        argv[0] == "git"@ && !git_read_only().contains(argv[1]) ==> command_verdict(allowed, argv)
            == Err::<(), Seq<char>>(
            "git "@ + argv[1] + " is not permitted; only "@ + text::joined(git_read_only(), ", "@)
                + " are"@,
        ),
        argv[0] == "cargo"@ && !cargo_safe().contains(argv[1]) ==> command_verdict(allowed, argv)
            == Err::<(), Seq<char>>(
            "cargo "@ + argv[1] + " is not permitted; only "@ + text::joined(cargo_safe(), ", "@)
                + " are"@,
        ),
        argv[0] != "git"@ && argv[0] != "cargo"@ && shell_syntax(argv[1]) ==> command_verdict(
            allowed,
            argv,
        ) == Err::<(), Seq<char>>(
            "argument "@ + text::quoted(argv[1])
                + " looks like shell syntax; commands run without a shell, so pass a plain argument list instead"@,
        ),
{
    reveal_strlit("git");
    reveal_strlit("cargo");
    assert("git"@.len() != "cargo"@.len());
    assert(argv.skip(1)[0] == argv[1]);
}

} // verus!
