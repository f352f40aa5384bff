//! Pure slash-command catalog and completion policy.
//!
//! This leaf module owns built-in declarations, integrated-command merging,
//! fuzzy ranking, and argument-completion metadata. It does not depend on
//! input state, application state, pages, copy mode, or async senders.
use vstd::prelude::*;

use crate::sorting::{
    insert_position, insert_sorted, insertion_sorted, lemma_insertion_sorted_permutes,
    lemma_insertion_sorted_sorted, sorted_by_after, strict_order,
};
use vstd::string::{StrSliceExecFns, StringExecFns};
use crate::text::{
    chars_less, chars_of, contains, copy_opt_string, has_prefix, contains_seq, is_subsequence,
    lemma_seq_less_irreflexive, lemma_seq_less_transitive,
    lowercase, opt_view, seq_less, starts_with, str_eq, subsequence, to_lowercase,
};

verus! {

#[derive(Debug, Clone, PartialEq, Eq)]
pub struct CommandDescriptor {
    pub name: String,
    pub description: String,
    pub input_hint: Option<String>,
}

#[derive(Debug, Clone, PartialEq, Eq)]
pub struct NewMode {
    pub id: String,
    pub name: Option<String>,
    pub description: Option<String>,
}

#[derive(Debug, Clone, Copy, PartialEq, Eq, Structural)]
pub enum CompletionKind {
    Nothing,
    NewMode,
    Model,
    Skill,
}

#[derive(Debug, Clone, Copy, PartialEq, Eq, Structural)]
pub enum CommandAction {
    Settings,
    Login,
    New,
    Resume,
    Model,
    Effort,
    Theme,
    Reload,
    Skill,
    Forward,
    Help,
    Reading,
    Quit,
}

/// One optimized command. `name` never includes the leading slash.
#[derive(Debug, Clone, Copy)]
pub struct BuiltinCommand {
    pub name: &'static str,
    pub description_key: &'static str,
    pub input_hint_key: Option<&'static str>,
    pub completion: CompletionKind,
    pub action: CommandAction,
}

/// The sole declaration of built-in behavior and completion metadata.
pub open spec fn builtin_table() -> Seq<BuiltinCommand> {
    seq![
        BuiltinCommand { name: "help", description_key: "command.help.description", input_hint_key: None, completion: CompletionKind::Nothing, action: CommandAction::Help },
        BuiltinCommand { name: "settings", description_key: "command.settings.description", input_hint_key: None, completion: CompletionKind::Nothing, action: CommandAction::Settings },
        BuiltinCommand { name: "login", description_key: "command.login.description", input_hint_key: None, completion: CompletionKind::Nothing, action: CommandAction::Login },
        BuiltinCommand { name: "new", description_key: "command.new.description", input_hint_key: Some("command.new.hint"), completion: CompletionKind::NewMode, action: CommandAction::New },
        BuiltinCommand { name: "resume", description_key: "command.resume.description", input_hint_key: Some("command.resume.hint"), completion: CompletionKind::Nothing, action: CommandAction::Resume },
        BuiltinCommand { name: "model", description_key: "command.model.description", input_hint_key: Some("command.model.hint"), completion: CompletionKind::Model, action: CommandAction::Model },
        BuiltinCommand { name: "effort", description_key: "command.effort.description", input_hint_key: None, completion: CompletionKind::Nothing, action: CommandAction::Effort },
        BuiltinCommand { name: "theme", description_key: "command.theme.description", input_hint_key: None, completion: CompletionKind::Nothing, action: CommandAction::Theme },
        BuiltinCommand { name: "reload", description_key: "command.reload.description", input_hint_key: None, completion: CompletionKind::Nothing, action: CommandAction::Reload },
        BuiltinCommand { name: "skill", description_key: "command.skill.description", input_hint_key: Some("command.skill.hint"), completion: CompletionKind::Skill, action: CommandAction::Skill },
        BuiltinCommand { name: "compact", description_key: "command.compact.description", input_hint_key: None, completion: CompletionKind::Nothing, action: CommandAction::Forward },
        BuiltinCommand { name: "goal", description_key: "command.goal.description", input_hint_key: Some("command.goal.hint"), completion: CompletionKind::Nothing, action: CommandAction::Forward },
        BuiltinCommand { name: "plan", description_key: "command.plan.description", input_hint_key: Some("command.plan.hint"), completion: CompletionKind::Nothing, action: CommandAction::Forward },
        BuiltinCommand { name: "read", description_key: "command.read.description", input_hint_key: None, completion: CompletionKind::Nothing, action: CommandAction::Reading },
        BuiltinCommand { name: "exit", description_key: "command.quit.description", input_hint_key: None, completion: CompletionKind::Nothing, action: CommandAction::Quit },
        BuiltinCommand { name: "q", description_key: "command.quit.description", input_hint_key: None, completion: CompletionKind::Nothing, action: CommandAction::Quit },
        BuiltinCommand { name: "quit", description_key: "command.quit.description", input_hint_key: None, completion: CompletionKind::Nothing, action: CommandAction::Quit },
    ]
}

/// The built-in commands, in declaration order.
pub fn builtin_commands() -> (r: Vec<BuiltinCommand>)
    ensures
        r@ == builtin_table(),
{
    let r = vec![
        BuiltinCommand { name: "help", description_key: "command.help.description", input_hint_key: None, completion: CompletionKind::Nothing, action: CommandAction::Help },
        BuiltinCommand { name: "settings", description_key: "command.settings.description", input_hint_key: None, completion: CompletionKind::Nothing, action: CommandAction::Settings },
        BuiltinCommand { name: "login", description_key: "command.login.description", input_hint_key: None, completion: CompletionKind::Nothing, action: CommandAction::Login },
        BuiltinCommand { name: "new", description_key: "command.new.description", input_hint_key: Some("command.new.hint"), completion: CompletionKind::NewMode, action: CommandAction::New },
        BuiltinCommand { name: "resume", description_key: "command.resume.description", input_hint_key: Some("command.resume.hint"), completion: CompletionKind::Nothing, action: CommandAction::Resume },
        BuiltinCommand { name: "model", description_key: "command.model.description", input_hint_key: Some("command.model.hint"), completion: CompletionKind::Model, action: CommandAction::Model },
        BuiltinCommand { name: "effort", description_key: "command.effort.description", input_hint_key: None, completion: CompletionKind::Nothing, action: CommandAction::Effort },
        BuiltinCommand { name: "theme", description_key: "command.theme.description", input_hint_key: None, completion: CompletionKind::Nothing, action: CommandAction::Theme },
        BuiltinCommand { name: "reload", description_key: "command.reload.description", input_hint_key: None, completion: CompletionKind::Nothing, action: CommandAction::Reload },
        BuiltinCommand { name: "skill", description_key: "command.skill.description", input_hint_key: Some("command.skill.hint"), completion: CompletionKind::Skill, action: CommandAction::Skill },
        BuiltinCommand { name: "compact", description_key: "command.compact.description", input_hint_key: None, completion: CompletionKind::Nothing, action: CommandAction::Forward },
        BuiltinCommand { name: "goal", description_key: "command.goal.description", input_hint_key: Some("command.goal.hint"), completion: CompletionKind::Nothing, action: CommandAction::Forward },
        BuiltinCommand { name: "plan", description_key: "command.plan.description", input_hint_key: Some("command.plan.hint"), completion: CompletionKind::Nothing, action: CommandAction::Forward },
        BuiltinCommand { name: "read", description_key: "command.read.description", input_hint_key: None, completion: CompletionKind::Nothing, action: CommandAction::Reading },
        BuiltinCommand { name: "exit", description_key: "command.quit.description", input_hint_key: None, completion: CompletionKind::Nothing, action: CommandAction::Quit },
        BuiltinCommand { name: "q", description_key: "command.quit.description", input_hint_key: None, completion: CompletionKind::Nothing, action: CommandAction::Quit },
        BuiltinCommand { name: "quit", description_key: "command.quit.description", input_hint_key: None, completion: CompletionKind::Nothing, action: CommandAction::Quit },
    ];
    proof {
        assert(r@ =~= builtin_table());
    }
    r
}

/// The first built-in of `t` named `name`.
pub open spec fn find_builtin(t: Seq<BuiltinCommand>, name: Seq<char>) -> Option<BuiltinCommand>
    decreases t.len(),
{
    if t.len() == 0 {
        None
    } else if t[0].name@ == name {
        Some(t[0])
    } else {
        find_builtin(t.drop_first(), name)
    }
}

/// The built-in command with this exact name.
pub fn builtin_command(name: &str) -> (r: Option<BuiltinCommand>)
    ensures
        r == find_builtin(builtin_table(), name@),
{
    let table = builtin_commands();
    let mut i: usize = 0;
    proof {
        assert(table@.skip(0) =~= table@);
    }
    while i < table.len()
        invariant
            table@ == builtin_table(),
            i <= table@.len(),
            find_builtin(table@, name@) == find_builtin(table@.skip(i as int), name@),
        decreases table.len() - i,
    {
        proof {
            assert(table@.skip(i as int).drop_first() =~= table@.skip(i + 1));
        }
        if str_eq(table[i].name, name) {
            return Some(table[i]);
        }
        i = i + 1;
    }
    None
}

/// The first index of `c` in `s`.
pub open spec fn first_index(s: Seq<char>, c: char) -> Option<int>
    decreases s.len(),
{
    if s.len() == 0 {
        None
    } else if s[0] == c {
        Some(0)
    } else {
        match first_index(s.drop_first(), c) {
            Some(i) => Some(i + 1),
            None => None,
        }
    }
}

pub fn find_char(v: &[char], c: char) -> (r: Option<usize>)
    ensures
        r is Some ==> r->0 < v@.len() && v@[r->0 as int] == c,
        match r {
            Some(i) => first_index(v@, c) == Some(i as int),
            None => first_index(v@, c) is None,
        },
{
    let mut i: usize = 0;
    proof {
        assert(v@.skip(0) =~= v@);
    }
    while i < v.len()
        invariant
            i <= v@.len(),
            forall|k: int| 0 <= k < i ==> v@[k] != c,
            first_index(v@, c) == (match first_index(v@.skip(i as int), c) {
                Some(j) => Some(j + i),
                None => None,
            }),
        decreases v.len() - i,
    {
        proof {
            assert(v@.skip(i as int).drop_first() =~= v@.skip(i + 1));
        }
        if v[i] == c {
            return Some(i);
        }
        i = i + 1;
    }
    None
}

/// The argument-completion context `line` opens, if any: the command and
/// the query typed after it.
pub open spec fn completion_context_of(line: Seq<char>) -> Option<(BuiltinCommand, Seq<char>)> {
    if line.len() == 0 || line[0] != '/' {
        None
    } else {
        let body = line.skip(1);
        let skill = builtin_table()[9];
        if body == skill.name@ {
            Some((skill, Seq::empty()))
        } else if has_prefix(body, "skill:"@) {
            Some((skill, body.skip("skill:"@.len() as int)))
        } else if has_prefix(body, "skill "@) {
            Some((skill, body.skip("skill "@.len() as int)))
        } else {
            match first_index(body, ' ') {
                None => None,
                Some(i) => match find_builtin(builtin_table(), body.take(i)) {
                    None => None,
                    Some(command) => if command.completion != CompletionKind::Nothing {
                        Some((command, body.skip(i + 1)))
                    } else {
                        None
                    },
                },
            }
        }
    }
}

/// Resolve an argument-completion context from the central declaration.
pub fn completion_context(line: &str) -> (r: Option<(BuiltinCommand, &str)>)
    ensures
        match completion_context_of(line@) {
            Some((command, query)) => r matches Some((c, q)) && c == command && q@ == query,
            None => r is None,
        },
{
    let v = chars_of(line);
    if v.len() == 0 || v[0] != '/' {
        return None;
    }
    let n = v.len();
    let body_str = line.substring_char(1, n);
    let body = chars_of(body_str);
    proof {
        assert(body@ =~= line@.skip(1));
    }
    let table = builtin_commands();
    let skill = table[9];
    if str_eq(body_str, skill.name) {
        return Some((skill, line.substring_char(n, n)));
    }
    let colon = chars_of("skill:");
    let space = chars_of("skill ");
    if starts_with(body.as_slice(), colon.as_slice()) {
        let from = 1 + colon.len();
        proof {
            assert(line@.subrange(from as int, n as int) =~= body@.skip(colon@.len() as int));
        }
        return Some((skill, line.substring_char(from, n)));
    }
    if starts_with(body.as_slice(), space.as_slice()) {
        let from = 1 + space.len();
        proof {
            assert(line@.subrange(from as int, n as int) =~= body@.skip(space@.len() as int));
        }
        return Some((skill, line.substring_char(from, n)));
    }
    proof {
        assert(body@ != skill.name@);
        assert(!has_prefix(body@, "skill:"@));
        assert(!has_prefix(body@, "skill "@));
    }
    match find_char(body.as_slice(), ' ') {
        None => {
            assert(completion_context_of(line@) is None);
            None
        },
        Some(i) => {
            let name = body_str.substring_char(0, i);
            proof {
                assert(name@ =~= body@.take(i as int));
                assert(first_index(body@, ' ') == Some(i as int));
            }
            match builtin_command(name) {
                None => None,
                Some(command) => {
                    if command.completion != CompletionKind::Nothing {
                        proof {
                            assert(line@.subrange(i + 2, n as int) =~= body@.skip(i + 1));
                        }
                        Some((command, line.substring_char(i + 2, n)))
                    } else {
                        None
                    }
                },
            }
        },
    }
}

#[derive(Debug, Clone, Copy, PartialEq, Eq, Structural)]
pub enum CommandSource {
    Builtin,
    Integrated,
}

#[derive(Debug, Clone, PartialEq, Eq)]
pub enum CommandText {
    Builtin { description_key: &'static str, input_hint_key: Option<&'static str> },
    Integrated { description: String, input_hint: Option<String> },
}

#[derive(Debug, Clone, PartialEq, Eq)]
pub struct CommandCandidate {
    pub line: String,
    pub text: CommandText,
    pub source: CommandSource,
}

/// Fuzzy rank group: prefix, substring, then subsequence matches.
pub open spec fn rank_of(query: Seq<char>, name: Seq<char>) -> Option<u8> {
    if query.len() == 0 || has_prefix(name, query) {
        Some(0)
    } else if contains_seq(name, query) {
        Some(1)
    } else if is_subsequence(query, name) {
        Some(2)
    } else {
        None
    }
}

pub fn rank(query: &[char], name: &[char]) -> (r: Option<u8>)
    ensures
        r == rank_of(query@, name@),
{
    if query.len() == 0 || starts_with(name, query) {
        Some(0)
    } else if contains(name, query) {
        Some(1)
    } else if subsequence(query, name) {
        Some(2)
    } else {
        None
    }
}

/// One ranked catalog entry: group, lower-cased name, source order and the
/// index of the command within its source.
pub struct RankEntry {
    pub group: u8,
    pub name: Seq<char>,
    pub source: u8,
    pub index: nat,
}

/// Entries sort by group, then name, then source.
pub open spec fn entry_after(a: RankEntry, b: RankEntry) -> bool {
    a.group > b.group || (a.group == b.group && (seq_less(b.name, a.name) || (a.name == b.name
        && a.source > b.source)))
}

/// The catalog order as a relation.
pub open spec fn by_rank() -> spec_fn(RankEntry, RankEntry) -> bool {
    |a: RankEntry, b: RankEntry| entry_after(a, b)
}

/// The catalog order is a strict order.
pub proof fn lemma_by_rank_strict()
    ensures
        strict_order(by_rank()),
{
    assert forall|a: RankEntry| !#[trigger] by_rank()(a, a) by {
        lemma_seq_less_irreflexive(a.name);
    }
    assert forall|a: RankEntry, b: RankEntry, c: RankEntry|
        #[trigger] by_rank()(a, b) && #[trigger] by_rank()(b, c) implies by_rank()(a, c) by {
        if a.group == b.group && b.group == c.group {
            if seq_less(b.name, a.name) && seq_less(c.name, b.name) {
                lemma_seq_less_transitive(c.name, b.name, a.name);
            }
        }
    }
}

/// Ranked built-ins among the first `n` declarations.
pub open spec fn builtin_entries(query: Seq<char>, n: nat) -> Seq<RankEntry>
    decreases n,
{
    if n == 0 {
        Seq::empty()
    } else {
        let prev = builtin_entries(query, (n - 1) as nat);
        let name = lowercase(builtin_table()[n - 1].name@);
        match rank_of(query, name) {
            Some(g) => prev.push(RankEntry { group: g, name: name, source: 0, index: (n - 1) as nat }),
            None => prev,
        }
    }
}

/// Ranked integrated commands among the first `n`; built-in names shadow them.
pub open spec fn integrated_entries(query: Seq<char>, cmds: Seq<CommandDescriptor>, n: nat) -> Seq<
    RankEntry,
>
    decreases n,
{
    if n == 0 {
        Seq::empty()
    } else {
        let prev = integrated_entries(query, cmds, (n - 1) as nat);
        let command = cmds[n - 1];
        if find_builtin(builtin_table(), command.name@) is Some {
            prev
        } else {
            let name = lowercase(command.name@);
            match rank_of(query, name) {
                Some(g) => prev.push(
                    RankEntry { group: g, name: name, source: 1, index: (n - 1) as nat },
                ),
                None => prev,
            }
        }
    }
}

/// The ranked catalog order for `query`.
pub open spec fn catalog_order(query: Seq<char>, cmds: Seq<CommandDescriptor>) -> Seq<RankEntry> {
    insertion_sorted(
        builtin_entries(lowercase(query), 17) + integrated_entries(
            lowercase(query),
            cmds,
            cmds.len(),
        ),
        by_rank(),
    )
}

/// The ranked catalog holds exactly the ranked built-ins and unshadowed
/// integrated commands, and no entry comes after a later one.
pub proof fn lemma_catalog_order_sorted(query: Seq<char>, cmds: Seq<CommandDescriptor>)
    ensures
        sorted_by_after(catalog_order(query, cmds), by_rank()),
        catalog_order(query, cmds).to_multiset() == (builtin_entries(lowercase(query), 17)
            + integrated_entries(lowercase(query), cmds, cmds.len())).to_multiset(),
{
    let all = builtin_entries(lowercase(query), 17) + integrated_entries(
        lowercase(query),
        cmds,
        cmds.len(),
    );
    lemma_by_rank_strict();
    lemma_insertion_sorted_sorted(all, by_rank());
    lemma_insertion_sorted_permutes(all, by_rank());
}

/// The candidate an entry presents.
pub open spec fn presents(c: CommandCandidate, e: RankEntry, cmds: Seq<CommandDescriptor>) -> bool {
    if e.source == 0 {
        let b = builtin_table()[e.index as int];
        &&& c.source == CommandSource::Builtin
        &&& c.line@ == seq!['/'] + b.name@
        &&& c.text == (CommandText::Builtin {
            description_key: b.description_key,
            input_hint_key: b.input_hint_key,
        })
    } else {
        let d = cmds[e.index as int];
        &&& c.source == CommandSource::Integrated
        &&& c.line@ == seq!['/'] + d.name@
        &&& c.text matches CommandText::Integrated { description, input_hint } && description@
            == d.description@ && opt_view(input_hint) == opt_view(d.input_hint)
    }
}

struct Ranked {
    group: u8,
    name: Vec<char>,
    source: u8,
    index: Ghost<nat>,
    candidate: CommandCandidate,
}

spec fn ranked_view(r: Ranked) -> RankEntry {
    RankEntry { group: r.group, name: r.name@, source: r.source, index: r.index@ }
}

spec fn ranked_views(v: Seq<Ranked>) -> Seq<RankEntry> {
    v.map_values(|r: Ranked| ranked_view(r))
}

fn ranked_after(a: &Ranked, b: &Ranked) -> (r: bool)
    ensures
        r == entry_after(ranked_view(*a), ranked_view(*b)),
{
    a.group > b.group || (a.group == b.group && (chars_less(b.name.as_slice(), a.name.as_slice())
        || (crate::text::chars_eq(a.name.as_slice(), b.name.as_slice()) && a.source > b.source)))
}

fn insert_ranked(out: &mut Vec<Ranked>, x: Ranked, Ghost(cmds): Ghost<Seq<CommandDescriptor>>)
    requires
        forall|k: int|
            0 <= k < old(out)@.len() ==> presents(
                (#[trigger] old(out)@[k]).candidate,
                ranked_view(old(out)@[k]),
                cmds,
            ),
        presents(x.candidate, ranked_view(x), cmds),
    ensures
        ranked_views(final(out)@) == insert_sorted(
            ranked_views(old(out)@),
            ranked_view(x),
            by_rank(),
        ),
        forall|k: int|
            0 <= k < final(out)@.len() ==> presents(
                (#[trigger] final(out)@[k]).candidate,
                ranked_view(final(out)@[k]),
                cmds,
            ),
{
    let ghost after = by_rank();
    let ghost views = ranked_views(out@);
    let ghost xv = ranked_view(x);
    let mut p: usize = 0;
    proof {
        assert(views.skip(0) =~= views);
    }
    while p < out.len() && !ranked_after(&out[p], &x)
        invariant
            p <= out@.len(),
            after == by_rank(),
            views == ranked_views(out@),
            xv == ranked_view(x),
            insert_position(views, xv, after) == p + insert_position(views.skip(p as int), xv, after),
        decreases out.len() - p,
    {
        proof {
            assert(views.skip(p as int).drop_first() =~= views.skip(p + 1));
            assert(views.skip(p as int)[0] == ranked_view(out@[p as int]));
            assert(!entry_after(views.skip(p as int)[0], xv));
            assert(!after(views.skip(p as int)[0], xv));
            assert(insert_position(views.skip(p as int), xv, after) == 1 + insert_position(views.skip(p as int).drop_first(), xv, after));
        }
        p = p + 1;
    }
    proof {
        if p < out@.len() {
            assert(views.skip(p as int)[0] == views[p as int]);
        }
    }
    out.insert(p, x);
    proof {
        assert(ranked_views(out@) =~= views.insert(p as int, xv));
    }
}

/// Merge optimized commands with the current integrated registry and
/// fuzzy-rank the result. A built-in shadows a same-name integrated
/// descriptor; ties keep declaration order.
pub fn match_command_catalog(query: &str, integrated: &[CommandDescriptor]) -> (r: Vec<
    CommandCandidate,
>)
    ensures
        r@.len() == catalog_order(query@, integrated@).len(),
        forall|k: int|
            0 <= k < r@.len() ==> presents(
                #[trigger] r@[k],
                catalog_order(query@, integrated@)[k],
                integrated@,
            ),
{
    let ghost after = by_rank();
    let ghost cmds = integrated@;
    let lowered = to_lowercase(query);
    let q = chars_of(lowered.as_str());
    let table = builtin_commands();
    let mut out: Vec<Ranked> = Vec::new();
    let ghost mut placed: Seq<RankEntry> = Seq::empty();
    let mut i: usize = 0;
    while i < table.len()
        invariant
            table@ == builtin_table(),
            after == by_rank(),
            q@ == lowercase(query@),
            i <= table@.len(),
            placed == builtin_entries(q@, i as nat),
            ranked_views(out@) == insertion_sorted(placed, after),
            forall|k: int|
                0 <= k < out@.len() ==> presents((#[trigger] out@[k]).candidate, ranked_view(out@[k]), cmds),
        decreases table.len() - i,
    {
        let command = table[i];
        let lowered_name = to_lowercase(command.name);
        let name = chars_of(lowered_name.as_str());
        match rank(q.as_slice(), name.as_slice()) {
            Some(group) => {
                let mut line = String::new();
                line.append("/");
                line.append(command.name);
                proof {
                    reveal_strlit("/");
                    assert(line@ =~= seq!['/'] + command.name@);
                }
                let entry = Ranked {
                    group,
                    name,
                    source: 0,
                    index: Ghost(i as nat),
                    candidate: CommandCandidate {
                        line,
                        text: CommandText::Builtin {
                            description_key: command.description_key,
                            input_hint_key: command.input_hint_key,
                        },
                        source: CommandSource::Builtin,
                    },
                };
                proof {
                    let pushed = placed.push(ranked_view(entry));
                    assert(pushed.drop_last() =~= placed);
                    placed = pushed;
                }
                insert_ranked(&mut out, entry, Ghost(cmds));
            },
            None => {},
        }
        i = i + 1;
    }
    let ghost builtins = placed;
    let mut j: usize = 0;
    proof {
        assert(placed =~= builtins + integrated_entries(q@, cmds, 0));
    }
    while j < integrated.len()
        invariant
            q@ == lowercase(query@),
            after == by_rank(),
            cmds == integrated@,
            j <= integrated@.len(),
            builtins == builtin_entries(q@, 17),
            placed == builtins + integrated_entries(q@, cmds, j as nat),
            ranked_views(out@) == insertion_sorted(placed, after),
            forall|k: int|
                0 <= k < out@.len() ==> presents((#[trigger] out@[k]).candidate, ranked_view(out@[k]), cmds),
        decreases integrated.len() - j,
    {
        let command = &integrated[j];
        if builtin_command(command.name.as_str()).is_none() {
            let lowered_name = to_lowercase(command.name.as_str());
            let name = chars_of(lowered_name.as_str());
            match rank(q.as_slice(), name.as_slice()) {
                Some(group) => {
                    let mut line = String::new();
                    line.append("/");
                    line.append(command.name.as_str());
                    proof {
                        reveal_strlit("/");
                        assert(line@ =~= seq!['/'] + command.name@);
                    }
                    let entry = Ranked {
                        group,
                        name,
                        source: 1,
                        index: Ghost(j as nat),
                        candidate: CommandCandidate {
                            line,
                            text: CommandText::Integrated {
                                description: command.description.clone(),
                                input_hint: copy_opt_string(&command.input_hint),
                            },
                            source: CommandSource::Integrated,
                        },
                    };
                    proof {
                        let pushed = placed.push(ranked_view(entry));
                        assert(pushed.drop_last() =~= placed);
                        assert(builtins + integrated_entries(q@, cmds, (j + 1) as nat) =~= pushed);
                        placed = pushed;
                    }
                    insert_ranked(&mut out, entry, Ghost(cmds));
                },
                None => {
                    proof {
                        assert(builtins + integrated_entries(q@, cmds, (j + 1) as nat) =~= placed);
                    }
                },
            }
        } else {
            proof {
                assert(builtins + integrated_entries(q@, cmds, (j + 1) as nat) =~= placed);
            }
        }
        j = j + 1;
    }
    proof {
        assert(placed =~= builtin_entries(lowercase(query@), 17) + integrated_entries(
            lowercase(query@),
            cmds,
            cmds.len(),
        ));
    }
    let ghost final_views = ranked_views(out@);
    let mut result: Vec<CommandCandidate> = Vec::new();
    let mut rest = out;
    let ghost all = rest@;
    let mut taken: usize = 0;
    // Drain from the back, then restore the order.
    let mut reversed: Vec<CommandCandidate> = Vec::new();
    while rest.len() > 0
        invariant
            rest@ == all.take(rest@.len() as int),
            reversed@.len() + rest@.len() == all.len(),
            forall|k: int|
                0 <= k < reversed@.len() ==> #[trigger] reversed@[k] == all[all.len() - 1 - k].candidate,
        decreases rest.len(),
    {
        let ghost n = rest@.len() as int;
        let entry = rest.pop().unwrap();
        proof {
            assert(all.take(n - 1) =~= all.take(n).drop_last());
        }
        reversed.push(entry.candidate);
    }
    while reversed.len() > 0
        invariant
            reversed@.len() + result@.len() == all.len(),
            forall|k: int|
                0 <= k < reversed@.len() ==> #[trigger] reversed@[k] == all[all.len() - 1 - k].candidate,
            forall|k: int| 0 <= k < result@.len() ==> #[trigger] result@[k] == all[k].candidate,
        decreases reversed.len(),
    {
        let c = reversed.pop().unwrap();
        result.push(c);
    }
    proof {
        assert forall|k: int| 0 <= k < result@.len() implies presents(
            #[trigger] result@[k],
            catalog_order(query@, integrated@)[k],
            integrated@,
        ) by {
            assert(final_views[k] == ranked_view(all[k]));
        }
        crate::sorting::lemma_insertion_sorted_permutes(placed, after);
    }
    result
}

} // verus!
