//! The suggestion popup: commands for a slash word, and modes, models,
//! efforts or skills for a command's argument.
use vstd::prelude::*;

use super::completion::{
    effort_ranks, match_efforts, match_models, match_new_modes, match_skills, mode_ranks, ranked_positions, route_ranks,
    routes, skill_ranks,
};
use super::{entry_line, InputState, Suggestion, SuggestionKind};
use crate::agent::{ModelProvider, ReasoningEffort, Skill};
use crate::catalog::{current_descriptor, CatalogModel};
use crate::command_catalog::{
    builtin_table, catalog_order, CommandDescriptor, NewMode, completion_context, completion_context_of, match_command_catalog, CommandSource,
    CommandText, CompletionKind, RankEntry,
};
use crate::text::{chars_of, contains_char, has_char, owned, push_str, str_eq, strs_view, string_of_range};

verus! {

/// A fresh popup with these rows, the first one highlighted.
pub open spec fn suggestion_is(
    sg: Suggestion,
    query: Seq<char>,
    kind: SuggestionKind,
    lines: Seq<Seq<char>>,
    descriptions: Seq<Seq<char>>,
    sources: Seq<CommandSource>,
) -> bool {
    &&& sg.query@ == query
    &&& sg.sel == 0
    &&& strs_view(sg.matches@) == lines
    &&& strs_view(sg.descriptions@) == descriptions
    &&& sg.sources@ == sources
    &&& sg.kind == kind
}

/// Every row a built-in completion.
pub open spec fn builtin_sources(n: nat) -> Seq<CommandSource> {
    Seq::new(n, |k: int| CommandSource::Builtin)
}

/// The efforts the current route declares, or none.
pub open spec fn current_efforts_of(c: CatalogModel) -> Seq<ReasoningEffort> {
    match current_descriptor(c) {
        Some(d) => match d.reasoning {
            Some(r) => r.efforts@,
            None => Seq::empty(),
        },
        None => Seq::empty(),
    }
}

/// A command row's description: a built-in's description key, an
/// integrated command's own description.
pub open spec fn entry_description(e: RankEntry, cmds: Seq<CommandDescriptor>) -> Seq<char> {
    if e.source == 0 {
        builtin_table()[e.index as int].description_key@
    } else {
        cmds[e.index as int].description@
    }
}

pub open spec fn entry_source(e: RankEntry) -> CommandSource {
    if e.source == 0 {
        CommandSource::Builtin
    } else {
        CommandSource::Integrated
    }
}

/// The popup a buffer opens from scratch, if any.
pub open spec fn fresh_suggestion(buf: Seq<char>, c: CatalogModel, r: Option<Suggestion>) -> bool {
    let ctx = completion_context_of(buf);
    if ctx is Some && !has_char(ctx.unwrap().1, ' ') && !has_char(ctx.unwrap().1, '\n') {
        let (command, query) = ctx.unwrap();
        match command.completion {
            CompletionKind::NewMode => {
                let modes = c.new_modes@;
                let ranked = ranked_positions(mode_ranks(query, modes));
                if ranked.len() == 0 {
                    r is None
                } else {
                    r matches Some(sg) && suggestion_is(
                        sg,
                        buf,
                        SuggestionKind::Modes,
                        Seq::new(ranked.len(), |k: int| "/"@ + command.name@ + " "@ + modes[ranked[k]].id@),
                        Seq::new(
                            ranked.len(),
                            |k: int|
                                match modes[ranked[k]].name {
                                    Some(n) => n@,
                                    None => modes[ranked[k]].id@,
                                },
                        ),
                        builtin_sources(ranked.len()),
                    )
                }
            },
            CompletionKind::Model => {
                let rs = routes(c.model_providers@);
                let ranked = ranked_positions(route_ranks(query, c.model_providers@));
                if ranked.len() == 0 {
                    r is None
                } else {
                    r matches Some(sg) && suggestion_is(
                        sg,
                        buf,
                        SuggestionKind::Models,
                        Seq::new(
                            ranked.len(),
                            |k: int| "/model "@ + rs[ranked[k]].0.id@ + "/"@ + rs[ranked[k]].1.id@,
                        ),
                        Seq::new(
                            ranked.len(),
                            |k: int|
                                if rs[ranked[k]].1.name@ == rs[ranked[k]].1.id@ {
                                    rs[ranked[k]].0.name@
                                } else {
                                    rs[ranked[k]].1.name@ + " · "@ + rs[ranked[k]].0.name@
                                },
                        ),
                        builtin_sources(ranked.len()),
                    )
                }
            },
            CompletionKind::Skill => {
                let skills = c.skills@;
                let ranked = ranked_positions(skill_ranks(query, skills));
                if ranked.len() == 0 {
                    r is None
                } else {
                    r matches Some(sg) && suggestion_is(
                        sg,
                        buf,
                        SuggestionKind::Skills,
                        Seq::new(ranked.len(), |k: int| "/skill:"@ + skills[ranked[k]].name@),
                        Seq::new(ranked.len(), |k: int| skills[ranked[k]].description@),
                        builtin_sources(ranked.len()),
                    )
                }
            },
            CompletionKind::Nothing => r is None,
        }
    } else if buf.len() > 0 && buf[0] == '/' && !has_char(buf, ' ') && !has_char(buf, '\n') {
        let cmds = c.integrated_commands@;
        let order = catalog_order(buf.skip(1), cmds);
        if order.len() == 0 {
            r is None
        } else {
            r matches Some(sg) && suggestion_is(
                sg,
                buf,
                SuggestionKind::Commands,
                Seq::new(order.len(), |k: int| entry_line(order[k], cmds)),
                Seq::new(order.len(), |k: int| entry_description(order[k], cmds)),
                Seq::new(order.len(), |k: int| entry_source(order[k])),
            )
        }
    } else {
        r is None
    }
}

/// Whether an open popup stays as it is: the buffer is its query or one of
/// its rows, unless the `/skill` row was just reached from the commands.
pub open spec fn popup_kept(s: InputState) -> bool {
    s.suggest matches Some(sg) && !(sg.kind == SuggestionKind::Commands && s.buf@ == "/skill"@) && (sg.query@
        == s.buf@ || strs_view(sg.matches@).contains(s.buf@))
}

/// The first row equal to `line`, if any.
pub open spec fn first_row(rows: Seq<Seq<char>>, line: Seq<char>) -> Option<int> {
    if rows.contains(line) {
        Some(choose|i: int| 0 <= i < rows.len() && rows[i] == line && forall|j: int| 0 <= j < i ==> rows[j] != line)
    } else {
        None
    }
}

/// The state after recomputing the popup from the buffer.
pub open spec fn refreshed(s: InputState, t: InputState, c: CatalogModel) -> bool {
    &&& t.buf == s.buf && t.cursor == s.cursor && t.paste_blocks == s.paste_blocks
    &&& t.image_blocks == s.image_blocks && t.history == s.history && t.hist_idx == s.hist_idx
    &&& t.multiline == s.multiline && t.draft == s.draft && t.draft_paste_blocks == s.draft_paste_blocks
    &&& t.draft_image_blocks == s.draft_image_blocks && t.search == s.search && t.language == s.language
    &&& t.paste_placeholder_chars == s.paste_placeholder_chars && t.history_limit == s.history_limit
    &&& if s.paste_blocks@.len() > 0 || s.image_blocks@.len() > 0 {
        t.suggest is None
    } else if popup_kept(s) {
        let sg = s.suggest->0;
        match first_row(strs_view(sg.matches@), s.buf@) {
            Some(p) => t.suggest == Some(Suggestion { sel: p as usize, ..sg }),
            None => t.suggest == s.suggest,
        }
    } else {
        fresh_suggestion(s.buf@, c, t.suggest)
    }
}

fn slash_word(buf: &str) -> (r: bool)
    ensures
        r == (buf@.len() > 0 && buf@[0] == '/' && !has_char(buf@, ' ') && !has_char(buf@, '\n')),
{
    let v = chars_of(buf);
    v.len() > 0 && v[0] == '/' && !contains_char(v.as_slice(), ' ') && !contains_char(v.as_slice(), '\n')
}

fn modes_popup(buf: &String, name: &str, query: &str, modes: &Vec<NewMode>) -> (r: Option<Suggestion>)
    ensures
        ({
            let ms = modes@;
            let ranked = ranked_positions(mode_ranks(query@, ms));
            if ranked.len() == 0 {
                r is None
            } else {
                r matches Some(sg) && suggestion_is(
                    sg,
                    buf@,
                    SuggestionKind::Modes,
                    Seq::new(ranked.len(), |k: int| "/"@ + name@ + " "@ + ms[ranked[k]].id@),
                    Seq::new(
                        ranked.len(),
                        |k: int|
                            match ms[ranked[k]].name {
                                Some(n) => n@,
                                None => ms[ranked[k]].id@,
                            },
                    ),
                    builtin_sources(ranked.len()),
                )
            }
        }),
{
    let ranked = match_new_modes(query, modes.as_slice());
    let ghost pos = ranked_positions(mode_ranks(query@, modes@));
    if ranked.len() == 0 {
        return None;
    }
    let mut matches: Vec<String> = Vec::new();
    let mut descriptions: Vec<String> = Vec::new();
    let mut sources: Vec<CommandSource> = Vec::new();
    let mut k: usize = 0;
    while k < ranked.len()
        invariant
            k <= ranked@.len(),
            ranked@.len() == pos.len(),
            forall|j: int| 0 <= j < ranked@.len() ==> *(#[trigger] ranked@[j]) == modes@[pos[j]],
            matches@.len() == k && descriptions@.len() == k && sources@.len() == k,
            forall|j: int| 0 <= j < k ==> (#[trigger] matches@[j])@ == "/"@ + name@ + " "@ + modes@[pos[j]].id@,
            forall|j: int|
                0 <= j < k ==> (#[trigger] descriptions@[j])@ == match modes@[pos[j]].name {
                    Some(n) => n@,
                    None => modes@[pos[j]].id@,
                },
            forall|j: int| 0 <= j < k ==> (#[trigger] sources@[j]) == CommandSource::Builtin,
        decreases ranked.len() - k,
    {
        let mode = ranked[k];
        let mut line = owned("/");
        push_str(&mut line, name);
        push_str(&mut line, " ");
        push_str(&mut line, mode.id.as_str());
        matches.push(line);
        let d = match &mode.name {
            Some(n) => n.clone(),
            None => mode.id.clone(),
        };
        descriptions.push(d);
        sources.push(CommandSource::Builtin);
        proof {
            reveal_strlit("/");
            reveal_strlit(" ");
        }
        k = k + 1;
    }
    let r = Suggestion {
        query: buf.clone(),
        sel: 0,
        matches,
        descriptions,
        sources,
        kind: SuggestionKind::Modes,
    };
    proof {
        assert(strs_view(r.matches@) =~= Seq::new(pos.len(), |k: int| "/"@ + name@ + " "@ + modes@[pos[k]].id@));
        assert(strs_view(r.descriptions@) =~= Seq::new(
            pos.len(),
            |k: int|
                match modes@[pos[k]].name {
                    Some(n) => n@,
                    None => modes@[pos[k]].id@,
                },
        ));
        assert(r.sources@ =~= builtin_sources(pos.len()));
    }
    Some(r)
}

fn models_popup(buf: &String, query: &str, providers: &Vec<ModelProvider>) -> (r: Option<Suggestion>)
    ensures
        ({
            let rs = routes(providers@);
            let ranked = ranked_positions(route_ranks(query@, providers@));
            if ranked.len() == 0 {
                r is None
            } else {
                r matches Some(sg) && suggestion_is(
                    sg,
                    buf@,
                    SuggestionKind::Models,
                    Seq::new(ranked.len(), |k: int| "/model "@ + rs[ranked[k]].0.id@ + "/"@ + rs[ranked[k]].1.id@),
                    Seq::new(
                        ranked.len(),
                        |k: int|
                            if rs[ranked[k]].1.name@ == rs[ranked[k]].1.id@ {
                                rs[ranked[k]].0.name@
                            } else {
                                rs[ranked[k]].1.name@ + " · "@ + rs[ranked[k]].0.name@
                            },
                    ),
                    builtin_sources(ranked.len()),
                )
            }
        }),
{
    let ranked = match_models(query, providers.as_slice());
    let ghost pos = ranked_positions(route_ranks(query@, providers@));
    let ghost rs = routes(providers@);
    if ranked.len() == 0 {
        return None;
    }
    let mut matches: Vec<String> = Vec::new();
    let mut descriptions: Vec<String> = Vec::new();
    let mut sources: Vec<CommandSource> = Vec::new();
    let mut k: usize = 0;
    while k < ranked.len()
        invariant
            k <= ranked@.len(),
            ranked@.len() == pos.len(),
            forall|j: int| 0 <= j < ranked@.len() ==> (*(#[trigger] ranked@[j]).0, *ranked@[j].1) == rs[pos[j]],
            matches@.len() == k && descriptions@.len() == k && sources@.len() == k,
            forall|j: int| 0 <= j < k ==> (#[trigger] matches@[j])@ == "/model "@ + rs[pos[j]].0.id@ + "/"@ + rs[pos[j]].1.id@,
            forall|j: int|
                0 <= j < k ==> (#[trigger] descriptions@[j])@ == if rs[pos[j]].1.name@ == rs[pos[j]].1.id@ {
                    rs[pos[j]].0.name@
                } else {
                    rs[pos[j]].1.name@ + " · "@ + rs[pos[j]].0.name@
                },
            forall|j: int| 0 <= j < k ==> (#[trigger] sources@[j]) == CommandSource::Builtin,
        decreases ranked.len() - k,
    {
        let (provider, model) = ranked[k];
        proof {
            assert((*provider, *model) == rs[pos[k as int]]);
        }
        let mut line = owned("/model ");
        push_str(&mut line, provider.id.as_str());
        push_str(&mut line, "/");
        push_str(&mut line, model.id.as_str());
        matches.push(line);
        let d = if str_eq(model.name.as_str(), model.id.as_str()) {
            provider.name.clone()
        } else {
            let mut d = model.name.clone();
            push_str(&mut d, " · ");
            push_str(&mut d, provider.name.as_str());
            d
        };
        descriptions.push(d);
        sources.push(CommandSource::Builtin);
        k = k + 1;
    }
    let r = Suggestion {
        query: buf.clone(),
        sel: 0,
        matches,
        descriptions,
        sources,
        kind: SuggestionKind::Models,
    };
    proof {
        assert(strs_view(r.matches@) =~= Seq::new(pos.len(), |k: int| "/model "@ + rs[pos[k]].0.id@ + "/"@ + rs[pos[k]].1.id@));
        assert(strs_view(r.descriptions@) =~= Seq::new(
            pos.len(),
            |k: int|
                if rs[pos[k]].1.name@ == rs[pos[k]].1.id@ {
                    rs[pos[k]].0.name@
                } else {
                    rs[pos[k]].1.name@ + " · "@ + rs[pos[k]].0.name@
                },
        ));
        assert(r.sources@ =~= builtin_sources(pos.len()));
    }
    Some(r)
}

fn skills_popup(buf: &String, query: &str, skills: &Vec<Skill>) -> (r: Option<Suggestion>)
    ensures
        ({
            let ss = skills@;
            let ranked = ranked_positions(skill_ranks(query@, ss));
            if ranked.len() == 0 {
                r is None
            } else {
                r matches Some(sg) && suggestion_is(
                    sg,
                    buf@,
                    SuggestionKind::Skills,
                    Seq::new(ranked.len(), |k: int| "/skill:"@ + ss[ranked[k]].name@),
                    Seq::new(ranked.len(), |k: int| ss[ranked[k]].description@),
                    builtin_sources(ranked.len()),
                )
            }
        }),
{
    let ranked = match_skills(query, skills.as_slice());
    let ghost pos = ranked_positions(skill_ranks(query@, skills@));
    if ranked.len() == 0 {
        return None;
    }
    let mut matches: Vec<String> = Vec::new();
    let mut descriptions: Vec<String> = Vec::new();
    let mut sources: Vec<CommandSource> = Vec::new();
    let mut k: usize = 0;
    while k < ranked.len()
        invariant
            k <= ranked@.len(),
            ranked@.len() == pos.len(),
            forall|j: int| 0 <= j < ranked@.len() ==> *(#[trigger] ranked@[j]) == skills@[pos[j]],
            matches@.len() == k && descriptions@.len() == k && sources@.len() == k,
            forall|j: int| 0 <= j < k ==> (#[trigger] matches@[j])@ == "/skill:"@ + skills@[pos[j]].name@,
            forall|j: int| 0 <= j < k ==> (#[trigger] descriptions@[j])@ == skills@[pos[j]].description@,
            forall|j: int| 0 <= j < k ==> (#[trigger] sources@[j]) == CommandSource::Builtin,
        decreases ranked.len() - k,
    {
        let skill = ranked[k];
        let mut line = owned("/skill:");
        push_str(&mut line, skill.name.as_str());
        matches.push(line);
        descriptions.push(skill.description.clone());
        sources.push(CommandSource::Builtin);
        k = k + 1;
    }
    let r = Suggestion {
        query: buf.clone(),
        sel: 0,
        matches,
        descriptions,
        sources,
        kind: SuggestionKind::Skills,
    };
    proof {
        assert(strs_view(r.matches@) =~= Seq::new(pos.len(), |k: int| "/skill:"@ + skills@[pos[k]].name@));
        assert(strs_view(r.descriptions@) =~= Seq::new(pos.len(), |k: int| skills@[pos[k]].description@));
        assert(r.sources@ =~= builtin_sources(pos.len()));
    }
    Some(r)
}

fn commands_popup(buf: &String, integrated: &Vec<CommandDescriptor>) -> (r: Option<Suggestion>)
    requires
        buf@.len() > 0,
    ensures
        ({
            let cmds = integrated@;
            let order = catalog_order(buf@.skip(1), cmds);
            if order.len() == 0 {
                r is None
            } else {
                r matches Some(sg) && suggestion_is(
                    sg,
                    buf@,
                    SuggestionKind::Commands,
                    Seq::new(order.len(), |k: int| entry_line(order[k], cmds)),
                    Seq::new(order.len(), |k: int| entry_description(order[k], cmds)),
                    Seq::new(order.len(), |k: int| entry_source(order[k])),
                )
            }
        }),
{
    let v = chars_of(buf.as_str());
    let query = string_of_range(v.as_slice(), 1, v.len());
    proof {
        assert(query@ =~= buf@.skip(1));
    }
    let matched = match_command_catalog(query.as_str(), integrated.as_slice());
    let ghost order = catalog_order(buf@.skip(1), integrated@);
    if matched.len() == 0 {
        return None;
    }
    let mut matches: Vec<String> = Vec::new();
    let mut descriptions: Vec<String> = Vec::new();
    let mut sources: Vec<CommandSource> = Vec::new();
    let mut k: usize = 0;
    while k < matched.len()
        invariant
            k <= matched@.len(),
            matched@.len() == order.len(),
            order == catalog_order(query@, integrated@),
            forall|j: int| 0 <= j < matched@.len() ==> crate::command_catalog::presents(#[trigger] matched@[j], order[j], integrated@),
            matches@.len() == k && descriptions@.len() == k && sources@.len() == k,
            forall|j: int| 0 <= j < k ==> (#[trigger] matches@[j])@ == entry_line(order[j], integrated@),
            forall|j: int| 0 <= j < k ==> (#[trigger] descriptions@[j])@ == entry_description(order[j], integrated@),
            forall|j: int| 0 <= j < k ==> (#[trigger] sources@[j]) == entry_source(order[j]),
        decreases matched.len() - k,
    {
        let c = &matched[k];
        proof {
            assert(crate::command_catalog::presents(matched@[k as int], order[k as int], integrated@));
        }
        matches.push(c.line.clone());
        let d = match &c.text {
            CommandText::Builtin { description_key, .. } => owned(description_key),
            CommandText::Integrated { description, .. } => description.clone(),
        };
        descriptions.push(d);
        sources.push(c.source);
        k = k + 1;
    }
    let r = Suggestion {
        query: buf.clone(),
        sel: 0,
        matches,
        descriptions,
        sources,
        kind: SuggestionKind::Commands,
    };
    proof {
        assert(strs_view(r.matches@) =~= Seq::new(order.len(), |k: int| entry_line(order[k], integrated@)));
        assert(strs_view(r.descriptions@) =~= Seq::new(order.len(), |k: int| entry_description(order[k], integrated@)));
        assert(r.sources@ =~= Seq::new(order.len(), |k: int| entry_source(order[k])));
    }
    Some(r)
}

fn fresh_popup(buf: &String, catalogs: &CatalogModel) -> (r: Option<Suggestion>)
    ensures
        fresh_suggestion(buf@, *catalogs, r),
{
    match completion_context(buf.as_str()) {
        Some((command, query)) => {
            let q = chars_of(query);
            if !contains_char(q.as_slice(), ' ') && !contains_char(q.as_slice(), '\n') {
                return match command.completion {
                    CompletionKind::NewMode => modes_popup(buf, command.name, query, &catalogs.new_modes),
                    CompletionKind::Model => models_popup(buf, query, &catalogs.model_providers),
                    CompletionKind::Skill => skills_popup(buf, query, &catalogs.skills),
                    CompletionKind::Nothing => None,
                };
            }
        },
        None => {},
    }
    if slash_word(buf.as_str()) {
        commands_popup(buf, &catalogs.integrated_commands)
    } else {
        None
    }
}

/// The index of the first row equal to `line`.
pub(crate) fn row_of(rows: &Vec<String>, line: &str) -> (r: Option<usize>)
    ensures
        r == match first_row(strs_view(rows@), line@) {
            Some(i) => Some(i as usize),
            None => None::<usize>,
        },
        r matches Some(i) ==> i < rows@.len(),
{
    let ghost v = strs_view(rows@);
    let mut i: usize = 0;
    while i < rows.len()
        invariant
            i <= rows@.len(),
            v == strs_view(rows@),
            forall|j: int| 0 <= j < i ==> (#[trigger] v[j]) != line@,
        decreases rows.len() - i,
    {
        if str_eq(rows[i].as_str(), line) {
            proof {
                assert(v[i as int] == line@);
                assert(v.contains(line@));
                let c = choose|c: int| 0 <= c < v.len() && v[c] == line@ && forall|j: int| 0 <= j < c ==> v[j] != line@;
                if c < i {
                } else if c > i {
                    assert(v[i as int] != line@);
                }
            }
            return Some(i);
        }
        i = i + 1;
    }
    proof {
        if v.contains(line@) {
            let j = choose|j: int| 0 <= j < v.len() && v[j] == line@;
        }
    }
    None
}

impl InputState {
    /// Recompute the popup from the buffer. While the user navigates (the
    /// buffer is the query or one of the rows) the list stays and the
    /// highlight follows the buffer; blocks in the buffer close it.
    pub fn refresh_suggest(&mut self, catalogs: &CatalogModel)
        requires
            old(self).wf(),
        ensures
            final(self).wf(),
            refreshed(*old(self), *final(self), *catalogs),
    {
        if self.paste_blocks.len() > 0 || self.image_blocks.len() > 0 {
            self.suggest = None;
            return;
        }
        let kept: Option<Option<usize>> = match &self.suggest {
            Some(sg) => {
                let pos = row_of(&sg.matches, self.buf.as_str());
                let entering = matches!(sg.kind, SuggestionKind::Commands) && str_eq(self.buf.as_str(), "/skill");
                if !entering && (str_eq(sg.query.as_str(), self.buf.as_str()) || pos.is_some()) {
                    Some(pos)
                } else {
                    None
                }
            },
            None => None,
        };
        match kept {
            Some(Some(p)) => {
                let mut sg = self.suggest.take().unwrap();
                sg.sel = p;
                self.suggest = Some(sg);
                return;
            },
            Some(None) => {
                return;
            },
            None => {},
        }
        self.suggest = fresh_popup(&self.buf, catalogs);
        proof {
            if self.suggest is Some {
                assert(strs_view(self.suggest->0.matches@).len() == self.suggest->0.matches@.len());
            }
        }
    }
}

} // verus!
