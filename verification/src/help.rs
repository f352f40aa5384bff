//! The local help page: Markdown built from the effective key mapping and
//! the help texts of the user's language.
use vstd::prelude::*;

use crate::agent::tool::parts_view;
use crate::key_mapping::{
    all_actions, binding_label, effective, scope_entries, Action, KeyMapping, Scope,
};
use crate::link_copy::discovery::{split_words, words};
use crate::text::{chars_of, is_white_space, is_whitespace, push_char, push_str, string_of};

verus! {

/// The translated texts the help page is made of.
pub struct HelpTexts {
    /// The introduction.
    pub body: String,
    /// Section headings: global, message, completion, reading, pages, help, tips.
    pub sections: Vec<String>,
    /// Context headings, in the order of `help_contexts`.
    pub contexts: Vec<String>,
    /// The key and action column headers.
    pub key_header: String,
    pub action_header: String,
    /// One label per action, in declaration order.
    pub actions: Vec<String>,
    /// The tips, in order.
    pub tips: Vec<String>,
}

/// The sections of key tables: each a heading index and its scopes, each
/// scope with the index of its context heading, or -1 for none.
pub open spec fn help_groups() -> Seq<(int, Seq<(Scope, int)>)> {
    seq![
        (0, seq![(Scope::Global, -1)]),
        (1, seq![(Scope::Message, 0), (Scope::MessageIdle, 1), (Scope::MessageWorking, 2), (Scope::MessageEdit, 3)]),
        (2, seq![(Scope::MessageSuggest, 4), (Scope::MessageSearch, 5)]),
        (3, seq![(Scope::ReadMode, 6), (Scope::ReadModeItem, 7)]),
        (4, seq![
            (Scope::Page, 8),
            (Scope::PageEdit, 9),
            (Scope::PageChoice, 10),
            (Scope::PageResume, 11),
            (Scope::PageQuestion, 12),
            (Scope::PageQuestionEdit, 13),
            (Scope::Approval, 14),
        ]),
        (5, seq![(Scope::Help, -1)]),
    ]
}

/// Text on one line: its words joined by single spaces.
pub open spec fn one_line(t: Seq<char>) -> Seq<char> {
    join_words(words(t))
}

pub open spec fn join_words(ws: Seq<Seq<char>>) -> Seq<char>
    decreases ws.len(),
{
    if ws.len() == 0 {
        Seq::empty()
    } else if ws.len() == 1 {
        ws[0]
    } else {
        join_words(ws.drop_last()) + seq![' '] + ws.last()
    }
}

/// `t` with each `|` escaped.
pub open spec fn escape_bars(t: Seq<char>) -> Seq<char>
    decreases t.len(),
{
    if t.len() == 0 {
        t
    } else {
        escape_bars(t.drop_last()) + if t.last() == '|' { seq!['\\', '|'] } else { seq![t.last()] }
    }
}

pub open spec fn table_cell(t: Seq<char>) -> Seq<char> {
    escape_bars(one_line(t))
}

/// A table cell in code style; double backticks where it holds one.
pub open spec fn code_cell(t: Seq<char>) -> Seq<char> {
    let v = table_cell(t);
    if exists|i: int| 0 <= i < v.len() && v[i] == '`' {
        "`` "@ + v + " ``"@
    } else {
        "`"@ + v + "`"@
    }
}

pub open spec fn text_at(ts: Seq<String>, i: int) -> Seq<char> {
    if 0 <= i < ts.len() {
        ts[i]@
    } else {
        Seq::empty()
    }
}

/// The position of an action in declaration order.
pub open spec fn action_index(a: Action) -> int {
    match a {
        Action::PrintHelp => 0,
        Action::EnterReadMode => 1,
        Action::ChooseModel => 2,
        Action::ChooseEffort => 3,
        Action::OpenSettings => 4,
        Action::ResumeSession => 5,
        Action::TogglePreview => 6,
        Action::PageUp => 7,
        Action::PageDown => 8,
        Action::NewLine => 9,
        Action::Paste => 10,
        Action::ClearOrQuit => 11,
        Action::CancelOrInterrupt => 12,
        Action::HistorySearch => 13,
        Action::Complete => 14,
        Action::ToggleMultiline => 15,
        Action::Send => 16,
        Action::SendAsap => 17,
        Action::SendAfterTurn => 18,
        Action::MoveLeft => 19,
        Action::MoveRight => 20,
        Action::MoveUp => 21,
        Action::MoveDown => 22,
        Action::MoveUpFast => 23,
        Action::MoveDownFast => 24,
        Action::MoveStart => 25,
        Action::MoveEnd => 26,
        Action::DeleteBackward => 27,
        Action::DeleteForward => 28,
        Action::DeleteWordBackward => 29,
        Action::Previous => 30,
        Action::Next => 31,
        Action::Accept => 32,
        Action::Cancel => 33,
        Action::Exit => 34,
        Action::CopyBlock => 35,
        Action::EnterItems => 36,
        Action::BackToBlocks => 37,
        Action::Confirm => 38,
        Action::Back => 39,
        Action::Close => 40,
        Action::PreviousQuestion => 41,
        Action::NextQuestion => 42,
        Action::PreviousOption => 43,
        Action::NextOption => 44,
        Action::ToggleOption => 45,
        Action::Allow => 46,
        Action::Deny => 47,
    }
}

fn action_position(a: Action) -> (r: usize)
    ensures
        r == action_index(a),
{
    match a {
        Action::PrintHelp => 0,
        Action::EnterReadMode => 1,
        Action::ChooseModel => 2,
        Action::ChooseEffort => 3,
        Action::OpenSettings => 4,
        Action::ResumeSession => 5,
        Action::TogglePreview => 6,
        Action::PageUp => 7,
        Action::PageDown => 8,
        Action::NewLine => 9,
        Action::Paste => 10,
        Action::ClearOrQuit => 11,
        Action::CancelOrInterrupt => 12,
        Action::HistorySearch => 13,
        Action::Complete => 14,
        Action::ToggleMultiline => 15,
        Action::Send => 16,
        Action::SendAsap => 17,
        Action::SendAfterTurn => 18,
        Action::MoveLeft => 19,
        Action::MoveRight => 20,
        Action::MoveUp => 21,
        Action::MoveDown => 22,
        Action::MoveUpFast => 23,
        Action::MoveDownFast => 24,
        Action::MoveStart => 25,
        Action::MoveEnd => 26,
        Action::DeleteBackward => 27,
        Action::DeleteForward => 28,
        Action::DeleteWordBackward => 29,
        Action::Previous => 30,
        Action::Next => 31,
        Action::Accept => 32,
        Action::Cancel => 33,
        Action::Exit => 34,
        Action::CopyBlock => 35,
        Action::EnterItems => 36,
        Action::BackToBlocks => 37,
        Action::Confirm => 38,
        Action::Back => 39,
        Action::Close => 40,
        Action::PreviousQuestion => 41,
        Action::NextQuestion => 42,
        Action::PreviousOption => 43,
        Action::NextOption => 44,
        Action::ToggleOption => 45,
        Action::Allow => 46,
        Action::Deny => 47,
    }
}

/// The rows of one scope's table.
pub open spec fn table_rows(m: KeyMapping, texts: HelpTexts, s: Scope, es: Seq<(Scope, Action)>) -> Seq<char>
    decreases es.len(),
{
    if es.len() == 0 {
        Seq::empty()
    } else {
        table_rows(m, texts, s, es.drop_last()) + row_text(m, texts, s, es.last().1)
    }
}

/// One table row: the action's keys in code style and its label.
pub open spec fn row_text(m: KeyMapping, texts: HelpTexts, s: Scope, a: Action) -> Seq<char> {
    "| "@ + code_cell(binding_label(m.source_spec(), s, a, m.platform_spec())) + " | "@ + table_cell(
        text_at(texts.actions@, action_index(a)),
    ) + " |\n"@
}

/// One scope's part of a section: its context heading and its table.
pub open spec fn scope_part(m: KeyMapping, texts: HelpTexts, s: Scope, ctx: int) -> Seq<char> {
    (if ctx >= 0 { "\n### "@ + text_at(texts.contexts@, ctx) + "\n"@ } else { Seq::empty() }) + "\n| "@ + texts.key_header@
        + " | "@ + texts.action_header@ + " |\n| --- | --- |\n"@ + table_rows(m, texts, s, scope_entries(m.source_spec(), s, 0))
}

/// The parts of the scopes that bind any action.
pub open spec fn section_parts(m: KeyMapping, texts: HelpTexts, scopes: Seq<(Scope, int)>) -> Seq<char>
    decreases scopes.len(),
{
    if scopes.len() == 0 {
        Seq::empty()
    } else {
        let (s, ctx) = scopes.last();
        section_parts(m, texts, scopes.drop_last()) + if scope_entries(m.source_spec(), s, 0).len() > 0 {
            scope_part(m, texts, s, ctx)
        } else {
            Seq::empty()
        }
    }
}

pub open spec fn any_bound(m: KeyMapping, scopes: Seq<(Scope, int)>) -> bool {
    exists|k: int| 0 <= k < scopes.len() && scope_entries(m.source_spec(), (#[trigger] scopes[k]).0, 0).len() > 0
}

/// A section: omitted when none of its scopes binds anything.
pub open spec fn section(m: KeyMapping, texts: HelpTexts, heading: int, scopes: Seq<(Scope, int)>) -> Seq<char> {
    if any_bound(m, scopes) {
        "\n\n## "@ + text_at(texts.sections@, heading) + "\n"@ + section_parts(m, texts, scopes)
    } else {
        Seq::empty()
    }
}

pub open spec fn sections_upto(m: KeyMapping, texts: HelpTexts, n: int) -> Seq<char>
    decreases n,
{
    if n <= 0 || n > help_groups().len() {
        Seq::empty()
    } else {
        sections_upto(m, texts, n - 1) + section(m, texts, help_groups()[n - 1].0, help_groups()[n - 1].1)
    }
}

pub open spec fn tips_list(tips: Seq<String>) -> Seq<char>
    decreases tips.len(),
{
    if tips.len() == 0 {
        Seq::empty()
    } else {
        tips_list(tips.drop_last()) + "- "@ + tips.last()@ + "\n"@
    }
}

/// The whole help page.
pub open spec fn help_doc(m: KeyMapping, texts: HelpTexts) -> Seq<char> {
    crate::text::trim_end(texts.body@) + sections_upto(m, texts, help_groups().len() as int) + "\n\n## "@ + text_at(
        texts.sections@,
        6,
    ) + "\n\n"@ + tips_list(texts.tips@)
}


fn join_with_spaces(ws: &Vec<Vec<char>>) -> (r: Vec<char>)
    ensures
        r@ == join_words(parts_view(ws@)),
{
    let ghost wv = parts_view(ws@);
    let mut out: Vec<char> = Vec::new();
    let mut i: usize = 0;
    proof {
        assert(wv.take(0) =~= Seq::<Seq<char>>::empty());
    }
    while i < ws.len()
        invariant
            i <= ws@.len(),
            wv == parts_view(ws@),
            out@ == join_words(wv.take(i as int)),
        decreases ws.len() - i,
    {
        let ghost before = out@;
        if i > 0 {
            out.push(' ');
        }
        let w = &ws[i];
        let mut k: usize = 0;
        let ghost mid = out@;
        while k < w.len()
            invariant
                k <= w@.len(),
                out@ == mid + w@.take(k as int),
            decreases w.len() - k,
        {
            proof {
                assert(w@.take(k + 1) =~= w@.take(k as int).push(w@[k as int]));
            }
            out.push(w[k]);
            k = k + 1;
        }
        proof {
            assert(w@.take(k as int) =~= w@);
            assert(wv.take(i + 1).drop_last() =~= wv.take(i as int));
            assert(wv.take(i + 1).last() == w@);
            if i == 0 {
                assert(wv.take(1) =~= seq![w@]);
                assert(out@ =~= w@);
            } else {
                assert(out@ =~= before + seq![' '] + w@);
            }
        }
        i = i + 1;
    }
    proof {
        assert(wv.take(i as int) =~= wv);
    }
    out
}

fn table_cell_of(t: &str) -> (r: Vec<char>)
    ensures
        r@ == table_cell(t@),
{
    let v = chars_of(t);
    let ws = split_words(&v);
    let line = join_with_spaces(&ws);
    let mut out: Vec<char> = Vec::new();
    let mut i: usize = 0;
    while i < line.len()
        invariant
            i <= line@.len(),
            line@ == one_line(t@),
            out@ == escape_bars(line@.take(i as int)),
        decreases line.len() - i,
    {
        proof {
            assert(line@.take(i + 1).drop_last() =~= line@.take(i as int));
        }
        let ghost before = out@;
        if line[i] == '|' {
            out.push('\\');
            out.push('|');
            proof {
                assert(out@ =~= before + seq!['\\', '|']);
            }
        } else {
            out.push(line[i]);
            proof {
                assert(out@ =~= before + seq![line@[i as int]]);
            }
        }
        i = i + 1;
    }
    proof {
        assert(line@.take(i as int) =~= line@);
    }
    out
}

fn code_cell_of(t: &str) -> (r: String)
    ensures
        r@ == code_cell(t@),
{
    let v = table_cell_of(t);
    let ticked = crate::text::contains_char(v.as_slice(), '`');
    let mut s = String::new();
    if ticked {
        push_str(&mut s, "`` ");
    } else {
        push_char(&mut s, '`');
    }
    let inner = string_of(v.as_slice());
    push_str(&mut s, inner.as_str());
    if ticked {
        push_str(&mut s, " ``");
        proof {
            assert(s@ =~= "`` "@ + v@ + " ``"@);
        }
    } else {
        push_char(&mut s, '`');
        proof {
            reveal_strlit("`");
            assert(s@ =~= "`"@ + v@ + "`"@);
        }
    }
    s
}

fn text_of(ts: &Vec<String>, i: usize) -> (r: String)
    ensures
        r@ == text_at(ts@, i as int),
{
    if i < ts.len() {
        ts[i].clone()
    } else {
        String::new()
    }
}

fn trim_end_of(s: &str) -> (r: String)
    ensures
        r@ == crate::text::trim_end(s@),
{
    let v = chars_of(s);
    let mut n = v.len();
    proof {
        assert(v@.take(n as int) =~= v@);
    }
    while n > 0 && is_whitespace(v[n - 1])
        invariant
            n <= v@.len(),
            crate::text::trim_end(v@) == crate::text::trim_end(v@.take(n as int)),
        decreases n,
    {
        proof {
            assert(v@.take(n as int).drop_last() =~= v@.take(n - 1));
        }
        n = n - 1;
    }
    crate::text::string_of_range(v.as_slice(), 0, n)
}

fn table_row(m: &KeyMapping, texts: &HelpTexts, s: Scope, a: Action) -> (r: String)
    ensures
        r@ == row_text(*m, *texts, s, a),
{
    let mut out = String::new();
    push_str(&mut out, "| ");
    let label = m.label(s, a);
    let cc = code_cell_of(label.as_str());
    push_str(&mut out, cc.as_str());
    push_str(&mut out, " | ");
    let name = text_of(&texts.actions, action_position(a));
    let tc = table_cell_of(name.as_str());
    let tcs = string_of(tc.as_slice());
    push_str(&mut out, tcs.as_str());
    push_str(&mut out, " |\n");
    proof {
        assert(out@ =~= "| "@ + code_cell(label@) + " | "@ + table_cell(name@) + " |\n"@);
    }
    out
}

fn append_table(out: &mut String, m: &KeyMapping, texts: &HelpTexts, s: Scope, ctx: i64)
    requires
        ctx < 100,
    ensures
        final(out)@ == old(out)@ + scope_part(*m, *texts, s, ctx as int),
{
    let ghost start = out@;
    if ctx >= 0 {
        push_str(out, "\n### ");
        let c = text_of(&texts.contexts, ctx as usize);
        push_str(out, c.as_str());
        push_str(out, "\n");
        proof {
            assert(ctx as usize as int == ctx as int);
            assert(out@ =~= start + ("\n### "@ + text_at(texts.contexts@, ctx as int) + "\n"@));
        }
    } else {
        proof {
            assert(out@ =~= start + Seq::<char>::empty());
        }
    }
    let ghost head0 = out@;
    push_str(out, "\n| ");
    push_str(out, texts.key_header.as_str());
    push_str(out, " | ");
    push_str(out, texts.action_header.as_str());
    push_str(out, " |\n| --- | --- |\n");
    let ghost head = out@;
    let es = m.scope_actions(s);
    let mut i: usize = 0;
    proof {
        assert(es@.take(0) =~= Seq::<(Scope, Action)>::empty());
    }
    while i < es.len()
        invariant
            i <= es@.len(),
            es@ == scope_entries(m.source_spec(), s, 0),
            out@ == head + table_rows(*m, *texts, s, es@.take(i as int)),
        decreases es.len() - i,
    {
        let a = es[i].1;
        proof {
            assert(es@.take(i + 1).drop_last() =~= es@.take(i as int));
            assert(es@.take(i + 1).last() == es@[i as int]);
        }
        let row = table_row(m, texts, s, a);
        push_str(out, row.as_str());
        i = i + 1;
    }
    proof {
        assert(es@.take(i as int) =~= es@);
        let ctx_part = if ctx >= 0 { "\n### "@ + text_at(texts.contexts@, ctx as int) + "\n"@ } else { Seq::<char>::empty() };
        assert(head0 =~= start + ctx_part);
        assert(out@ =~= start + scope_part(*m, *texts, s, ctx as int));
    }
}

fn append_section(out: &mut String, m: &KeyMapping, texts: &HelpTexts, heading: usize, scopes: &Vec<(Scope, i64)>)
    requires
        forall|k: int| 0 <= k < scopes@.len() ==> (#[trigger] scopes@[k]).1 < 100,
    ensures
        final(out)@ == old(out)@ + section(
            *m,
            *texts,
            heading as int,
            scopes@.map_values(|x: (Scope, i64)| (x.0, x.1 as int)),
        ),
{
    let ghost sv = scopes@.map_values(|x: (Scope, i64)| (x.0, x.1 as int));
    let mut any = false;
    let mut k: usize = 0;
    while k < scopes.len()
        invariant
            k <= scopes@.len(),
            sv == scopes@.map_values(|x: (Scope, i64)| (x.0, x.1 as int)),
            any == exists|q: int| 0 <= q < k && scope_entries(m.source_spec(), (#[trigger] sv[q]).0, 0).len() > 0,
        decreases scopes.len() - k,
    {
        let es = m.scope_actions(scopes[k].0);
        proof {
            assert(sv[k as int].0 == scopes@[k as int].0);
        }
        if es.len() > 0 {
            any = true;
        }
        k = k + 1;
    }
    if !any {
        proof {
            assert(out@ + Seq::<char>::empty() =~= out@);
        }
        return;
    }
    let ghost start = out@;
    push_str(out, "\n\n## ");
    let h = text_of(&texts.sections, heading);
    push_str(out, h.as_str());
    push_str(out, "\n");
    let ghost head = out@;
    let mut i: usize = 0;
    proof {
        assert(sv.take(0) =~= Seq::<(Scope, int)>::empty());
    }
    while i < scopes.len()
        invariant
            i <= scopes@.len(),
            sv == scopes@.map_values(|x: (Scope, i64)| (x.0, x.1 as int)),
            forall|q: int| 0 <= q < scopes@.len() ==> (#[trigger] scopes@[q]).1 < 100,
            out@ == head + section_parts(*m, *texts, sv.take(i as int)),
        decreases scopes.len() - i,
    {
        let (s, ctx) = scopes[i];
        proof {
            assert(sv.take(i + 1).drop_last() =~= sv.take(i as int));
            assert(sv.take(i + 1).last() == (s, ctx as int));
        }
        let es = m.scope_actions(s);
        let ghost before = out@;
        if es.len() > 0 {
            append_table(out, m, texts, s, ctx);
        } else {
            proof {
                assert(out@ + Seq::<char>::empty() =~= out@);
            }
        }
        i = i + 1;
    }
    proof {
        assert(sv.take(i as int) =~= sv);
    }
}

/// The help page in Markdown: the introduction, a table of keys per scope
/// that binds any, grouped in sections, and the tips.
pub fn help_markdown(mapping: &KeyMapping, texts: &HelpTexts) -> (r: String)
    ensures
        r@ == help_doc(*mapping, *texts),
{
    let mut out = trim_end_of(texts.body.as_str());
    let ghost g = help_groups();
    let groups: Vec<(usize, Vec<(Scope, i64)>)> = vec![
        (0, vec![(Scope::Global, -1)]),
        (1, vec![(Scope::Message, 0), (Scope::MessageIdle, 1), (Scope::MessageWorking, 2), (Scope::MessageEdit, 3)]),
        (2, vec![(Scope::MessageSuggest, 4), (Scope::MessageSearch, 5)]),
        (3, vec![(Scope::ReadMode, 6), (Scope::ReadModeItem, 7)]),
        (4, vec![
            (Scope::Page, 8),
            (Scope::PageEdit, 9),
            (Scope::PageChoice, 10),
            (Scope::PageResume, 11),
            (Scope::PageQuestion, 12),
            (Scope::PageQuestionEdit, 13),
            (Scope::Approval, 14),
        ]),
        (5, vec![(Scope::Help, -1)]),
    ];
    proof {
        assert(groups@.len() == g.len());
        assert forall|k: int| 0 <= k < g.len() implies (#[trigger] groups@[k]).0 == g[k].0 && groups@[k].1@.map_values(
            |x: (Scope, i64)| (x.0, x.1 as int),
        ) =~= g[k].1 by {
        }
        assert forall|k: int, q: int| 0 <= k < g.len() && 0 <= q < groups@[k].1@.len() implies (#[trigger] groups@[k].1@[q]).1
            < 100 by {
        }
    }
    let ghost base = out@;
    let mut i: usize = 0;
    while i < groups.len()
        invariant
            i <= groups@.len(),
            groups@.len() == g.len(),
            g == help_groups(),
            forall|k: int| 0 <= k < g.len() ==> (#[trigger] groups@[k]).0 == g[k].0 && groups@[k].1@.map_values(
                |x: (Scope, i64)| (x.0, x.1 as int),
            ) == g[k].1,
            forall|k: int, q: int| 0 <= k < g.len() && 0 <= q < groups@[k].1@.len() ==> (#[trigger] groups@[k].1@[q]).1 < 100,
            out@ == base + sections_upto(*mapping, *texts, i as int),
        decreases groups.len() - i,
    {
        append_section(&mut out, mapping, texts, groups[i].0, &groups[i].1);
        proof {
            assert(out@ =~= base + sections_upto(*mapping, *texts, i + 1));
        }
        i = i + 1;
    }
    push_str(&mut out, "\n\n## ");
    let tips_heading = text_of(&texts.sections, 6);
    push_str(&mut out, tips_heading.as_str());
    push_str(&mut out, "\n\n");
    let ghost tips_start = out@;
    let mut k: usize = 0;
    proof {
        assert(texts.tips@.take(0) =~= Seq::<String>::empty());
    }
    while k < texts.tips.len()
        invariant
            k <= texts.tips@.len(),
            out@ == tips_start + tips_list(texts.tips@.take(k as int)),
        decreases texts.tips.len() - k,
    {
        proof {
            assert(texts.tips@.take(k + 1).drop_last() =~= texts.tips@.take(k as int));
        }
        push_str(&mut out, "- ");
        push_str(&mut out, texts.tips[k].as_str());
        push_str(&mut out, "\n");
        k = k + 1;
    }
    proof {
        assert(texts.tips@.take(k as int) =~= texts.tips@);
    }
    out
}

} // verus!
