//! Key handling of the input bar: history search, the suggestion popup,
//! editing, cursor motion and submission.
use vstd::prelude::*;

use super::edit::{
    cleared, filled, inserted_char, is_block, recalled_next, recalled_prev, removed_range, same_settings,
    toggled_multiline,
};
use super::lines::{display_fits, display_of, down_target, moved_to, up_target};
use super::suggest::refreshed;
use super::words::{ending_block, lemma_block_at_end_unique, lemma_block_nonempty, word_deleted};
use super::edit::{image_spans, paste_spans};
use super::{blocks_ok, cursor_outside};
use crate::command_catalog::completion_context;
use crate::text::contains_char;
use super::{committed, history_matches, InputAction, InputState, SearchState, Suggestion};
use crate::catalog::CatalogModel;
use crate::command_catalog::completion_context_of;
use crate::text::{chars_of, has_char, strs_view};

verus! {

/// The key of a press, as the input bar distinguishes keys.
#[derive(Debug, Clone, Copy, PartialEq, Eq, Structural)]
pub enum KeyCode {
    Char(char),
    Enter,
    Tab,
    Backspace,
    Delete,
    Left,
    Right,
    Home,
    End,
    Up,
    Down,
    Esc,
    Other,
}

/// A key press with its modifiers.
#[derive(Debug, Clone, Copy, PartialEq, Eq, Structural)]
pub struct KeyPress {
    pub code: KeyCode,
    pub ctrl: bool,
    pub shift: bool,
    pub alt: bool,
}

/// Control-character test: C0 controls and DEL.
pub open spec fn ascii_control(c: char) -> bool {
    (c as u32) < 0x20 || c as u32 == 0x7f
}

/// The state with another history search.
pub open spec fn with_search(s: InputState, search: Option<SearchState>) -> InputState {
    InputState { search, ..s }
}

/// The state with another popup.
pub open spec fn with_suggest(s: InputState, suggest: Option<Suggestion>) -> InputState {
    InputState { suggest, ..s }
}

/// The state after putting `text` in the bar.
pub open spec fn restored(s: InputState, t: InputState, text: Seq<char>) -> bool {
    &&& t.buf@ == text
    &&& t.cursor == text.len()
    &&& t.paste_blocks@.len() == 0 && t.image_blocks@.len() == 0
    &&& t.suggest is None
    &&& same_settings(s, t)
}

/// The start of the block beginning at `c`, and its end, if one does.
pub open spec fn starting_block(s: InputState, c: int) -> Option<int> {
    if exists|e: int| is_block(s, c, e) {
        Some(choose|e: int| is_block(s, c, e))
    } else {
        None
    }
}

/// A key of history search mode: Esc or `q` leave, Enter loads the
/// highlighted match, Up and Down move through the matches (wrapping),
/// typing and Backspace edit the query.
pub open spec fn search_stepped(s: InputState, key: KeyPress, t: InputState) -> bool {
    let sr = s.search->0;
    let base = with_search(s, None);
    let n = history_matches(s.history@, sr.query@).len();
    match key.code {
        KeyCode::Esc | KeyCode::Char('q') => t == base,
        KeyCode::Enter => if key.shift {
            t == s
        } else if sr.sel < n {
            restored(base, t, history_matches(s.history@, sr.query@)[sr.sel as int]) && t.search is None
        } else {
            t == base
        },
        KeyCode::Up => {
            &&& t == with_search(s, t.search)
            &&& t.search matches Some(ns)
            &&& ns.query == sr.query
            &&& ns.sel == if n > 0 {
                ((sr.sel + n - 1) % (n as int)) as usize
            } else {
                sr.sel
            }
        },
        KeyCode::Down => {
            &&& t == with_search(s, t.search)
            &&& t.search matches Some(ns)
            &&& ns.query == sr.query
            &&& ns.sel == if n > 0 {
                ((sr.sel + 1) % (n as int)) as usize
            } else {
                sr.sel
            }
        },
        KeyCode::Char(c) => {
            &&& t == with_search(s, t.search)
            &&& t.search matches Some(ns)
            &&& if ascii_control(c) {
                ns.query == sr.query && ns.sel == sr.sel
            } else {
                ns.query@ == sr.query@.push(c) && ns.sel == 0
            }
        },
        KeyCode::Backspace => {
            &&& t == with_search(s, t.search)
            &&& t.search matches Some(ns)
            &&& ns.sel == 0
            &&& ns.query@ == if sr.query@.len() > 0 {
                sr.query@.drop_last()
            } else {
                sr.query@
            }
        },
        _ => t == s,
    }
}

/// Whether the open popup owns a key.
pub open spec fn popup_key(key: KeyPress) -> bool {
    match key.code {
        KeyCode::Esc | KeyCode::Up | KeyCode::Down | KeyCode::Tab => true,
        KeyCode::Enter => !key.shift,
        _ => false,
    }
}

/// Filling the highlighted row `cmd`; reaching `/skill` reopens the popup
/// as the skill roster.
pub open spec fn filled_row(s: InputState, t: InputState, cmd: Seq<char>, c: CatalogModel) -> bool {
    if cmd == "/skill"@ {
        exists|m: InputState| #[trigger] filled(s, m, cmd) && refreshed(m, t, c)
    } else {
        filled(s, t, cmd)
    }
}

/// A key the open popup owns: Esc restores the typed query; Up and Down
/// move the highlight and fill it, or past the list's edge close it and
/// recall history; Tab completes a partial row or advances; Enter sends the
/// highlighted row.
pub open spec fn popup_stepped(s: InputState, key: KeyPress, c: CatalogModel, t: InputState, r: InputAction) -> bool {
    let sg = s.suggest->0;
    let rows = strs_view(sg.matches@);
    let n = sg.matches@.len();
    match key.code {
        KeyCode::Esc => r is Nothing && restored(with_suggest(s, None), t, sg.query@),
        KeyCode::Up => r is Nothing && if sg.sel == 0 {
            exists|m: InputState| #[trigger] recalled_prev(with_suggest(s, None), m) && refreshed(m, t, c)
        } else {
            let sel = (sg.sel - 1) as usize;
            filled_row(with_suggest(s, Some(Suggestion { sel, ..sg })), t, rows[sel as int], c)
        },
        KeyCode::Down => r is Nothing && if sg.sel + 1 >= n {
            exists|m: InputState| #[trigger] recalled_next(with_suggest(s, None), m) && refreshed(m, t, c)
        } else {
            let sel = (sg.sel + 1) as usize;
            filled_row(with_suggest(s, Some(Suggestion { sel, ..sg })), t, rows[sel as int], c)
        },
        KeyCode::Tab => {
            let sel = if s.buf@ == rows[sg.sel as int] {
                ((sg.sel + 1) % (n as int)) as usize
            } else {
                sg.sel
            };
            r is Nothing && filled_row(with_suggest(s, Some(Suggestion { sel, ..sg })), t, rows[sel as int], c)
        },
        _ => {
            let cmd = rows[sg.sel as int];
            let base = with_suggest(s, None);
            if cmd.len() > 0 {
                exists|m: InputState| #[trigger] restored(base, m, cmd) && committed(m, t, r)
            } else {
                committed(base, t, r)
            }
        },
    }
}

/// Backspace: the block ending at the cursor goes whole, else one
/// character.
pub open spec fn backspaced(s: InputState, t: InputState) -> bool {
    let c = s.cursor as int;
    match ending_block(s, c) {
        Some(a) => removed_range(s, t, a, c),
        None => if c > 0 {
            removed_range(s, t, c - 1, c)
        } else {
            t == s
        },
    }
}

/// Delete: the block starting at the cursor goes whole, else one character.
pub open spec fn deleted_forward(s: InputState, t: InputState) -> bool {
    let c = s.cursor as int;
    match starting_block(s, c) {
        Some(e) => removed_range(s, t, c, e),
        None => if c < s.buf@.len() {
            removed_range(s, t, c, c + 1)
        } else {
            t == s
        },
    }
}

/// The state with the cursor elsewhere.
pub open spec fn with_cursor(s: InputState, cursor: int) -> InputState {
    InputState { cursor: cursor as usize, ..s }
}

/// Left: over a block whole, else one character.
pub open spec fn left_of(s: InputState) -> int {
    let c = s.cursor as int;
    match ending_block(s, c) {
        Some(a) => a,
        None => if c > 0 {
            c - 1
        } else {
            c
        },
    }
}

/// Right: over a block whole, else one character.
pub open spec fn right_of(s: InputState) -> int {
    let c = s.cursor as int;
    match starting_block(s, c) {
        Some(e) => e,
        None => if c < s.buf@.len() {
            c + 1
        } else {
            c
        },
    }
}

/// Up: a line up in multiline mode, else (or on the first line) the
/// previous history entry.
pub open spec fn went_up(s: InputState, t: InputState) -> bool {
    if s.multiline && up_target(display_of(s).0, display_of(s).1) is Some {
        moved_to(s, t, up_target(display_of(s).0, display_of(s).1)->0)
    } else {
        recalled_prev(s, t)
    }
}

/// Down: a line down in multiline mode, else (or on the last line) the
/// next history entry or the draft.
pub open spec fn went_down(s: InputState, t: InputState) -> bool {
    if s.multiline && down_target(display_of(s).0, display_of(s).1) is Some {
        moved_to(s, t, down_target(display_of(s).0, display_of(s).1)->0)
    } else {
        recalled_next(s, t)
    }
}

/// Whether Tab opens completion: a slash word, or an argument context.
pub open spec fn tab_context(buf: Seq<char>) -> bool {
    let command_ctx = buf.len() > 0 && buf[0] == '/' && !has_char(buf, ' ') && !has_char(buf, '\n');
    let ctx = completion_context_of(buf);
    let argument_ctx = ctx is Some && !has_char(ctx.unwrap().1, ' ') && !has_char(ctx.unwrap().1, '\n');
    command_ctx || argument_ctx
}

/// Tab with the popup closed: open it and fill its first row.
pub open spec fn tab_completed(s: InputState, c: CatalogModel, t: InputState) -> bool {
    if tab_context(s.buf@) {
        exists|m: InputState|
            #[trigger] refreshed(s, m, c) && match m.suggest {
                None => t == m,
                Some(sg) => filled_row(m, t, strs_view(sg.matches@)[sg.sel as int], c),
            }
    } else {
        t == s
    }
}

/// The plain editing step a key makes before the popup is recomputed.
pub open spec fn edit_stepped(s: InputState, key: KeyPress, idle: bool, c: CatalogModel, t: InputState, r: InputAction) -> bool {
    match key.code {
        KeyCode::Enter => committed(s, t, r),
        KeyCode::Tab => r is Nothing && tab_completed(s, c, t),
        KeyCode::Char(ch) => r is Nothing && if key.ctrl && ch == 'w' {
            word_deleted(s, t)
        } else {
            inserted_char(s, t, ch)
        },
        KeyCode::Backspace => r is Nothing && if key.ctrl || key.alt {
            word_deleted(s, t)
        } else {
            backspaced(s, t)
        },
        KeyCode::Delete => r is Nothing && deleted_forward(s, t),
        KeyCode::Left => r is Nothing && t == with_cursor(s, left_of(s)),
        KeyCode::Right => r is Nothing && t == with_cursor(s, right_of(s)),
        KeyCode::Home => r is Nothing && t == with_cursor(s, 0),
        KeyCode::End => r is Nothing && t == with_cursor(s, s.buf@.len() as int),
        KeyCode::Up => r is Nothing && went_up(s, t),
        KeyCode::Down => r is Nothing && went_down(s, t),
        KeyCode::Esc => t == s && if idle {
            r is Nothing
        } else {
            r is Interrupt
        },
        KeyCode::Other => r is Nothing && t == s,
    }
}

/// Whether a key returns before the popup is recomputed: Alt+Enter typed as
/// a character, and other Ctrl+characters than Ctrl+W.
pub open spec fn early_char(key: KeyPress) -> bool {
    key.code matches KeyCode::Char(ch) && ((key.alt && (ch == '\r' || ch == '\n')) || (key.ctrl && ch != 'w'))
}

/// What a key does to the input bar and what it asks of the UI.
pub open spec fn key_handled(s: InputState, key: KeyPress, idle: bool, c: CatalogModel, t: InputState, r: InputAction) -> bool {
    if key.ctrl && key.code == KeyCode::Char('c') {
        if s.buf@.len() > 0 {
            &&& r is Nothing
            &&& t.buf@.len() == 0 && t.cursor == 0 && t.paste_blocks@.len() == 0 && t.image_blocks@.len() == 0
            &&& t.suggest is None && t.search is None && !t.multiline && t.draft is None
            &&& t.draft_paste_blocks@.len() == 0 && t.draft_image_blocks@.len() == 0
            &&& t.history == s.history && t.hist_idx == s.hist_idx && t.language == s.language
            &&& t.paste_placeholder_chars == s.paste_placeholder_chars && t.history_limit == s.history_limit
        } else {
            t == s && if idle {
                r is Quit
            } else {
                r is Nothing
            }
        }
    } else if key.ctrl && key.code == KeyCode::Char('p') {
        r is PreviewToggle && t == s
    } else if key.ctrl && key.code == KeyCode::Char('y') {
        r is ReadingToggle && t == s
    } else if key.ctrl && key.code == KeyCode::Char('l') {
        r is Nothing && t == s
    } else if key.ctrl && key.code == KeyCode::Char('r') {
        r is Nothing && if s.multiline {
            t == s
        } else {
            &&& t == with_search(s, t.search)
            &&& t.search matches Some(sr)
            &&& sr.query@.len() == 0 && sr.sel == 0
        }
    } else if s.search is Some {
        r is Nothing && search_stepped(s, key, t)
    } else if s.suggest is Some && popup_key(key) {
        popup_stepped(s, key, c, t, r)
    } else if key.shift && key.code == KeyCode::Enter {
        r is Nothing && exists|m: InputState|
            #[trigger] inserted_char(s, m, '\n') && t == InputState { multiline: true, suggest: None, ..m }
    } else if key.alt && key.code == KeyCode::Enter {
        r is ToggleMultiline && toggled_multiline(s, t)
    } else if key.ctrl && key.code == KeyCode::Enter {
        exists|r0: InputAction|
            #[trigger] committed(s, t, r0) && match r0 {
                InputAction::Send(p) => r == InputAction::SendAfterTurn(p),
                _ => r == r0,
            }
    } else if early_char(key) {
        if key.alt && (key.code->0 == '\r' || key.code->0 == '\n') {
            r is ToggleMultiline && toggled_multiline(s, t)
        } else {
            r is Nothing && t == s
        }
    } else {
        exists|m: InputState| #[trigger] edit_stepped(s, key, idle, c, m, r) && refreshed(m, t, c)
    }
}

proof fn lemma_wrap_prev(sel: int, n: int)
    requires
        n > 0,
        sel >= 0,
    ensures
        (sel + n - 1) % n == if sel % n == 0 {
            n - 1
        } else {
            sel % n - 1
        },
{
    assert((sel + n - 1) % n == if sel % n == 0 { n - 1 } else { sel % n - 1 }) by (nonlinear_arith)
        requires
            n > 0,
            sel >= 0,
    ;
}

proof fn lemma_wrap_next(sel: int, n: int)
    requires
        n > 0,
        sel >= 0,
    ensures
        (sel + 1) % n == if sel % n == n - 1 {
            0
        } else {
            sel % n + 1
        },
{
    assert((sel + 1) % n == if sel % n == n - 1 { 0 } else { sel % n + 1 }) by (nonlinear_arith)
        requires
            n > 0,
            sel >= 0,
    ;
}

impl InputState {
    /// A key in history search mode.
    fn handle_search_key(&mut self, key: KeyPress)
        requires
            old(self).wf(),
            old(self).search is Some,
        ensures
            final(self).wf(),
            search_stepped(*old(self), key, *final(self)),
    {
        let mut search = match self.search.take() {
            Some(sr) => sr,
            None => {
                return;
            },
        };
        match key.code {
            KeyCode::Esc => {
                return;
            },
            KeyCode::Char('q') => {
                return;
            },
            KeyCode::Enter => {
                if key.shift {
                    self.search = Some(search);
                    return;
                }
                let matches = self.matching_history(search.query.as_str());
                if search.sel < matches.len() {
                    let entry = matches[search.sel].clone();
                    proof {
                        assert(strs_view(matches@)[search.sel as int] == matches@[search.sel as int]@);
                    }
                    self.restore_text(entry);
                }
                return;
            },
            KeyCode::Up => {
                let n = self.matching_history(search.query.as_str()).len();
                if n > 0 {
                    proof {
                        lemma_wrap_prev(search.sel as int, n as int);
                    }
                    let m = search.sel % n;
                    search.sel = if m == 0 {
                        n - 1
                    } else {
                        m - 1
                    };
                }
            },
            KeyCode::Down => {
                let n = self.matching_history(search.query.as_str()).len();
                if n > 0 {
                    proof {
                        lemma_wrap_next(search.sel as int, n as int);
                    }
                    let m = search.sel % n;
                    search.sel = if m == n - 1 {
                        0
                    } else {
                        m + 1
                    };
                }
            },
            KeyCode::Char(c) => {
                let code = c as u32;
                if !(code < 0x20 || code == 0x7f) {
                    crate::text::push_char(&mut search.query, c);
                    search.sel = 0;
                }
            },
            KeyCode::Backspace => {
                let v = chars_of(search.query.as_str());
                if v.len() > 0 {
                    search.query = crate::text::string_of_range(v.as_slice(), 0, v.len() - 1);
                    proof {
                        assert(search.query@ =~= v@.drop_last());
                    }
                }
                search.sel = 0;
            },
            _ => {},
        }
        self.search = Some(search);
    }
}

impl InputState {
    /// Fill a highlighted row; `/skill` reopens the popup as the roster.
    fn fill_row(&mut self, cmd: String, c: &CatalogModel)
        requires
            old(self).wf(),
        ensures
            final(self).wf(),
            filled_row(*old(self), *final(self), cmd@, *c),
    {
        let skill = crate::text::str_eq(cmd.as_str(), "/skill");
        let ghost s0 = *self;
        let ghost text = cmd@;
        self.fill_text(cmd);
        if skill {
            let ghost m = *self;
            self.refresh_suggest(c);
            proof {
                assert(filled(s0, m, text) && refreshed(m, *self, *c));
            }
        }
    }

    /// A key the open popup owns.
    fn handle_popup_key(&mut self, key: KeyPress, c: &CatalogModel) -> (r: InputAction)
        requires
            old(self).wf(),
            old(self).suggest is Some,
            popup_key(key),
        ensures
            final(self).wf(),
            popup_stepped(*old(self), key, *c, *final(self), r),
    {
        let ghost s0 = *self;
        let mut sg = match self.suggest.take() {
            Some(sg) => sg,
            None => {
                return InputAction::Nothing;
            },
        };
        let n = sg.matches.len();
        proof {
            assert(strs_view(sg.matches@).len() == n);
        }
        match key.code {
            KeyCode::Esc => {
                self.restore_text(sg.query);
                InputAction::Nothing
            },
            KeyCode::Up => {
                if sg.sel == 0 {
                    let ghost base = *self;
                    self.history_prev();
                    let ghost m = *self;
                    self.refresh_suggest(c);
                    proof {
                        assert(recalled_prev(base, m) && refreshed(m, *self, *c));
                    }
                } else {
                    sg.sel = sg.sel - 1;
                    let cmd = sg.matches[sg.sel].clone();
                    proof {
                        assert(strs_view(sg.matches@)[sg.sel as int] == sg.matches@[sg.sel as int]@);
                    }
                    self.suggest = Some(sg);
                    self.fill_row(cmd, c);
                }
                InputAction::Nothing
            },
            KeyCode::Down => {
                if sg.sel + 1 >= n {
                    let ghost base = *self;
                    self.history_next();
                    let ghost m = *self;
                    self.refresh_suggest(c);
                    proof {
                        assert(recalled_next(base, m) && refreshed(m, *self, *c));
                    }
                } else {
                    sg.sel = sg.sel + 1;
                    let cmd = sg.matches[sg.sel].clone();
                    proof {
                        assert(strs_view(sg.matches@)[sg.sel as int] == sg.matches@[sg.sel as int]@);
                    }
                    self.suggest = Some(sg);
                    self.fill_row(cmd, c);
                }
                InputAction::Nothing
            },
            KeyCode::Tab => {
                if crate::text::str_eq(self.buf.as_str(), sg.matches[sg.sel].as_str()) {
                    proof {
                        assert(strs_view(sg.matches@)[sg.sel as int] == sg.matches@[sg.sel as int]@);
                        lemma_wrap_next(sg.sel as int, n as int);
                        vstd::arithmetic::div_mod::lemma_small_mod(sg.sel as nat, n as nat);
                    }
                    sg.sel = if sg.sel == n - 1 {
                        0
                    } else {
                        sg.sel + 1
                    };
                } else {
                    proof {
                        assert(strs_view(sg.matches@)[sg.sel as int] == sg.matches@[sg.sel as int]@);
                    }
                }
                let cmd = sg.matches[sg.sel].clone();
                proof {
                    assert(strs_view(sg.matches@)[sg.sel as int] == sg.matches@[sg.sel as int]@);
                }
                self.suggest = Some(sg);
                self.fill_row(cmd, c);
                InputAction::Nothing
            },
            _ => {
                let cmd = sg.matches[sg.sel].clone();
                proof {
                    assert(strs_view(sg.matches@)[sg.sel as int] == sg.matches@[sg.sel as int]@);
                }
                if cmd.unicode_len() > 0 {
                    let ghost text = cmd@;
                    self.restore_text(cmd);
                    let ghost m = *self;
                    let r = self.commit();
                    proof {
                        assert(restored(with_suggest(s0, None), m, text) && committed(m, *self, r));
                    }
                    r
                } else {
                    self.commit()
                }
            },
        }
    }
}

proof fn lemma_block_at_start_unique(s: InputState, a: int, e1: int, e2: int)
    requires
        blocks_ok(s.paste_blocks@, s.image_blocks@, s.buf@.len() as int),
        is_block(s, a, e1),
        is_block(s, a, e2),
    ensures
        e1 == e2,
{
    let ps = s.paste_blocks@;
    let is = s.image_blocks@;
    let pr = paste_spans(ps);
    let ir = image_spans(is);
    if pr.contains((a, e1)) && pr.contains((a, e2)) {
        let i = choose|i: int| 0 <= i < pr.len() && pr[i] == (a, e1);
        let j = choose|j: int| 0 <= j < pr.len() && pr[j] == (a, e2);
        if i < j {
            assert(ps[i].end <= ps[j].start);
        } else if j < i {
            assert(ps[j].end <= ps[i].start);
        }
    } else if ir.contains((a, e1)) && ir.contains((a, e2)) {
        let i = choose|i: int| 0 <= i < ir.len() && ir[i] == (a, e1);
        let j = choose|j: int| 0 <= j < ir.len() && ir[j] == (a, e2);
        if i < j {
            assert(is[i].end <= is[j].start);
        } else if j < i {
            assert(is[j].end <= is[i].start);
        }
    } else if pr.contains((a, e1)) {
        let i = choose|i: int| 0 <= i < pr.len() && pr[i] == (a, e1);
        let j = choose|j: int| 0 <= j < ir.len() && ir[j] == (a, e2);
        assert(ps[i].end <= is[j].start || is[j].end <= ps[i].start);
    } else {
        let i = choose|i: int| 0 <= i < ir.len() && ir[i] == (a, e1);
        let j = choose|j: int| 0 <= j < pr.len() && pr[j] == (a, e2);
        assert(ps[j].end <= is[i].start || is[i].end <= ps[j].start);
    }
}

/// Both ends of a block are outside every block.
proof fn lemma_boundary_outside(s: InputState, a: int, e: int)
    requires
        blocks_ok(s.paste_blocks@, s.image_blocks@, s.buf@.len() as int),
        is_block(s, a, e),
    ensures
        cursor_outside(s.paste_blocks@, s.image_blocks@, a),
        cursor_outside(s.paste_blocks@, s.image_blocks@, e),
{
    let ps = s.paste_blocks@;
    let is = s.image_blocks@;
    let pr = paste_spans(ps);
    let ir = image_spans(is);
    lemma_block_nonempty(s, a, e);
    if pr.contains((a, e)) {
        let i = choose|i: int| 0 <= i < pr.len() && pr[i] == (a, e);
        assert forall|k: int| 0 <= k < ps.len() implies !((#[trigger] ps[k]).start < a < ps[k].end) && !(ps[k].start < e < ps[k].end) by {
            if k < i {
                assert(ps[k].end <= ps[i].start);
            } else if k > i {
                assert(ps[i].end <= ps[k].start);
            }
        }
        assert forall|k: int| 0 <= k < is.len() implies !((#[trigger] is[k]).start < a < is[k].end) && !(is[k].start < e < is[k].end) by {
            assert(ps[i].end <= is[k].start || is[k].end <= ps[i].start);
        }
    } else {
        let i = choose|i: int| 0 <= i < ir.len() && ir[i] == (a, e);
        assert forall|k: int| 0 <= k < is.len() implies !((#[trigger] is[k]).start < a < is[k].end) && !(is[k].start < e < is[k].end) by {
            if k < i {
                assert(is[k].end <= is[i].start);
            } else if k > i {
                assert(is[i].end <= is[k].start);
            }
        }
        assert forall|k: int| 0 <= k < ps.len() implies !((#[trigger] ps[k]).start < a < ps[k].end) && !(ps[k].start < e < ps[k].end) by {
            assert(ps[k].end <= is[i].start || is[i].end <= ps[k].start);
        }
    }
}

/// One character left of the cursor is outside every block when no block
/// ends at the cursor.
proof fn lemma_step_left(s: InputState)
    requires
        s.wf(),
        s.cursor > 0,
        forall|a: int| !is_block(s, a, s.cursor as int),
    ensures
        cursor_outside(s.paste_blocks@, s.image_blocks@, s.cursor - 1),
{
    let ps = s.paste_blocks@;
    let is = s.image_blocks@;
    let c = s.cursor as int;
    assert forall|k: int| 0 <= k < ps.len() implies !((#[trigger] ps[k]).start < c - 1 < ps[k].end) by {
        if ps[k].start < c - 1 < ps[k].end {
            assert(paste_spans(ps)[k] == (ps[k].start as int, ps[k].end as int));
            assert(is_block(s, ps[k].start as int, ps[k].end as int));
        }
    }
    assert forall|k: int| 0 <= k < is.len() implies !((#[trigger] is[k]).start < c - 1 < is[k].end) by {
        if is[k].start < c - 1 < is[k].end {
            assert(image_spans(is)[k] == (is[k].start as int, is[k].end as int));
            assert(is_block(s, is[k].start as int, is[k].end as int));
        }
    }
}

/// One character right of the cursor is outside every block when no block
/// starts at the cursor.
proof fn lemma_step_right(s: InputState)
    requires
        s.wf(),
        s.cursor < s.buf@.len(),
        forall|e: int| !is_block(s, s.cursor as int, e),
    ensures
        cursor_outside(s.paste_blocks@, s.image_blocks@, s.cursor + 1),
{
    let ps = s.paste_blocks@;
    let is = s.image_blocks@;
    let c = s.cursor as int;
    assert forall|k: int| 0 <= k < ps.len() implies !((#[trigger] ps[k]).start < c + 1 < ps[k].end) by {
        if ps[k].start < c + 1 < ps[k].end {
            assert(paste_spans(ps)[k] == (ps[k].start as int, ps[k].end as int));
            assert(is_block(s, ps[k].start as int, ps[k].end as int));
        }
    }
    assert forall|k: int| 0 <= k < is.len() implies !((#[trigger] is[k]).start < c + 1 < is[k].end) by {
        if is[k].start < c + 1 < is[k].end {
            assert(image_spans(is)[k] == (is[k].start as int, is[k].end as int));
            assert(is_block(s, is[k].start as int, is[k].end as int));
        }
    }
}

fn tab_context_of(buf: &str) -> (r: bool)
    ensures
        r == tab_context(buf@),
{
    let v = chars_of(buf);
    let command_ctx = v.len() > 0 && v[0] == '/' && !contains_char(v.as_slice(), ' ') && !contains_char(
        v.as_slice(),
        '\n',
    );
    let argument_ctx = match completion_context(buf) {
        Some((_, query)) => {
            let q = chars_of(query);
            !contains_char(q.as_slice(), ' ') && !contains_char(q.as_slice(), '\n')
        },
        None => false,
    };
    command_ctx || argument_ctx
}

impl InputState {
    /// The editing step of a key, before the popup is recomputed.
    fn handle_edit_key(&mut self, key: KeyPress, idle: bool, c: &CatalogModel) -> (r: InputAction)
        requires
            old(self).wf(),
            old(self).buf@.len() < usize::MAX,
            display_fits(*old(self)),
        ensures
            final(self).wf(),
            edit_stepped(*old(self), key, idle, *c, *final(self), r),
    {
        let ghost s = *self;
        match key.code {
            KeyCode::Enter => self.commit(),
            KeyCode::Tab => {
                if tab_context_of(self.buf.as_str()) {
                    self.refresh_suggest(c);
                    let ghost m = *self;
                    let cmd = match &self.suggest {
                        Some(sg) => {
                            proof {
                                assert(strs_view(sg.matches@)[sg.sel as int] == sg.matches@[sg.sel as int]@);
                            }
                            Some(sg.matches[sg.sel].clone())
                        },
                        None => None,
                    };
                    match cmd {
                        Some(cmd) => self.fill_row(cmd, c),
                        None => {},
                    }
                    proof {
                        assert(refreshed(s, m, *c));
                    }
                }
                InputAction::Nothing
            },
            KeyCode::Char(ch) => {
                if key.ctrl && ch == 'w' {
                    self.delete_word_back();
                } else {
                    self.insert_char(ch);
                }
                InputAction::Nothing
            },
            KeyCode::Backspace => {
                if key.ctrl || key.alt {
                    self.delete_word_back();
                } else {
                    let cur = self.cursor;
                    match self.block_ending_at(cur) {
                        Some((a, _)) => {
                            proof {
                                lemma_block_at_end_unique(s, a as int, choose|x: int| is_block(s, x, cur as int), cur as int);
                                lemma_block_nonempty(s, a as int, cur as int);
                            }
                            self.remove_range(a, cur);
                        },
                        None => {
                            if cur > 0 {
                                self.remove_range(cur - 1, cur);
                            }
                        },
                    }
                }
                InputAction::Nothing
            },
            KeyCode::Delete => {
                let cur = self.cursor;
                match self.block_starting_at(cur) {
                    Some((_, e)) => {
                        proof {
                            lemma_block_at_start_unique(s, cur as int, e as int, choose|x: int| is_block(s, cur as int, x));
                            lemma_block_nonempty(s, cur as int, e as int);
                        }
                        self.remove_range(cur, e);
                    },
                    None => {
                        let len = chars_of(self.buf.as_str()).len();
                        if cur < len {
                            self.remove_range(cur, cur + 1);
                        }
                    },
                }
                InputAction::Nothing
            },
            KeyCode::Left => {
                let cur = self.cursor;
                match self.block_ending_at(cur) {
                    Some((a, _)) => {
                        proof {
                            lemma_block_at_end_unique(s, a as int, choose|x: int| is_block(s, x, cur as int), cur as int);
                            lemma_boundary_outside(s, a as int, cur as int);
                        }
                        self.cursor = a;
                    },
                    None => {
                        if cur > 0 {
                            proof {
                                lemma_step_left(s);
                            }
                            self.cursor = cur - 1;
                        }
                    },
                }
                InputAction::Nothing
            },
            KeyCode::Right => {
                let cur = self.cursor;
                match self.block_starting_at(cur) {
                    Some((_, e)) => {
                        proof {
                            lemma_block_at_start_unique(s, cur as int, e as int, choose|x: int| is_block(s, cur as int, x));
                            lemma_boundary_outside(s, cur as int, e as int);
                            lemma_block_nonempty(s, cur as int, e as int);
                        }
                        self.cursor = e;
                    },
                    None => {
                        let len = chars_of(self.buf.as_str()).len();
                        if cur < len {
                            proof {
                                lemma_step_right(s);
                            }
                            self.cursor = cur + 1;
                        }
                    },
                }
                InputAction::Nothing
            },
            KeyCode::Home => {
                self.cursor = 0;
                InputAction::Nothing
            },
            KeyCode::End => {
                self.cursor = chars_of(self.buf.as_str()).len();
                InputAction::Nothing
            },
            KeyCode::Up => {
                if !self.multiline || !self.cursor_up() {
                    self.history_prev();
                }
                InputAction::Nothing
            },
            KeyCode::Down => {
                if !self.multiline || !self.cursor_down() {
                    self.history_next();
                }
                InputAction::Nothing
            },
            KeyCode::Esc => {
                if idle {
                    InputAction::Nothing
                } else {
                    InputAction::Interrupt
                }
            },
            KeyCode::Other => InputAction::Nothing,
        }
    }
}

impl InputState {
    /// Handle one key press against the current catalogs: Ctrl+C clears (or
    /// quits when idle and empty), Ctrl+P and Ctrl+Y toggle views, Ctrl+R
    /// starts history search; search mode and the open popup own their keys;
    /// Shift+Enter breaks the line, Alt+Enter toggles multiline, Ctrl+Enter
    /// queues the prompt until the turn ends; any other key edits and the
    /// popup is recomputed.
    pub fn handle_key_with_catalog(&mut self, key: KeyPress, idle: bool, catalogs: &CatalogModel) -> (r: InputAction)
        requires
            old(self).wf(),
            old(self).buf@.len() < usize::MAX,
            display_fits(*old(self)),
        ensures
            final(self).wf(),
            key_handled(*old(self), key, idle, *catalogs, *final(self), r),
    {
        let ghost s = *self;
        if key.ctrl && key.code == KeyCode::Char('c') {
            if chars_of(self.buf.as_str()).len() > 0 {
                self.clear();
                self.search = None;
                self.multiline = false;
                self.draft = None;
                self.draft_paste_blocks.clear();
                self.draft_image_blocks.clear();
                return InputAction::Nothing;
            }
            if idle {
                return InputAction::Quit;
            }
            return InputAction::Nothing;
        }
        if key.ctrl && key.code == KeyCode::Char('p') {
            return InputAction::PreviewToggle;
        }
        if key.ctrl && key.code == KeyCode::Char('y') {
            return InputAction::ReadingToggle;
        }
        if key.ctrl && key.code == KeyCode::Char('l') {
            return InputAction::Nothing;
        }
        if key.ctrl && key.code == KeyCode::Char('r') {
            if !self.multiline {
                self.search = Some(SearchState { query: String::new(), sel: 0 });
            }
            return InputAction::Nothing;
        }
        if self.search.is_some() {
            self.handle_search_key(key);
            return InputAction::Nothing;
        }
        let popup_owns = match key.code {
            KeyCode::Esc | KeyCode::Up | KeyCode::Down | KeyCode::Tab => true,
            KeyCode::Enter => !key.shift,
            _ => false,
        };
        if self.suggest.is_some() && popup_owns {
            return self.handle_popup_key(key, catalogs);
        }
        if key.shift && key.code == KeyCode::Enter {
            self.insert_char('\n');
            let ghost m = *self;
            self.multiline = true;
            self.suggest = None;
            proof {
                assert(inserted_char(s, m, '\n'));
            }
            return InputAction::Nothing;
        }
        if key.alt && key.code == KeyCode::Enter {
            return self.toggle_multiline();
        }
        if key.ctrl && key.code == KeyCode::Enter {
            let r0 = self.commit();
            proof {
                assert(committed(s, *self, r0));
            }
            return match r0 {
                InputAction::Send(prompt) => InputAction::SendAfterTurn(prompt),
                other => other,
            };
        }
        match key.code {
            KeyCode::Char(ch) => {
                if key.alt && (ch == '\r' || ch == '\n') {
                    return self.toggle_multiline();
                }
                if key.ctrl && ch != 'w' {
                    return InputAction::Nothing;
                }
            },
            _ => {},
        }
        let action = self.handle_edit_key(key, idle, catalogs);
        let ghost m = *self;
        self.refresh_suggest(catalogs);
        proof {
            assert(edit_stepped(s, key, idle, *catalogs, m, action) && refreshed(m, *self, *catalogs));
        }
        action
    }

    /// Handle a key without catalogs: completion sees no modes, models,
    /// skills or integrated commands.
    /// Handle a key press when the input bar can take one more character
    /// and its display fits in memory; otherwise nothing changes and `None`
    /// is returned.
    pub fn handle_key_checked(&mut self, key: KeyPress, idle: bool, catalogs: &CatalogModel) -> (r: Option<InputAction>)
        requires
            old(self).wf(),
        ensures
            final(self).wf(),
            r is None <==> !(old(self).buf@.len() < usize::MAX && display_fits(*old(self))),
            r is None ==> *final(self) == *old(self),
            r matches Some(a) ==> key_handled(*old(self), key, idle, *catalogs, *final(self), a),
    {
        let n = chars_of(self.buf.as_str()).len();
        if n == usize::MAX || !self.display_fits_now() {
            return None;
        }
        Some(self.handle_key_with_catalog(key, idle, catalogs))
    }

    pub fn handle_key(&mut self, key: KeyPress, idle: bool) -> (r: InputAction)
        requires
            old(self).wf(),
            old(self).buf@.len() < usize::MAX,
            display_fits(*old(self)),
        ensures
            final(self).wf(),
            exists|c: CatalogModel|
                #[trigger] key_handled(*old(self), key, idle, c, *final(self), r) && c.new_modes@.len() == 0
                    && c.integrated_commands@.len() == 0 && c.skills@.len() == 0 && c.model_providers@.len() == 0
                    && c.current_model is None,
    {
        let catalogs = CatalogModel::new();
        self.handle_key_with_catalog(key, idle, &catalogs)
    }

    /// Rebuild an open popup after the catalogs change, keeping the
    /// highlighted row when it is still listed.
    pub fn catalog_changed(&mut self, catalogs: &CatalogModel)
        requires
            old(self).wf(),
        ensures
            final(self).wf(),
            exists|m: InputState|
                #[trigger] refreshed(with_suggest(*old(self), None), m, *catalogs) && match old(self).suggest {
                    Some(sg) => match m.suggest {
                        Some(ns) => match super::suggest::first_row(
                            strs_view(ns.matches@),
                            strs_view(sg.matches@)[sg.sel as int],
                        ) {
                            Some(p) => *final(self) == with_suggest(m, Some(Suggestion { sel: p as usize, ..ns })),
                            None => *final(self) == m,
                        },
                        None => *final(self) == m,
                    },
                    None => *final(self) == m,
                },
    {
        let selected = match &self.suggest {
            Some(sg) => {
                proof {
                    assert(strs_view(sg.matches@)[sg.sel as int] == sg.matches@[sg.sel as int]@);
                }
                Some(sg.matches[sg.sel].clone())
            },
            None => None,
        };
        self.suggest = None;
        let ghost base = *self;
        self.refresh_suggest(catalogs);
        let ghost m = *self;
        match selected {
            Some(line) => {
                let pos = match &self.suggest {
                    Some(ns) => super::suggest::row_of(&ns.matches, line.as_str()),
                    None => None,
                };
                match pos {
                    Some(p) => {
                        let mut ns = self.suggest.take().unwrap();
                        ns.sel = p;
                        self.suggest = Some(ns);
                    },
                    None => {},
                }
            },
            None => {},
        }
        proof {
            assert(refreshed(base, m, *catalogs));
        }
    }
}

} // verus!
