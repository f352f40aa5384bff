//! Keyboard schema: the actions a key can be bound to, the scopes
//! bindings live in, and what a resolved key means.
use vstd::prelude::*;

use crate::agent::tool::parts_view;
use crate::debug_fmt::{debug_quoted, debug_str};
use crate::text::{
    ascii_lower, chars_of, decimal, is_control, is_control_char, push_char, push_decimal, push_str, str_eq, string_of,
    to_ascii_lowercase,
};

verus! {

#[derive(Debug, Clone, Copy, PartialEq, Eq, PartialOrd, Ord, Structural)]
pub enum Action {
    PrintHelp,
    EnterReadMode,
    ChooseModel,
    ChooseEffort,
    OpenSettings,
    ResumeSession,
    TogglePreview,
    PageUp,
    PageDown,
    NewLine,
    Paste,
    ClearOrQuit,
    CancelOrInterrupt,
    HistorySearch,
    Complete,
    ToggleMultiline,
    Send,
    SendAsap,
    SendAfterTurn,
    MoveLeft,
    MoveRight,
    MoveUp,
    MoveDown,
    MoveUpFast,
    MoveDownFast,
    MoveStart,
    MoveEnd,
    DeleteBackward,
    DeleteForward,
    DeleteWordBackward,
    Previous,
    Next,
    Accept,
    Cancel,
    Exit,
    CopyBlock,
    EnterItems,
    BackToBlocks,
    Confirm,
    Back,
    Close,
    PreviousQuestion,
    NextQuestion,
    PreviousOption,
    NextOption,
    ToggleOption,
    Allow,
    Deny,
}

/// The name an action is written under in a key-mapping document.
pub open spec fn action_name(action: Action) -> Seq<char> {
    match action {
        Action::PrintHelp => "print_help"@,
        Action::EnterReadMode => "enter_read_mode"@,
        Action::ChooseModel => "choose_model"@,
        Action::ChooseEffort => "choose_effort"@,
        Action::OpenSettings => "open_settings"@,
        Action::ResumeSession => "resume_session"@,
        Action::TogglePreview => "toggle_preview"@,
        Action::PageUp => "page_up"@,
        Action::PageDown => "page_down"@,
        Action::NewLine => "new_line"@,
        Action::Paste => "paste"@,
        Action::ClearOrQuit => "clear_or_quit"@,
        Action::CancelOrInterrupt => "cancel_or_interrupt"@,
        Action::HistorySearch => "history_search"@,
        Action::Complete => "complete"@,
        Action::ToggleMultiline => "toggle_multiline"@,
        Action::Send => "send"@,
        Action::SendAsap => "send_asap"@,
        Action::SendAfterTurn => "send_after_turn"@,
        Action::MoveLeft => "move_left"@,
        Action::MoveRight => "move_right"@,
        Action::MoveUp => "move_up"@,
        Action::MoveDown => "move_down"@,
        Action::MoveUpFast => "move_up_fast"@,
        Action::MoveDownFast => "move_down_fast"@,
        Action::MoveStart => "move_start"@,
        Action::MoveEnd => "move_end"@,
        Action::DeleteBackward => "delete_backward"@,
        Action::DeleteForward => "delete_forward"@,
        Action::DeleteWordBackward => "delete_word_backward"@,
        Action::Previous => "previous"@,
        Action::Next => "next"@,
        Action::Accept => "accept"@,
        Action::Cancel => "cancel"@,
        Action::Exit => "exit"@,
        Action::CopyBlock => "copy_block"@,
        Action::EnterItems => "enter_items"@,
        Action::BackToBlocks => "back_to_blocks"@,
        Action::Confirm => "confirm"@,
        Action::Back => "back"@,
        Action::Close => "close"@,
        Action::PreviousQuestion => "previous_question"@,
        Action::NextQuestion => "next_question"@,
        Action::PreviousOption => "previous_option"@,
        Action::NextOption => "next_option"@,
        Action::ToggleOption => "toggle_option"@,
        Action::Allow => "allow"@,
        Action::Deny => "deny"@,
    }
}

impl Action {
    pub fn name(self) -> (r: &'static str)
        ensures
            r@ == action_name(self),
    {
        match self {
            Action::PrintHelp => "print_help",
            Action::EnterReadMode => "enter_read_mode",
            Action::ChooseModel => "choose_model",
            Action::ChooseEffort => "choose_effort",
            Action::OpenSettings => "open_settings",
            Action::ResumeSession => "resume_session",
            Action::TogglePreview => "toggle_preview",
            Action::PageUp => "page_up",
            Action::PageDown => "page_down",
            Action::NewLine => "new_line",
            Action::Paste => "paste",
            Action::ClearOrQuit => "clear_or_quit",
            Action::CancelOrInterrupt => "cancel_or_interrupt",
            Action::HistorySearch => "history_search",
            Action::Complete => "complete",
            Action::ToggleMultiline => "toggle_multiline",
            Action::Send => "send",
            Action::SendAsap => "send_asap",
            Action::SendAfterTurn => "send_after_turn",
            Action::MoveLeft => "move_left",
            Action::MoveRight => "move_right",
            Action::MoveUp => "move_up",
            Action::MoveDown => "move_down",
            Action::MoveUpFast => "move_up_fast",
            Action::MoveDownFast => "move_down_fast",
            Action::MoveStart => "move_start",
            Action::MoveEnd => "move_end",
            Action::DeleteBackward => "delete_backward",
            Action::DeleteForward => "delete_forward",
            Action::DeleteWordBackward => "delete_word_backward",
            Action::Previous => "previous",
            Action::Next => "next",
            Action::Accept => "accept",
            Action::Cancel => "cancel",
            Action::Exit => "exit",
            Action::CopyBlock => "copy_block",
            Action::EnterItems => "enter_items",
            Action::BackToBlocks => "back_to_blocks",
            Action::Confirm => "confirm",
            Action::Back => "back",
            Action::Close => "close",
            Action::PreviousQuestion => "previous_question",
            Action::NextQuestion => "next_question",
            Action::PreviousOption => "previous_option",
            Action::NextOption => "next_option",
            Action::ToggleOption => "toggle_option",
            Action::Allow => "allow",
            Action::Deny => "deny",
        }
    }
}

#[derive(Debug, Clone, Copy, PartialEq, Eq, PartialOrd, Ord, Structural)]
pub enum Scope {
    Global,
    Message,
    MessageIdle,
    MessageWorking,
    MessageEdit,
    MessageSuggest,
    MessageSearch,
    ReadMode,
    ReadModeItem,
    Page,
    PageEdit,
    PageChoice,
    PageResume,
    PageQuestion,
    PageQuestionEdit,
    Approval,
    Help,
}

pub open spec fn scope_name(scope: Scope) -> Seq<char> {
    match scope {
        Scope::Global => "global"@,
        Scope::Message => "message"@,
        Scope::MessageIdle => "message.idle"@,
        Scope::MessageWorking => "message.working"@,
        Scope::MessageEdit => "message.edit"@,
        Scope::MessageSuggest => "message.suggest"@,
        Scope::MessageSearch => "message.search"@,
        Scope::ReadMode => "read_mode"@,
        Scope::ReadModeItem => "read_mode.item"@,
        Scope::Page => "page"@,
        Scope::PageEdit => "page.edit"@,
        Scope::PageChoice => "page.choice"@,
        Scope::PageResume => "page.resume"@,
        Scope::PageQuestion => "page.question"@,
        Scope::PageQuestionEdit => "page.question.edit"@,
        Scope::Approval => "approval"@,
        Scope::Help => "help"@,
    }
}

pub open spec fn all_scopes() -> Seq<Scope> {
    seq![
        Scope::Global,
        Scope::Message,
        Scope::MessageIdle,
        Scope::MessageWorking,
        Scope::MessageEdit,
        Scope::MessageSuggest,
        Scope::MessageSearch,
        Scope::ReadMode,
        Scope::ReadModeItem,
        Scope::Page,
        Scope::PageEdit,
        Scope::PageChoice,
        Scope::PageResume,
        Scope::PageQuestion,
        Scope::PageQuestionEdit,
        Scope::Approval,
        Scope::Help,
    ]
}

impl Scope {
    /// Every scope, in document order.
    pub fn all() -> (r: Vec<Scope>)
        ensures
            r@ == all_scopes(),
    {
        let r = vec![
            Scope::Global,
            Scope::Message,
            Scope::MessageIdle,
            Scope::MessageWorking,
            Scope::MessageEdit,
            Scope::MessageSuggest,
            Scope::MessageSearch,
            Scope::ReadMode,
            Scope::ReadModeItem,
            Scope::Page,
            Scope::PageEdit,
            Scope::PageChoice,
            Scope::PageResume,
            Scope::PageQuestion,
            Scope::PageQuestionEdit,
            Scope::Approval,
            Scope::Help,
        ];
        proof {
            assert(r@ =~= all_scopes());
        }
        r
    }

    pub fn name(self) -> (r: &'static str)
        ensures
            r@ == scope_name(self),
    {
        match self {
            Scope::Global => "global",
            Scope::Message => "message",
            Scope::MessageIdle => "message.idle",
            Scope::MessageWorking => "message.working",
            Scope::MessageEdit => "message.edit",
            Scope::MessageSuggest => "message.suggest",
            Scope::MessageSearch => "message.search",
            Scope::ReadMode => "read_mode",
            Scope::ReadModeItem => "read_mode.item",
            Scope::Page => "page",
            Scope::PageEdit => "page.edit",
            Scope::PageChoice => "page.choice",
            Scope::PageResume => "page.resume",
            Scope::PageQuestion => "page.question",
            Scope::PageQuestionEdit => "page.question.edit",
            Scope::Approval => "approval",
            Scope::Help => "help",
        }
    }
}

#[derive(Debug, Clone, Copy, PartialEq, Eq, Structural)]
pub enum Platform {
    Mac,
    Other,
}

/// What a key press means in a scope: a bound command, text, or nothing.
#[derive(Debug, Clone, Copy, PartialEq, Eq, Structural)]
pub enum MappedKey {
    Command(Action),
    Text(char),
    /// Toggle a model mark letter on the model page.
    MarkModel(char),
    /// Select the model marked with a letter on the model page.
    SelectModel(char),
    Unbound,
}


/// Pieces of `s` split at `sep`, with the piece still open.
pub open spec fn split_on_acc(s: Seq<char>, sep: char) -> (Seq<Seq<char>>, Seq<char>)
    decreases s.len(),
{
    if s.len() == 0 {
        (Seq::empty(), Seq::empty())
    } else {
        let (done, cur) = split_on_acc(s.drop_last(), sep);
        if s.last() == sep {
            (done.push(cur), Seq::empty())
        } else {
            (done, cur.push(s.last()))
        }
    }
}

/// `s` split at every `sep`; never empty.
pub open spec fn split_on(s: Seq<char>, sep: char) -> Seq<Seq<char>> {
    split_on_acc(s, sep).0.push(split_on_acc(s, sep).1)
}

proof fn lemma_split_on_nonempty(s: Seq<char>, sep: char)
    ensures
        split_on(s, sep).len() >= 1,
{
}

fn split_on_char(v: &Vec<char>, sep: char) -> (r: Vec<Vec<char>>)
    ensures
        parts_view(r@) == split_on(v@, sep),
{
    let mut done: Vec<Vec<char>> = Vec::new();
    let mut cur: Vec<char> = Vec::new();
    let mut i: usize = 0;
    while i < v.len()
        invariant
            i <= v@.len(),
            parts_view(done@) == split_on_acc(v@.take(i as int), sep).0,
            cur@ == split_on_acc(v@.take(i as int), sep).1,
        decreases v.len() - i,
    {
        proof {
            assert(v@.take(i + 1).drop_last() =~= v@.take(i as int));
        }
        if v[i] == sep {
            let finished = cur;
            cur = Vec::new();
            done.push(finished);
            proof {
                assert(parts_view(done@) =~= split_on_acc(v@.take(i + 1), sep).0);
            }
        } else {
            cur.push(v[i]);
        }
        i = i + 1;
    }
    proof {
        assert(v@.take(v@.len() as int) =~= v@);
    }
    done.push(cur);
    proof {
        assert(parts_view(done@) =~= split_on(v@, sep));
    }
    done
}

/// The key of a chord.
#[derive(Debug, Clone, Copy, PartialEq, Eq, Structural)]
pub enum ChordKey {
    Char(char),
    Enter,
    Esc,
    Tab,
    Backspace,
    Delete,
    Insert,
    Left,
    Right,
    Up,
    Down,
    Home,
    End,
    PageUp,
    PageDown,
    BackTab,
    F(u8),
}

/// The modifiers held in a chord.
#[derive(Debug, Clone, Copy, PartialEq, Eq, Structural)]
pub struct ChordModifiers {
    pub ctrl: bool,
    pub alt: bool,
    pub shift: bool,
    pub super_key: bool,
}

/// A key with modifiers, as bindings name it (`ctrl-shift-k`).
#[derive(Debug, Clone, Copy, PartialEq, Eq, Structural)]
pub struct Chord {
    pub code: ChordKey,
    pub modifiers: ChordModifiers,
}

/// Which modifier a name stands for: 0 ctrl, 1 alt, 2 shift, 3 super.
/// `osmain` is super on a Mac and ctrl elsewhere.
pub open spec fn modifier_index(lower: Seq<char>, platform: Platform) -> Option<int> {
    if lower == "ctrl"@ {
        Some(0)
    } else if lower == "alt"@ {
        Some(1)
    } else if lower == "shift"@ {
        Some(2)
    } else if lower == "super"@ {
        Some(3)
    } else if lower == "osmain"@ {
        if platform == Platform::Mac { Some(3) } else { Some(0) }
    } else {
        None
    }
}

pub open spec fn has_modifier(m: ChordModifiers, k: int) -> bool {
    if k == 0 { m.ctrl } else if k == 1 { m.alt } else if k == 2 { m.shift } else { m.super_key }
}

pub open spec fn with_modifier(m: ChordModifiers, k: int) -> ChordModifiers {
    if k == 0 {
        ChordModifiers { ctrl: true, ..m }
    } else if k == 1 {
        ChordModifiers { alt: true, ..m }
    } else if k == 2 {
        ChordModifiers { shift: true, ..m }
    } else {
        ChordModifiers { super_key: true, ..m }
    }
}

pub open spec fn no_modifiers() -> ChordModifiers {
    ChordModifiers { ctrl: false, alt: false, shift: false, super_key: false }
}

/// `text` with ASCII letters lowered.
pub open spec fn lowered(text: Seq<char>) -> Seq<char> {
    text.map_values(|c: char| ascii_lower(c))
}

/// The modifiers named by `parts`, in order, or the message of the first
/// unknown or repeated one.
pub open spec fn parsed_modifiers(parts: Seq<Seq<char>>, platform: Platform) -> Result<ChordModifiers, Seq<char>>
    decreases parts.len(),
{
    if parts.len() == 0 {
        Ok(no_modifiers())
    } else {
        match parsed_modifiers(parts.drop_last(), platform) {
            Err(e) => Err(e),
            Ok(m) => match modifier_index(lowered(parts.last()), platform) {
                None => Err("unknown modifier "@ + debug_quoted(parts.last())),
                Some(k) => if has_modifier(m, k) {
                    Err("duplicate modifier "@ + debug_quoted(parts.last()))
                } else {
                    Ok(with_modifier(m, k))
                },
            },
        }
    }
}

pub open spec fn is_ascii_digit(c: char) -> bool {
    '0' <= c && c <= '9'
}

/// The value of a run of ASCII digits.
pub open spec fn digits_value(d: Seq<char>) -> nat
    decreases d.len(),
{
    if d.len() == 0 {
        0
    } else {
        digits_value(d.drop_last()) * 10 + ((d.last() as u32) - ('0' as u32)) as nat
    }
}

/// The function key number that `u8` parsing reads from `d`: an optional
/// `+`, then digits whose value fits in a byte.
pub open spec fn parsed_byte(d: Seq<char>) -> Option<nat> {
    let digits = sign_stripped(d);
    if digits.len() > 0 && all_digits(digits) && digits_value(digits) <= 255 {
        Some(digits_value(digits))
    } else {
        None
    }
}

/// `d` without one leading `+`.
pub open spec fn sign_stripped(d: Seq<char>) -> Seq<char> {
    if d.len() > 0 && d[0] == '+' {
        d.drop_first()
    } else {
        d
    }
}

pub open spec fn all_digits(d: Seq<char>) -> bool {
    forall|i: int| 0 <= i < d.len() ==> is_ascii_digit(#[trigger] d[i])
}

/// The key a lowered name stands for, before single characters.
pub open spec fn named_key(lower: Seq<char>) -> Option<ChordKey> {
    if lower == "enter"@ {
        Some(ChordKey::Enter)
    } else if lower == "esc"@ {
        Some(ChordKey::Esc)
    } else if lower == "tab"@ {
        Some(ChordKey::Tab)
    } else if lower == "space"@ {
        Some(ChordKey::Char(' '))
    } else if lower == "minus"@ {
        Some(ChordKey::Char('-'))
    } else if lower == "backspace"@ {
        Some(ChordKey::Backspace)
    } else if lower == "delete"@ {
        Some(ChordKey::Delete)
    } else if lower == "insert"@ {
        Some(ChordKey::Insert)
    } else if lower == "left"@ {
        Some(ChordKey::Left)
    } else if lower == "right"@ {
        Some(ChordKey::Right)
    } else if lower == "up"@ {
        Some(ChordKey::Up)
    } else if lower == "down"@ {
        Some(ChordKey::Down)
    } else if lower == "home"@ {
        Some(ChordKey::Home)
    } else if lower == "end"@ {
        Some(ChordKey::End)
    } else if lower == "pageup"@ {
        Some(ChordKey::PageUp)
    } else if lower == "pagedown"@ {
        Some(ChordKey::PageDown)
    } else {
        None
    }
}

/// The key a name stands for: a named key, `f1` to `f12`, or a single
/// character that is not a control character.
pub open spec fn key_for(name: Seq<char>) -> Option<ChordKey> {
    let lower = lowered(name);
    if named_key(lower) is Some {
        named_key(lower)
    } else if lower.len() > 0 && lower[0] == 'f' && parsed_byte(lower.drop_first()) is Some && 1 <= parsed_byte(
        lower.drop_first(),
    )->0 <= 12 {
        Some(ChordKey::F(parsed_byte(lower.drop_first())->0 as u8))
    } else if name.len() == 1 && !is_control_char(name[0]) {
        Some(ChordKey::Char(name[0]))
    } else {
        None
    }
}

/// An upper-case ASCII letter reads as its lower case with shift.
pub open spec fn normalized(code: ChordKey, m: ChordModifiers) -> Chord {
    match code {
        ChordKey::Char(c) => if 'A' <= c && c <= 'Z' {
            Chord { code: ChordKey::Char(ascii_lower(c)), modifiers: ChordModifiers { shift: true, ..m } }
        } else {
            Chord { code, modifiers: m }
        },
        ChordKey::BackTab => Chord { code: ChordKey::Tab, modifiers: ChordModifiers { shift: true, ..m } },
        _ => Chord { code, modifiers: m },
    }
}

/// What a binding text parses to: the parts split at `-`, the last naming
/// the key, the others modifiers.
pub open spec fn parsed_chord(value: Seq<char>, platform: Platform) -> Result<Chord, Seq<char>> {
    let parts = split_on(value, '-');
    let name = parts.last();
    match parsed_modifiers(parts.drop_last(), platform) {
        Err(e) => Err(e),
        Ok(m) => match key_for(name) {
            None => Err("unknown key "@ + debug_quoted(name)),
            Some(code) => Ok(normalized(code, m)),
        },
    }
}

fn lower_chars(v: &Vec<char>) -> (r: Vec<char>)
    ensures
        r@ == lowered(v@),
{
    let mut r: Vec<char> = Vec::new();
    let mut i: usize = 0;
    while i < v.len()
        invariant
            i <= v@.len(),
            r@ == lowered(v@.take(i as int)),
        decreases v.len() - i,
    {
        proof {
            assert(lowered(v@.take(i + 1)) =~= lowered(v@.take(i as int)).push(ascii_lower(v@[i as int])));
        }
        r.push(to_ascii_lowercase(v[i]));
        i = i + 1;
    }
    proof {
        assert(v@.take(i as int) =~= v@);
    }
    r
}

fn modifier_of(lower: &Vec<char>, platform: Platform) -> (r: Option<usize>)
    ensures
        match r {
            Some(k) => modifier_index(lower@, platform) == Some(k as int),
            None => modifier_index(lower@, platform) is None,
        },
{
    let s = string_of(lower.as_slice());
    if str_eq(s.as_str(), "ctrl") {
        Some(0)
    } else if str_eq(s.as_str(), "alt") {
        Some(1)
    } else if str_eq(s.as_str(), "shift") {
        Some(2)
    } else if str_eq(s.as_str(), "super") {
        Some(3)
    } else if str_eq(s.as_str(), "osmain") {
        if matches!(platform, Platform::Mac) { Some(3) } else { Some(0) }
    } else {
        None
    }
}

fn named_key_of(lower: &Vec<char>) -> (r: Option<ChordKey>)
    ensures
        r == named_key(lower@),
{
    let s = string_of(lower.as_slice());
    let t = s.as_str();
    if str_eq(t, "enter") {
        Some(ChordKey::Enter)
    } else if str_eq(t, "esc") {
        Some(ChordKey::Esc)
    } else if str_eq(t, "tab") {
        Some(ChordKey::Tab)
    } else if str_eq(t, "space") {
        Some(ChordKey::Char(' '))
    } else if str_eq(t, "minus") {
        Some(ChordKey::Char('-'))
    } else if str_eq(t, "backspace") {
        Some(ChordKey::Backspace)
    } else if str_eq(t, "delete") {
        Some(ChordKey::Delete)
    } else if str_eq(t, "insert") {
        Some(ChordKey::Insert)
    } else if str_eq(t, "left") {
        Some(ChordKey::Left)
    } else if str_eq(t, "right") {
        Some(ChordKey::Right)
    } else if str_eq(t, "up") {
        Some(ChordKey::Up)
    } else if str_eq(t, "down") {
        Some(ChordKey::Down)
    } else if str_eq(t, "home") {
        Some(ChordKey::Home)
    } else if str_eq(t, "end") {
        Some(ChordKey::End)
    } else if str_eq(t, "pageup") {
        Some(ChordKey::PageUp)
    } else if str_eq(t, "pagedown") {
        Some(ChordKey::PageDown)
    } else {
        None
    }
}

proof fn lemma_digits_value_grows(d: Seq<char>, i: int)
    requires
        0 <= i <= d.len(),
        forall|k: int| 0 <= k < d.len() ==> is_ascii_digit(#[trigger] d[k]),
    ensures
        digits_value(d.take(i)) <= digits_value(d),
    decreases d.len() - i,
{
    if i < d.len() {
        lemma_digits_value_grows(d, i + 1);
        assert(d.take(i + 1).drop_last() =~= d.take(i));
    } else {
        assert(d.take(i) =~= d);
    }
}

/// Reads a byte the way `u8` parsing does.
fn parse_byte(v: &Vec<char>, from: usize) -> (r: Option<u8>)
    requires
        from <= v@.len(),
    ensures
        match r {
            Some(n) => parsed_byte(v@.skip(from as int)) == Some(n as nat),
            None => parsed_byte(v@.skip(from as int)) is None,
        },
{
    let ghost d = v@.skip(from as int);
    let start = if from < v.len() && v[from] == '+' { from + 1 } else { from };
    let ghost digits = v@.skip(start as int);
    proof {
        if from < v@.len() && v@[from as int] == '+' {
            assert(digits =~= d.drop_first());
        } else {
            assert(digits =~= d);
        }
    }
    if start >= v.len() {
        return None;
    }
    let mut value: u64 = 0;
    let mut i: usize = start;
    while i < v.len()
        invariant
            start <= i <= v@.len(),
            digits == v@.skip(start as int),
            d == v@.skip(from as int),
            digits == sign_stripped(d),
            forall|k: int| start <= k < i ==> is_ascii_digit(#[trigger] v@[k]),
            value == digits_value(digits.take(i - start)),
            value <= 255,
        decreases v.len() - i,
    {
        let c = v[i];
        if !('0' <= c && c <= '9') {
            proof {
                assert(digits[i - start] == c);
                assert(!is_ascii_digit(digits[i - start]));
                assert(!all_digits(digits));
                assert(parsed_byte(d) is None);
            }
            return None;
        }
        proof {
            assert(digits.take(i + 1 - start).drop_last() =~= digits.take(i - start));
            assert(digits.take(i + 1 - start).last() == c);
        }
        value = value * 10 + ((c as u32) - ('0' as u32)) as u64;
        if value > 255 {
            proof {
                assert forall|k: int| 0 <= k < i + 1 - start implies is_ascii_digit(#[trigger] digits.take(i + 1 - start)[k]) by {
                    assert(digits.take(i + 1 - start)[k] == v@[start + k]);
                }
                assert(value == digits_value(digits.take(i + 1 - start)));
                if all_digits(digits) {
                    lemma_digits_value_grows(digits, i + 1 - start);
                    assert(digits_value(digits) > 255);
                }
                assert(parsed_byte(d) is None);
            }
            return None;
        }
        i = i + 1;
    }
    proof {
        assert(digits.take(i - start) =~= digits);
        assert forall|k: int| 0 <= k < digits.len() implies is_ascii_digit(#[trigger] digits[k]) by {
            assert(digits[k] == v@[start + k]);
        }
    }
    Some(value as u8)
}

fn key_of(name: &Vec<char>) -> (r: Option<ChordKey>)
    ensures
        r == key_for(name@),
{
    let lower = lower_chars(name);
    let named = named_key_of(&lower);
    if named.is_some() {
        return named;
    }
    if lower.len() > 0 && lower[0] == 'f' {
        let n = parse_byte(&lower, 1);
        proof {
            assert(lower@.skip(1) =~= lower@.drop_first());
        }
        if let Some(k) = n {
            if 1 <= k && k <= 12 {
                return Some(ChordKey::F(k));
            }
        }
    }
    if name.len() == 1 && !is_control(name[0]) {
        Some(ChordKey::Char(name[0]))
    } else {
        None
    }
}

fn normalize(code: ChordKey, m: ChordModifiers) -> (r: Chord)
    ensures
        r == normalized(code, m),
{
    match code {
        ChordKey::Char(c) => if 'A' <= c && c <= 'Z' {
            Chord { code: ChordKey::Char(to_ascii_lowercase(c)), modifiers: ChordModifiers { shift: true, ..m } }
        } else {
            Chord { code, modifiers: m }
        },
        ChordKey::BackTab => Chord { code: ChordKey::Tab, modifiers: ChordModifiers { shift: true, ..m } },
        _ => Chord { code, modifiers: m },
    }
}

fn message(prefix: &str, subject: &Vec<char>) -> (r: String)
    ensures
        r@ == prefix@ + debug_quoted(subject@),
{
    let q = debug_str(string_of(subject.as_slice()).as_str());
    let mut r = prefix.to_owned();
    push_str(&mut r, q.as_str());
    r
}

impl Chord {
    /// Parses a binding text such as `ctrl-shift-k` or `osmain-enter`.
    pub fn parse(value: &str, platform: Platform) -> (r: Result<Chord, String>)
        ensures
            match r {
                Ok(c) => parsed_chord(value@, platform) == Ok::<Chord, Seq<char>>(c),
                Err(e) => parsed_chord(value@, platform) == Err::<Chord, Seq<char>>(e@),
            },
    {
        let v = chars_of(value);
        let parts = split_on_char(&v, '-');
        let ghost pv = parts_view(parts@);
        proof {
            lemma_split_on_nonempty(value@, '-');
        }
        let last = parts.len() - 1;
        let mut m = ChordModifiers { ctrl: false, alt: false, shift: false, super_key: false };
        let mut i: usize = 0;
        while i < last
            invariant
                last + 1 == parts@.len(),
                pv == parts_view(parts@),
                pv == split_on(value@, '-'),
                i <= last,
                parsed_modifiers(pv.take(i as int), platform) == Ok::<ChordModifiers, Seq<char>>(m),
            decreases last - i,
        {
            proof {
                assert(pv.take(i + 1).drop_last() =~= pv.take(i as int));
                assert(pv.take(i + 1).last() == parts@[i as int]@);
            }
            let lower = lower_chars(&parts[i]);
            match modifier_of(&lower, platform) {
                None => {
                    proof {
                        assert(pv.drop_last().take(i + 1) =~= pv.take(i + 1));
                        assert(lower@ == lowered(pv.take(i + 1).last()));
                        lemma_modifiers_err_extends(pv.drop_last(), platform, i + 1);
                    }
                    return Err(message("unknown modifier ", &parts[i]));
                },
                Some(k) => {
                    let held = if k == 0 { m.ctrl } else if k == 1 { m.alt } else if k == 2 { m.shift } else { m.super_key };
                    if held {
                        proof {
                            assert(pv.drop_last().take(i + 1) =~= pv.take(i + 1));
                            assert(lower@ == lowered(pv.take(i + 1).last()));
                            lemma_modifiers_err_extends(pv.drop_last(), platform, i + 1);
                        }
                        return Err(message("duplicate modifier ", &parts[i]));
                    }
                    if k == 0 {
                        m.ctrl = true;
                    } else if k == 1 {
                        m.alt = true;
                    } else if k == 2 {
                        m.shift = true;
                    } else {
                        m.super_key = true;
                    }
                },
            }
            i = i + 1;
        }
        proof {
            assert(pv.take(i as int) =~= pv.drop_last());
            assert(pv.last() == parts@[last as int]@);
        }
        match key_of(&parts[last]) {
            None => Err(message("unknown key ", &parts[last])),
            Some(code) => Ok(normalize(code, m)),
        }
    }
}

proof fn lemma_modifiers_err_extends(parts: Seq<Seq<char>>, platform: Platform, k: int)
    requires
        0 <= k <= parts.len(),
        parsed_modifiers(parts.take(k), platform) is Err,
    ensures
        parsed_modifiers(parts, platform) == parsed_modifiers(parts.take(k), platform),
    decreases parts.len() - k,
{
    if k < parts.len() {
        assert(parts.take(k + 1).drop_last() =~= parts.take(k));
        lemma_modifiers_err_extends(parts, platform, k + 1);
    } else {
        assert(parts.take(k) =~= parts);
    }
}


pub open spec fn ascii_upper(c: char) -> char {
    if 'a' <= c && c <= 'z' {
        ((c as u32) - 32) as char
    } else {
        c
    }
}

fn to_ascii_upper(c: char) -> (r: char)
    ensures
        r == ascii_upper(c),
{
    if 'a' <= c && c <= 'z' {
        let n = (c as u32) - 32;
        let mut r = 'A';
        if n == 65 { r = 'A' }
        else if n == 66 { r = 'B' }
        else if n == 67 { r = 'C' }
        else if n == 68 { r = 'D' }
        else if n == 69 { r = 'E' }
        else if n == 70 { r = 'F' }
        else if n == 71 { r = 'G' }
        else if n == 72 { r = 'H' }
        else if n == 73 { r = 'I' }
        else if n == 74 { r = 'J' }
        else if n == 75 { r = 'K' }
        else if n == 76 { r = 'L' }
        else if n == 77 { r = 'M' }
        else if n == 78 { r = 'N' }
        else if n == 79 { r = 'O' }
        else if n == 80 { r = 'P' }
        else if n == 81 { r = 'Q' }
        else if n == 82 { r = 'R' }
        else if n == 83 { r = 'S' }
        else if n == 84 { r = 'T' }
        else if n == 85 { r = 'U' }
        else if n == 86 { r = 'V' }
        else if n == 87 { r = 'W' }
        else if n == 88 { r = 'X' }
        else if n == 89 { r = 'Y' }
        else if n == 90 { r = 'Z' }
        r
    } else {
        c
    }
}

/// How a chord's key is shown.
pub open spec fn key_label(code: ChordKey, plain: bool) -> Seq<char> {
    match code {
        ChordKey::Char(c) => if c == ' ' {
            "Space"@
        } else if plain {
            seq![c]
        } else {
            seq![ascii_upper(c)]
        },
        ChordKey::F(n) => "F"@ + decimal(n as nat),
        ChordKey::Left => "←"@,
        ChordKey::Right => "→"@,
        ChordKey::Up => "↑"@,
        ChordKey::Down => "↓"@,
        ChordKey::Enter => "Enter"@,
        ChordKey::Esc => "Esc"@,
        ChordKey::Tab => "Tab"@,
        ChordKey::Backspace => "Backspace"@,
        ChordKey::Delete => "Delete"@,
        ChordKey::Insert => "Insert"@,
        ChordKey::Home => "Home"@,
        ChordKey::End => "End"@,
        ChordKey::PageUp => "PageUp"@,
        ChordKey::PageDown => "PageDown"@,
        ChordKey::BackTab => "BackTab"@,
    }
}

/// How a chord is shown: `Ctrl+`, `Alt+`, `Shift+`, `Super+` as held,
/// then the key; a letter is upper-cased when any modifier is held.
pub open spec fn chord_label(c: Chord) -> Seq<char> {
    let m = c.modifiers;
    (if m.ctrl { "Ctrl+"@ } else { Seq::empty() }) + (if m.alt { "Alt+"@ } else { Seq::empty() }) + (if m.shift {
        "Shift+"@
    } else {
        Seq::empty()
    }) + (if m.super_key { "Super+"@ } else { Seq::empty() }) + key_label(c.code, !m.ctrl && !m.alt && !m.shift && !m.super_key)
}

fn key_text(code: ChordKey, plain: bool) -> (r: String)
    ensures
        r@ == key_label(code, plain),
{
    match code {
        ChordKey::Char(c) => if c == ' ' {
            "Space".to_owned()
        } else {
            let mut s = String::new();
            push_char(&mut s, if plain { c } else { to_ascii_upper(c) });
            proof {
                assert(s@ =~= seq![if plain { c } else { ascii_upper(c) }]);
            }
            s
        },
        ChordKey::F(n) => {
            let mut s = "F".to_owned();
            push_decimal(&mut s, n as u64);
            s
        },
        ChordKey::Left => "←".to_owned(),
        ChordKey::Right => "→".to_owned(),
        ChordKey::Up => "↑".to_owned(),
        ChordKey::Down => "↓".to_owned(),
        ChordKey::Enter => "Enter".to_owned(),
        ChordKey::Esc => "Esc".to_owned(),
        ChordKey::Tab => "Tab".to_owned(),
        ChordKey::Backspace => "Backspace".to_owned(),
        ChordKey::Delete => "Delete".to_owned(),
        ChordKey::Insert => "Insert".to_owned(),
        ChordKey::Home => "Home".to_owned(),
        ChordKey::End => "End".to_owned(),
        ChordKey::PageUp => "PageUp".to_owned(),
        ChordKey::PageDown => "PageDown".to_owned(),
        ChordKey::BackTab => "BackTab".to_owned(),
    }
}

impl Chord {
    /// The chord as shown to the user, such as `Ctrl+Shift+K`.
    pub fn label(&self) -> (r: String)
        ensures
            r@ == chord_label(*self),
    {
        let m = self.modifiers;
        let mut s = String::new();
        let ghost e = Seq::<char>::empty();
        if m.ctrl {
            push_str(&mut s, "Ctrl+");
        }
        let ghost a = s@;
        if m.alt {
            push_str(&mut s, "Alt+");
        }
        let ghost b = s@;
        if m.shift {
            push_str(&mut s, "Shift+");
        }
        let ghost c = s@;
        if m.super_key {
            push_str(&mut s, "Super+");
        }
        let ghost d = s@;
        let k = key_text(self.code, !m.ctrl && !m.alt && !m.shift && !m.super_key);
        push_str(&mut s, k.as_str());
        proof {
            assert(a == (if m.ctrl { "Ctrl+"@ } else { e }));
            assert(b == a + (if m.alt { "Alt+"@ } else { e }));
            assert(c == b + (if m.shift { "Shift+"@ } else { e }));
            assert(d == c + (if m.super_key { "Super+"@ } else { e }));
        }
        s
    }
}


/// A lone upper-case letter is the chord of its lower case with shift.
pub proof fn upper_case_letter_is_shifted(c: char, platform: Platform)
    requires
        'A' <= c && c <= 'Z',
    ensures
        parsed_chord(seq![c], platform) == Ok::<Chord, Seq<char>>(
            Chord {
                code: ChordKey::Char(ascii_lower(c)),
                modifiers: ChordModifiers { ctrl: false, alt: false, shift: true, super_key: false },
            },
        ),
{
    let s = seq![c];
    assert(s.drop_last() =~= Seq::<char>::empty());
    assert(s.last() == c);
    assert(split_on_acc(Seq::<char>::empty(), '-') == (Seq::<Seq<char>>::empty(), Seq::<char>::empty()));
    assert(Seq::<char>::empty().push(c) =~= s);
    assert(split_on_acc(s, '-') == (Seq::<Seq<char>>::empty(), s));
    let parts = split_on(s, '-');
    assert(parts.drop_last() =~= Seq::<Seq<char>>::empty());
    let lower = lowered(s);
    assert(lower.len() == 1);
    reveal_strlit("enter");
    reveal_strlit("esc");
    reveal_strlit("tab");
    reveal_strlit("space");
    reveal_strlit("minus");
    reveal_strlit("backspace");
    reveal_strlit("delete");
    reveal_strlit("insert");
    reveal_strlit("left");
    reveal_strlit("right");
    reveal_strlit("up");
    reveal_strlit("down");
    reveal_strlit("home");
    reveal_strlit("end");
    reveal_strlit("pageup");
    reveal_strlit("pagedown");
    assert(named_key(lower) is None);
    assert(lower.drop_first().len() == 0);
    assert(parsed_byte(lower.drop_first()) is None);
    assert(!is_control_char(c));
}


pub open spec fn all_actions() -> Seq<Action> {
    seq![
        Action::PrintHelp,
        Action::EnterReadMode,
        Action::ChooseModel,
        Action::ChooseEffort,
        Action::OpenSettings,
        Action::ResumeSession,
        Action::TogglePreview,
        Action::PageUp,
        Action::PageDown,
        Action::NewLine,
        Action::Paste,
        Action::ClearOrQuit,
        Action::CancelOrInterrupt,
        Action::HistorySearch,
        Action::Complete,
        Action::ToggleMultiline,
        Action::Send,
        Action::SendAsap,
        Action::SendAfterTurn,
        Action::MoveLeft,
        Action::MoveRight,
        Action::MoveUp,
        Action::MoveDown,
        Action::MoveUpFast,
        Action::MoveDownFast,
        Action::MoveStart,
        Action::MoveEnd,
        Action::DeleteBackward,
        Action::DeleteForward,
        Action::DeleteWordBackward,
        Action::Previous,
        Action::Next,
        Action::Accept,
        Action::Cancel,
        Action::Exit,
        Action::CopyBlock,
        Action::EnterItems,
        Action::BackToBlocks,
        Action::Confirm,
        Action::Back,
        Action::Close,
        Action::PreviousQuestion,
        Action::NextQuestion,
        Action::PreviousOption,
        Action::NextOption,
        Action::ToggleOption,
        Action::Allow,
        Action::Deny,
    ]
}

impl Action {
    /// Every action, in declaration order.
    pub fn all() -> (r: Vec<Action>)
        ensures
            r@ == all_actions(),
    {
        let r = vec![
            Action::PrintHelp,
            Action::EnterReadMode,
            Action::ChooseModel,
            Action::ChooseEffort,
            Action::OpenSettings,
            Action::ResumeSession,
            Action::TogglePreview,
            Action::PageUp,
            Action::PageDown,
            Action::NewLine,
            Action::Paste,
            Action::ClearOrQuit,
            Action::CancelOrInterrupt,
            Action::HistorySearch,
            Action::Complete,
            Action::ToggleMultiline,
            Action::Send,
            Action::SendAsap,
            Action::SendAfterTurn,
            Action::MoveLeft,
            Action::MoveRight,
            Action::MoveUp,
            Action::MoveDown,
            Action::MoveUpFast,
            Action::MoveDownFast,
            Action::MoveStart,
            Action::MoveEnd,
            Action::DeleteBackward,
            Action::DeleteForward,
            Action::DeleteWordBackward,
            Action::Previous,
            Action::Next,
            Action::Accept,
            Action::Cancel,
            Action::Exit,
            Action::CopyBlock,
            Action::EnterItems,
            Action::BackToBlocks,
            Action::Confirm,
            Action::Back,
            Action::Close,
            Action::PreviousQuestion,
            Action::NextQuestion,
            Action::PreviousOption,
            Action::NextOption,
            Action::ToggleOption,
            Action::Allow,
            Action::Deny,
        ];
        proof {
            assert(r@ =~= all_actions());
        }
        r
    }
}

/// A key press as bindings see it: the key, the modifiers a chord can
/// hold, whether another modifier (hyper, meta) is held, and whether it is
/// a release.
#[derive(Debug, Clone, Copy, PartialEq, Eq, Structural)]
pub struct ChordPress {
    pub code: ChordKey,
    pub modifiers: ChordModifiers,
    pub other_modifier: bool,
    pub release: bool,
}

/// A chord matches a press that is not a release and normalizes to it.
pub open spec fn chord_matches(c: Chord, p: ChordPress) -> bool {
    !p.release && c == normalized(p.code, p.modifiers)
}

/// The text character a press types: none on release or with a command
/// modifier, else a non-control character key.
pub open spec fn typed_char(p: ChordPress) -> Option<char> {
    if p.release || p.modifiers.ctrl || p.modifiers.alt || p.modifiers.super_key || p.other_modifier {
        None
    } else {
        match p.code {
            ChordKey::Char(c) => if is_control_char(c) { None } else { Some(c) },
            _ => None,
        }
    }
}

pub fn text_character(p: ChordPress) -> (r: Option<char>)
    ensures
        r == typed_char(p),
{
    if p.release || p.modifiers.ctrl || p.modifiers.alt || p.modifiers.super_key || p.other_modifier {
        return None;
    }
    match p.code {
        ChordKey::Char(c) => if is_control(c) { None } else { Some(c) },
        _ => None,
    }
}

/// One binding of the source document: the chords of an action in a scope.
#[derive(Debug, Clone, PartialEq, Eq)]
pub struct Binding {
    pub scope: Scope,
    pub action: Action,
    pub chords: Vec<Chord>,
}

/// The chords bound to `a` in `s` by the source, the last binding winning.
pub open spec fn bound(src: Seq<Binding>, s: Scope, a: Action) -> Option<Seq<Chord>>
    decreases src.len(),
{
    if src.len() == 0 {
        None
    } else if src.last().scope == s && src.last().action == a {
        Some(src.last().chords@)
    } else {
        bound(src.drop_last(), s, a)
    }
}

pub open spec fn or_else(x: Option<Seq<Chord>>, y: Option<Seq<Chord>>) -> Option<Seq<Chord>> {
    if x is Some { x } else { y }
}

/// The chords in effect for `a` in `s`: the idle and working message
/// scopes add to the message and editing bindings; suggestions take the
/// message bindings but interrupt and the editing bindings but vertical
/// moves; search takes paste and clear from the message scope; the item
/// view takes the block view's bindings but entering items.
pub open spec fn effective(src: Seq<Binding>, s: Scope, a: Action) -> Option<Seq<Chord>> {
    match s {
        Scope::MessageIdle | Scope::MessageWorking => or_else(
            bound(src, s, a),
            or_else(bound(src, Scope::MessageEdit, a), bound(src, Scope::Message, a)),
        ),
        Scope::MessageSuggest => or_else(
            bound(src, s, a),
            or_else(
                if a == Action::MoveUp || a == Action::MoveDown { None } else { bound(src, Scope::MessageEdit, a) },
                if a == Action::CancelOrInterrupt { None } else { bound(src, Scope::Message, a) },
            ),
        ),
        Scope::MessageSearch => if a == Action::Paste || a == Action::ClearOrQuit {
            bound(src, Scope::Message, a)
        } else {
            bound(src, s, a)
        },
        Scope::ReadModeItem => or_else(
            bound(src, s, a),
            if a == Action::EnterItems { None } else { bound(src, Scope::ReadMode, a) },
        ),
        _ => bound(src, s, a),
    }
}

pub open spec fn press_bound(cs: Option<Seq<Chord>>, p: ChordPress) -> bool {
    cs matches Some(v) && exists|k: int| 0 <= k < v.len() && chord_matches(#[trigger] v[k], p)
}

/// The first action, in declaration order from `i`, whose chords in
/// effect in `s` match the press.
pub open spec fn resolved_from(src: Seq<Binding>, s: Scope, p: ChordPress, i: int) -> Option<Action>
    decreases all_actions().len() - i,
{
    if i < 0 || i >= all_actions().len() {
        None
    } else if press_bound(effective(src, s, all_actions()[i]), p) {
        Some(all_actions()[i])
    } else {
        resolved_from(src, s, p, i + 1)
    }
}

/// Key bindings: the source document's bindings and the platform whose
/// labels they show.
pub struct KeyMapping {
    source: Vec<Binding>,
    platform: Platform,
}

fn bound_of(src: &Vec<Binding>, s: Scope, a: Action) -> (r: Option<&Vec<Chord>>)
    ensures
        match r {
            Some(v) => bound(src@, s, a) == Some(v@),
            None => bound(src@, s, a) is None,
        },
{
    let mut n = src.len();
    proof {
        assert(src@.take(n as int) =~= src@);
    }
    while n > 0
        invariant
            n <= src@.len(),
            bound(src@, s, a) == bound(src@.take(n as int), s, a),
        decreases n,
    {
        proof {
            assert(src@.take(n as int).drop_last() =~= src@.take(n - 1));
        }
        let b = &src[n - 1];
        if b.scope == s && b.action == a {
            return Some(&b.chords);
        }
        n = n - 1;
    }
    None
}

fn effective_of(src: &Vec<Binding>, s: Scope, a: Action) -> (r: Option<&Vec<Chord>>)
    ensures
        match r {
            Some(v) => effective(src@, s, a) == Some(v@),
            None => effective(src@, s, a) is None,
        },
{
    match s {
        Scope::MessageIdle | Scope::MessageWorking => {
            let own = bound_of(src, s, a);
            if own.is_some() {
                return own;
            }
            let edit = bound_of(src, Scope::MessageEdit, a);
            if edit.is_some() {
                return edit;
            }
            bound_of(src, Scope::Message, a)
        },
        Scope::MessageSuggest => {
            let own = bound_of(src, s, a);
            if own.is_some() {
                return own;
            }
            if !(a == Action::MoveUp || a == Action::MoveDown) {
                let edit = bound_of(src, Scope::MessageEdit, a);
                if edit.is_some() {
                    return edit;
                }
            }
            if a == Action::CancelOrInterrupt {
                None
            } else {
                bound_of(src, Scope::Message, a)
            }
        },
        Scope::MessageSearch => if a == Action::Paste || a == Action::ClearOrQuit {
            bound_of(src, Scope::Message, a)
        } else {
            bound_of(src, s, a)
        },
        Scope::ReadModeItem => {
            let own = bound_of(src, s, a);
            if own.is_some() {
                return own;
            }
            if a == Action::EnterItems {
                None
            } else {
                bound_of(src, Scope::ReadMode, a)
            }
        },
        _ => bound_of(src, s, a),
    }
}

fn any_matches(cs: &Vec<Chord>, p: ChordPress) -> (r: bool)
    ensures
        r == exists|k: int| 0 <= k < cs@.len() && chord_matches(#[trigger] cs@[k], p),
{
    if p.release {
        return false;
    }
    let want = normalize(p.code, p.modifiers);
    let mut i: usize = 0;
    while i < cs.len()
        invariant
            i <= cs@.len(),
            !p.release,
            want == normalized(p.code, p.modifiers),
            forall|k: int| 0 <= k < i ==> !chord_matches(#[trigger] cs@[k], p),
        decreases cs.len() - i,
    {
        if cs[i] == want {
            proof {
                assert(chord_matches(cs@[i as int], p));
            }
            return true;
        }
        i = i + 1;
    }
    false
}

impl KeyMapping {
    pub closed spec fn source_spec(&self) -> Seq<Binding> {
        self.source@
    }

    pub closed spec fn platform_spec(&self) -> Platform {
        self.platform
    }

    /// Bindings as given; later bindings of the same scope and action win.
    pub fn from_bindings(source: Vec<Binding>, platform: Platform) -> (r: KeyMapping)
        ensures
            r.source_spec() == source@,
            r.platform_spec() == platform,
    {
        KeyMapping { source, platform }
    }

    /// The action a press triggers in a scope: the first, in declaration
    /// order, whose chords in effect there match it.
    pub fn resolve(&self, scope: Scope, press: ChordPress) -> (r: Option<Action>)
        ensures
            r == resolved_from(self.source_spec(), scope, press, 0),
    {
        let actions = Action::all();
        let mut i: usize = 0;
        while i < actions.len()
            invariant
                i <= actions@.len(),
                actions@ == all_actions(),
                resolved_from(self.source@, scope, press, 0) == resolved_from(self.source@, scope, press, i as int),
            decreases actions.len() - i,
        {
            let a = actions[i];
            let hit = match effective_of(&self.source, scope, a) {
                Some(cs) => {
                    let m = any_matches(cs, press);
                    proof {
                        assert(m == press_bound(effective(self.source@, scope, a), press));
                    }
                    m
                },
                None => false,
            };
            if hit {
                proof {
                    assert(a == all_actions()[i as int]);
                }
                return Some(a);
            }
            i = i + 1;
        }
        None
    }

    /// What a press means in a scope: its bound command, else the text it
    /// types, else nothing.
    pub fn input(&self, scope: Scope, press: ChordPress) -> (r: MappedKey)
        ensures
            r == match resolved_from(self.source_spec(), scope, press, 0) {
                Some(a) => MappedKey::Command(a),
                None => match typed_char(press) {
                    Some(c) => MappedKey::Text(c),
                    None => MappedKey::Unbound,
                },
            },
    {
        match self.resolve(scope, press) {
            Some(a) => MappedKey::Command(a),
            None => match text_character(press) {
                Some(c) => MappedKey::Text(c),
                None => MappedKey::Unbound,
            },
        }
    }
}


/// How a chord is shown on a platform: on a Mac, `⌥` and `⌘` stand for
/// `Alt+` and `Super+`.
pub open spec fn chord_label_on(c: Chord, platform: Platform) -> Seq<char> {
    if platform == Platform::Mac {
        let m = c.modifiers;
        (if m.ctrl { "Ctrl+"@ } else { Seq::empty() }) + (if m.alt { "⌥"@ } else { Seq::empty() }) + (if m.shift {
            "Shift+"@
        } else {
            Seq::empty()
        }) + (if m.super_key { "⌘"@ } else { Seq::empty() }) + key_label(c.code, !m.ctrl && !m.alt && !m.shift && !m.super_key)
    } else {
        chord_label(c)
    }
}

/// The labels of chords joined with ` / `.
pub open spec fn chords_label(cs: Seq<Chord>, platform: Platform) -> Seq<char>
    decreases cs.len(),
{
    if cs.len() == 0 {
        Seq::empty()
    } else if cs.len() == 1 {
        chord_label_on(cs[0], platform)
    } else {
        chords_label(cs.drop_last(), platform) + " / "@ + chord_label_on(cs.last(), platform)
    }
}

/// The label of an action's keys in a scope, or `—` when it has none.
pub open spec fn binding_label(src: Seq<Binding>, s: Scope, a: Action, platform: Platform) -> Seq<char> {
    match effective(src, s, a) {
        Some(cs) => if cs.len() > 0 { chords_label(cs, platform) } else { "—"@ },
        None => "—"@,
    }
}

fn chord_text(c: &Chord, platform: Platform) -> (r: String)
    ensures
        r@ == chord_label_on(*c, platform),
{
    if !matches!(platform, Platform::Mac) {
        return c.label();
    }
    let m = c.modifiers;
    let mut s = String::new();
    let ghost e = Seq::<char>::empty();
    if m.ctrl {
        push_str(&mut s, "Ctrl+");
    }
    let ghost a = s@;
    if m.alt {
        push_str(&mut s, "⌥");
    }
    let ghost b = s@;
    if m.shift {
        push_str(&mut s, "Shift+");
    }
    let ghost d0 = s@;
    if m.super_key {
        push_str(&mut s, "⌘");
    }
    let ghost d = s@;
    let k = key_text(c.code, !m.ctrl && !m.alt && !m.shift && !m.super_key);
    push_str(&mut s, k.as_str());
    proof {
        assert(a == (if m.ctrl { "Ctrl+"@ } else { e }));
        assert(b == a + (if m.alt { "⌥"@ } else { e }));
        assert(d0 == b + (if m.shift { "Shift+"@ } else { e }));
        assert(d == d0 + (if m.super_key { "⌘"@ } else { e }));
    }
    s
}

/// One scope's entries: the actions, in declaration order from `j`, that
/// the source binds there.
pub open spec fn scope_entries(src: Seq<Binding>, s: Scope, j: int) -> Seq<(Scope, Action)>
    decreases all_actions().len() - j,
{
    if j < 0 || j >= all_actions().len() {
        Seq::empty()
    } else {
        (if bound(src, s, all_actions()[j]) is Some {
            seq![(s, all_actions()[j])]
        } else {
            Seq::empty()
        }) + scope_entries(src, s, j + 1)
    }
}

/// The bound (scope, action) pairs of the source, scopes from index `i`.
pub open spec fn entries_from(src: Seq<Binding>, i: int) -> Seq<(Scope, Action)>
    decreases all_scopes().len() - i,
{
    if i < 0 || i >= all_scopes().len() {
        Seq::empty()
    } else {
        scope_entries(src, all_scopes()[i], 0) + entries_from(src, i + 1)
    }
}

impl KeyMapping {
    /// The keys of an action in a scope, joined with ` / `; `—` if none.
    pub fn label(&self, scope: Scope, action: Action) -> (r: String)
        ensures
            r@ == binding_label(self.source_spec(), scope, action, self.platform_spec()),
    {
        match effective_of(&self.source, scope, action) {
            Some(cs) => {
                if cs.len() == 0 {
                    return "—".to_owned();
                }
                let mut s = chord_text(&cs[0], self.platform);
                let mut i: usize = 1;
                proof {
                    assert(cs@.take(1).len() == 1);
                    assert(cs@.take(1)[0] == cs@[0]);
                }
                while i < cs.len()
                    invariant
                        1 <= i <= cs@.len(),
                        s@ == chords_label(cs@.take(i as int), self.platform),
                    decreases cs.len() - i,
                {
                    proof {
                        assert(cs@.take(i + 1).drop_last() =~= cs@.take(i as int));
                        assert(cs@.take(i + 1).last() == cs@[i as int]);
                    }
                    push_str(&mut s, " / ");
                    let t = chord_text(&cs[i], self.platform);
                    push_str(&mut s, t.as_str());
                    i = i + 1;
                }
                proof {
                    assert(cs@.take(i as int) =~= cs@);
                }
                s
            },
            None => "—".to_owned(),
        }
    }

    /// The (scope, action) pairs the source binds in one scope, by action
    /// order.
    pub fn scope_actions(&self, s: Scope) -> (r: Vec<(Scope, Action)>)
        ensures
            r@ == scope_entries(self.source_spec(), s, 0),
    {
        let actions = Action::all();
        let mut out: Vec<(Scope, Action)> = Vec::new();
        let mut j: usize = 0;
        proof {
            assert(out@ + scope_entries(self.source@, s, 0) =~= scope_entries(self.source@, s, 0));
        }
        while j < actions.len()
            invariant
                j <= actions@.len(),
                actions@ == all_actions(),
                out@ + scope_entries(self.source@, s, j as int) == scope_entries(self.source@, s, 0),
            decreases actions.len() - j,
        {
            let a = actions[j];
            let ghost mid = out@;
            if bound_of(&self.source, s, a).is_some() {
                out.push((s, a));
            }
            proof {
                assert(mid + scope_entries(self.source@, s, j as int) =~= out@ + scope_entries(self.source@, s, j + 1));
            }
            j = j + 1;
        }
        proof {
            assert(out@ + Seq::<(Scope, Action)>::empty() =~= out@);
        }
        out
    }

    /// Every (scope, action) the source binds, by scope then action order.
    pub fn entries(&self) -> (r: Vec<(Scope, Action)>)
        ensures
            r@ == entries_from(self.source_spec(), 0),
    {
        let scopes = Scope::all();
        let actions = Action::all();
        let mut out: Vec<(Scope, Action)> = Vec::new();
        let mut i: usize = 0;
        proof {
            assert(out@ + entries_from(self.source@, 0) =~= entries_from(self.source@, 0));
        }
        while i < scopes.len()
            invariant
                i <= scopes@.len(),
                scopes@ == all_scopes(),
                actions@ == all_actions(),
                out@ + entries_from(self.source@, i as int) == entries_from(self.source@, 0),
            decreases scopes.len() - i,
        {
            let s = scopes[i];
            let ghost before = out@;
            let mut j: usize = 0;
            proof {
                assert(entries_from(self.source@, i as int) == scope_entries(self.source@, s, 0) + entries_from(
                    self.source@,
                    i + 1,
                ));
                assert(out@ + scope_entries(self.source@, s, 0) =~= before + scope_entries(self.source@, s, 0));
            }
            while j < actions.len()
                invariant
                    j <= actions@.len(),
                    actions@ == all_actions(),
                    out@ + scope_entries(self.source@, s, j as int) == before + scope_entries(self.source@, s, 0),
                decreases actions.len() - j,
            {
                let a = actions[j];
                let ghost mid = out@;
                if bound_of(&self.source, s, a).is_some() {
                    out.push((s, a));
                    proof {
                        assert(mid + scope_entries(self.source@, s, j as int) =~= out@ + scope_entries(
                            self.source@,
                            s,
                            j + 1,
                        ));
                    }
                } else {
                    proof {
                        assert(mid + scope_entries(self.source@, s, j as int) =~= out@ + scope_entries(
                            self.source@,
                            s,
                            j + 1,
                        ));
                    }
                }
                j = j + 1;
            }
            proof {
                assert(scope_entries(self.source@, s, j as int) =~= Seq::<(Scope, Action)>::empty());
                assert(out@ =~= before + scope_entries(self.source@, s, 0));
                assert(out@ + entries_from(self.source@, i + 1) =~= before + entries_from(self.source@, i as int));
            }
            i = i + 1;
        }
        proof {
            assert(out@ + Seq::<(Scope, Action)>::empty() =~= out@);
        }
        out
    }
}


/// The scope whose source binding an effective binding comes from.
pub open spec fn owner_scope(src: Seq<Binding>, s: Scope, a: Action) -> Scope {
    if bound(src, s, a) is Some {
        s
    } else if bound(src, Scope::Message, a) is Some {
        Scope::Message
    } else if bound(src, Scope::MessageEdit, a) is Some {
        Scope::MessageEdit
    } else {
        Scope::ReadMode
    }
}

/// Where a user edits a binding: `owner.action`.
pub open spec fn binding_path(src: Seq<Binding>, s: Scope, a: Action) -> Seq<char> {
    scope_name(owner_scope(src, s, a)) + "."@ + action_name(a)
}

/// Page keys are not global in the reading views.
pub open spec fn global_active(s: Scope, g: Action) -> bool {
    !((s == Scope::ReadMode || s == Scope::ReadModeItem) && (g == Action::PageUp || g == Action::PageDown))
}

/// The path that first took chord `c` among `seen` from `k`.
pub open spec fn seen_path(seen: Seq<(Chord, Seq<char>)>, c: Chord, k: int) -> Option<Seq<char>>
    decreases seen.len() - k,
{
    if k < 0 || k >= seen.len() {
        None
    } else if seen[k].0 == c {
        Some(seen[k].1)
    } else {
        seen_path(seen, c, k + 1)
    }
}

pub open spec fn contains_chord(cs: Option<Seq<Chord>>, c: Chord) -> bool {
    cs matches Some(v) && exists|k: int| 0 <= k < v.len() && v[k] == c
}

/// The first active global action, from index `j`, that `c` conflicts with.
pub open spec fn global_conflict(src: Seq<Binding>, s: Scope, a: Action, c: Chord, j: int) -> Option<Action>
    decreases all_actions().len() - j,
{
    if j < 0 || j >= all_actions().len() {
        None
    } else {
        let g = all_actions()[j];
        if global_active(s, g) && !(s == Scope::Help && a == Action::Close && g == Action::PrintHelp) && contains_chord(
            bound(src, Scope::Global, g),
            c,
        ) {
            Some(g)
        } else {
            global_conflict(src, s, a, c, j + 1)
        }
    }
}

/// Checks the chords of `a` in `s` from index `i`, given the chords the
/// scope has taken so far.
pub open spec fn check_chords(
    src: Seq<Binding>,
    s: Scope,
    a: Action,
    cs: Seq<Chord>,
    seen: Seq<(Chord, Seq<char>)>,
    i: int,
) -> Result<Seq<(Chord, Seq<char>)>, Seq<char>>
    decreases cs.len() - i,
{
    if i < 0 || i >= cs.len() {
        Ok(seen)
    } else {
        let c = cs[i];
        let path = binding_path(src, s, a);
        match seen_path(seen, c, 0) {
            Some(other) => Err(path + " conflicts with "@ + other + ": "@ + chord_label(c)),
            None => if s != Scope::Global && global_conflict(src, s, a, c, 0) is Some {
                Err(path + " conflicts with global."@ + action_name(global_conflict(src, s, a, c, 0)->0) + ": "@ + chord_label(c))
            } else {
                check_chords(src, s, a, cs, seen.push((c, path)), i + 1)
            },
        }
    }
}

/// Checks a scope's effective bindings, actions from index `j`.
pub open spec fn check_actions(src: Seq<Binding>, s: Scope, j: int, seen: Seq<(Chord, Seq<char>)>) -> Result<(), Seq<char>>
    decreases all_actions().len() - j,
{
    if j < 0 || j >= all_actions().len() {
        Ok(())
    } else {
        match effective(src, s, all_actions()[j]) {
            Some(cs) => match check_chords(src, s, all_actions()[j], cs, seen, 0) {
                Ok(seen2) => check_actions(src, s, j + 1, seen2),
                Err(e) => Err(e),
            },
            None => check_actions(src, s, j + 1, seen),
        }
    }
}

/// The first conflict of the bindings, scopes from index `i`: a chord
/// bound twice in a scope, or a chord that an active global binding takes.
pub open spec fn check_scopes(src: Seq<Binding>, i: int) -> Result<(), Seq<char>>
    decreases all_scopes().len() - i,
{
    if i < 0 || i >= all_scopes().len() {
        Ok(())
    } else {
        match check_actions(src, all_scopes()[i], 0, Seq::empty()) {
            Ok(()) => check_scopes(src, i + 1),
            Err(e) => Err(e),
        }
    }
}

pub open spec fn seen_views(seen: Seq<(Chord, String)>) -> Seq<(Chord, Seq<char>)> {
    seen.map_values(|x: (Chord, String)| (x.0, x.1@))
}

fn path_of(src: &Vec<Binding>, s: Scope, a: Action) -> (r: String)
    ensures
        r@ == binding_path(src@, s, a),
{
    let owner = if bound_of(src, s, a).is_some() {
        s
    } else if bound_of(src, Scope::Message, a).is_some() {
        Scope::Message
    } else if bound_of(src, Scope::MessageEdit, a).is_some() {
        Scope::MessageEdit
    } else {
        Scope::ReadMode
    };
    let mut r = owner.name().to_owned();
    push_str(&mut r, ".");
    push_str(&mut r, a.name());
    r
}

fn find_seen(seen: &Vec<(Chord, String)>, c: Chord) -> (r: Option<usize>)
    ensures
        match r {
            Some(k) => k < seen@.len() && seen_path(seen_views(seen@), c, 0) == Some(seen@[k as int].1@),
            None => seen_path(seen_views(seen@), c, 0) is None,
        },
{
    let mut k: usize = 0;
    while k < seen.len()
        invariant
            k <= seen@.len(),
            seen_path(seen_views(seen@), c, 0) == seen_path(seen_views(seen@), c, k as int),
        decreases seen.len() - k,
    {
        proof {
            assert(seen_views(seen@)[k as int] == (seen@[k as int].0, seen@[k as int].1@));
        }
        if seen[k].0 == c {
            return Some(k);
        }
        k = k + 1;
    }
    None
}

fn has_chord(cs: &Vec<Chord>, c: Chord) -> (r: bool)
    ensures
        r == exists|k: int| 0 <= k < cs@.len() && cs@[k] == c,
{
    let mut k: usize = 0;
    while k < cs.len()
        invariant
            k <= cs@.len(),
            forall|q: int| 0 <= q < k ==> cs@[q] != c,
        decreases cs.len() - k,
    {
        if cs[k] == c {
            return true;
        }
        k = k + 1;
    }
    false
}

fn find_global_conflict(src: &Vec<Binding>, s: Scope, a: Action, c: Chord) -> (r: Option<Action>)
    ensures
        r == global_conflict(src@, s, a, c, 0),
{
    let actions = Action::all();
    let mut j: usize = 0;
    while j < actions.len()
        invariant
            j <= actions@.len(),
            actions@ == all_actions(),
            global_conflict(src@, s, a, c, 0) == global_conflict(src@, s, a, c, j as int),
        decreases actions.len() - j,
    {
        let g = actions[j];
        let active = !((s == Scope::ReadMode || s == Scope::ReadModeItem) && (g == Action::PageUp || g == Action::PageDown));
        if active && !(s == Scope::Help && a == Action::Close && g == Action::PrintHelp) {
            match bound_of(src, Scope::Global, g) {
                Some(keys) => {
                    if has_chord(keys, c) {
                        proof {
                            assert(g == all_actions()[j as int]);
                            let k = choose|k: int| 0 <= k < keys@.len() && keys@[k] == c;
                            assert(keys@[k] == c);
                            assert(bound(src@, Scope::Global, g) == Some(keys@));
                            assert(bound(src@, Scope::Global, g)->0[k] == c);
                            assert(contains_chord(bound(src@, Scope::Global, g), c));
                        }
                        return Some(g);
                    }
                },
                None => {},
            }
        }
        j = j + 1;
    }
    None
}

fn conflict_message(path: &String, other: &str, c: &Chord) -> (r: String)
    ensures
        r@ == path@ + " conflicts with "@ + other@ + ": "@ + chord_label(*c),
{
    let mut r = path.clone();
    push_str(&mut r, " conflicts with ");
    push_str(&mut r, other);
    push_str(&mut r, ": ");
    let l = c.label();
    push_str(&mut r, l.as_str());
    r
}

fn check_chords_of(src: &Vec<Binding>, s: Scope, a: Action, cs: &Vec<Chord>, seen: &mut Vec<(Chord, String)>) -> (r: Result<(), String>)
    ensures
        match check_chords(src@, s, a, cs@, seen_views(old(seen)@), 0) {
            Ok(v) => r is Ok && seen_views(final(seen)@) == v,
            Err(e) => r matches Err(m) && m@ == e,
        },
{
    let path = path_of(src, s, a);
    let ghost start = seen_views(seen@);
    let mut i: usize = 0;
    while i < cs.len()
        invariant
            i <= cs@.len(),
            path@ == binding_path(src@, s, a),
            start == seen_views(old(seen)@),
            check_chords(src@, s, a, cs@, start, 0) == check_chords(src@, s, a, cs@, seen_views(seen@), i as int),
        decreases cs.len() - i,
    {
        let c = cs[i];
        match find_seen(seen, c) {
            Some(k) => {
                let m = conflict_message(&path, seen[k].1.as_str(), &c);
                proof {
                    assert(c == cs@[i as int]);
                    assert(check_chords(src@, s, a, cs@, seen_views(seen@), i as int) == Err::<Seq<(Chord, Seq<char>)>, Seq<char>>(
                        m@,
                    ));
                }
                return Err(m);
            },
            None => {},
        }
        if s != Scope::Global {
            match find_global_conflict(src, s, a, c) {
                Some(g) => {
                    let mut other = "global.".to_owned();
                    push_str(&mut other, g.name());
                    let m = conflict_message(&path, other.as_str(), &c);
                    proof {
                        reveal_strlit("global.");
                        reveal_strlit(" conflicts with ");
                        reveal_strlit(" conflicts with global.");
                        assert(c == cs@[i as int]);
                        assert(other@ =~= "global."@ + action_name(g));
                        assert(m@ =~= path@ + " conflicts with global."@ + action_name(g) + ": "@ + chord_label(c));
                        assert(check_chords(src@, s, a, cs@, seen_views(seen@), i as int) == Err::<Seq<(Chord, Seq<char>)>, Seq<char>>(
                            m@,
                        ));
                    }
                    return Err(m);
                },
                None => {},
            }
        }
        let ghost before = seen_views(seen@);
        seen.push((c, path.clone()));
        proof {
            assert(seen_views(seen@) =~= before.push((c, path@)));
        }
        i = i + 1;
    }
    Ok(())
}

impl KeyMapping {
    /// The first conflict among the bindings in effect, if any.
    pub fn validate(&self) -> (r: Result<(), String>)
        ensures
            match check_scopes(self.source_spec(), 0) {
                Ok(()) => r is Ok,
                Err(e) => r matches Err(m) && m@ == e,
            },
    {
        let scopes = Scope::all();
        let actions = Action::all();
        let mut i: usize = 0;
        while i < scopes.len()
            invariant
                i <= scopes@.len(),
                scopes@ == all_scopes(),
                actions@ == all_actions(),
                check_scopes(self.source@, 0) == check_scopes(self.source@, i as int),
            decreases scopes.len() - i,
        {
            let s = scopes[i];
            let mut seen: Vec<(Chord, String)> = Vec::new();
            let mut j: usize = 0;
            proof {
                assert(seen_views(seen@) =~= Seq::<(Chord, Seq<char>)>::empty());
            }
            while j < actions.len()
                invariant
                    j <= actions@.len(),
                    actions@ == all_actions(),
                    scopes@ == all_scopes(),
                    i < scopes@.len(),
                    s == all_scopes()[i as int],
                    check_scopes(self.source@, 0) == check_scopes(self.source@, i as int),
                    check_actions(self.source@, s, 0, Seq::empty()) == check_actions(self.source@, s, j as int, seen_views(seen@)),
                decreases actions.len() - j,
            {
                let a = actions[j];
                match effective_of(&self.source, s, a) {
                    Some(cs) => {
                        let res = check_chords_of(&self.source, s, a, cs, &mut seen);
                        if let Err(m) = res {
                            return Err(m);
                        }
                    },
                    None => {},
                }
                j = j + 1;
            }
            i = i + 1;
        }
        Ok(())
    }
}


proof fn lemma_split_without_separator(s: Seq<char>, sep: char)
    requires
        forall|i: int| 0 <= i < s.len() ==> s[i] != sep,
    ensures
        split_on_acc(s, sep).0.len() == 0,
        split_on_acc(s, sep).1 == s,
    decreases s.len(),
{
    if s.len() > 0 {
        lemma_split_without_separator(s.drop_last(), sep);
        assert(s.drop_last().push(s.last()) =~= s);
    }
}

/// A key name in any letter case with no `-` in it reads as just that key.
proof fn lemma_lone_key(value: Seq<char>, platform: Platform, code: ChordKey)
    requires
        forall|i: int| 0 <= i < value.len() ==> value[i] != '-',
        key_for(value) == Some(code),
        code != ChordKey::BackTab,
        !(code matches ChordKey::Char(c) && 'A' <= c && c <= 'Z'),
    ensures
        parsed_chord(value, platform) == Ok::<Chord, Seq<char>>(Chord { code, modifiers: no_modifiers() }),
{
    lemma_split_without_separator(value, '-');
    let parts = split_on(value, '-');
    assert(parts =~= seq![value]);
    assert(parts.drop_last() =~= Seq::<Seq<char>>::empty());
}

proof fn lemma_lowered_no_dash(value: Seq<char>, name: Seq<char>)
    requires
        lowered(value) == name,
        forall|i: int| 0 <= i < name.len() ==> name[i] != '-',
    ensures
        forall|i: int| 0 <= i < value.len() ==> value[i] != '-',
{
    assert forall|i: int| 0 <= i < value.len() implies value[i] != '-' by {
        assert(lowered(value)[i] == ascii_lower(value[i]));
    }
}

/// The named editing keys parse, in any letter case and on any platform,
/// to their own keys: `delete` is the Delete key, `backspace` the
/// Backspace key, `insert` the Insert key, and the two deletion keys differ.
pub proof fn deletion_keys_parse_to_their_keys(value: Seq<char>, platform: Platform)
    ensures
        lowered(value) == "delete"@ ==> parsed_chord(value, platform) == Ok::<Chord, Seq<char>>(
            Chord { code: ChordKey::Delete, modifiers: no_modifiers() },
        ),
        lowered(value) == "backspace"@ ==> parsed_chord(value, platform) == Ok::<Chord, Seq<char>>(
            Chord { code: ChordKey::Backspace, modifiers: no_modifiers() },
        ),
        lowered(value) == "insert"@ ==> parsed_chord(value, platform) == Ok::<Chord, Seq<char>>(
            Chord { code: ChordKey::Insert, modifiers: no_modifiers() },
        ),
        ChordKey::Delete != ChordKey::Backspace,
{
    reveal_strlit("enter");
    reveal_strlit("esc");
    reveal_strlit("tab");
    reveal_strlit("space");
    reveal_strlit("minus");
    reveal_strlit("backspace");
    reveal_strlit("delete");
    reveal_strlit("insert");
    if lowered(value) == "delete"@ {
        lemma_lowered_no_dash(value, "delete"@);
        assert(named_key(lowered(value)) == Some(ChordKey::Delete));
        lemma_lone_key(value, platform, ChordKey::Delete);
    }
    if lowered(value) == "backspace"@ {
        lemma_lowered_no_dash(value, "backspace"@);
        assert(named_key(lowered(value)) == Some(ChordKey::Backspace));
        lemma_lone_key(value, platform, ChordKey::Backspace);
    }
    if lowered(value) == "insert"@ {
        lemma_lowered_no_dash(value, "insert"@);
        assert(named_key(lowered(value)) == Some(ChordKey::Insert));
        lemma_lone_key(value, platform, ChordKey::Insert);
    }
}


/// The names of the named keys and the keys they stand for.
pub open spec fn key_names() -> Seq<(Seq<char>, ChordKey)> {
    seq![
        ("enter"@, ChordKey::Enter),
        ("esc"@, ChordKey::Esc),
        ("tab"@, ChordKey::Tab),
        ("space"@, ChordKey::Char(' ')),
        ("minus"@, ChordKey::Char('-')),
        ("backspace"@, ChordKey::Backspace),
        ("delete"@, ChordKey::Delete),
        ("insert"@, ChordKey::Insert),
        ("left"@, ChordKey::Left),
        ("right"@, ChordKey::Right),
        ("up"@, ChordKey::Up),
        ("down"@, ChordKey::Down),
        ("home"@, ChordKey::Home),
        ("end"@, ChordKey::End),
        ("pageup"@, ChordKey::PageUp),
        ("pagedown"@, ChordKey::PageDown),
    ]
}

#[verifier::spinoff_prover]
#[verifier::rlimit(50)]
proof fn lemma_named_key_table(k: int)
    requires
        0 <= k < key_names().len(),
    ensures
        named_key(key_names()[k].0) == Some(key_names()[k].1),
{
    assert(key_names().len() == 16);
    if k == 0 {
            reveal_strlit("enter");
            assert(key_names()[k].0 == "enter"@);
            assert(named_key("enter"@) == Some(key_names()[k].1));
        } else if k == 1 {
            reveal_strlit("enter");
            reveal_strlit("esc");
            assert("esc"@.len() != "enter"@.len());
            assert(key_names()[k].0 == "esc"@);
            assert(named_key("esc"@) == Some(key_names()[k].1));
        } else if k == 2 {
            reveal_strlit("enter");
            reveal_strlit("esc");
            reveal_strlit("tab");
            assert("tab"@.len() != "enter"@.len());
            assert("tab"@[0] != "esc"@[0]);
            assert(key_names()[k].0 == "tab"@);
            assert(named_key("tab"@) == Some(key_names()[k].1));
        } else if k == 3 {
            reveal_strlit("enter");
            reveal_strlit("esc");
            reveal_strlit("tab");
            reveal_strlit("space");
            assert("space"@[0] != "enter"@[0]);
            assert("space"@.len() != "esc"@.len());
            assert("space"@.len() != "tab"@.len());
            assert(key_names()[k].0 == "space"@);
            assert(named_key("space"@) == Some(key_names()[k].1));
        } else if k == 4 {
            reveal_strlit("enter");
            reveal_strlit("esc");
            reveal_strlit("tab");
            reveal_strlit("space");
            reveal_strlit("minus");
            assert("minus"@[0] != "enter"@[0]);
            assert("minus"@.len() != "esc"@.len());
            assert("minus"@.len() != "tab"@.len());
            assert("minus"@[0] != "space"@[0]);
            assert(key_names()[k].0 == "minus"@);
            assert(named_key("minus"@) == Some(key_names()[k].1));
        } else if k == 5 {
            reveal_strlit("enter");
            reveal_strlit("esc");
            reveal_strlit("tab");
            reveal_strlit("space");
            reveal_strlit("minus");
            reveal_strlit("backspace");
            assert("backspace"@.len() != "enter"@.len());
            assert("backspace"@.len() != "esc"@.len());
            assert("backspace"@.len() != "tab"@.len());
            assert("backspace"@.len() != "space"@.len());
            assert("backspace"@.len() != "minus"@.len());
            assert(key_names()[k].0 == "backspace"@);
            assert(named_key("backspace"@) == Some(key_names()[k].1));
        } else if k == 6 {
            reveal_strlit("enter");
            reveal_strlit("esc");
            reveal_strlit("tab");
            reveal_strlit("space");
            reveal_strlit("minus");
            reveal_strlit("backspace");
            reveal_strlit("delete");
            assert("delete"@.len() != "enter"@.len());
            assert("delete"@.len() != "esc"@.len());
            assert("delete"@.len() != "tab"@.len());
            assert("delete"@.len() != "space"@.len());
            assert("delete"@.len() != "minus"@.len());
            assert("delete"@.len() != "backspace"@.len());
            assert(key_names()[k].0 == "delete"@);
            assert(named_key("delete"@) == Some(key_names()[k].1));
        } else if k == 7 {
            reveal_strlit("enter");
            reveal_strlit("esc");
            reveal_strlit("tab");
            reveal_strlit("space");
            reveal_strlit("minus");
            reveal_strlit("backspace");
            reveal_strlit("delete");
            reveal_strlit("insert");
            assert("insert"@.len() != "enter"@.len());
            assert("insert"@.len() != "esc"@.len());
            assert("insert"@.len() != "tab"@.len());
            assert("insert"@.len() != "space"@.len());
            assert("insert"@.len() != "minus"@.len());
            assert("insert"@.len() != "backspace"@.len());
            assert("insert"@[0] != "delete"@[0]);
            assert(key_names()[k].0 == "insert"@);
            assert(named_key("insert"@) == Some(key_names()[k].1));
        } else if k == 8 {
            reveal_strlit("enter");
            reveal_strlit("esc");
            reveal_strlit("tab");
            reveal_strlit("space");
            reveal_strlit("minus");
            reveal_strlit("backspace");
            reveal_strlit("delete");
            reveal_strlit("insert");
            reveal_strlit("left");
            assert("left"@.len() != "enter"@.len());
            assert("left"@.len() != "esc"@.len());
            assert("left"@.len() != "tab"@.len());
            assert("left"@.len() != "space"@.len());
            assert("left"@.len() != "minus"@.len());
            assert("left"@.len() != "backspace"@.len());
            assert("left"@.len() != "delete"@.len());
            assert("left"@.len() != "insert"@.len());
            assert(key_names()[k].0 == "left"@);
            assert(named_key("left"@) == Some(key_names()[k].1));
        } else if k == 9 {
            reveal_strlit("enter");
            reveal_strlit("esc");
            reveal_strlit("tab");
            reveal_strlit("space");
            reveal_strlit("minus");
            reveal_strlit("backspace");
            reveal_strlit("delete");
            reveal_strlit("insert");
            reveal_strlit("left");
            reveal_strlit("right");
            assert("right"@[0] != "enter"@[0]);
            assert("right"@.len() != "esc"@.len());
            assert("right"@.len() != "tab"@.len());
            assert("right"@[0] != "space"@[0]);
            assert("right"@[0] != "minus"@[0]);
            assert("right"@.len() != "backspace"@.len());
            assert("right"@.len() != "delete"@.len());
            assert("right"@.len() != "insert"@.len());
            assert("right"@.len() != "left"@.len());
            assert(key_names()[k].0 == "right"@);
            assert(named_key("right"@) == Some(key_names()[k].1));
        } else if k == 10 {
            reveal_strlit("enter");
            reveal_strlit("esc");
            reveal_strlit("tab");
            reveal_strlit("space");
            reveal_strlit("minus");
            reveal_strlit("backspace");
            reveal_strlit("delete");
            reveal_strlit("insert");
            reveal_strlit("left");
            reveal_strlit("right");
            reveal_strlit("up");
            assert("up"@.len() != "enter"@.len());
            assert("up"@.len() != "esc"@.len());
            assert("up"@.len() != "tab"@.len());
            assert("up"@.len() != "space"@.len());
            assert("up"@.len() != "minus"@.len());
            assert("up"@.len() != "backspace"@.len());
            assert("up"@.len() != "delete"@.len());
            assert("up"@.len() != "insert"@.len());
            assert("up"@.len() != "left"@.len());
            assert("up"@.len() != "right"@.len());
            assert(key_names()[k].0 == "up"@);
            assert(named_key("up"@) == Some(key_names()[k].1));
        } else if k == 11 {
            reveal_strlit("enter");
            reveal_strlit("esc");
            reveal_strlit("tab");
            reveal_strlit("space");
            reveal_strlit("minus");
            reveal_strlit("backspace");
            reveal_strlit("delete");
            reveal_strlit("insert");
            reveal_strlit("left");
            reveal_strlit("right");
            reveal_strlit("up");
            reveal_strlit("down");
            assert("down"@.len() != "enter"@.len());
            assert("down"@.len() != "esc"@.len());
            assert("down"@.len() != "tab"@.len());
            assert("down"@.len() != "space"@.len());
            assert("down"@.len() != "minus"@.len());
            assert("down"@.len() != "backspace"@.len());
            assert("down"@.len() != "delete"@.len());
            assert("down"@.len() != "insert"@.len());
            assert("down"@[0] != "left"@[0]);
            assert("down"@.len() != "right"@.len());
            assert("down"@.len() != "up"@.len());
            assert(key_names()[k].0 == "down"@);
            assert(named_key("down"@) == Some(key_names()[k].1));
        } else if k == 12 {
            reveal_strlit("enter");
            reveal_strlit("esc");
            reveal_strlit("tab");
            reveal_strlit("space");
            reveal_strlit("minus");
            reveal_strlit("backspace");
            reveal_strlit("delete");
            reveal_strlit("insert");
            reveal_strlit("left");
            reveal_strlit("right");
            reveal_strlit("up");
            reveal_strlit("down");
            reveal_strlit("home");
            assert("home"@.len() != "enter"@.len());
            assert("home"@.len() != "esc"@.len());
            assert("home"@.len() != "tab"@.len());
            assert("home"@.len() != "space"@.len());
            assert("home"@.len() != "minus"@.len());
            assert("home"@.len() != "backspace"@.len());
            assert("home"@.len() != "delete"@.len());
            assert("home"@.len() != "insert"@.len());
            assert("home"@[0] != "left"@[0]);
            assert("home"@.len() != "right"@.len());
            assert("home"@.len() != "up"@.len());
            assert("home"@[0] != "down"@[0]);
            assert(key_names()[k].0 == "home"@);
            assert(named_key("home"@) == Some(key_names()[k].1));
        } else if k == 13 {
            reveal_strlit("enter");
            reveal_strlit("esc");
            reveal_strlit("tab");
            reveal_strlit("space");
            reveal_strlit("minus");
            reveal_strlit("backspace");
            reveal_strlit("delete");
            reveal_strlit("insert");
            reveal_strlit("left");
            reveal_strlit("right");
            reveal_strlit("up");
            reveal_strlit("down");
            reveal_strlit("home");
            reveal_strlit("end");
            assert("end"@.len() != "enter"@.len());
            assert("end"@[1] != "esc"@[1]);
            assert("end"@[0] != "tab"@[0]);
            assert("end"@.len() != "space"@.len());
            assert("end"@.len() != "minus"@.len());
            assert("end"@.len() != "backspace"@.len());
            assert("end"@.len() != "delete"@.len());
            assert("end"@.len() != "insert"@.len());
            assert("end"@.len() != "left"@.len());
            assert("end"@.len() != "right"@.len());
            assert("end"@.len() != "up"@.len());
            assert("end"@.len() != "down"@.len());
            assert("end"@.len() != "home"@.len());
            assert(key_names()[k].0 == "end"@);
            assert(named_key("end"@) == Some(key_names()[k].1));
        } else if k == 14 {
            reveal_strlit("enter");
            reveal_strlit("esc");
            reveal_strlit("tab");
            reveal_strlit("space");
            reveal_strlit("minus");
            reveal_strlit("backspace");
            reveal_strlit("delete");
            reveal_strlit("insert");
            reveal_strlit("left");
            reveal_strlit("right");
            reveal_strlit("up");
            reveal_strlit("down");
            reveal_strlit("home");
            reveal_strlit("end");
            reveal_strlit("pageup");
            assert("pageup"@.len() != "enter"@.len());
            assert("pageup"@.len() != "esc"@.len());
            assert("pageup"@.len() != "tab"@.len());
            assert("pageup"@.len() != "space"@.len());
            assert("pageup"@.len() != "minus"@.len());
            assert("pageup"@.len() != "backspace"@.len());
            assert("pageup"@[0] != "delete"@[0]);
            assert("pageup"@[0] != "insert"@[0]);
            assert("pageup"@.len() != "left"@.len());
            assert("pageup"@.len() != "right"@.len());
            assert("pageup"@.len() != "up"@.len());
            assert("pageup"@.len() != "down"@.len());
            assert("pageup"@.len() != "home"@.len());
            assert("pageup"@.len() != "end"@.len());
            assert(key_names()[k].0 == "pageup"@);
            assert(named_key("pageup"@) == Some(key_names()[k].1));
        } else if k == 15 {
            reveal_strlit("enter");
            reveal_strlit("esc");
            reveal_strlit("tab");
            reveal_strlit("space");
            reveal_strlit("minus");
            reveal_strlit("backspace");
            reveal_strlit("delete");
            reveal_strlit("insert");
            reveal_strlit("left");
            reveal_strlit("right");
            reveal_strlit("up");
            reveal_strlit("down");
            reveal_strlit("home");
            reveal_strlit("end");
            reveal_strlit("pageup");
            reveal_strlit("pagedown");
            assert("pagedown"@.len() != "enter"@.len());
            assert("pagedown"@.len() != "esc"@.len());
            assert("pagedown"@.len() != "tab"@.len());
            assert("pagedown"@.len() != "space"@.len());
            assert("pagedown"@.len() != "minus"@.len());
            assert("pagedown"@.len() != "backspace"@.len());
            assert("pagedown"@.len() != "delete"@.len());
            assert("pagedown"@.len() != "insert"@.len());
            assert("pagedown"@.len() != "left"@.len());
            assert("pagedown"@.len() != "right"@.len());
            assert("pagedown"@.len() != "up"@.len());
            assert("pagedown"@.len() != "down"@.len());
            assert("pagedown"@.len() != "home"@.len());
            assert("pagedown"@.len() != "end"@.len());
            assert("pagedown"@.len() != "pageup"@.len());
            assert(key_names()[k].0 == "pagedown"@);
            assert(named_key("pagedown"@) == Some(key_names()[k].1));
        }
}

/// Every named key, written in any letter case, parses to its own key with
/// no modifiers; no two names share a key.
pub proof fn named_keys_parse_to_their_keys(value: Seq<char>, platform: Platform, k: int)
    requires
        0 <= k < key_names().len(),
        lowered(value) == key_names()[k].0,
    ensures
        parsed_chord(value, platform) == Ok::<Chord, Seq<char>>(Chord { code: key_names()[k].1, modifiers: no_modifiers() }),
        forall|j: int| 0 <= j < key_names().len() && j != k ==> key_names()[j].1 != key_names()[k].1,
{
    reveal_strlit("enter");
    reveal_strlit("esc");
    reveal_strlit("tab");
    reveal_strlit("space");
    reveal_strlit("minus");
    reveal_strlit("backspace");
    reveal_strlit("delete");
    reveal_strlit("insert");
    reveal_strlit("left");
    reveal_strlit("right");
    reveal_strlit("up");
    reveal_strlit("down");
    reveal_strlit("home");
    reveal_strlit("end");
    reveal_strlit("pageup");
    reveal_strlit("pagedown");
    let name = key_names()[k].0;
    assert(forall|i: int| 0 <= i < name.len() ==> name[i] != '-');
    lemma_lowered_no_dash(value, name);
    lemma_named_key_table(k);
    lemma_lone_key(value, platform, key_names()[k].1);
}


/// The idle and working message scopes both inherit: an action they do not
/// bind themselves takes the message-edit chords, else the message chords;
/// suggestions inherit the same way except for vertical moves (from the
/// editor) and interrupt (from the message scope); search takes paste and
/// clear from the message scope; the item view inherits the block view's
/// bindings except entering items.
pub proof fn scopes_inherit_their_bindings(src: Seq<Binding>, a: Action)
    ensures
        forall|s: Scope|
            (s == Scope::MessageIdle || s == Scope::MessageWorking) ==> #[trigger] effective(src, s, a) == if bound(
                src,
                s,
                a,
            ) is Some {
                bound(src, s, a)
            } else if bound(src, Scope::MessageEdit, a) is Some {
                bound(src, Scope::MessageEdit, a)
            } else {
                bound(src, Scope::Message, a)
            },
        bound(src, Scope::MessageIdle, a) is None && bound(src, Scope::MessageWorking, a) is None ==> effective(
            src,
            Scope::MessageWorking,
            a,
        ) == effective(src, Scope::MessageIdle, a),
        bound(src, Scope::MessageSuggest, a) is None && a != Action::MoveUp && a != Action::MoveDown && bound(
            src,
            Scope::MessageEdit,
            a,
        ) is Some ==> effective(src, Scope::MessageSuggest, a) == bound(src, Scope::MessageEdit, a),
        bound(src, Scope::MessageSuggest, a) is None && (a == Action::MoveUp || a == Action::MoveDown || bound(
            src,
            Scope::MessageEdit,
            a,
        ) is None) ==> effective(src, Scope::MessageSuggest, a) == if a == Action::CancelOrInterrupt {
            None
        } else {
            bound(src, Scope::Message, a)
        },
        (a == Action::Paste || a == Action::ClearOrQuit) ==> effective(src, Scope::MessageSearch, a) == bound(
            src,
            Scope::Message,
            a,
        ),
        bound(src, Scope::ReadModeItem, a) is None ==> effective(src, Scope::ReadModeItem, a) == if a
            == Action::EnterItems {
            None
        } else {
            bound(src, Scope::ReadMode, a)
        },
{
}

proof fn lemma_working_resolves_as_idle(src: Seq<Binding>, p: ChordPress, i: int)
    requires
        0 <= i <= all_actions().len(),
        forall|a: Action| bound(src, Scope::MessageIdle, a) is None && bound(src, Scope::MessageWorking, a) is None,
    ensures
        resolved_from(src, Scope::MessageWorking, p, i) == resolved_from(src, Scope::MessageIdle, p, i),
    decreases all_actions().len() - i,
{
    if i < all_actions().len() {
        let a = all_actions()[i];
        scopes_inherit_their_bindings(src, a);
        assert(effective(src, Scope::MessageWorking, a) == effective(src, Scope::MessageIdle, a));
        lemma_working_resolves_as_idle(src, p, i + 1);
    }
}

/// With no bindings of their own, the idle and working message scopes
/// resolve every press alike: a key bound in the message or editing scope
/// (such as Esc to interrupt) works whether or not the agent is running.
pub proof fn working_and_idle_resolve_alike(src: Seq<Binding>, p: ChordPress)
    requires
        forall|a: Action| bound(src, Scope::MessageIdle, a) is None && bound(src, Scope::MessageWorking, a) is None,
    ensures
        resolved_from(src, Scope::MessageWorking, p, 0) == resolved_from(src, Scope::MessageIdle, p, 0),
{
    lemma_working_resolves_as_idle(src, p, 0);
}


/// Modifier names, in any letter case: `ctrl`, `alt`, `shift` and `super`
/// name their own modifiers, `osmain` is super on a Mac and ctrl elsewhere,
/// and nothing else is a modifier; adding a modifier holds it and keeps
/// the others.
pub proof fn modifier_names_name_their_modifiers(m: Seq<char>, platform: Platform, held: ChordModifiers, k: int)
    ensures
        lowered(m) == "ctrl"@ ==> modifier_index(lowered(m), platform) == Some(0int),
        lowered(m) == "alt"@ ==> modifier_index(lowered(m), platform) == Some(1int),
        lowered(m) == "shift"@ ==> modifier_index(lowered(m), platform) == Some(2int),
        lowered(m) == "super"@ ==> modifier_index(lowered(m), platform) == Some(3int),
        lowered(m) == "osmain"@ ==> modifier_index(lowered(m), platform) == Some(
            if platform == Platform::Mac { 3int } else { 0int },
        ),
        !(lowered(m) == "ctrl"@ || lowered(m) == "alt"@ || lowered(m) == "shift"@ || lowered(m) == "super"@ || lowered(m)
            == "osmain"@) ==> modifier_index(lowered(m), platform) is None,
        0 <= k < 4 ==> has_modifier(with_modifier(held, k), k),
        0 <= k < 4 ==> forall|j: int| 0 <= j < 4 && j != k ==> has_modifier(with_modifier(held, k), j) == has_modifier(held, j),
        0 <= k < 4 ==> !has_modifier(no_modifiers(), k),
        with_modifier(held, 0).ctrl && with_modifier(held, 1).alt && with_modifier(held, 2).shift && with_modifier(held, 3).super_key,
{
    reveal_strlit("ctrl");
    reveal_strlit("alt");
    reveal_strlit("shift");
    reveal_strlit("super");
    reveal_strlit("osmain");
    if lowered(m) == "alt"@ {
        assert("alt"@.len() != "ctrl"@.len());
    }
    if lowered(m) == "shift"@ {
        assert("shift"@[1] != "super"@[1]);
    }
    if lowered(m) == "super"@ {
        assert("super"@[1] != "shift"@[1]);
        assert("super"@.len() != "ctrl"@.len());
    }
    if lowered(m) == "osmain"@ {
        assert("osmain"@.len() != "shift"@.len());
        assert("osmain"@.len() != "ctrl"@.len());
        assert("osmain"@.len() != "alt"@.len());
    }
}

/// The text a press types: an unmodified, pressed character key that is
/// not a control character types itself; a release, a held ctrl, alt,
/// super or other modifier, or a non-character key types nothing.
pub proof fn presses_type_their_characters(p: ChordPress)
    ensures
        (p.code matches ChordKey::Char(c) && !is_control_char(c)) && !p.release && !p.modifiers.ctrl && !p.modifiers.alt
            && !p.modifiers.super_key && !p.other_modifier ==> typed_char(p) == Some(p.code->Char_0),
        p.release || p.modifiers.ctrl || p.modifiers.alt || p.modifiers.super_key || p.other_modifier ==> typed_char(p) is None,
        !(p.code is Char) ==> typed_char(p) is None,
        typed_char(p) matches Some(c) ==> p.code == ChordKey::Char(c),
{
}

/// Function keys: `f` (or `F`) followed by the decimal digits of a number
/// from 1 to 12 (with leading zeros or a `+` allowed, as `u8` parsing
/// reads them) parses to that function key.
pub proof fn function_keys_parse_by_number(value: Seq<char>, platform: Platform)
    requires
        value.len() >= 2,
        value[0] == 'f' || value[0] == 'F',
        forall|i: int| 1 <= i < value.len() ==> is_ascii_digit(#[trigger] value[i]),
        1 <= digits_value(value.drop_first()) <= 12,
    ensures
        parsed_chord(value, platform) == Ok::<Chord, Seq<char>>(
            Chord { code: ChordKey::F(digits_value(value.drop_first()) as u8), modifiers: no_modifiers() },
        ),
{
    let lower = lowered(value);
    assert(lower[0] == 'f');
    assert forall|i: int| 1 <= i < value.len() implies lower[i] == value[i] by {
        assert(lower[i] == ascii_lower(value[i]));
    }
    assert(lower.drop_first() =~= value.drop_first());
    let d = value.drop_first();
    assert forall|i: int| 0 <= i < d.len() implies is_ascii_digit(#[trigger] d[i]) by {
        assert(d[i] == value[i + 1]);
    }
    assert(sign_stripped(d) == d);
    assert(all_digits(d));
    assert(parsed_byte(d) == Some(digits_value(d)));
    reveal_strlit("enter");
    reveal_strlit("esc");
    reveal_strlit("tab");
    reveal_strlit("space");
    reveal_strlit("minus");
    reveal_strlit("backspace");
    reveal_strlit("delete");
    reveal_strlit("insert");
    reveal_strlit("left");
    reveal_strlit("right");
    reveal_strlit("up");
    reveal_strlit("down");
    reveal_strlit("home");
    reveal_strlit("end");
    reveal_strlit("pageup");
    reveal_strlit("pagedown");
    assert(named_key(lower) is None);
    assert forall|i: int| 0 <= i < value.len() implies value[i] != '-' by {
        if i > 0 {
            assert(is_ascii_digit(value[i]));
        }
    }
    lemma_lone_key(value, platform, ChordKey::F(digits_value(d) as u8));
}


/// A single character that is neither a control character, `-`, nor an
/// upper-case letter is the key of that character.
pub proof fn single_characters_are_their_keys(c: char, platform: Platform)
    requires
        !is_control_char(c),
        c != '-',
        !('A' <= c && c <= 'Z'),
    ensures
        parsed_chord(seq![c], platform) == Ok::<Chord, Seq<char>>(Chord { code: ChordKey::Char(c), modifiers: no_modifiers() }),
{
    let v = seq![c];
    assert(lowered(v).len() == 1);
    reveal_strlit("enter");
    reveal_strlit("esc");
    reveal_strlit("tab");
    reveal_strlit("space");
    reveal_strlit("minus");
    reveal_strlit("backspace");
    reveal_strlit("delete");
    reveal_strlit("insert");
    reveal_strlit("left");
    reveal_strlit("right");
    reveal_strlit("up");
    reveal_strlit("down");
    reveal_strlit("home");
    reveal_strlit("end");
    reveal_strlit("pageup");
    reveal_strlit("pagedown");
    assert(named_key(lowered(v)) is None);
    assert(lowered(v).drop_first().len() == 0);
    assert(parsed_byte(lowered(v).drop_first()) is None);
    assert(key_for(v) == Some(ChordKey::Char(c)));
    lemma_lone_key(v, platform, ChordKey::Char(c));
}

/// Naming the same modifier twice is refused, naming the second one.
pub proof fn repeated_modifiers_are_refused(x: Seq<char>, y: Seq<char>, platform: Platform)
    requires
        modifier_index(lowered(x), platform) is Some,
        modifier_index(lowered(y), platform) == modifier_index(lowered(x), platform),
    ensures
        parsed_modifiers(seq![x, y], platform) == Err::<ChordModifiers, Seq<char>>("duplicate modifier "@ + debug_quoted(y)),
{
    let ps = seq![x, y];
    assert(ps.drop_last() =~= seq![x]);
    assert(seq![x].drop_last() =~= Seq::<Seq<char>>::empty());
    let k = modifier_index(lowered(x), platform)->0;
    assert(0 <= k < 4);
    assert(seq![x].last() == x);
    assert(ps.last() == y);
    assert(parsed_modifiers(Seq::<Seq<char>>::empty(), platform) == Ok::<ChordModifiers, Seq<char>>(no_modifiers()));
    assert(!has_modifier(no_modifiers(), k));
    assert(parsed_modifiers(seq![x], platform) == Ok::<ChordModifiers, Seq<char>>(with_modifier(no_modifiers(), k)));
    assert(has_modifier(with_modifier(no_modifiers(), k), k));
}


proof fn lemma_resolved_from(src: Seq<Binding>, s: Scope, p: ChordPress, i: int)
    requires
        0 <= i <= all_actions().len(),
    ensures
        match resolved_from(src, s, p, i) {
            Some(a) => exists|j: int|
                i <= j < all_actions().len() && all_actions()[j] == a && press_bound(effective(src, s, a), p) && forall|q: int|
                    i <= q < j ==> !press_bound(effective(src, s, #[trigger] all_actions()[q]), p),
            None => forall|q: int| i <= q < all_actions().len() ==> !press_bound(effective(src, s, #[trigger] all_actions()[q]), p),
        },
    decreases all_actions().len() - i,
{
    if i < all_actions().len() && !press_bound(effective(src, s, all_actions()[i]), p) {
        lemma_resolved_from(src, s, p, i + 1);
        match resolved_from(src, s, p, i + 1) {
            Some(a) => {
                let j = choose|j: int|
                    i + 1 <= j < all_actions().len() && all_actions()[j] == a && press_bound(effective(src, s, a), p) && forall|q: int|
                        i + 1 <= q < j ==> !press_bound(effective(src, s, #[trigger] all_actions()[q]), p);
                assert forall|q: int| i <= q < j implies !press_bound(effective(src, s, #[trigger] all_actions()[q]), p) by {
                    if q == i {
                    }
                }
            },
            None => {},
        }
    }
}

/// A press resolves to an action whose chords in effect match it, with no
/// action before it (in declaration order) matching; it resolves to nothing
/// only when no action's chords match.
pub proof fn presses_resolve_to_the_first_matching_action(src: Seq<Binding>, s: Scope, p: ChordPress)
    ensures
        match resolved_from(src, s, p, 0) {
            Some(a) => press_bound(effective(src, s, a), p) && exists|j: int|
                0 <= j < all_actions().len() && all_actions()[j] == a && forall|q: int|
                    0 <= q < j ==> !press_bound(effective(src, s, #[trigger] all_actions()[q]), p),
            None => forall|a: Action| !press_bound(#[trigger] effective(src, s, a), p),
        },
{
    lemma_resolved_from(src, s, p, 0);
    if resolved_from(src, s, p, 0) is None {
        assert forall|a: Action| !press_bound(#[trigger] effective(src, s, a), p) by {
            lemma_every_action_listed(a);
            let q = choose|q: int| 0 <= q < all_actions().len() && all_actions()[q] == a;
        }
    }
}

proof fn lemma_every_action_listed(a: Action)
    ensures
        exists|q: int| 0 <= q < all_actions().len() && all_actions()[q] == a,
{
    match a {
        Action::PrintHelp => assert(all_actions()[0] == a),
        Action::EnterReadMode => assert(all_actions()[1] == a),
        Action::ChooseModel => assert(all_actions()[2] == a),
        Action::ChooseEffort => assert(all_actions()[3] == a),
        Action::OpenSettings => assert(all_actions()[4] == a),
        Action::ResumeSession => assert(all_actions()[5] == a),
        Action::TogglePreview => assert(all_actions()[6] == a),
        Action::PageUp => assert(all_actions()[7] == a),
        Action::PageDown => assert(all_actions()[8] == a),
        Action::NewLine => assert(all_actions()[9] == a),
        Action::Paste => assert(all_actions()[10] == a),
        Action::ClearOrQuit => assert(all_actions()[11] == a),
        Action::CancelOrInterrupt => assert(all_actions()[12] == a),
        Action::HistorySearch => assert(all_actions()[13] == a),
        Action::Complete => assert(all_actions()[14] == a),
        Action::ToggleMultiline => assert(all_actions()[15] == a),
        Action::Send => assert(all_actions()[16] == a),
        Action::SendAsap => assert(all_actions()[17] == a),
        Action::SendAfterTurn => assert(all_actions()[18] == a),
        Action::MoveLeft => assert(all_actions()[19] == a),
        Action::MoveRight => assert(all_actions()[20] == a),
        Action::MoveUp => assert(all_actions()[21] == a),
        Action::MoveDown => assert(all_actions()[22] == a),
        Action::MoveUpFast => assert(all_actions()[23] == a),
        Action::MoveDownFast => assert(all_actions()[24] == a),
        Action::MoveStart => assert(all_actions()[25] == a),
        Action::MoveEnd => assert(all_actions()[26] == a),
        Action::DeleteBackward => assert(all_actions()[27] == a),
        Action::DeleteForward => assert(all_actions()[28] == a),
        Action::DeleteWordBackward => assert(all_actions()[29] == a),
        Action::Previous => assert(all_actions()[30] == a),
        Action::Next => assert(all_actions()[31] == a),
        Action::Accept => assert(all_actions()[32] == a),
        Action::Cancel => assert(all_actions()[33] == a),
        Action::Exit => assert(all_actions()[34] == a),
        Action::CopyBlock => assert(all_actions()[35] == a),
        Action::EnterItems => assert(all_actions()[36] == a),
        Action::BackToBlocks => assert(all_actions()[37] == a),
        Action::Confirm => assert(all_actions()[38] == a),
        Action::Back => assert(all_actions()[39] == a),
        Action::Close => assert(all_actions()[40] == a),
        Action::PreviousQuestion => assert(all_actions()[41] == a),
        Action::NextQuestion => assert(all_actions()[42] == a),
        Action::PreviousOption => assert(all_actions()[43] == a),
        Action::NextOption => assert(all_actions()[44] == a),
        Action::ToggleOption => assert(all_actions()[45] == a),
        Action::Allow => assert(all_actions()[46] == a),
        Action::Deny => assert(all_actions()[47] == a),
    }
}

} // verus!
