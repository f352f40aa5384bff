//! UI configuration value schema.
//!
//! The validated persisted values (`HexRgb`, `RevealRate`,
//! `PaneWidthPercent`) and the configuration record itself. Reading and
//! writing TOML documents belongs to the executable adapter.
use vstd::prelude::*;

use crate::i18n::Language;
use crate::text::{push_char, str_eq};

verus! {

/// How model reasoning content is displayed in the transcript.
#[derive(Debug, Clone, Copy, PartialEq, Eq, Structural)]
pub enum ThinkingDisplayMode {
    /// Only the breathing `Thinking...` row is visible.
    Compact,
    /// Show at most the first `thinking_lines` lines of reasoning text.
    Lines,
    /// Show the complete reasoning text.
    Full,
}

impl ThinkingDisplayMode {
    pub fn shows_reasoning(self) -> (r: bool)
        ensures
            r == !(self is Compact),
    {
        !matches!(self, ThinkingDisplayMode::Compact)
    }
}

/// Visual treatment of the ordinary composer.
#[derive(Debug, Clone, Copy, PartialEq, Eq, Structural)]
pub enum InputStyle {
    /// Filled composer with no visible border.
    Default,
    /// Square border with no composer fill.
    Square,
    /// Rounded border with no composer fill.
    Rounded,
    /// Horizontal rules and a prompt arrow.
    Line,
}

pub open spec fn input_style_name(style: InputStyle) -> Seq<char> {
    match style {
        InputStyle::Default => "default"@,
        InputStyle::Square => "square"@,
        InputStyle::Rounded => "rounded"@,
        InputStyle::Line => "line"@,
    }
}

impl InputStyle {
    pub fn value(self) -> (r: &'static str)
        ensures
            r@ == input_style_name(self),
    {
        match self {
            InputStyle::Default => "default",
            InputStyle::Square => "square",
            InputStyle::Rounded => "rounded",
            InputStyle::Line => "line",
        }
    }

    /// Columns of horizontal chrome the style draws around the composer.
    pub fn horizontal_chrome(self) -> (r: usize)
        ensures
            r == match self {
                InputStyle::Default => 0usize,
                InputStyle::Square | InputStyle::Rounded => 2usize,
                InputStyle::Line => 1usize,
            },
    {
        match self {
            InputStyle::Default => 0,
            InputStyle::Square | InputStyle::Rounded => 2,
            InputStyle::Line => 1,
        }
    }
}

/// A persisted `#RRGGBB` color.
#[derive(Clone, Copy, Debug, PartialEq, Eq, Structural)]
pub struct HexRgb {
    pub red: u8,
    pub green: u8,
    pub blue: u8,
}

pub open spec fn is_hex_digit(c: char) -> bool {
    ('0' <= c && c <= '9') || ('a' <= c && c <= 'f') || ('A' <= c && c <= 'F')
}

pub open spec fn hex_value(c: char) -> nat {
    if '0' <= c && c <= '9' {
        (c as nat - '0' as nat) as nat
    } else if 'a' <= c && c <= 'f' {
        (c as nat - 'a' as nat + 10) as nat
    } else {
        (c as nat - 'A' as nat + 10) as nat
    }
}

/// Whether `s` has the `#RRGGBB` shape.
pub open spec fn is_hex_color(s: Seq<char>) -> bool {
    &&& s.len() == 7
    &&& s[0] == '#'
    &&& forall|i: int| 1 <= i < 7 ==> is_hex_digit(#[trigger] s[i])
}

/// The byte written by the two hex digits at `i` and `i + 1`.
pub open spec fn hex_byte(s: Seq<char>, i: int) -> nat {
    hex_value(s[i]) * 16 + hex_value(s[i + 1])
}

pub open spec fn lower_hex_digit(d: nat) -> char {
    if d < 10 {
        (d + '0' as nat) as char
    } else {
        (d - 10 + 'a' as nat) as char
    }
}

pub open spec fn lower_hex_byte(b: u8) -> Seq<char> {
    seq![lower_hex_digit(b as nat / 16), lower_hex_digit(b as nat % 16)]
}

fn hex_digit_value(c: char) -> (r: Option<u8>)
    ensures
        is_hex_digit(c) ==> r == Some(hex_value(c) as u8) && hex_value(c) < 16,
        !is_hex_digit(c) ==> r is None,
{
    if '0' <= c && c <= '9' {
        Some(((c as u32) - ('0' as u32)) as u8)
    } else if 'a' <= c && c <= 'f' {
        Some(((c as u32) - ('a' as u32) + 10) as u8)
    } else if 'A' <= c && c <= 'F' {
        Some(((c as u32) - ('A' as u32) + 10) as u8)
    } else {
        None
    }
}

fn hex_digit_char(d: u8) -> (c: char)
    requires
        d < 16,
    ensures
        c == lower_hex_digit(d as nat),
{
    if d < 10 {
        ((d as u32 + '0' as u32) as u8) as char
    } else {
        ((d as u32 - 10 + 'a' as u32) as u8) as char
    }
}

impl HexRgb {
    /// Parse `#RRGGBB` (either letter case).
    pub fn from_str(value: &str) -> (r: Result<HexRgb, String>)
        ensures
            is_hex_color(value@) <==> r is Ok,
            r matches Ok(c) ==> c.red == hex_byte(value@, 1) && c.green == hex_byte(value@, 3)
                && c.blue == hex_byte(value@, 5),
            r matches Err(e) ==> e@ == "expected #RRGGBB"@,
    {
        let v = crate::text::chars_of(value);
        if v.len() != 7 || v[0] != '#' {
            return Err(crate::text::owned("expected #RRGGBB"));
        }
        let mut digits: Vec<u8> = Vec::new();
        let mut i: usize = 1;
        while i < 7
            invariant
                v@ == value@,
                v@.len() == 7,
                1 <= i <= 7,
                digits@.len() == i - 1,
                forall|k: int| 1 <= k < i ==> is_hex_digit(#[trigger] v@[k]),
                forall|k: int|
                    1 <= k < i ==> digits@[k - 1] == hex_value(#[trigger] v@[k]) && hex_value(
                        v@[k],
                    ) < 16,
            decreases 7 - i,
        {
            match hex_digit_value(v[i]) {
                Some(d) => digits.push(d),
                None => {
                    return Err(crate::text::owned("expected #RRGGBB"));
                },
            }
            i = i + 1;
        }
        proof {
            assert(digits@[0] == hex_value(v@[1]));
            assert(digits@[1] == hex_value(v@[2]));
            assert(digits@[2] == hex_value(v@[3]));
            assert(digits@[3] == hex_value(v@[4]));
            assert(digits@[4] == hex_value(v@[5]));
            assert(digits@[5] == hex_value(v@[6]));
        }
        Ok(HexRgb {
            red: digits[0] * 16 + digits[1],
            green: digits[2] * 16 + digits[3],
            blue: digits[4] * 16 + digits[5],
        })
    }

    /// The persisted form: `#` and six lower-case hex digits.
    pub fn to_hex_string(&self) -> (s: String)
        ensures
            s@ == seq!['#'] + lower_hex_byte(self.red) + lower_hex_byte(self.green)
                + lower_hex_byte(self.blue),
    {
        let mut s = String::new();
        push_char(&mut s, '#');
        push_char(&mut s, hex_digit_char(self.red / 16));
        push_char(&mut s, hex_digit_char(self.red % 16));
        push_char(&mut s, hex_digit_char(self.green / 16));
        push_char(&mut s, hex_digit_char(self.green % 16));
        push_char(&mut s, hex_digit_char(self.blue / 16));
        push_char(&mut s, hex_digit_char(self.blue % 16));
        proof {
            assert(s@ =~= seq!['#'] + lower_hex_byte(self.red) + lower_hex_byte(self.green)
                + lower_hex_byte(self.blue));
        }
        s
    }
}

/// Valid paced-reveal rate. Zero disables pacing; positive values are
/// limited to 1024 graphemes per second.
#[derive(Clone, Copy, Debug, PartialEq, Eq, Structural)]
pub struct RevealRate {
    value: u16,
}

pub const REVEAL_RATE_MAX: u16 = 1024;

impl RevealRate {
    pub closed spec fn spec_get(self) -> u16 {
        self.value
    }

    pub fn new(value: u16) -> (r: Result<RevealRate, String>)
        ensures
            value <= REVEAL_RATE_MAX <==> r is Ok,
            r matches Ok(rate) ==> rate.spec_get() == value,
            r matches Err(e) ==> e@ == "reveal rate must be between 0 and 1024"@,
    {
        if value <= REVEAL_RATE_MAX {
            Ok(RevealRate { value })
        } else {
            Err(crate::text::owned("reveal rate must be between 0 and 1024"))
        }
    }

    pub fn get(self) -> (r: u16)
        ensures
            r == self.spec_get(),
    {
        self.value
    }

    pub fn is_disabled(self) -> (r: bool)
        ensures
            r == (self.spec_get() == 0),
    {
        self.value == 0
    }
}

/// A message-pane width in percentage basis points, 25.00% to 100.00%.
#[derive(Clone, Copy, Debug, PartialEq, Eq, Structural)]
pub struct PaneWidthPercent {
    points: u16,
}

pub const MIN_BASIS_POINTS: u16 = 2500;

pub const MAX_BASIS_POINTS: u16 = 10000;

pub const DEFAULT_BASIS_POINTS: u16 = 6000;

/// Nearest-cell column count of `points` basis points of `total` columns.
pub open spec fn pane_columns(points: nat, total: nat) -> nat {
    let c = (total * points + 5000) / 10000;
    if c < total {
        c
    } else {
        total
    }
}

/// The closest basis points for `columns` of `total`, clamped to the range.
pub open spec fn pane_points(columns: nat, total: nat) -> nat {
    if total == 0 {
        MIN_BASIS_POINTS as nat
    } else {
        let c = if columns < total {
            columns
        } else {
            total
        };
        let p = (c * 10000 + total / 2) / total;
        if p < MIN_BASIS_POINTS {
            MIN_BASIS_POINTS as nat
        } else if p > MAX_BASIS_POINTS {
            MAX_BASIS_POINTS as nat
        } else {
            p
        }
    }
}

impl PaneWidthPercent {
    pub closed spec fn spec_points(self) -> u16 {
        self.points
    }

    pub closed spec fn wf(self) -> bool {
        MIN_BASIS_POINTS <= self.points <= MAX_BASIS_POINTS
    }

    pub fn from_basis_points(value: u16) -> (r: Option<PaneWidthPercent>)
        ensures
            (MIN_BASIS_POINTS <= value <= MAX_BASIS_POINTS) <==> r is Some,
            r matches Some(p) ==> p.spec_points() == value && p.wf(),
    {
        if value >= MIN_BASIS_POINTS && value <= MAX_BASIS_POINTS {
            Some(PaneWidthPercent { points: value })
        } else {
            None
        }
    }

    /// The 25.00% message-pane minimum.
    pub fn minimum() -> (r: PaneWidthPercent)
        ensures
            r.spec_points() == MIN_BASIS_POINTS,
    {
        PaneWidthPercent { points: MIN_BASIS_POINTS }
    }

    /// The full width.
    pub fn maximum() -> (r: PaneWidthPercent)
        ensures
            r.spec_points() == MAX_BASIS_POINTS,
    {
        PaneWidthPercent { points: MAX_BASIS_POINTS }
    }

    pub fn default_width() -> (r: PaneWidthPercent)
        ensures
            r.spec_points() == DEFAULT_BASIS_POINTS,
            r.wf(),
    {
        PaneWidthPercent { points: DEFAULT_BASIS_POINTS }
    }

    pub fn basis_points(self) -> (r: u16)
        ensures
            r == self.spec_points(),
    {
        self.points
    }

    /// `61.25%`: the percentage with two decimals.
    pub fn display(self) -> (s: String)
        ensures
            s@ == crate::text::decimal((self.spec_points() / 100) as nat) + seq![
                '.',
                crate::text::digit_char(((self.spec_points() % 100) / 10) as nat),
                crate::text::digit_char((self.spec_points() % 10) as nat),
                '%',
            ],
    {
        let mut s = crate::text::decimal_string((self.points / 100) as u64);
        let ghost whole = s@;
        push_char(&mut s, '.');
        push_char(&mut s, crate::text::digit(((self.points % 100) / 10) as u64));
        push_char(&mut s, crate::text::digit((self.points % 10) as u64));
        push_char(&mut s, '%');
        proof {
            assert(s@ =~= whole + seq![
                '.',
                crate::text::digit_char(((self.spec_points() % 100) / 10) as nat),
                crate::text::digit_char((self.spec_points() % 10) as nat),
                '%',
            ]);
        }
        s
    }

    /// Nearest-cell rounding of this share of `total_columns`; never more
    /// than `total_columns`.
    pub fn columns(self, total_columns: u16) -> (r: u16)
        ensures
            r == pane_columns(self.spec_points() as nat, total_columns as nat),
            r <= total_columns,
    {
        let total = total_columns as u32;
        let points = self.points as u32;
        assert(total * points <= 65535 * 65535) by (nonlinear_arith)
            requires
                total <= 65535,
                points <= 65535,
        ;
        let c = (total * points + 5000) / 10000;
        if c < total {
            c as u16
        } else {
            total_columns
        }
    }

    /// The closest representable share for a committed column position,
    /// clamped to the message-pane minimum.
    pub fn from_columns(columns: u16, total_columns: u16) -> (r: PaneWidthPercent)
        ensures
            r.spec_points() == pane_points(columns as nat, total_columns as nat),
            r.wf(),
    {
        if total_columns == 0 {
            return PaneWidthPercent { points: MIN_BASIS_POINTS };
        }
        let c: u32 = if columns < total_columns {
            columns as u32
        } else {
            total_columns as u32
        };
        let total = total_columns as u32;
        let p = (c * 10000 + total / 2) / total;
        let points: u16 = if p < MIN_BASIS_POINTS as u32 {
            MIN_BASIS_POINTS
        } else if p > MAX_BASIS_POINTS as u32 {
            MAX_BASIS_POINTS
        } else {
            p as u16
        };
        PaneWidthPercent { points }
    }
}

/// The complete UI configuration record.
#[derive(Clone, Debug)]
pub struct Config {
    pub spinner_style: String,
    pub spinner_frame_ms: u64,
    /// Selected theme name.
    pub theme: String,
    /// Host-provided display path for the read-only settings row.
    pub config_path_display: String,
    pub plain_color: bool,
    /// Foreground-fade interpolation origin.
    pub background_color: HexRgb,
    /// Composer chrome: `default`, `square`, `rounded`, or `line`.
    pub input_style: String,
    pub language: Language,
    pub remember_last_session: bool,
    /// Agent-preset mode for bare `/new` and a fresh session.
    pub default_mode: String,
    pub enter_sends: bool,
    pub paste_placeholder_chars: usize,
    pub long_content_lines: usize,
    pub atomic_collapse_rows: usize,
    pub copy_toast_secs: u64,
    pub history_limit: usize,
    pub show_model_in_status: bool,
    pub show_tool_duration: bool,
    pub read_merge: bool,
    /// `compact`, `lines`, or `full`.
    pub thinking_display: String,
    /// Line budget for `ThinkingDisplayMode::Lines`.
    pub thinking_lines: usize,
    pub show_timestamps: bool,
    pub mermaid_enabled: bool,
    /// Maximum visible assistant-reply graphemes per second.
    pub message_chars_per_second: RevealRate,
    /// Maximum visible wrapped Preview rows per second.
    pub preview_lines_per_second: RevealRate,
    /// Horizontal gutter of user message blocks and the input box.
    pub user_input_padding: usize,
    /// Persisted message-pane share.
    pub message_pane_percent: PaneWidthPercent,
    /// Maximum page width in columns (0 = unlimited).
    pub page_max_width: usize,
    /// `center` (default), `left`, or `right`.
    pub page_align: String,
}

pub open spec fn thinking_mode_of(value: Seq<char>) -> ThinkingDisplayMode {
    if value == "lines"@ {
        ThinkingDisplayMode::Lines
    } else if value == "full"@ {
        ThinkingDisplayMode::Full
    } else {
        ThinkingDisplayMode::Compact
    }
}

pub open spec fn input_style_of(value: Seq<char>) -> InputStyle {
    if value == "square"@ {
        InputStyle::Square
    } else if value == "rounded"@ {
        InputStyle::Rounded
    } else if value == "line"@ {
        InputStyle::Line
    } else {
        InputStyle::Default
    }
}

pub open spec fn page_align_of(value: Seq<char>) -> Seq<char> {
    if value == "left"@ {
        "left"@
    } else if value == "right"@ {
        "right"@
    } else {
        "center"@
    }
}

impl Config {
    pub fn thinking_display_mode(&self) -> (r: ThinkingDisplayMode)
        ensures
            r == thinking_mode_of(self.thinking_display@),
    {
        if str_eq(self.thinking_display.as_str(), "lines") {
            ThinkingDisplayMode::Lines
        } else if str_eq(self.thinking_display.as_str(), "full") {
            ThinkingDisplayMode::Full
        } else {
            ThinkingDisplayMode::Compact
        }
    }

    pub fn input_style_mode(&self) -> (r: InputStyle)
        ensures
            r == input_style_of(self.input_style@),
    {
        if str_eq(self.input_style.as_str(), "square") {
            InputStyle::Square
        } else if str_eq(self.input_style.as_str(), "rounded") {
            InputStyle::Rounded
        } else if str_eq(self.input_style.as_str(), "line") {
            InputStyle::Line
        } else {
            InputStyle::Default
        }
    }

    /// Stable persisted value used by settings choices.
    pub fn input_style_value(&self) -> (r: &'static str)
        ensures
            r@ == input_style_name(input_style_of(self.input_style@)),
    {
        self.input_style_mode().value()
    }

    /// Stable persisted value used by settings choices.
    pub fn thinking_display_value(&self) -> (r: &'static str)
        ensures
            r@ == match thinking_mode_of(self.thinking_display@) {
                ThinkingDisplayMode::Compact => "compact"@,
                ThinkingDisplayMode::Lines => "lines"@,
                ThinkingDisplayMode::Full => "full"@,
            },
    {
        match self.thinking_display_mode() {
            ThinkingDisplayMode::Compact => "compact",
            ThinkingDisplayMode::Lines => "lines",
            ThinkingDisplayMode::Full => "full",
        }
    }

    /// Stable persisted value used by the page-alignment choice.
    pub fn page_align_value(&self) -> (r: &'static str)
        ensures
            r@ == page_align_of(self.page_align@),
    {
        if str_eq(self.page_align.as_str(), "left") {
            "left"
        } else if str_eq(self.page_align.as_str(), "right") {
            "right"
        } else {
            "center"
        }
    }
}

} // verus!
