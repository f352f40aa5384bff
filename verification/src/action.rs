//! Owned requests returned by synchronous frontend updates.
use vstd::prelude::*;

use crate::config::Config;
use crate::preview::{PreviewContent, PreviewKey, PreviewRequest, PreviewRequestId, PreviewRevision};
use crate::text::{
    chars_of, first_word, first_word_range, has_prefix, has_white_space, any_whitespace,
    push_str, starts_with, trim, trim_bounds,
};
use crate::debug_fmt::{
    bool_str, byte_items, bytes_string, debug_bool, debug_field, debug_list, debug_opt_str,
    debug_quoted, debug_str, debug_struct, debug_tuple, field_string, list_string,
    opt_str_string, struct_string, tuple_string,
};
use crate::text::{decimal, decimal_string, owned, strs_view};
use crate::unicode::{flatten_chars, grapheme_clusters, graphemes};
use vstd::string::StrSliceExecFns;

verus! {

#[derive(Debug, Clone, PartialEq, Eq)]
pub struct QuestionAnswer {
    pub id: String,
    pub selected: Vec<String>,
    pub custom: Option<String>,
}

#[derive(Debug, Clone, PartialEq, Eq)]
pub struct PromptImage {
    pub media_type: String,
    pub data: Vec<u8>,
    pub name: Option<String>,
}

#[derive(Debug, Clone, PartialEq, Eq)]
pub enum PromptPart {
    Text(String),
    Image(PromptImage),
}

#[derive(Debug, Clone, PartialEq, Eq)]
pub struct PromptInput {
    pub parts: Vec<PromptPart>,
}

/// The text of a prompt that is exactly one text part.
pub open spec fn plain_text_of(parts: Seq<PromptPart>) -> Option<Seq<char>> {
    if parts.len() == 1 {
        match parts[0] {
            PromptPart::Text(t) => Some(t@),
            PromptPart::Image(_) => None,
        }
    } else {
        None
    }
}

/// The skill named by `/skill:NAME` or `/skill NAME` in a trimmed text.
pub open spec fn skill_name_of(text: Seq<char>) -> Option<Seq<char>> {
    let t = trim(text);
    if has_prefix(t, "/skill:"@) {
        first_word(t.skip(7))
    } else if has_prefix(t, "/skill "@) {
        first_word(t.skip(7))
    } else {
        None
    }
}

/// The label a composer shows for an image part.
pub open spec fn image_label(image: PromptImage) -> Seq<char> {
    "[Image "@ + match image.name {
        Some(n) => n@,
        None => "clipboard.png"@,
    } + "]"@
}

/// What one part contributes to the displayed prompt.
pub open spec fn part_display(part: PromptPart) -> Seq<char> {
    match part {
        PromptPart::Text(t) => t@,
        PromptPart::Image(image) => image_label(image),
    }
}

/// The displayed prompt: every part's contribution, in order.
pub open spec fn prompt_display(parts: Seq<PromptPart>) -> Seq<char>
    decreases parts.len(),
{
    if parts.len() == 0 {
        Seq::empty()
    } else {
        prompt_display(parts.drop_last()) + part_display(parts.last())
    }
}

/// Whether a part carries no content: an empty text.
pub open spec fn part_is_empty(part: PromptPart) -> bool {
    match part {
        PromptPart::Text(t) => t@.len() == 0,
        PromptPart::Image(_) => false,
    }
}

/// The content of a prompt part, by value.
pub enum PartView {
    Text(Seq<char>),
    Image { media_type: Seq<char>, data: Seq<u8>, name: Option<Seq<char>> },
}

pub open spec fn part_view(part: PromptPart) -> PartView {
    match part {
        PromptPart::Text(t) => PartView::Text(t@),
        PromptPart::Image(image) => PartView::Image {
            media_type: image.media_type@,
            data: image.data@,
            name: crate::text::opt_view(image.name),
        },
    }
}

/// The content of a prompt, part by part.
pub open spec fn prompt_view(prompt: PromptInput) -> Seq<PartView> {
    prompt.parts@.map_values(|p: PromptPart| part_view(p))
}

/// A copy of an image with the same content.
pub(crate) fn duplicate_image(image: &PromptImage) -> (r: PromptImage)
    ensures
        part_view(PromptPart::Image(r)) == part_view(PromptPart::Image(*image)),
{
    let data = image.data.clone();
    proof {
        assert(data@ =~= image.data@);
    }
    PromptImage { media_type: image.media_type.clone(), data, name: crate::text::copy_opt_string(&image.name) }
}

fn duplicate_part(part: &PromptPart) -> (r: PromptPart)
    ensures
        part_view(r) == part_view(*part),
{
    match part {
        PromptPart::Text(t) => PromptPart::Text(t.clone()),
        PromptPart::Image(image) => {
            let data = image.data.clone();
            proof {
                assert(data@ =~= image.data@);
            }
            PromptPart::Image(PromptImage {
                media_type: image.media_type.clone(),
                data,
                name: crate::text::copy_opt_string(&image.name),
            })
        },
    }
}

impl PromptInput {
    /// A copy with the same content.
    pub fn duplicate(&self) -> (r: PromptInput)
        ensures
            prompt_view(r) == prompt_view(*self),
    {
        let mut parts: Vec<PromptPart> = Vec::new();
        let mut i: usize = 0;
        while i < self.parts.len()
            invariant
                i <= self.parts@.len(),
                parts@.len() == i,
                forall|k: int| 0 <= k < i ==> part_view(#[trigger] parts@[k]) == part_view(self.parts@[k]),
            decreases self.parts.len() - i,
        {
            parts.push(duplicate_part(&self.parts[i]));
            i = i + 1;
        }
        let r = PromptInput { parts };
        proof {
            assert(prompt_view(r) =~= prompt_view(*self));
        }
        r
    }

    /// A prompt of one text part.
    pub fn text(text: String) -> (r: PromptInput)
        ensures
            r.parts@.len() == 1,
            r.parts@[0] matches PromptPart::Text(t) && t@ == text@,
    {
        let mut parts: Vec<PromptPart> = Vec::new();
        parts.push(PromptPart::Text(text));
        PromptInput { parts }
    }

    pub fn plain_text(&self) -> (r: Option<&str>)
        ensures
            match plain_text_of(self.parts@) {
                Some(t) => r matches Some(s) && s@ == t,
                None => r is None,
            },
    {
        if self.parts.len() == 1 {
            match &self.parts[0] {
                PromptPart::Text(t) => Some(t.as_str()),
                PromptPart::Image(_) => None,
            }
        } else {
            None
        }
    }

    /// The skill a `/skill:NAME` or `/skill NAME` prompt names.
    pub fn skill_name(&self) -> (r: Option<&str>)
        ensures
            match plain_text_of(self.parts@) {
                Some(t) => match skill_name_of(t) {
                    Some(n) => r matches Some(s) && s@ == n,
                    None => r is None,
                },
                None => r is None,
            },
    {
        let text = match self.plain_text() {
            Some(t) => t,
            None => return None,
        };
        let v = chars_of(text);
        let (a, b) = trim_bounds(v.as_slice());
        let ghost t = v@.subrange(a as int, b as int);
        let colon = chars_of("/skill:");
        let space = chars_of("/skill ");
        proof {
            reveal_strlit("/skill:");
            reveal_strlit("/skill ");
        }
        let mut body: Vec<char> = Vec::new();
        let mut i: usize = a;
        while i < b
            invariant
                a <= i <= b <= v@.len(),
                body@ == v@.subrange(a as int, i as int),
            decreases b - i,
        {
            body.push(v[i]);
            proof {
                assert(v@.subrange(a as int, i + 1) =~= v@.subrange(a as int, i as int).push(
                    v@[i as int],
                ));
            }
            i = i + 1;
        }
        if !starts_with(body.as_slice(), colon.as_slice()) && !starts_with(
            body.as_slice(),
            space.as_slice(),
        ) {
            return None;
        }
        let from = a + 7;
        let rest = &v.as_slice()[from..b];
        proof {
            assert(rest@ =~= t.skip(7));
        }
        match first_word_range(rest) {
            None => None,
            Some((x, y)) => {
                proof {
                    assert(text@.subrange(from + x, from + y) =~= rest@.subrange(x as int, y as int));
                }
                Some(text.substring_char(from + x, from + y))
            },
        }
    }

    /// The prompt as the composer shows it, images as `[Image NAME]`.
    pub fn display_text(&self) -> (r: String)
        ensures
            r@ == prompt_display(self.parts@),
    {
        let mut r = String::new();
        let mut i: usize = 0;
        while i < self.parts.len()
            invariant
                i <= self.parts@.len(),
                r@ == prompt_display(self.parts@.take(i as int)),
            decreases self.parts.len() - i,
        {
            proof {
                assert(self.parts@.take(i + 1).drop_last() =~= self.parts@.take(i as int));
            }
            match &self.parts[i] {
                PromptPart::Text(t) => push_str(&mut r, t.as_str()),
                PromptPart::Image(image) => {
                    push_str(&mut r, "[Image ");
                    match &image.name {
                        Some(n) => push_str(&mut r, n.as_str()),
                        None => push_str(&mut r, "clipboard.png"),
                    }
                    push_str(&mut r, "]");
                },
            }
            proof {
                assert(r@ =~= prompt_display(self.parts@.take(i + 1)));
            }
            i = i + 1;
        }
        proof {
            assert(self.parts@.take(i as int) =~= self.parts@);
        }
        r
    }

    pub fn has_images(&self) -> (r: bool)
        ensures
            r == exists|k: int| 0 <= k < self.parts@.len() && #[trigger] self.parts@[k] is Image,
    {
        let mut i: usize = 0;
        while i < self.parts.len()
            invariant
                i <= self.parts@.len(),
                forall|k: int| 0 <= k < i ==> !(#[trigger] self.parts@[k] is Image),
            decreases self.parts.len() - i,
        {
            if let PromptPart::Image(_) = &self.parts[i] {
                return true;
            }
            i = i + 1;
        }
        false
    }

    /// No image and only empty text.
    pub fn is_empty(&self) -> (r: bool)
        ensures
            r == forall|k: int| 0 <= k < self.parts@.len() ==> part_is_empty(#[trigger] self.parts@[k]),
    {
        let mut i: usize = 0;
        while i < self.parts.len()
            invariant
                i <= self.parts@.len(),
                forall|k: int| 0 <= k < i ==> part_is_empty(#[trigger] self.parts@[k]),
            decreases self.parts.len() - i,
        {
            match &self.parts[i] {
                PromptPart::Text(t) => {
                    if t.as_str().unicode_len() != 0 {
                        return false;
                    }
                },
                PromptPart::Image(_) => {
                    return false;
                },
            }
            i = i + 1;
        }
        true
    }
}

#[derive(Debug, Clone, PartialEq, Eq)]
pub enum ClipboardPaste {
    Text(String),
    Image(PromptImage),
}

/// What a grapheme contributes to a one-line preview: whitespace clusters
/// become a single space.
pub open spec fn preview_cluster(g: Seq<char>) -> Seq<char> {
    if has_white_space(g) {
        " "@
    } else {
        g
    }
}

/// The one-line preview of the first `n` clusters.
pub open spec fn preview_of(clusters: Seq<Seq<char>>, n: nat) -> Seq<char>
    decreases n,
{
    if n == 0 || clusters.len() == 0 {
        Seq::empty()
    } else if n > clusters.len() {
        preview_of(clusters, clusters.len())
    } else {
        preview_of(clusters, (n - 1) as nat) + preview_cluster(clusters[n - 1])
    }
}

/// A single-line, grapheme-safe preview of at most `limit` clusters, and
/// whether clusters were left out.
pub fn clipboard_preview(text: &str, limit: usize) -> (r: (String, bool))
    ensures
        r.0@ == preview_of(grapheme_clusters(text@), limit as nat),
        r.1 == (grapheme_clusters(text@).len() > limit),
{
    let clusters = graphemes(text);
    let ghost gs = grapheme_clusters(text@);
    let n = if limit < clusters.len() {
        limit
    } else {
        clusters.len()
    };
    let mut s = String::new();
    let mut i: usize = 0;
    while i < n
        invariant
            n <= clusters@.len() == gs.len(),
            n == limit || n == clusters@.len(),
            n <= limit,
            forall|k: int| 0 <= k < gs.len() ==> #[trigger] gs[k] == clusters@[k]@,
            i <= n,
            s@ == preview_of(gs, i as nat),
        decreases n - i,
    {
        let g = chars_of(clusters[i].as_str());
        if any_whitespace(g.as_slice()) {
            push_str(&mut s, " ");
        } else {
            push_str(&mut s, clusters[i].as_str());
        }
        proof {
            assert(gs[i as int] == clusters@[i as int]@);
        }
        i = i + 1;
    }
    proof {
        assert(gs =~= crate::text::strs_view(clusters@));
        if limit > gs.len() {
            assert(preview_of(gs, limit as nat) == preview_of(gs, gs.len()));
        }
    }
    (s, clusters.len() > limit)
}

#[derive(Clone, PartialEq, Eq)]
pub enum AgentRequest {
    Input { prompt: PromptInput },
    Steer { prompt: PromptInput },
    ClearAsap,
    NewInput { mode: String, prompt: PromptInput },
    Command { line: String, images: Vec<PromptImage> },
    Interrupt,
    Attach { session_id: String },
    ListSessions,
    ApprovalAnswer { id: String, allow: bool },
    AnswerQuestions { request_id: String, answers: Vec<QuestionAnswer> },
    CancelQuestions { request_id: String },
    History { before_sequence: u64, limit: usize },
    LoginGet,
    AuthGet { provider_ref: Option<String>, logout: bool },
    AuthStart { provider: String, method: Option<String>, logout: bool },
    AuthReply { flow_id: String, prompt_id: String, value: String },
    AuthOpenUrl { flow_id: String, url: String },
    AuthCancel,
    LoginSetApiKey { provider: String, value: String },
    LoginProxyCreate { base_url: String, api_key: String, protocol: String, model: String },
    LoginProxyDelete { id: String },
    ModelGet,
    ModelSet { provider: String, model: String, reasoning_effort: Option<String> },
    Ping,
}

/// `{:?}` of an image.
pub open spec fn image_debug(image: PromptImage) -> Seq<char> {
    debug_struct(
        "PromptImage"@,
        seq![
            debug_field("media_type"@, debug_quoted(image.media_type@)),
            debug_field("data"@, debug_list(byte_items(image.data@))),
            debug_field("name"@, debug_opt_str(image.name)),
        ],
    )
}

/// `{:?}` of a prompt part.
pub open spec fn part_debug(part: PromptPart) -> Seq<char> {
    match part {
        PromptPart::Text(t) => debug_tuple("Text"@, debug_quoted(t@)),
        PromptPart::Image(image) => debug_tuple("Image"@, image_debug(image)),
    }
}

/// `{:?}` of a prompt.
pub open spec fn prompt_debug(prompt: PromptInput) -> Seq<char> {
    debug_struct(
        "PromptInput"@,
        seq![debug_field("parts"@, debug_list(prompt.parts@.map_values(|p: PromptPart| part_debug(p))))],
    )
}

pub open spec fn quoted_field(name: Seq<char>, value: String) -> Seq<char> {
    debug_field(name, debug_quoted(value@))
}

/// What the diagnostic rendering writes in place of a secret.
pub open spec fn redacted_field(name: Seq<char>) -> Seq<char> {
    debug_field(name, debug_quoted("<redacted>"@))
}

/// The diagnostic rendering of a request: the variant and its fields, with
/// credentials and provider answers redacted and collections counted.
pub open spec fn request_debug(r: AgentRequest) -> Seq<char> {
    match r {
        AgentRequest::Input { prompt } => debug_tuple("Input"@, prompt_debug(prompt)),
        AgentRequest::Steer { prompt } => debug_tuple("Steer"@, prompt_debug(prompt)),
        AgentRequest::ClearAsap => "ClearAsap"@,
        AgentRequest::NewInput { mode, prompt } => debug_struct(
            "NewInput"@,
            seq![quoted_field("mode"@, mode), debug_field("prompt"@, prompt_debug(prompt))],
        ),
        AgentRequest::Command { line, images } => debug_struct(
            "Command"@,
            seq![quoted_field("line"@, line), debug_field("images"@, decimal(images@.len()))],
        ),
        AgentRequest::Interrupt => "Interrupt"@,
        AgentRequest::Attach { session_id } => debug_struct(
            "Attach"@,
            seq![quoted_field("session_id"@, session_id)],
        ),
        AgentRequest::ListSessions => "ListSessions"@,
        AgentRequest::ApprovalAnswer { id, allow } => debug_struct(
            "ApprovalAnswer"@,
            seq![quoted_field("id"@, id), debug_field("allow"@, debug_bool(allow))],
        ),
        AgentRequest::AnswerQuestions { request_id, answers } => debug_struct(
            "AnswerQuestions"@,
            seq![
                quoted_field("request_id"@, request_id),
                debug_field("answers"@, decimal(answers@.len())),
            ],
        ),
        AgentRequest::CancelQuestions { request_id } => debug_struct(
            "CancelQuestions"@,
            seq![quoted_field("request_id"@, request_id)],
        ),
        AgentRequest::History { before_sequence, limit } => debug_struct(
            "History"@,
            seq![
                debug_field("before_sequence"@, decimal(before_sequence as nat)),
                debug_field("limit"@, decimal(limit as nat)),
            ],
        ),
        AgentRequest::LoginGet => "LoginGet"@,
        AgentRequest::AuthGet { provider_ref, logout } => debug_struct(
            "AuthGet"@,
            seq![
                debug_field("provider_ref"@, debug_opt_str(provider_ref)),
                debug_field("logout"@, debug_bool(logout)),
            ],
        ),
        AgentRequest::AuthStart { provider, method, logout } => debug_struct(
            "AuthStart"@,
            seq![
                quoted_field("provider"@, provider),
                debug_field("method"@, debug_opt_str(method)),
                debug_field("logout"@, debug_bool(logout)),
            ],
        ),
        AgentRequest::AuthReply { flow_id, prompt_id, value } => debug_struct(
            "AuthReply"@,
            seq![
                quoted_field("flow_id"@, flow_id),
                quoted_field("prompt_id"@, prompt_id),
                redacted_field("value"@),
            ],
        ),
        AgentRequest::AuthOpenUrl { flow_id, url } => debug_struct(
            "AuthOpenUrl"@,
            seq![quoted_field("flow_id"@, flow_id), quoted_field("url"@, url)],
        ),
        AgentRequest::AuthCancel => "AuthCancel"@,
        AgentRequest::LoginSetApiKey { provider, value } => debug_struct(
            "LoginSetApiKey"@,
            seq![quoted_field("provider"@, provider), redacted_field("value"@)],
        ),
        AgentRequest::LoginProxyCreate { base_url, api_key, protocol, model } => debug_struct(
            "LoginProxyCreate"@,
            seq![
                quoted_field("base_url"@, base_url),
                redacted_field("api_key"@),
                quoted_field("protocol"@, protocol),
                quoted_field("model"@, model),
            ],
        ),
        AgentRequest::LoginProxyDelete { id } => debug_struct(
            "LoginProxyDelete"@,
            seq![quoted_field("id"@, id)],
        ),
        AgentRequest::ModelGet => "ModelGet"@,
        AgentRequest::ModelSet { provider, model, reasoning_effort } => debug_struct(
            "ModelSet"@,
            seq![
                quoted_field("provider"@, provider),
                quoted_field("model"@, model),
                debug_field("reasoning_effort"@, debug_opt_str(reasoning_effort)),
            ],
        ),
        AgentRequest::Ping => "Ping"@,
    }
}

fn quoted_field_string(name: &str, value: &String) -> (r: String)
    ensures
        r@ == quoted_field(name@, *value),
{
    let q = debug_str(value.as_str());
    field_string(name, q.as_str())
}

fn redacted_field_string(name: &str) -> (r: String)
    ensures
        r@ == redacted_field(name@),
{
    let q = debug_str("<redacted>");
    field_string(name, q.as_str())
}

fn image_string(image: &PromptImage) -> (r: String)
    ensures
        r@ == image_debug(*image),
{
    let mut fields: Vec<String> = Vec::new();
    fields.push(quoted_field_string("media_type", &image.media_type));
    let data = bytes_string(&image.data);
    fields.push(field_string("data", data.as_str()));
    let name = opt_str_string(&image.name);
    fields.push(field_string("name", name.as_str()));
    proof {
        assert(strs_view(fields@) =~= seq![
            debug_field("media_type"@, debug_quoted(image.media_type@)),
            debug_field("data"@, debug_list(byte_items(image.data@))),
            debug_field("name"@, debug_opt_str(image.name)),
        ]);
    }
    struct_string("PromptImage", &fields)
}

fn part_string(part: &PromptPart) -> (r: String)
    ensures
        r@ == part_debug(*part),
{
    match part {
        PromptPart::Text(t) => {
            let q = debug_str(t.as_str());
            tuple_string("Text", q.as_str())
        },
        PromptPart::Image(image) => {
            let i = image_string(image);
            tuple_string("Image", i.as_str())
        },
    }
}

fn prompt_string(prompt: &PromptInput) -> (r: String)
    ensures
        r@ == prompt_debug(*prompt),
{
    let mut items: Vec<String> = Vec::new();
    let mut i: usize = 0;
    while i < prompt.parts.len()
        invariant
            i <= prompt.parts@.len(),
            items@.len() == i,
            forall|k: int| 0 <= k < i ==> (#[trigger] items@[k])@ == part_debug(prompt.parts@[k]),
        decreases prompt.parts.len() - i,
    {
        items.push(part_string(&prompt.parts[i]));
        i = i + 1;
    }
    proof {
        assert(strs_view(items@) =~= prompt.parts@.map_values(|p: PromptPart| part_debug(p)));
    }
    let list = list_string(&items);
    let mut fields: Vec<String> = Vec::new();
    fields.push(field_string("parts", list.as_str()));
    proof {
        assert(strs_view(fields@) =~= seq![debug_field("parts"@, debug_list(prompt.parts@.map_values(|p: PromptPart| part_debug(p))))]);
    }
    struct_string("PromptInput", &fields)
}

fn one(a: String) -> (r: Vec<String>)
    ensures
        strs_view(r@) == seq![a@],
{
    let mut r: Vec<String> = Vec::new();
    r.push(a);
    proof {
        assert(strs_view(r@) =~= seq![a@]);
    }
    r
}

fn two(a: String, b: String) -> (r: Vec<String>)
    ensures
        strs_view(r@) == seq![a@, b@],
{
    let mut r: Vec<String> = Vec::new();
    r.push(a);
    r.push(b);
    proof {
        assert(strs_view(r@) =~= seq![a@, b@]);
    }
    r
}

fn three(a: String, b: String, c: String) -> (r: Vec<String>)
    ensures
        strs_view(r@) == seq![a@, b@, c@],
{
    let mut r: Vec<String> = Vec::new();
    r.push(a);
    r.push(b);
    r.push(c);
    proof {
        assert(strs_view(r@) =~= seq![a@, b@, c@]);
    }
    r
}

fn four(a: String, b: String, c: String, d: String) -> (r: Vec<String>)
    ensures
        strs_view(r@) == seq![a@, b@, c@, d@],
{
    let mut r: Vec<String> = Vec::new();
    r.push(a);
    r.push(b);
    r.push(c);
    r.push(d);
    proof {
        assert(strs_view(r@) =~= seq![a@, b@, c@, d@]);
    }
    r
}

impl AgentRequest {
    /// Names the variant so requests stay diagnosable, and never renders a
    /// credential or provider answer.
    pub fn debug_string(&self) -> (r: String)
        ensures
            r@ == request_debug(*self),
    {
        match self {
            AgentRequest::Input { prompt } => {
                let p = prompt_string(prompt);
                tuple_string("Input", p.as_str())
            },
            AgentRequest::Steer { prompt } => {
                let p = prompt_string(prompt);
                tuple_string("Steer", p.as_str())
            },
            AgentRequest::ClearAsap => owned("ClearAsap"),
            AgentRequest::NewInput { mode, prompt } => {
                let p = prompt_string(prompt);
                let fields = two(quoted_field_string("mode", mode), field_string("prompt", p.as_str()));
                struct_string("NewInput", &fields)
            },
            AgentRequest::Command { line, images } => {
                let n = decimal_string(images.len() as u64);
                let fields = two(quoted_field_string("line", line), field_string("images", n.as_str()));
                struct_string("Command", &fields)
            },
            AgentRequest::Interrupt => owned("Interrupt"),
            AgentRequest::Attach { session_id } => {
                let fields = one(quoted_field_string("session_id", session_id));
                struct_string("Attach", &fields)
            },
            AgentRequest::ListSessions => owned("ListSessions"),
            AgentRequest::ApprovalAnswer { id, allow } => {
                let fields = two(quoted_field_string("id", id), field_string("allow", bool_str(*allow)));
                struct_string("ApprovalAnswer", &fields)
            },
            AgentRequest::AnswerQuestions { request_id, answers } => {
                let n = decimal_string(answers.len() as u64);
                let fields = two(
                    quoted_field_string("request_id", request_id),
                    field_string("answers", n.as_str()),
                );
                struct_string("AnswerQuestions", &fields)
            },
            AgentRequest::CancelQuestions { request_id } => {
                let fields = one(quoted_field_string("request_id", request_id));
                struct_string("CancelQuestions", &fields)
            },
            AgentRequest::History { before_sequence, limit } => {
                let b = decimal_string(*before_sequence);
                let l = decimal_string(*limit as u64);
                let fields = two(
                    field_string("before_sequence", b.as_str()),
                    field_string("limit", l.as_str()),
                );
                struct_string("History", &fields)
            },
            AgentRequest::LoginGet => owned("LoginGet"),
            AgentRequest::AuthGet { provider_ref, logout } => {
                let p = opt_str_string(provider_ref);
                let fields = two(
                    field_string("provider_ref", p.as_str()),
                    field_string("logout", bool_str(*logout)),
                );
                struct_string("AuthGet", &fields)
            },
            AgentRequest::AuthStart { provider, method, logout } => {
                let m = opt_str_string(method);
                let fields = three(
                    quoted_field_string("provider", provider),
                    field_string("method", m.as_str()),
                    field_string("logout", bool_str(*logout)),
                );
                struct_string("AuthStart", &fields)
            },
            AgentRequest::AuthReply { flow_id, prompt_id, value: _ } => {
                let fields = three(
                    quoted_field_string("flow_id", flow_id),
                    quoted_field_string("prompt_id", prompt_id),
                    redacted_field_string("value"),
                );
                struct_string("AuthReply", &fields)
            },
            AgentRequest::AuthOpenUrl { flow_id, url } => {
                let fields = two(quoted_field_string("flow_id", flow_id), quoted_field_string("url", url));
                struct_string("AuthOpenUrl", &fields)
            },
            AgentRequest::AuthCancel => owned("AuthCancel"),
            AgentRequest::LoginSetApiKey { provider, value: _ } => {
                let fields = two(quoted_field_string("provider", provider), redacted_field_string("value"));
                struct_string("LoginSetApiKey", &fields)
            },
            AgentRequest::LoginProxyCreate { base_url, api_key: _, protocol, model } => {
                let fields = four(
                    quoted_field_string("base_url", base_url),
                    redacted_field_string("api_key"),
                    quoted_field_string("protocol", protocol),
                    quoted_field_string("model", model),
                );
                struct_string("LoginProxyCreate", &fields)
            },
            AgentRequest::LoginProxyDelete { id } => {
                let fields = one(quoted_field_string("id", id));
                struct_string("LoginProxyDelete", &fields)
            },
            AgentRequest::ModelGet => owned("ModelGet"),
            AgentRequest::ModelSet { provider, model, reasoning_effort } => {
                let e = opt_str_string(reasoning_effort);
                let fields = three(
                    quoted_field_string("provider", provider),
                    quoted_field_string("model", model),
                    field_string("reasoning_effort", e.as_str()),
                );
                struct_string("ModelSet", &fields)
            },
            AgentRequest::Ping => owned("Ping"),
        }
    }
}

#[derive(Debug)]
pub enum EffectResult {
    ConfigPersisted(Result<(), String>),
    ConfigReloadFailed(String),
    ClipboardRead(Result<ClipboardPaste, String>),
    ClipboardWritten { lines: usize, preview: String, truncated: bool },
    ClipboardFailed(String),
    PreviewResolved {
        request_id: PreviewRequestId,
        key: PreviewKey,
        revision: PreviewRevision,
        result: Result<PreviewContent, String>,
    },
}

#[derive(Debug, Clone, Copy, PartialEq, Eq, Structural)]
pub enum DrawPriority {
    Interactive,
    Content,
    Animation,
}

pub enum UiAction {
    Agent(AgentRequest),
    ResolvePreview(PreviewRequest),
    PersistConfig(Config),
    ReloadConfig,
    PersistSessionId(String),
    ReadClipboard,
    WriteClipboard(String),
    RequestDraw(DrawPriority),
    Quit,
    Fatal(String),
}

/// Which frame classes need a redraw.
#[derive(Debug, Clone, Copy, Default, PartialEq, Eq, Structural)]
pub struct DirtyState {
    pub interaction: bool,
    pub content: bool,
    pub animation: bool,
}

impl DirtyState {
    pub fn clean() -> (r: DirtyState)
        ensures
            !r.interaction && !r.content && !r.animation,
    {
        DirtyState { interaction: false, content: false, animation: false }
    }

    pub fn interaction() -> (r: DirtyState)
        ensures
            r.interaction && !r.content && !r.animation,
    {
        DirtyState { interaction: true, content: false, animation: false }
    }

    pub fn content() -> (r: DirtyState)
        ensures
            !r.interaction && r.content && !r.animation,
    {
        DirtyState { interaction: false, content: true, animation: false }
    }

    pub fn animation() -> (r: DirtyState)
        ensures
            !r.interaction && !r.content && r.animation,
    {
        DirtyState { interaction: false, content: false, animation: true }
    }

    /// Each frame class is dirty when it was dirty in either state.
    pub fn merge(&mut self, other: DirtyState)
        ensures
            final(self).interaction == (old(self).interaction || other.interaction),
            final(self).content == (old(self).content || other.content),
            final(self).animation == (old(self).animation || other.animation),
    {
        self.interaction = self.interaction || other.interaction;
        self.content = self.content || other.content;
        self.animation = self.animation || other.animation;
    }

    pub fn is_clean(self) -> (r: bool)
        ensures
            r == (!self.interaction && !self.content && !self.animation),
    {
        !self.interaction && !self.content && !self.animation
    }
}

/// What one synchronous update asks of the host. `next_deadline` is a time
/// on the host's monotonic clock, in milliseconds.
pub struct UpdateResult {
    pub actions: Vec<UiAction>,
    pub dirty: DirtyState,
    pub next_deadline: Option<u64>,
}

impl UpdateResult {
    pub fn new() -> (r: UpdateResult)
        ensures
            r.actions@.len() == 0,
            r.dirty == DirtyState::clean_spec(),
            r.next_deadline is None,
    {
        UpdateResult { actions: Vec::new(), dirty: DirtyState::clean(), next_deadline: None }
    }
}

impl DirtyState {
    pub open spec fn clean_spec() -> DirtyState {
        DirtyState { interaction: false, content: false, animation: false }
    }
}

} // verus!
