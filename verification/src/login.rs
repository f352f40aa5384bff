//! Provider-neutral login page state. API keys and proxies have subpages of
//! their own; adapters with native authentication offer provider and method
//! selection, interactive prompts, guidance and credential removal.
use vstd::prelude::*;

use crate::action::AgentRequest;
use crate::agent::{
    AuthNotice, AuthOutcomeKind, AuthPrompt, AuthPromptKind, AuthProvider, CredentialProvider,
    ProxyRoute,
};
use crate::key_mapping::{Action, MappedKey, Scope};
use crate::page_core::{handle_text_input, TextEditResult, TextEditor};
use crate::text::{eq_ignore_ascii_case, eq_ignore_ascii_case_spec, owned, push_str, str_eq, trim, trimmed};

verus! {

/// Number of wire protocols a custom proxy route may speak.
pub const PROTOCOL_COUNT: usize = 3;

/// Index of the "save and create" row in the proxy form (after the 4 fields).
pub const PROXY_SAVE_ROW: usize = 4;

/// The four proxy-form fields plus a save row, in display order.
pub const PROXY_ROWS: usize = 5;

/// Id of the `index`-th proxy protocol (the first is the default).
pub open spec fn protocol_id_spec(index: int) -> Seq<char> {
    if index == 0 {
        "openai-completions"@
    } else if index == 1 {
        "openai-responses"@
    } else {
        "anthropic-messages"@
    }
}

/// Display name of the `index`-th proxy protocol.
pub open spec fn protocol_name_spec(index: int) -> Seq<char> {
    if index == 0 {
        "OpenAI Chat Completions"@
    } else if index == 1 {
        "OpenAI Responses"@
    } else {
        "Anthropic Messages"@
    }
}

/// The proxy protocols as (id, display name), the default first.
pub fn protocols() -> (r: Vec<(&'static str, &'static str)>)
    ensures
        r@.len() == PROTOCOL_COUNT,
        forall|i: int| 0 <= i < r@.len() ==> (#[trigger] r@[i]).0@ == protocol_id_spec(i) && r@[i].1@ == protocol_name_spec(i),
{
    let mut r: Vec<(&'static str, &'static str)> = Vec::new();
    r.push(("openai-completions", "OpenAI Chat Completions"));
    r.push(("openai-responses", "OpenAI Responses"));
    r.push(("anthropic-messages", "Anthropic Messages"));
    r
}

/// The id of protocol `index`, taken modulo the number of protocols.
fn protocol_id(index: usize) -> (r: String)
    ensures
        r@ == protocol_id_spec((index % PROTOCOL_COUNT) as int),
{
    let k = index % PROTOCOL_COUNT;
    if k == 0 {
        owned("openai-completions")
    } else if k == 1 {
        owned("openai-responses")
    } else {
        owned("anthropic-messages")
    }
}

/// The sub-page currently shown.
#[derive(Debug, PartialEq)]
pub enum Page {
    /// API key or proxy.
    Menu,
    /// API key: the provider list.
    Providers,
    /// Typing one provider's API key.
    ApiKey { provider: String, buf: String },
    /// Proxy: saved routes and a `+ New` row.
    ProxyList,
    /// Proxy create form: four fields and a save row.
    ProxyForm,
    /// Confirmation before deleting an existing proxy route.
    ProxyDelete { id: String, name: String },
    /// Native authentication provider selection.
    NativeProviders,
    /// Native method selection for one provider.
    NativeMethods { provider: String },
    /// Confirmation before removing a native stored credential.
    NativeLogout { provider: String },
    /// A provider-owned text, secret or choice prompt.
    NativePrompt(AuthPrompt),
    /// Waiting on the provider or runtime synchronization.
    NativeWaiting { flow_id: Option<String> },
    /// Terminal native authentication result.
    NativeOutcome { outcome: AuthOutcomeKind, message: String },
}

/// What the UI should do after a key press.
pub enum LoginAction {
    /// Nothing to do.
    Nothing,
    Exit,
    /// Send one bridge message.
    Send(AgentRequest),
    Copy(String),
    /// Cancel the active native flow and close the page.
    Cancel,
}

#[derive(Debug, Clone, PartialEq, Eq)]
pub enum NativeNoticeAction {
    OpenUrl(String),
    CopyUrl(String),
    CopyCode(String),
}

/// Draft values of the proxy create form.
#[derive(Debug, PartialEq)]
pub struct ProxyDraft {
    pub base_url: String,
    pub api_key: String,
    pub protocol: usize,
    pub model: String,
}

impl ProxyDraft {
    pub open spec fn is_empty_draft(&self) -> bool {
        &&& self.base_url@.len() == 0
        &&& self.api_key@.len() == 0
        &&& self.protocol == 0
        &&& self.model@.len() == 0
    }

    pub fn new() -> (r: ProxyDraft)
        ensures
            r.is_empty_draft(),
    {
        ProxyDraft { base_url: String::new(), api_key: String::new(), protocol: 0, model: String::new() }
    }
}

impl Default for ProxyDraft {
    fn default() -> (r: ProxyDraft)
        ensures
            r.is_empty_draft(),
    {
        ProxyDraft::new()
    }
}

pub struct LoginState {
    /// Current sub-page.
    pub page: Page,
    /// Selection within the current list page (also the proxy-form row).
    pub pos: usize,
    /// In-progress text edit (None while browsing).
    pub editing: Option<String>,
    pub error: Option<String>,
    pub loading: bool,
    pub providers: Vec<CredentialProvider>,
    pub proxies: Vec<ProxyRoute>,
    pub auth_providers: Vec<AuthProvider>,
    pub auth_notices: Vec<AuthNotice>,
    pub auth_logout: bool,
    pub provider_ref: Option<String>,
    /// Proxy create form draft.
    pub draft: ProxyDraft,
}

/// One bridge `login` frame: values only, secrets never cross the wire.
#[derive(Debug, Clone)]
pub struct LoginView {
    pub providers: Vec<CredentialProvider>,
    pub proxies: Vec<ProxyRoute>,
    pub error: Option<String>,
}

impl Default for LoginView {
    fn default() -> (r: LoginView)
        ensures
            r.providers@.len() == 0,
            r.proxies@.len() == 0,
            r.error is None,
    {
        LoginView { providers: Vec::new(), proxies: Vec::new(), error: None }
    }
}

/// The actions offered by the notices of a flow: each URL can be opened and
/// copied, each code copied, in notice order.
pub open spec fn notice_actions(notices: Seq<AuthNotice>) -> Seq<NativeNoticeAction>
    decreases notices.len(),
{
    if notices.len() == 0 {
        Seq::empty()
    } else {
        let last = notices.last();
        let urls = match last.url {
            Some(u) => seq![NativeNoticeAction::OpenUrl(u), NativeNoticeAction::CopyUrl(u)],
            None => Seq::empty(),
        };
        let codes = match last.code {
            Some(c) => seq![NativeNoticeAction::CopyCode(c)],
            None => Seq::empty(),
        };
        notice_actions(notices.drop_last()) + urls + codes
    }
}

/// First index at or after `from` of the provider with this id.
pub open spec fn find_provider_from(providers: Seq<AuthProvider>, id: Seq<char>, from: int) -> Option<int>
    decreases providers.len() - from,
{
    if from < 0 || from >= providers.len() {
        None
    } else if providers[from].id@ == id {
        Some(from)
    } else {
        find_provider_from(providers, id, from + 1)
    }
}

/// Index of the first provider with this id.
pub open spec fn find_provider(providers: Seq<AuthProvider>, id: Seq<char>) -> Option<int> {
    find_provider_from(providers, id, 0)
}

/// A native provider row may be selected: when removing credentials, one
/// that can be removed; otherwise one that offers a method.
pub open spec fn provider_actionable_spec(provider: AuthProvider, logout: bool) -> bool {
    if logout {
        provider.removable
    } else {
        provider.methods@.len() > 0
    }
}

/// `n + 1`, held at `usize::MAX`.
pub open spec fn sat_inc(n: nat) -> nat {
    if n >= usize::MAX {
        usize::MAX as nat
    } else {
        n + 1
    }
}

impl LoginState {
    /// The methods of the provider a method page is for (none when it is gone).
    pub open spec fn methods_of(&self, provider: Seq<char>) -> int {
        match find_provider(self.auth_providers@, provider) {
            Some(i) => self.auth_providers@[i].methods@.len() as int,
            None => 0,
        }
    }

    /// Number of selectable rows on the current page.
    pub open spec fn row_count_spec(&self) -> int {
        match self.page {
            Page::Menu => 2,
            Page::Providers => self.providers@.len() as int,
            Page::ProxyList => sat_inc(self.proxies@.len()) as int,
            Page::ProxyDelete { .. } => 2,
            Page::NativeProviders => self.auth_providers@.len() as int,
            Page::NativeMethods { provider } => self.methods_of(provider@),
            Page::NativeLogout { .. } => 2,
            Page::NativeWaiting { .. } => if notice_actions(self.auth_notices@).len() > 1 {
                notice_actions(self.auth_notices@).len() as int
            } else {
                1
            },
            Page::NativePrompt(prompt) => if prompt.kind == AuthPromptKind::Select {
                prompt.options@.len() as int
            } else if prompt.kind == AuthPromptKind::ManualCode {
                sat_inc(notice_actions(self.auth_notices@).len()) as int
            } else {
                1
            },
            _ => 1,
        }
    }

    /// The row at `index` may be selected.
    pub open spec fn row_actionable_spec(&self, index: int) -> bool {
        match self.page {
            Page::Providers => 0 <= index < self.providers@.len() && self.providers@[index].api_key_writable,
            Page::NativeProviders => 0 <= index < self.auth_providers@.len()
                && provider_actionable_spec(self.auth_providers@[index], self.auth_logout),
            _ => 0 <= index < self.row_count_spec(),
        }
    }

    /// First actionable row in `[from, to)`.
    pub open spec fn first_actionable_from(&self, from: int, to: int) -> Option<int>
        decreases to - from,
    {
        if from >= to {
            None
        } else if self.row_actionable_spec(from) {
            Some(from)
        } else {
            self.first_actionable_from(from + 1, to)
        }
    }

    /// Where the cursor lands when it must rest on an actionable row.
    pub open spec fn clamped_pos(&self) -> int {
        if self.row_actionable_spec(self.pos as int) {
            self.pos as int
        } else {
            match self.first_actionable_from(0, self.row_count_spec()) {
                Some(i) => i,
                None => 0,
            }
        }
    }

    /// The nearest actionable row above `index`, stopping at the first
    /// candidate outside the page.
    pub open spec fn actionable_above(&self, index: int) -> Option<int>
        decreases index,
    {
        if index <= 0 || index - 1 >= self.row_count_spec() {
            None
        } else if self.row_actionable_spec(index - 1) {
            Some(index - 1)
        } else {
            self.actionable_above(index - 1)
        }
    }

    /// The nearest actionable row below `index`, stopping at the end.
    pub open spec fn actionable_below(&self, index: int) -> Option<int>
        decreases self.row_count_spec() - index,
    {
        if index < -1 || index + 1 >= self.row_count_spec() {
            None
        } else if self.row_actionable_spec(index + 1) {
            Some(index + 1)
        } else {
            self.actionable_below(index + 1)
        }
    }

    /// The cursor after one step up (`down == false`) or down.
    pub open spec fn moved_pos(&self, down: bool) -> int {
        if self.row_count_spec() == 0 {
            0
        } else {
            let next = if down {
                self.actionable_below(self.pos as int)
            } else {
                self.actionable_above(self.pos as int)
            };
            match next {
                Some(i) => i,
                None => self.pos as int,
            }
        }
    }

    /// The state on the native provider page, before its catalog arrives.
    pub fn native_loading(provider_ref: Option<String>, logout: bool) -> (r: LoginState)
        ensures
            r.page == Page::NativeProviders,
            r.provider_ref == provider_ref,
            r.auth_logout == logout,
            r.loading,
            r.pos == 0,
            r.editing is None,
            r.error is None,
            r.providers@.len() == 0 && r.proxies@.len() == 0,
            r.auth_providers@.len() == 0 && r.auth_notices@.len() == 0,
            r.draft.is_empty_draft(),
    {
        let mut r = LoginState::new();
        r.page = Page::NativeProviders;
        r.provider_ref = provider_ref;
        r.auth_logout = logout;
        r
    }

    /// A fresh login page on its menu, loading.
    pub fn new() -> (r: LoginState)
        ensures
            r.page == Page::Menu,
            r.pos == 0,
            r.editing is None,
            r.error is None,
            r.loading,
            r.providers@.len() == 0 && r.proxies@.len() == 0,
            r.auth_providers@.len() == 0 && r.auth_notices@.len() == 0,
            !r.auth_logout,
            r.provider_ref is None,
            r.draft.is_empty_draft(),
    {
        LoginState {
            page: Page::Menu,
            pos: 0,
            editing: None,
            error: None,
            loading: true,
            providers: Vec::new(),
            proxies: Vec::new(),
            auth_providers: Vec::new(),
            auth_notices: Vec::new(),
            auth_logout: false,
            provider_ref: None,
            draft: ProxyDraft::new(),
        }
    }

    /// Whether a native provider row may be selected: the one eligibility
    /// rule shared by cursor movement, focus building and rendering.
    pub fn provider_actionable(provider: &AuthProvider, logout: bool) -> (r: bool)
        ensures
            r == provider_actionable_spec(*provider, logout),
    {
        if logout {
            provider.removable
        } else {
            provider.methods.len() > 0
        }
    }

    /// The actions the notices of the current flow offer.
    pub fn native_notice_actions(&self) -> (r: Vec<NativeNoticeAction>)
        ensures
            r@ == notice_actions(self.auth_notices@),
    {
        let mut actions: Vec<NativeNoticeAction> = Vec::new();
        let mut i: usize = 0;
        while i < self.auth_notices.len()
            invariant
                i <= self.auth_notices@.len(),
                actions@ == notice_actions(self.auth_notices@.take(i as int)),
            decreases self.auth_notices.len() - i,
        {
            let notice = &self.auth_notices[i];
            proof {
                assert(self.auth_notices@.take(i + 1).drop_last() =~= self.auth_notices@.take(i as int));
            }
            let ghost before = actions@;
            match &notice.url {
                Some(url) => {
                    actions.push(NativeNoticeAction::OpenUrl(url.clone()));
                    actions.push(NativeNoticeAction::CopyUrl(url.clone()));
                },
                None => {},
            }
            match &notice.code {
                Some(code) => {
                    actions.push(NativeNoticeAction::CopyCode(code.clone()));
                },
                None => {},
            }
            proof {
                let last = self.auth_notices@.take(i + 1).last();
                assert(last == self.auth_notices@[i as int]);
                let urls = match last.url {
                    Some(u) => seq![NativeNoticeAction::OpenUrl(u), NativeNoticeAction::CopyUrl(u)],
                    None => Seq::empty(),
                };
                let codes = match last.code {
                    Some(c) => seq![NativeNoticeAction::CopyCode(c)],
                    None => Seq::empty(),
                };
                assert(actions@ =~= before + urls + codes);
            }
            i = i + 1;
        }
        proof {
            assert(self.auth_notices@.take(i as int) =~= self.auth_notices@);
        }
        actions
    }

    /// Index of the first native provider with this id.
    fn find_auth_provider(&self, id: &str) -> (r: Option<usize>)
        ensures
            match r {
                Some(i) => find_provider(self.auth_providers@, id@) == Some(i as int) && i < self.auth_providers@.len(),
                None => find_provider(self.auth_providers@, id@) is None,
            },
    {
        let mut i: usize = 0;
        while i < self.auth_providers.len()
            invariant
                i <= self.auth_providers@.len(),
                find_provider(self.auth_providers@, id@) == find_provider_from(self.auth_providers@, id@, i as int),
            decreases self.auth_providers.len() - i,
        {
            if str_eq(self.auth_providers[i].id.as_str(), id) {
                return Some(i);
            }
            i = i + 1;
        }
        None
    }

    /// Number of selectable rows on the current page (the proxy list has one
    /// extra `+ New` row).
    pub fn row_count(&self) -> (r: usize)
        ensures
            r == self.row_count_spec(),
    {
        match &self.page {
            Page::Menu => 2,
            Page::Providers => self.providers.len(),
            Page::ProxyList => if self.proxies.len() == usize::MAX {
                usize::MAX
            } else {
                self.proxies.len() + 1
            },
            Page::ProxyDelete { .. } => 2,
            Page::NativeProviders => self.auth_providers.len(),
            Page::NativeMethods { provider } => match self.find_auth_provider(provider.as_str()) {
                Some(i) => self.auth_providers[i].methods.len(),
                None => 0,
            },
            Page::NativeLogout { .. } => 2,
            Page::NativeWaiting { .. } => {
                let n = self.native_notice_actions().len();
                if n > 1 {
                    n
                } else {
                    1
                }
            },
            Page::NativePrompt(prompt) => {
                if prompt.kind == AuthPromptKind::Select {
                    prompt.options.len()
                } else if prompt.kind == AuthPromptKind::ManualCode {
                    let n = self.native_notice_actions().len();
                    if n == usize::MAX {
                        usize::MAX
                    } else {
                        n + 1
                    }
                } else {
                    1
                }
            },
            _ => 1,
        }
    }

    /// Whether the row at `index` may be selected.
    pub fn row_actionable(&self, index: usize) -> (r: bool)
        ensures
            r == self.row_actionable_spec(index as int),
    {
        match &self.page {
            Page::Providers => index < self.providers.len() && self.providers[index].api_key_writable,
            Page::NativeProviders => index < self.auth_providers.len() && Self::provider_actionable(
                &self.auth_providers[index],
                self.auth_logout,
            ),
            _ => index < self.row_count(),
        }
    }

    /// Put the cursor on an actionable row: it stays when it is on one, else
    /// goes to the first, else to the top.
    fn clamp_to_actionable(&mut self)
        ensures
            final(self).pos == old(self).clamped_pos(),
            final(self).page == old(self).page,
            final(self).editing == old(self).editing,
            final(self).error == old(self).error,
            final(self).loading == old(self).loading,
            final(self).providers == old(self).providers,
            final(self).proxies == old(self).proxies,
            final(self).auth_providers == old(self).auth_providers,
            final(self).auth_notices == old(self).auth_notices,
            final(self).auth_logout == old(self).auth_logout,
            final(self).provider_ref == old(self).provider_ref,
            final(self).draft == old(self).draft,
    {
        if self.row_actionable(self.pos) {
            return ;
        }
        let count = self.row_count();
        let mut i: usize = 0;
        while i < count
            invariant
                count == self.row_count_spec(),
                i <= count,
                *self == *old(self),
                !self.row_actionable_spec(self.pos as int),
                self.first_actionable_from(0, count as int) == self.first_actionable_from(i as int, count as int),
            decreases count - i,
        {
            if self.row_actionable(i) {
                self.pos = i;
                return ;
            }
            i = i + 1;
        }
        self.pos = 0;
    }

    /// One step of the cursor up or down, skipping rows that cannot be
    /// selected and staying put when none is left that way.
    fn move_pos(&mut self, down: bool)
        ensures
            final(self).pos == old(self).moved_pos(down),
            final(self).page == old(self).page,
            final(self).editing == old(self).editing,
            final(self).error == old(self).error,
            final(self).loading == old(self).loading,
            final(self).providers == old(self).providers,
            final(self).proxies == old(self).proxies,
            final(self).auth_providers == old(self).auth_providers,
            final(self).auth_notices == old(self).auth_notices,
            final(self).auth_logout == old(self).auth_logout,
            final(self).provider_ref == old(self).provider_ref,
            final(self).draft == old(self).draft,
    {
        let count = self.row_count();
        if count == 0 {
            self.pos = 0;
            return ;
        }
        let mut next = self.pos;
        if down {
            while next < count - 1
                invariant
                    count == self.row_count_spec(),
                    count == old(self).row_count_spec(),
                    count > 0,
                    *self == *old(self),
                    next >= self.pos,
                    down,
                    old(self).actionable_below(old(self).pos as int) == old(self).actionable_below(next as int),
                decreases count - next,
            {
                next = next + 1;
                if self.row_actionable(next) {
                    proof {
                        assert(old(self).actionable_below(next - 1) == Some(next as int));
                        assert(old(self).moved_pos(down) == next);
                    }
                    self.pos = next;
                    return ;
                }
            }
        } else {
            while next > 0 && next - 1 < count
                invariant
                    count == self.row_count_spec(),
                    count == old(self).row_count_spec(),
                    count > 0,
                    *self == *old(self),
                    next <= self.pos,
                    !down,
                    old(self).actionable_above(old(self).pos as int) == old(self).actionable_above(next as int),
                decreases next,
            {
                next = next - 1;
                if self.row_actionable(next) {
                    proof {
                        assert(old(self).actionable_above(next + 1) == Some(next as int));
                        assert(old(self).moved_pos(down) == next);
                    }
                    self.pos = next;
                    return ;
                }
            }
        }
    }

    /// The scope the page reads keys in: editing, or browsing.
    pub fn key_scope(&self) -> (r: Scope)
        ensures
            r == if self.editing is Some {
                Scope::PageEdit
            } else {
                Scope::Page
            },
    {
        if self.editing.is_some() {
            Scope::PageEdit
        } else {
            Scope::Page
        }
    }
}

/// The page accepts events of this authentication flow.
pub open spec fn accepts_flow_spec(page: Page, flow_id: Seq<char>) -> bool {
    match page {
        Page::NativeWaiting { flow_id: Some(active) } => active@ == flow_id,
        Page::NativePrompt(prompt) => prompt.flow_id@ == flow_id,
        _ => false,
    }
}

/// The notices kept after one more arrives: the latest eight.
pub open spec fn kept_notices(notices: Seq<AuthNotice>, notice: AuthNotice) -> Seq<AuthNotice> {
    let all = notices.push(notice);
    if all.len() > 8 {
        all.drop_first()
    } else {
        all
    }
}

/// First index of a credential provider with this id.
pub open spec fn credential_index(providers: Seq<CredentialProvider>, id: Seq<char>) -> Option<int>
    decreases providers.len(),
{
    if providers.len() == 0 {
        None
    } else if providers[0].id@ == id {
        Some(0)
    } else {
        match credential_index(providers.drop_first(), id) {
            Some(i) => Some(i + 1),
            None => None,
        }
    }
}

/// First index of a proxy route with this id.
pub open spec fn proxy_index(proxies: Seq<ProxyRoute>, id: Seq<char>) -> Option<int>
    decreases proxies.len(),
{
    if proxies.len() == 0 {
        None
    } else if proxies[0].id@ == id {
        Some(0)
    } else {
        match proxy_index(proxies.drop_first(), id) {
            Some(i) => Some(i + 1),
            None => None,
        }
    }
}

/// Some provider has this id and takes an API key.
pub open spec fn writable_provider(providers: Seq<CredentialProvider>, id: Seq<char>) -> bool {
    exists|i: int| 0 <= i < providers.len() && (#[trigger] providers[i]).id@ == id && providers[i].api_key_writable
}

/// `a - b`, held at zero.
pub open spec fn sat_dec(n: int) -> int {
    if n > 0 {
        n - 1
    } else {
        0
    }
}

/// The state after a `login` frame, before the cursor is put on an
/// actionable row: the lists and error are replaced, an API-key edit whose
/// provider no longer takes a key goes back to the providers, a deletion
/// whose proxy is gone goes back to the list, and the cursor follows the
/// provider or proxy it was on, else stays within the page.
pub open spec fn applied(s: LoginState, view: LoginView) -> LoginState {
    let edit_gone = match s.page {
        Page::ApiKey { provider, .. } => !writable_provider(view.providers@, provider@),
        _ => false,
    };
    let delete_gone = match s.page {
        Page::ProxyDelete { id, .. } => proxy_index(view.proxies@, id@) is None,
        _ => false,
    };
    let page = if edit_gone {
        Page::Providers
    } else if delete_gone {
        Page::ProxyList
    } else {
        s.page
    };
    let mid = LoginState {
        page,
        editing: if edit_gone {
            None
        } else {
            s.editing
        },
        providers: view.providers,
        proxies: view.proxies,
        error: view.error,
        loading: false,
        ..s
    };
    let followed_provider = match s.page {
        Page::Providers => if s.pos < s.providers@.len() {
            credential_index(view.providers@, s.providers@[s.pos as int].id@)
        } else {
            None
        },
        _ => None,
    };
    let followed_proxy = match s.page {
        Page::ProxyList => if s.pos < s.proxies@.len() {
            proxy_index(view.proxies@, s.proxies@[s.pos as int].id@)
        } else {
            None
        },
        _ => None,
    };
    let last = sat_dec(mid.row_count_spec());
    let pos = match followed_provider {
        Some(i) => i,
        None => match followed_proxy {
            Some(i) => i,
            None => if s.pos < last {
                s.pos as int
            } else {
                last
            },
        },
    };
    LoginState { pos: pos as usize, ..mid }
}

/// The providers that hold a removable credential, in order.
pub open spec fn removable_only(providers: Seq<AuthProvider>) -> Seq<AuthProvider>
    decreases providers.len(),
{
    if providers.len() == 0 {
        Seq::empty()
    } else if providers.last().removable {
        removable_only(providers.drop_last()).push(providers.last())
    } else {
        removable_only(providers.drop_last())
    }
}

/// First index of a provider whose id matches, ignoring ASCII case.
pub open spec fn id_match_from(providers: Seq<AuthProvider>, reference: Seq<char>, from: int) -> Option<int>
    decreases providers.len() - from,
{
    if from < 0 || from >= providers.len() {
        None
    } else if eq_ignore_ascii_case_spec(providers[from].id@, reference) {
        Some(from)
    } else {
        id_match_from(providers, reference, from + 1)
    }
}

/// Indices of the providers whose name matches, ignoring ASCII case.
pub open spec fn name_matches(providers: Seq<AuthProvider>, reference: Seq<char>) -> Seq<int>
    decreases providers.len(),
{
    if providers.len() == 0 {
        Seq::empty()
    } else if eq_ignore_ascii_case_spec(providers.last().name@, reference) {
        name_matches(providers.drop_last(), reference).push(providers.len() - 1)
    } else {
        name_matches(providers.drop_last(), reference)
    }
}

/// `after` is `before` once a native flow started.
pub open spec fn auth_started(before: LoginState, after: LoginState, flow_id: String) -> bool {
    &&& (after.page == (Page::NativeWaiting { flow_id: Some(flow_id) }))
    &&& (after.editing is None)
    &&& (after.auth_notices@.len() == 0)
    &&& (!after.loading)
    &&& (after.pos == before.pos)
    &&& (after.providers == before.providers)
    &&& (after.proxies == before.proxies)
    &&& (after.auth_providers == before.auth_providers)
    &&& (after.error == before.error)
}

/// `after` is `before` once a prompt arrived.
pub open spec fn prompt_applied(before: LoginState, after: LoginState, prompt: AuthPrompt) -> bool {
    &&& (accepts_flow_spec(before.page, prompt.flow_id@) ==> {
                &&& after.page == Page::NativePrompt(prompt)
                &&& after.pos == 0
                &&& !after.loading
                &&& match prompt.kind {
                    AuthPromptKind::Text | AuthPromptKind::Secret => after.editing matches Some(e) && e@.len() == 0,
                    _ => after.editing is None,
                }
                &&& after.auth_notices == before.auth_notices
            })
    &&& (!accepts_flow_spec(before.page, prompt.flow_id@) ==> after == before)
}

/// `after` is `before` once a prompt was taken back.
pub open spec fn prompt_withdrawn(before: LoginState, after: LoginState, flow_id: Seq<char>, prompt_id: Seq<char>) -> bool {
    &&& ((match before.page {
                Page::NativePrompt(p) => p.flow_id@ == flow_id && p.prompt_id@ == prompt_id,
                _ => false,
            }) ==> {
                &&& after.page matches Page::NativeWaiting { flow_id: Some(f) } && f@ == flow_id
                &&& after.editing is None
                &&& after.pos == before.pos
                &&& after.auth_notices == before.auth_notices
            })
    &&& (!(match before.page {
                Page::NativePrompt(p) => p.flow_id@ == flow_id && p.prompt_id@ == prompt_id,
                _ => false,
            }) ==> after == before)
}

/// `after` is `before` once a notice arrived.
pub open spec fn notice_applied(before: LoginState, after: LoginState, notice: AuthNotice) -> bool {
    &&& (accepts_flow_spec(before.page, notice.flow_id@) ==> {
                &&& after.auth_notices@ == kept_notices(before.auth_notices@, notice)
                &&& match before.page {
                    Page::NativeWaiting { .. } => {
                        &&& after.page matches Page::NativeWaiting { flow_id: Some(f) } && f@ == notice.flow_id@
                        &&& after.pos == if before.pos < sat_dec(after.row_count_spec()) {
                            before.pos as int
                        } else {
                            sat_dec(after.row_count_spec())
                        }
                    },
                    _ => after.page == before.page && after.pos == before.pos,
                }
                &&& after.editing == before.editing
                &&& after.auth_providers == before.auth_providers
            })
    &&& (!accepts_flow_spec(before.page, notice.flow_id@) ==> after == before)
}

/// `after` is `before` once a flow ended.
pub open spec fn auth_finished(before: LoginState, after: LoginState, flow_id: Seq<char>, outcome: AuthOutcomeKind, message: String) -> bool {
    &&& (accepts_flow_spec(before.page, flow_id) ==> {
                &&& after.page == (Page::NativeOutcome { outcome, message })
                &&& after.editing is None
                &&& !after.loading
                &&& after.pos == before.pos
            })
    &&& (!accepts_flow_spec(before.page, flow_id) ==> after == before)
}

/// `after` is `before` once the native provider catalog arrived.
pub open spec fn catalog_applied(before: LoginState, after: LoginState, providers: Vec<AuthProvider>, provider_ref: Option<String>, logout: bool, error: Option<String>) -> bool {
    &&& (after.auth_providers@ == if logout {
                removable_only(providers@)
            } else {
                providers@
            })
    &&& (after.provider_ref == match provider_ref {
                Some(r) => Some(r),
                None => before.provider_ref,
            })
    &&& (after.auth_logout == logout)
    &&& (!after.loading)
    &&& (after.page == Page::NativeProviders)
    &&& (after.editing == before.editing)
    &&& (after.auth_notices == before.auth_notices)
    &&& (match after.provider_ref {
                None => after.pos == 0 && after.error == error,
                Some(reference) => match id_match_from(after.auth_providers@, reference@, 0) {
                    Some(i) => after.pos == i && after.error == error,
                    None => {
                        let names = name_matches(after.auth_providers@, reference@);
                        if names.len() == 1 {
                            after.pos == names[0] && after.error == error
                        } else if names.len() == 0 {
                            after.pos == 0 && (after.error matches Some(e) && e@ == "Unknown authentication provider: "@ + reference@)
                        } else {
                            after.pos == 0 && (after.error matches Some(e) && e@ == "Ambiguous authentication provider: "@ + reference@)
                        }
                    },
                },
            })
}

impl LoginState {
    fn accepts_flow(&self, flow_id: &str) -> (r: bool)
        ensures
            r == accepts_flow_spec(self.page, flow_id@),
    {
        match &self.page {
            Page::NativeWaiting { flow_id: Some(active) } => str_eq(active.as_str(), flow_id),
            Page::NativePrompt(prompt) => str_eq(prompt.flow_id.as_str(), flow_id),
            _ => false,
        }
    }

    /// A native flow started: wait on it with no notices yet.
    pub fn start_auth(&mut self, flow_id: String)
        ensures
            auth_started(*old(self), *final(self), flow_id),

    {
        self.editing = None;
        self.auth_notices.clear();
        self.loading = false;
        self.page = Page::NativeWaiting { flow_id: Some(flow_id) };
    }

    /// Show a prompt of the active flow; text and secret prompts start an
    /// empty edit. A prompt of another flow is ignored.
    pub fn apply_auth_prompt(&mut self, prompt: AuthPrompt)
        ensures
            prompt_applied(*old(self), *final(self), prompt),

    {
        if !self.accepts_flow(prompt.flow_id.as_str()) {
            return ;
        }
        self.editing = match prompt.kind {
            AuthPromptKind::Text | AuthPromptKind::Secret => Some(String::new()),
            AuthPromptKind::ManualCode | AuthPromptKind::Select => None,
        };
        self.pos = 0;
        self.loading = false;
        self.page = Page::NativePrompt(prompt);
    }

    /// Take back the prompt shown, if it is this one: wait on its flow again.
    pub fn withdraw_auth_prompt(&mut self, flow_id: &str, prompt_id: &str)
        ensures
            prompt_withdrawn(*old(self), *final(self), flow_id@, prompt_id@),

    {
        let matching = match &self.page {
            Page::NativePrompt(prompt) => str_eq(prompt.flow_id.as_str(), flow_id) && str_eq(
                prompt.prompt_id.as_str(),
                prompt_id,
            ),
            _ => false,
        };
        if matching {
            self.editing = None;
            self.page = Page::NativeWaiting { flow_id: Some(owned(flow_id)) };
        }
    }

    /// Keep a notice of the active flow (the latest eight); while waiting,
    /// the cursor stays within the actions the notices offer.
    pub fn apply_auth_notice(&mut self, notice: AuthNotice)
        ensures
            notice_applied(*old(self), *final(self), notice),

    {
        if !self.accepts_flow(notice.flow_id.as_str()) {
            return ;
        }
        let flow_id = notice.flow_id.clone();
        let ghost before = self.auth_notices@;
        self.auth_notices.push(notice);
        if self.auth_notices.len() > 8 {
            self.auth_notices.remove(0);
            proof {
                assert(self.auth_notices@ =~= before.push(notice).drop_first());
            }
        }
        let waiting = match &self.page {
            Page::NativeWaiting { .. } => true,
            _ => false,
        };
        if waiting {
            self.page = Page::NativeWaiting { flow_id: Some(flow_id) };
            let count = self.row_count();
            let last = if count > 0 {
                count - 1
            } else {
                0
            };
            if self.pos > last {
                self.pos = last;
            }
        }
    }

    /// The active flow ended: show its outcome.
    pub fn finish_auth(&mut self, flow_id: &str, outcome: AuthOutcomeKind, message: String)
        ensures
            auth_finished(*old(self), *final(self), flow_id@, outcome, message),

    {
        if !self.accepts_flow(flow_id) {
            return ;
        }
        self.editing = None;
        self.loading = false;
        self.page = Page::NativeOutcome { outcome, message };
    }

    fn credential_position(providers: &Vec<CredentialProvider>, id: &str) -> (r: Option<usize>)
        ensures
            match r {
                Some(i) => credential_index(providers@, id@) == Some(i as int),
                None => credential_index(providers@, id@) is None,
            },
    {
        let mut i: usize = 0;
        proof {
            assert(providers@.subrange(0, providers@.len() as int) =~= providers@);
        }
        while i < providers.len()
            invariant
                i <= providers@.len(),
                credential_index(providers@, id@) == match credential_index(providers@.subrange(i as int, providers@.len() as int), id@) {
                    Some(k) => Some(k + i),
                    None => None,
                },
            decreases providers.len() - i,
        {
            proof {
                assert(providers@.subrange(i as int, providers@.len() as int).drop_first() =~= providers@.subrange(i + 1, providers@.len() as int));
            }
            if str_eq(providers[i].id.as_str(), id) {
                return Some(i);
            }
            i = i + 1;
        }
        None
    }

    fn proxy_position(proxies: &Vec<ProxyRoute>, id: &str) -> (r: Option<usize>)
        ensures
            match r {
                Some(i) => proxy_index(proxies@, id@) == Some(i as int),
                None => proxy_index(proxies@, id@) is None,
            },
    {
        let mut i: usize = 0;
        proof {
            assert(proxies@.subrange(0, proxies@.len() as int) =~= proxies@);
        }
        while i < proxies.len()
            invariant
                i <= proxies@.len(),
                proxy_index(proxies@, id@) == match proxy_index(proxies@.subrange(i as int, proxies@.len() as int), id@) {
                    Some(k) => Some(k + i),
                    None => None,
                },
            decreases proxies.len() - i,
        {
            proof {
                assert(proxies@.subrange(i as int, proxies@.len() as int).drop_first() =~= proxies@.subrange(i + 1, proxies@.len() as int));
            }
            if str_eq(proxies[i].id.as_str(), id) {
                return Some(i);
            }
            i = i + 1;
        }
        None
    }

    fn has_writable(providers: &Vec<CredentialProvider>, id: &str) -> (r: bool)
        ensures
            r == writable_provider(providers@, id@),
    {
        let mut i: usize = 0;
        while i < providers.len()
            invariant
                i <= providers@.len(),
                forall|k: int| 0 <= k < i ==> !((#[trigger] providers@[k]).id@ == id@ && providers@[k].api_key_writable),
            decreases providers.len() - i,
        {
            if providers[i].api_key_writable && str_eq(providers[i].id.as_str(), id) {
                return true;
            }
            i = i + 1;
        }
        false
    }

    /// Apply one bridge `login` frame.
    pub fn apply(&mut self, view: LoginView)
        ensures
            *final(self) == (LoginState { pos: applied(*old(self), view).clamped_pos() as usize, ..applied(*old(self), view) }),
    {
        let ghost s = *self;
        let edit_gone = match &self.page {
            Page::ApiKey { provider, .. } => !Self::has_writable(&view.providers, provider.as_str()),
            _ => false,
        };
        let delete_gone = match &self.page {
            Page::ProxyDelete { id, .. } => Self::proxy_position(&view.proxies, id.as_str()).is_none(),
            _ => false,
        };
        let followed_provider = match &self.page {
            Page::Providers => if self.pos < self.providers.len() {
                Self::credential_position(&view.providers, self.providers[self.pos].id.as_str())
            } else {
                None
            },
            _ => None,
        };
        let followed_proxy = match &self.page {
            Page::ProxyList => if self.pos < self.proxies.len() {
                Self::proxy_position(&view.proxies, self.proxies[self.pos].id.as_str())
            } else {
                None
            },
            _ => None,
        };
        self.providers = view.providers;
        self.proxies = view.proxies;
        self.error = view.error;
        self.loading = false;
        if edit_gone {
            self.editing = None;
            self.page = Page::Providers;
        } else if delete_gone {
            self.page = Page::ProxyList;
        }
        let count = self.row_count();
        let last = if count > 0 {
            count - 1
        } else {
            0
        };
        self.pos = match followed_provider {
            Some(i) => i,
            None => match followed_proxy {
                Some(i) => i,
                None => if self.pos < last {
                    self.pos
                } else {
                    last
                },
            },
        };
        proof {
            assert(*self == applied(s, view));
        }
        self.clamp_to_actionable();
    }

    /// Apply the native provider catalog: when removing credentials only the
    /// removable ones are listed. A provider reference puts the cursor on the
    /// provider whose id matches (ignoring ASCII case), else on the one whose
    /// name does; none or several such names is an error.
    #[verifier::loop_isolation(false)]
    pub fn apply_auth_catalog(
        &mut self,
        providers: Vec<AuthProvider>,
        provider_ref: Option<String>,
        logout: bool,
        error: Option<String>,
    )
        ensures
            catalog_applied(*old(self), *final(self), providers, provider_ref, logout, error),

    {
        if logout {
            let mut kept: Vec<AuthProvider> = Vec::new();
            let mut rest = providers;
            let ghost given = rest@;
            let mut reversed: Vec<AuthProvider> = Vec::new();
            while rest.len() > 0
                invariant
                    rest@ == given.take(rest@.len() as int),
                    reversed@.len() + rest@.len() == given.len(),
                    forall|k: int| 0 <= k < reversed@.len() ==> #[trigger] reversed@[k] == given[given.len() - 1 - k],
                decreases rest.len(),
            {
                let ghost n = rest@.len() as int;
                let p = rest.pop().unwrap();
                proof {
                    assert(given.take(n - 1) =~= given.take(n).drop_last());
                }
                reversed.push(p);
            }
            let total = reversed.len();
            let mut j: usize = 0;
            while reversed.len() > 0
                invariant
                    reversed@.len() + j == given.len(),
                    given.len() == total,
                    forall|k: int| 0 <= k < reversed@.len() ==> #[trigger] reversed@[k] == given[given.len() - 1 - k],
                    kept@ == removable_only(given.take(j as int)),
                decreases reversed.len(),
            {
                let p = reversed.pop().unwrap();
                proof {
                    assert(p == given[j as int]);
                    assert(given.take(j + 1).drop_last() =~= given.take(j as int));
                    assert(given.take(j + 1).last() == p);
                }
                if p.removable {
                    kept.push(p);
                }
                j = j + 1;
            }
            proof {
                assert(given.take(j as int) =~= given);
            }
            self.auth_providers = kept;
        } else {
            self.auth_providers = providers;
        }
        match provider_ref {
            Some(r) => {
                self.provider_ref = Some(r);
            },
            None => {},
        }
        self.auth_logout = logout;
        self.error = error;
        self.loading = false;
        self.page = Page::NativeProviders;
        self.pos = 0;
        let reference = match &self.provider_ref {
            Some(r) => r.clone(),
            None => {
                return ;
            },
        };
        let ghost s0 = *self;
        let mut i: usize = 0;
        while i < self.auth_providers.len()
            invariant
                *self == s0,
                i <= self.auth_providers@.len(),
                id_match_from(self.auth_providers@, reference@, 0) == id_match_from(self.auth_providers@, reference@, i as int),
            decreases self.auth_providers.len() - i,
        {
            if eq_ignore_ascii_case(self.auth_providers[i].id.as_str(), reference.as_str()) {
                self.pos = i;
                return ;
            }
            i = i + 1;
        }
        let mut count: usize = 0;
        let mut first: usize = 0;
        let mut k: usize = 0;
        while k < self.auth_providers.len()
            invariant
                *self == s0,
                k <= self.auth_providers@.len(),
                count == name_matches(self.auth_providers@.take(k as int), reference@).len(),
                count > 0 ==> first == name_matches(self.auth_providers@.take(k as int), reference@)[0],
                count <= k,
            decreases self.auth_providers.len() - k,
        {
            proof {
                assert(self.auth_providers@.take(k + 1).drop_last() =~= self.auth_providers@.take(k as int));
            }
            if eq_ignore_ascii_case(self.auth_providers[k].name.as_str(), reference.as_str()) {
                if count == 0 {
                    first = k;
                }
                count = count + 1;
            }
            k = k + 1;
        }
        proof {
            assert(self.auth_providers@.take(k as int) =~= self.auth_providers@);
        }
        if count == 1 {
            self.pos = first;
        } else if count == 0 {
            let mut message = owned("Unknown authentication provider: ");
            push_str(&mut message, reference.as_str());
            self.error = Some(message);
        } else {
            let mut message = owned("Ambiguous authentication provider: ");
            push_str(&mut message, reference.as_str());
            self.error = Some(message);
        }
    }
}

/// What a field holds after a key that neither confirms nor cancels.
pub open spec fn edited_text(buf: Seq<char>, key: MappedKey) -> Seq<char> {
    match key {
        MappedKey::Command(Action::DeleteBackward) => if buf.len() > 0 {
            buf.drop_last()
        } else {
            buf
        },
        MappedKey::Text(c) => buf.push(c),
        _ => buf,
    }
}

/// The key confirms or cancels an edit.
pub open spec fn ends_edit(key: MappedKey) -> bool {
    key == MappedKey::Command(Action::Confirm) || key == MappedKey::Command(Action::Cancel)
}

/// The page's lists, flags and error did not change.
pub open spec fn rest_same(s: LoginState, t: LoginState) -> bool {
    &&& t.providers == s.providers
    &&& t.proxies == s.proxies
    &&& t.auth_providers == s.auth_providers
    &&& t.auth_logout == s.auth_logout
    &&& t.provider_ref == s.provider_ref
    &&& t.error == s.error
    &&& t.loading == s.loading
}

/// Only the page, the cursor and the edit may have changed.
pub open spec fn keeps(s: LoginState, t: LoginState) -> bool {
    &&& rest_same(s, t)
    &&& t.auth_notices == s.auth_notices
    &&& t.draft == s.draft
}

/// The state with this page and cursor, all else kept.
pub open spec fn at(s: LoginState, page: Page, pos: int) -> LoginState {
    LoginState { page, pos: pos as usize, ..s }
}

/// The draft after committing `value` into proxy-form field `field`: the
/// base URL, the API key or the model (other rows hold no text).
pub open spec fn committed(d: ProxyDraft, e: ProxyDraft, field: int, value: Seq<char>) -> bool {
    &&& e.protocol == d.protocol
    &&& e.base_url@ == if field == 0 {
        value
    } else {
        d.base_url@
    }
    &&& e.api_key@ == if field == 1 {
        value
    } else {
        d.api_key@
    }
    &&& e.model@ == if field == 3 {
        value
    } else {
        d.model@
    }
}

/// `min(n + 1, cap)` without overflow.
pub open spec fn step_to(n: int, cap: int) -> int {
    if n >= cap {
        cap
    } else {
        n + 1
    }
}

/// The outcome of a key while a field is being edited with `buf`.
pub open spec fn edit_outcome(s: LoginState, t: LoginState, buf: Seq<char>, key: MappedKey, r: LoginAction) -> bool {
    if key == MappedKey::Command(Action::Confirm) {
        match s.page {
            Page::NativePrompt(p) => {
                &&& t.page == (Page::NativeWaiting { flow_id: Some(p.flow_id) })
                &&& r matches LoginAction::Send(AgentRequest::AuthReply { flow_id, prompt_id, value })
                    && flow_id == p.flow_id && prompt_id == p.prompt_id && value@ == buf
                &&& t.editing is None && t.pos == s.pos && keeps(s, t)
            },
            Page::ApiKey { provider, .. } => {
                &&& r matches LoginAction::Send(AgentRequest::LoginSetApiKey { provider: k, value })
                    && k == provider && value@ == trim(buf)
                &&& t.page == Page::Providers
                &&& t.pos == at(LoginState { editing: None, ..s }, Page::Providers, 0).clamped_pos()
                &&& t.editing is None && keeps(s, t)
            },
            _ => {
                &&& r is Nothing
                &&& t.page == s.page && t.editing is None
                &&& t.pos == step_to(s.pos as int, PROXY_SAVE_ROW as int)
                &&& committed(s.draft, t.draft, s.pos as int, trim(buf))
                &&& rest_same(s, t) && t.auth_notices == s.auth_notices
            },
        }
    } else if key == MappedKey::Command(Action::Cancel) {
        match s.page {
            Page::NativePrompt(p) => {
                &&& t.page == (Page::NativeWaiting { flow_id: Some(p.flow_id) })
                &&& r matches LoginAction::Send(AgentRequest::AuthCancel)
                &&& t.editing is None && t.pos == s.pos && keeps(s, t)
            },
            Page::ApiKey { .. } => {
                &&& r is Nothing
                &&& t.page == Page::Providers
                &&& t.pos == at(LoginState { editing: None, ..s }, Page::Providers, 0).clamped_pos()
                &&& t.editing is None && keeps(s, t)
            },
            _ => r is Nothing && t.page == s.page && t.pos == s.pos && t.editing is None && keeps(s, t),
        }
    } else {
        &&& r is Nothing
        &&& t.editing matches Some(e) && e@ == edited_text(buf, key)
        &&& t.page == s.page && t.pos == s.pos && keeps(s, t)
    }
}

/// Nothing happened.
pub open spec fn idle(s: LoginState, t: LoginState, r: LoginAction) -> bool {
    r is Nothing && t == s
}

/// A step of the cursor up or down over the actionable rows.
pub open spec fn moves(s: LoginState, t: LoginState, key: MappedKey, r: LoginAction) -> bool {
    &&& key == MappedKey::Command(Action::MoveUp) ==> r is Nothing && t == at(s, s.page, s.moved_pos(false))
    &&& key == MappedKey::Command(Action::MoveDown) ==> r is Nothing && t == at(s, s.page, s.moved_pos(true))
}

pub open spec fn is_key(key: MappedKey, action: Action) -> bool {
    key == MappedKey::Command(action)
}

/// The notice action at the cursor, as a login action of flow `flow_id`.
pub open spec fn notice_action(s: LoginState, flow_id: String, r: LoginAction) -> bool {
    let actions = notice_actions(s.auth_notices@);
    if s.pos < actions.len() {
        match actions[s.pos as int] {
            NativeNoticeAction::OpenUrl(url) => r matches LoginAction::Send(AgentRequest::AuthOpenUrl { flow_id: f, url: u })
                && f == flow_id && u == url,
            NativeNoticeAction::CopyUrl(v) => r == LoginAction::Copy(v),
            NativeNoticeAction::CopyCode(v) => r == LoginAction::Copy(v),
        }
    } else {
        r is Nothing
    }
}

/// The outcome of a key while browsing (no field being edited).
pub open spec fn browse_outcome(s: LoginState, t: LoginState, key: MappedKey, r: LoginAction) -> bool {
    match s.page {
        Page::Menu => if is_key(key, Action::Back) || is_key(key, Action::Close) {
            r is Exit && t == s
        } else if is_key(key, Action::MoveUp) {
            r is Nothing && t == at(s, Page::Menu, sat_dec(s.pos as int))
        } else if is_key(key, Action::MoveDown) {
            r is Nothing && t == at(s, Page::Menu, step_to(s.pos as int, 1))
        } else if is_key(key, Action::Confirm) {
            r is Nothing && t == at(s, if s.pos == 0 { Page::Providers } else { Page::ProxyList }, 0)
        } else {
            idle(s, t, r)
        },
        Page::Providers => if is_key(key, Action::Back) {
            r is Nothing && t == at(s, Page::Menu, 0)
        } else if is_key(key, Action::MoveUp) || is_key(key, Action::MoveDown) {
            moves(s, t, key, r)
        } else if is_key(key, Action::Confirm) {
            if s.pos < s.providers@.len() && s.providers@[s.pos as int].api_key_writable {
                &&& r is Nothing
                &&& t.page matches Page::ApiKey { provider, buf }
                    && provider == s.providers@[s.pos as int].id && buf@.len() == 0
                &&& t.editing matches Some(e) && e@.len() == 0
                &&& t.pos == s.pos && keeps(s, t)
            } else {
                idle(s, t, r)
            }
        } else {
            idle(s, t, r)
        },
        Page::NativeProviders => if is_key(key, Action::Back) || is_key(key, Action::Close) {
            r is Exit && t == s
        } else if is_key(key, Action::MoveUp) || is_key(key, Action::MoveDown) {
            moves(s, t, key, r)
        } else if is_key(key, Action::Confirm) {
            if s.pos >= s.auth_providers@.len() {
                idle(s, t, r)
            } else {
                let p = s.auth_providers@[s.pos as int];
                if s.auth_logout {
                    r is Nothing && t == at(s, Page::NativeLogout { provider: p.id }, 0)
                } else if p.methods@.len() == 1 {
                    &&& r matches LoginAction::Send(AgentRequest::AuthStart { provider, method: Some(m), logout })
                        && provider == p.id && m == p.methods@[0].id && !logout
                    &&& t.page == (Page::NativeWaiting { flow_id: None })
                    &&& t.auth_notices@.len() == 0
                    &&& t.pos == s.pos && t.editing == s.editing && rest_same(s, t) && t.draft == s.draft
                } else {
                    r is Nothing && t == at(s, Page::NativeMethods { provider: p.id }, 0)
                }
            }
        } else {
            idle(s, t, r)
        },
        Page::NativeMethods { provider } => if is_key(key, Action::Back) {
            r is Nothing && t == at(s, Page::NativeProviders, 0)
        } else if is_key(key, Action::MoveUp) || is_key(key, Action::MoveDown) {
            moves(s, t, key, r)
        } else if is_key(key, Action::Confirm) {
            match find_provider(s.auth_providers@, provider@) {
                Some(i) => if s.pos < s.auth_providers@[i].methods@.len() {
                    &&& r matches LoginAction::Send(AgentRequest::AuthStart { provider: k, method: Some(m), logout })
                        && k == provider && m == s.auth_providers@[i].methods@[s.pos as int].id && !logout
                    &&& t.page == (Page::NativeWaiting { flow_id: None })
                    &&& t.auth_notices@.len() == 0
                    &&& t.pos == s.pos && t.editing == s.editing && rest_same(s, t) && t.draft == s.draft
                } else {
                    idle(s, t, r)
                },
                None => idle(s, t, r),
            }
        } else {
            idle(s, t, r)
        },
        Page::NativeLogout { provider } => if is_key(key, Action::Back) {
            r is Nothing && t == at(s, Page::NativeProviders, 0)
        } else if is_key(key, Action::MoveUp) {
            r is Nothing && t == at(s, s.page, sat_dec(s.pos as int))
        } else if is_key(key, Action::MoveDown) {
            r is Nothing && t == at(s, s.page, step_to(s.pos as int, 1))
        } else if is_key(key, Action::Confirm) {
            if s.pos == 0 {
                r is Nothing && t == at(s, Page::NativeProviders, 0)
            } else {
                &&& r matches LoginAction::Send(AgentRequest::AuthStart { provider: k, method: None, logout })
                    && k == provider && logout
                &&& t == at(s, Page::NativeWaiting { flow_id: None }, s.pos as int)
            }
        } else {
            idle(s, t, r)
        },
        Page::NativeWaiting { flow_id } => if is_key(key, Action::MoveUp) || is_key(key, Action::MoveDown) {
            moves(s, t, key, r)
        } else if is_key(key, Action::Confirm) {
            t == s && match flow_id {
                Some(f) => notice_action(s, f, r),
                None => r is Nothing,
            }
        } else if is_key(key, Action::Back) || is_key(key, Action::Close) {
            r is Cancel && t == s
        } else {
            idle(s, t, r)
        },
        Page::NativePrompt(prompt) => if prompt.kind == AuthPromptKind::ManualCode && (is_key(key, Action::MoveUp)
            || is_key(key, Action::MoveDown)) {
            moves(s, t, key, r)
        } else if prompt.kind == AuthPromptKind::ManualCode && is_key(key, Action::Confirm) {
            if s.pos == notice_actions(s.auth_notices@).len() {
                &&& r is Nothing
                &&& t.editing matches Some(e) && e@.len() == 0
                &&& t.page == s.page && t.pos == s.pos && keeps(s, t)
            } else {
                t == s && notice_action(s, prompt.flow_id, r)
            }
        } else if prompt.kind == AuthPromptKind::Select && is_key(key, Action::MoveUp) {
            r is Nothing && t == at(s, s.page, sat_dec(s.pos as int))
        } else if prompt.kind == AuthPromptKind::Select && is_key(key, Action::MoveDown) {
            r is Nothing && t == at(s, s.page, if s.pos as int >= sat_dec(prompt.options@.len() as int) {
                sat_dec(prompt.options@.len() as int)
            } else {
                s.pos + 1
            })
        } else if prompt.kind == AuthPromptKind::Select && is_key(key, Action::Confirm) {
            if s.pos < prompt.options@.len() {
                &&& r matches LoginAction::Send(AgentRequest::AuthReply { flow_id, prompt_id, value })
                    && flow_id == prompt.flow_id && prompt_id == prompt.prompt_id
                    && value == prompt.options@[s.pos as int].value
                &&& t == at(s, Page::NativeWaiting { flow_id: Some(prompt.flow_id) }, s.pos as int)
            } else {
                idle(s, t, r)
            }
        } else if is_key(key, Action::Back) || is_key(key, Action::Close) {
            &&& r matches LoginAction::Send(AgentRequest::AuthCancel)
            &&& t == at(s, Page::NativeWaiting { flow_id: Some(prompt.flow_id) }, s.pos as int)
        } else {
            idle(s, t, r)
        },
        Page::NativeOutcome { .. } => if is_key(key, Action::Back) || is_key(key, Action::Close) || is_key(
            key,
            Action::Confirm,
        ) {
            r is Exit && t == s
        } else {
            idle(s, t, r)
        },
        Page::ApiKey { .. } => idle(s, t, r),
        Page::ProxyList => if is_key(key, Action::Back) {
            r is Nothing && t == at(s, Page::Menu, 0)
        } else if is_key(key, Action::MoveUp) || is_key(key, Action::MoveDown) {
            moves(s, t, key, r)
        } else if is_key(key, Action::Confirm) {
            if s.pos == s.proxies@.len() {
                &&& r is Nothing
                &&& t.page == Page::ProxyForm && t.pos == 0 && t.draft.is_empty_draft()
                &&& rest_same(s, t) && t.editing == s.editing && t.auth_notices == s.auth_notices
            } else if s.pos < s.proxies@.len() {
                &&& r is Nothing
                &&& t.page == (Page::ProxyDelete {
                    id: s.proxies@[s.pos as int].id,
                    name: s.proxies@[s.pos as int].name,
                })
                &&& t.pos == 0 && t.editing == s.editing && keeps(s, t)
            } else {
                idle(s, t, r)
            }
        } else {
            idle(s, t, r)
        },
        Page::ProxyForm => if is_key(key, Action::Back) {
            r is Nothing && t == at(s, Page::ProxyList, s.proxies@.len() as int)
        } else if is_key(key, Action::MoveUp) {
            r is Nothing && t == at(s, s.page, sat_dec(s.pos as int))
        } else if is_key(key, Action::MoveDown) {
            r is Nothing && t == at(s, s.page, step_to(s.pos as int, PROXY_SAVE_ROW as int))
        } else if is_key(key, Action::Confirm) {
            if s.pos == PROXY_SAVE_ROW {
                &&& r matches LoginAction::Send(AgentRequest::LoginProxyCreate { base_url, api_key, protocol, model })
                    && base_url@ == trim(s.draft.base_url@) && api_key@ == trim(s.draft.api_key@)
                    && protocol@ == protocol_id_spec((s.draft.protocol % PROTOCOL_COUNT) as int)
                    && model@ == trim(s.draft.model@)
                &&& t == at(s, Page::ProxyList, s.proxies@.len() as int)
            } else if s.pos == 2 {
                &&& r is Nothing
                &&& t.draft.protocol == (s.draft.protocol + 1) % (PROTOCOL_COUNT as int)
                &&& t.draft.base_url == s.draft.base_url && t.draft.api_key == s.draft.api_key
                &&& t.draft.model == s.draft.model
                &&& t.page == s.page && t.pos == s.pos && t.editing == s.editing
                &&& rest_same(s, t) && t.auth_notices == s.auth_notices
            } else {
                &&& r is Nothing
                &&& t.editing matches Some(e) && e@ == if s.pos == 1 {
                    Seq::empty()
                } else if s.pos == 0 {
                    s.draft.base_url@
                } else {
                    s.draft.model@
                }
                &&& t.page == s.page && t.pos == s.pos && keeps(s, t)
            }
        } else {
            idle(s, t, r)
        },
        Page::ProxyDelete { id, .. } => {
            let back = match proxy_index(s.proxies@, id@) {
                Some(i) => i,
                None => 0,
            };
            if is_key(key, Action::Back) || is_key(key, Action::Close) {
                r is Nothing && t == at(s, Page::ProxyList, back)
            } else if is_key(key, Action::MoveLeft) || is_key(key, Action::MoveUp) {
                r is Nothing && t == at(s, s.page, 0)
            } else if is_key(key, Action::MoveRight) || is_key(key, Action::MoveDown) {
                r is Nothing && t == at(s, s.page, 1)
            } else if is_key(key, Action::Confirm) {
                if s.pos == 0 {
                    r is Nothing && t == at(s, Page::ProxyList, back)
                } else {
                    &&& r matches LoginAction::Send(AgentRequest::LoginProxyDelete { id: k }) && k == id
                    &&& t == at(s, Page::ProxyList, if back < sat_dec(s.proxies@.len() as int) {
                        back
                    } else {
                        sat_dec(s.proxies@.len() as int)
                    })
                }
            } else {
                idle(s, t, r)
            }
        },
    }
}

/// Stable focus identity of the row at `index` on a native page.
pub open spec fn row_focus_spec(s: LoginState, index: int) -> Option<Seq<char>> {
    if !s.row_actionable_spec(index) {
        None
    } else {
        match s.page {
            Page::NativeProviders => if 0 <= index < s.auth_providers@.len() {
                Some("auth:provider:"@ + s.auth_providers@[index].id@)
            } else {
                None
            },
            Page::NativeMethods { provider } => match find_provider(s.auth_providers@, provider@) {
                Some(p) => if 0 <= index < s.auth_providers@[p].methods@.len() {
                    Some("auth:method:"@ + s.auth_providers@[p].methods@[index].id@)
                } else {
                    None
                },
                None => None,
            },
            Page::NativeLogout { provider } => if index == 0 {
                Some("auth:logout:"@ + provider@ + ":cancel"@)
            } else if index == 1 {
                Some("auth:logout:"@ + provider@ + ":remove"@)
            } else {
                None
            },
            Page::NativePrompt(prompt) => if prompt.kind == AuthPromptKind::Select && 0 <= index
                < prompt.options@.len() {
                Some("auth:prompt:"@ + prompt.prompt_id@ + ":"@ + prompt.options@[index].value@)
            } else {
                None
            },
            _ => None,
        }
    }
}

impl LoginState {
    /// Stable focus identity of a cursor row on a native page.
    pub fn row_focus_id(&self, index: usize) -> (r: Option<String>)
        ensures
            match r {
                Some(id) => row_focus_spec(*self, index as int) == Some(id@),
                None => row_focus_spec(*self, index as int) is None,
            },
    {
        if !self.row_actionable(index) {
            return None;
        }
        match &self.page {
            Page::NativeProviders => if index < self.auth_providers.len() {
                let mut id = owned("auth:provider:");
                push_str(&mut id, self.auth_providers[index].id.as_str());
                Some(id)
            } else {
                None
            },
            Page::NativeMethods { provider } => match self.find_auth_provider(provider.as_str()) {
                Some(p) => if index < self.auth_providers[p].methods.len() {
                    let mut id = owned("auth:method:");
                    push_str(&mut id, self.auth_providers[p].methods[index].id.as_str());
                    Some(id)
                } else {
                    None
                },
                None => None,
            },
            Page::NativeLogout { provider } => if index == 0 {
                let mut id = owned("auth:logout:");
                push_str(&mut id, provider.as_str());
                push_str(&mut id, ":cancel");
                Some(id)
            } else if index == 1 {
                let mut id = owned("auth:logout:");
                push_str(&mut id, provider.as_str());
                push_str(&mut id, ":remove");
                Some(id)
            } else {
                None
            },
            Page::NativePrompt(prompt) => if prompt.kind == AuthPromptKind::Select && index < prompt.options.len() {
                let mut id = owned("auth:prompt:");
                push_str(&mut id, prompt.prompt_id.as_str());
                push_str(&mut id, ":");
                push_str(&mut id, prompt.options[index].value.as_str());
                Some(id)
            } else {
                None
            },
            _ => None,
        }
    }

    /// Commit the edited proxy-form field back into the draft, trimmed.
    fn commit_proxy_edit(&mut self, value: String)
        ensures
            committed(old(self).draft, final(self).draft, old(self).pos as int, trim(value@)),
            final(self).page == old(self).page,
            final(self).pos == old(self).pos,
            final(self).editing == old(self).editing,
            final(self).auth_notices == old(self).auth_notices,
            rest_same(*old(self), *final(self)),
    {
        let value = trimmed(value.as_str());
        if self.pos == 0 {
            self.draft.base_url = value;
        } else if self.pos == 1 {
            self.draft.api_key = value;
        } else if self.pos == 3 {
            self.draft.model = value;
        }
    }

    fn browse_menu(&mut self, key: MappedKey) -> (r: LoginAction)
        requires
            old(self).page == Page::Menu,
        ensures
            browse_outcome(*old(self), *final(self), key, r),
    {
        match key {
            MappedKey::Command(Action::Back) | MappedKey::Command(Action::Close) => LoginAction::Exit,
            MappedKey::Command(Action::MoveUp) => {
                self.pos = if self.pos > 0 {
                    self.pos - 1
                } else {
                    0
                };
                LoginAction::Nothing
            },
            MappedKey::Command(Action::MoveDown) => {
                self.pos = if self.pos >= 1 {
                    1
                } else {
                    self.pos + 1
                };
                LoginAction::Nothing
            },
            MappedKey::Command(Action::Confirm) => {
                self.page = if self.pos == 0 {
                    Page::Providers
                } else {
                    Page::ProxyList
                };
                self.pos = 0;
                LoginAction::Nothing
            },
            _ => LoginAction::Nothing,
        }
    }

    fn browse_providers(&mut self, key: MappedKey) -> (r: LoginAction)
        requires
            old(self).page == Page::Providers,
        ensures
            browse_outcome(*old(self), *final(self), key, r),
    {
        match key {
            MappedKey::Command(Action::Back) => {
                self.page = Page::Menu;
                self.pos = 0;
                LoginAction::Nothing
            },
            MappedKey::Command(Action::MoveUp) => {
                self.move_pos(false);
                LoginAction::Nothing
            },
            MappedKey::Command(Action::MoveDown) => {
                self.move_pos(true);
                LoginAction::Nothing
            },
            MappedKey::Command(Action::Confirm) => {
                let pos = self.pos;
                if pos < self.providers.len() && self.providers[pos].api_key_writable {
                    let provider = self.providers[pos].id.clone();
                    self.page = Page::ApiKey { provider, buf: String::new() };
                    self.editing = Some(String::new());
                }
                LoginAction::Nothing
            },
            _ => LoginAction::Nothing,
        }
    }

    fn browse_native_providers(&mut self, key: MappedKey) -> (r: LoginAction)
        requires
            old(self).page == Page::NativeProviders,
        ensures
            browse_outcome(*old(self), *final(self), key, r),
    {
        match key {
            MappedKey::Command(Action::Back) | MappedKey::Command(Action::Close) => LoginAction::Exit,
            MappedKey::Command(Action::MoveUp) => {
                self.move_pos(false);
                LoginAction::Nothing
            },
            MappedKey::Command(Action::MoveDown) => {
                self.move_pos(true);
                LoginAction::Nothing
            },
            MappedKey::Command(Action::Confirm) => {
                let pos = self.pos;
                if pos >= self.auth_providers.len() {
                    return LoginAction::Nothing;
                }
                let id = self.auth_providers[pos].id.clone();
                if self.auth_logout {
                    self.page = Page::NativeLogout { provider: id };
                    self.pos = 0;
                    return LoginAction::Nothing;
                }
                if self.auth_providers[pos].methods.len() == 1 {
                    let method = self.auth_providers[pos].methods[0].id.clone();
                    let request = AgentRequest::AuthStart { provider: id, method: Some(method), logout: false };
                    self.auth_notices.clear();
                    self.page = Page::NativeWaiting { flow_id: None };
                    return LoginAction::Send(request);
                }
                self.page = Page::NativeMethods { provider: id };
                self.pos = 0;
                LoginAction::Nothing
            },
            _ => LoginAction::Nothing,
        }
    }

    fn browse_native_methods(&mut self, key: MappedKey) -> (r: LoginAction)
        requires
            old(self).page is NativeMethods,
        ensures
            browse_outcome(*old(self), *final(self), key, r),
    {
        match key {
            MappedKey::Command(Action::Back) => {
                self.page = Page::NativeProviders;
                self.pos = 0;
                LoginAction::Nothing
            },
            MappedKey::Command(Action::MoveUp) => {
                self.move_pos(false);
                LoginAction::Nothing
            },
            MappedKey::Command(Action::MoveDown) => {
                self.move_pos(true);
                LoginAction::Nothing
            },
            MappedKey::Command(Action::Confirm) => {
                let provider = match &self.page {
                    Page::NativeMethods { provider } => provider.clone(),
                    _ => String::new(),
                };
                let found = self.find_auth_provider(provider.as_str());
                let i = match found {
                    Some(i) => i,
                    None => {
                        return LoginAction::Nothing;
                    },
                };
                let pos = self.pos;
                if pos >= self.auth_providers[i].methods.len() {
                    return LoginAction::Nothing;
                }
                let method = self.auth_providers[i].methods[pos].id.clone();
                let request = AgentRequest::AuthStart { provider, method: Some(method), logout: false };
                self.auth_notices.clear();
                self.page = Page::NativeWaiting { flow_id: None };
                LoginAction::Send(request)
            },
            _ => LoginAction::Nothing,
        }
    }

    fn browse_native_logout(&mut self, key: MappedKey) -> (r: LoginAction)
        requires
            old(self).page is NativeLogout,
        ensures
            browse_outcome(*old(self), *final(self), key, r),
    {
        match key {
            MappedKey::Command(Action::Back) => {
                self.page = Page::NativeProviders;
                self.pos = 0;
                LoginAction::Nothing
            },
            MappedKey::Command(Action::MoveUp) => {
                self.pos = if self.pos > 0 {
                    self.pos - 1
                } else {
                    0
                };
                LoginAction::Nothing
            },
            MappedKey::Command(Action::MoveDown) => {
                self.pos = if self.pos >= 1 {
                    1
                } else {
                    self.pos + 1
                };
                LoginAction::Nothing
            },
            MappedKey::Command(Action::Confirm) => {
                if self.pos == 0 {
                    self.page = Page::NativeProviders;
                    self.pos = 0;
                    LoginAction::Nothing
                } else {
                    let provider = match &self.page {
                        Page::NativeLogout { provider } => provider.clone(),
                        _ => String::new(),
                    };
                    let request = AgentRequest::AuthStart { provider, method: None, logout: true };
                    self.page = Page::NativeWaiting { flow_id: None };
                    LoginAction::Send(request)
                }
            },
            _ => LoginAction::Nothing,
        }
    }

    /// The notice action at the cursor, for flow `flow_id`.
    fn pick_notice_action(&self, flow_id: String) -> (r: LoginAction)
        ensures
            notice_action(*self, flow_id, r),
    {
        let actions = self.native_notice_actions();
        if self.pos >= actions.len() {
            return LoginAction::Nothing;
        }
        match &actions[self.pos] {
            NativeNoticeAction::OpenUrl(url) => LoginAction::Send(AgentRequest::AuthOpenUrl { flow_id, url: url.clone() }),
            NativeNoticeAction::CopyUrl(value) => LoginAction::Copy(value.clone()),
            NativeNoticeAction::CopyCode(value) => LoginAction::Copy(value.clone()),
        }
    }

    fn browse_native_waiting(&mut self, key: MappedKey) -> (r: LoginAction)
        requires
            old(self).page is NativeWaiting,
            old(self).editing is None,
        ensures
            browse_outcome(*old(self), *final(self), key, r),
    {
        match key {
            MappedKey::Command(Action::MoveUp) => {
                self.move_pos(false);
                LoginAction::Nothing
            },
            MappedKey::Command(Action::MoveDown) => {
                self.move_pos(true);
                LoginAction::Nothing
            },
            MappedKey::Command(Action::Confirm) => {
                let flow_id = match &self.page {
                    Page::NativeWaiting { flow_id: Some(f) } => f.clone(),
                    _ => {
                        return LoginAction::Nothing;
                    },
                };
                self.pick_notice_action(flow_id)
            },
            MappedKey::Command(Action::Back) | MappedKey::Command(Action::Close) => {
                self.editing = None;
                LoginAction::Cancel
            },
            _ => LoginAction::Nothing,
        }
    }

    fn browse_native_prompt(&mut self, key: MappedKey) -> (r: LoginAction)
        requires
            old(self).page is NativePrompt,
            old(self).editing is None,
        ensures
            browse_outcome(*old(self), *final(self), key, r),
    {
        let (kind, flow_id, prompt_id, count) = match &self.page {
            Page::NativePrompt(prompt) => (prompt.kind, prompt.flow_id.clone(), prompt.prompt_id.clone(), prompt.options.len()),
            _ => (AuthPromptKind::Text, String::new(), String::new(), 0),
        };
        let up = key == MappedKey::Command(Action::MoveUp);
        let down = key == MappedKey::Command(Action::MoveDown);
        let confirm = key == MappedKey::Command(Action::Confirm);
        if kind == AuthPromptKind::ManualCode && (up || down) {
            self.move_pos(down);
            return LoginAction::Nothing;
        }
        if kind == AuthPromptKind::ManualCode && confirm {
            let actions = self.native_notice_actions();
            if self.pos == actions.len() {
                self.editing = Some(String::new());
                return LoginAction::Nothing;
            }
            return self.pick_notice_action(flow_id);
        }
        if kind == AuthPromptKind::Select && up {
            self.pos = if self.pos > 0 {
                self.pos - 1
            } else {
                0
            };
            return LoginAction::Nothing;
        }
        if kind == AuthPromptKind::Select && down {
            let last = if count > 0 {
                count - 1
            } else {
                0
            };
            self.pos = if self.pos >= last {
                last
            } else {
                self.pos + 1
            };
            return LoginAction::Nothing;
        }
        if kind == AuthPromptKind::Select && confirm {
            if self.pos >= count {
                return LoginAction::Nothing;
            }
            let value = match &self.page {
                Page::NativePrompt(prompt) => prompt.options[self.pos].value.clone(),
                _ => String::new(),
            };
            let request = AgentRequest::AuthReply { flow_id: flow_id.clone(), prompt_id, value };
            self.page = Page::NativeWaiting { flow_id: Some(flow_id) };
            return LoginAction::Send(request);
        }
        if key == MappedKey::Command(Action::Back) || key == MappedKey::Command(Action::Close) {
            self.editing = None;
            self.page = Page::NativeWaiting { flow_id: Some(flow_id) };
            return LoginAction::Send(AgentRequest::AuthCancel);
        }
        LoginAction::Nothing
    }

    fn browse_proxy_list(&mut self, key: MappedKey) -> (r: LoginAction)
        requires
            old(self).page == Page::ProxyList,
        ensures
            browse_outcome(*old(self), *final(self), key, r),
    {
        match key {
            MappedKey::Command(Action::Back) => {
                self.page = Page::Menu;
                self.pos = 0;
                LoginAction::Nothing
            },
            MappedKey::Command(Action::MoveUp) => {
                self.move_pos(false);
                LoginAction::Nothing
            },
            MappedKey::Command(Action::MoveDown) => {
                self.move_pos(true);
                LoginAction::Nothing
            },
            MappedKey::Command(Action::Confirm) => {
                let pos = self.pos;
                if pos == self.proxies.len() {
                    self.page = Page::ProxyForm;
                    self.pos = 0;
                    self.draft = ProxyDraft::new();
                } else if pos < self.proxies.len() {
                    let id = self.proxies[pos].id.clone();
                    let name = self.proxies[pos].name.clone();
                    self.page = Page::ProxyDelete { id, name };
                    self.pos = 0;
                }
                LoginAction::Nothing
            },
            _ => LoginAction::Nothing,
        }
    }

    fn browse_proxy_form(&mut self, key: MappedKey) -> (r: LoginAction)
        requires
            old(self).page == Page::ProxyForm,
        ensures
            browse_outcome(*old(self), *final(self), key, r),
    {
        match key {
            MappedKey::Command(Action::Back) => {
                self.page = Page::ProxyList;
                self.pos = self.proxies.len();
                LoginAction::Nothing
            },
            MappedKey::Command(Action::MoveUp) => {
                self.pos = if self.pos > 0 {
                    self.pos - 1
                } else {
                    0
                };
                LoginAction::Nothing
            },
            MappedKey::Command(Action::MoveDown) => {
                self.pos = if self.pos >= PROXY_SAVE_ROW {
                    PROXY_SAVE_ROW
                } else {
                    self.pos + 1
                };
                LoginAction::Nothing
            },
            MappedKey::Command(Action::Confirm) => {
                if self.pos == PROXY_SAVE_ROW {
                    let request = AgentRequest::LoginProxyCreate {
                        base_url: trimmed(self.draft.base_url.as_str()),
                        api_key: trimmed(self.draft.api_key.as_str()),
                        protocol: protocol_id(self.draft.protocol),
                        model: trimmed(self.draft.model.as_str()),
                    };
                    self.page = Page::ProxyList;
                    self.pos = self.proxies.len();
                    LoginAction::Send(request)
                } else if self.pos == 2 {
                    self.draft.protocol = (self.draft.protocol % PROTOCOL_COUNT + 1) % PROTOCOL_COUNT;
                    LoginAction::Nothing
                } else {
                    let buf = if self.pos == 1 {
                        String::new()
                    } else if self.pos == 0 {
                        self.draft.base_url.clone()
                    } else {
                        self.draft.model.clone()
                    };
                    self.editing = Some(buf);
                    LoginAction::Nothing
                }
            },
            _ => LoginAction::Nothing,
        }
    }

    fn browse_proxy_delete(&mut self, key: MappedKey) -> (r: LoginAction)
        requires
            old(self).page is ProxyDelete,
        ensures
            browse_outcome(*old(self), *final(self), key, r),
    {
        let id = match &self.page {
            Page::ProxyDelete { id, .. } => id.clone(),
            _ => String::new(),
        };
        let back = match Self::proxy_position(&self.proxies, id.as_str()) {
            Some(i) => i,
            None => 0,
        };
        match key {
            MappedKey::Command(Action::Back) | MappedKey::Command(Action::Close) => {
                self.page = Page::ProxyList;
                self.pos = back;
                LoginAction::Nothing
            },
            MappedKey::Command(Action::MoveLeft) | MappedKey::Command(Action::MoveUp) => {
                self.pos = 0;
                LoginAction::Nothing
            },
            MappedKey::Command(Action::MoveRight) | MappedKey::Command(Action::MoveDown) => {
                self.pos = 1;
                LoginAction::Nothing
            },
            MappedKey::Command(Action::Confirm) => {
                if self.pos == 0 {
                    self.page = Page::ProxyList;
                    self.pos = back;
                    LoginAction::Nothing
                } else {
                    let last = if self.proxies.len() > 0 {
                        self.proxies.len() - 1
                    } else {
                        0
                    };
                    self.page = Page::ProxyList;
                    self.pos = if back < last {
                        back
                    } else {
                        last
                    };
                    LoginAction::Send(AgentRequest::LoginProxyDelete { id })
                }
            },
            _ => LoginAction::Nothing,
        }
    }

    /// A key while a field is being edited with `buf` (taken out of `editing`).
    fn edit_key(&mut self, buf: String, key: MappedKey) -> (r: LoginAction)
        requires
            old(self).editing is None,
        ensures
            edit_outcome(*old(self), *final(self), buf@, key, r),
    {
        let secret = match &self.page {
            Page::ApiKey { .. } => true,
            Page::ProxyForm => self.pos == 1,
            Page::NativePrompt(prompt) => prompt.kind == AuthPromptKind::Secret || prompt.kind
                == AuthPromptKind::ManualCode,
            _ => false,
        };
        let mut editor = TextEditor { buf, secret };
        let result = handle_text_input(&mut editor, key);
        match result {
            TextEditResult::Confirm(text) => {
                let prompt_ids = match &self.page {
                    Page::NativePrompt(prompt) => Some((prompt.flow_id.clone(), prompt.prompt_id.clone())),
                    _ => None,
                };
                if let Some((flow_id, prompt_id)) = prompt_ids {
                    self.page = Page::NativeWaiting { flow_id: Some(flow_id.clone()) };
                    return LoginAction::Send(AgentRequest::AuthReply { flow_id, prompt_id, value: text });
                }
                let api = match &self.page {
                    Page::ApiKey { provider, .. } => Some(provider.clone()),
                    _ => None,
                };
                if let Some(provider) = api {
                    let value = trimmed(text.as_str());
                    self.page = Page::Providers;
                    self.pos = 0;
                    self.clamp_to_actionable();
                    return LoginAction::Send(AgentRequest::LoginSetApiKey { provider, value });
                }
                self.commit_proxy_edit(text);
                self.pos = if self.pos >= PROXY_SAVE_ROW {
                    PROXY_SAVE_ROW
                } else {
                    self.pos + 1
                };
                LoginAction::Nothing
            },
            TextEditResult::Cancel => {
                let flow = match &self.page {
                    Page::NativePrompt(prompt) => Some(prompt.flow_id.clone()),
                    _ => None,
                };
                if let Some(flow_id) = flow {
                    self.page = Page::NativeWaiting { flow_id: Some(flow_id) };
                    return LoginAction::Send(AgentRequest::AuthCancel);
                }
                let api = match &self.page {
                    Page::ApiKey { .. } => true,
                    _ => false,
                };
                if api {
                    self.page = Page::Providers;
                    self.pos = 0;
                    self.clamp_to_actionable();
                }
                LoginAction::Nothing
            },
            TextEditResult::Continue => {
                self.editing = Some(editor.buf);
                LoginAction::Nothing
            },
        }
    }

    /// Handle one key: a field being edited takes it first; otherwise the
    /// current page acts on it.
    pub fn handle_input(&mut self, key: MappedKey) -> (r: LoginAction)
        ensures
            match old(self).editing {
                Some(buf) => edit_outcome(LoginState { editing: None, ..*old(self) }, *final(self), buf@, key, r),
                None => browse_outcome(*old(self), *final(self), key, r),
            },
    {
        let mut taken: Option<String> = None;
        std::mem::swap(&mut taken, &mut self.editing);
        if let Some(buf) = taken {
            return self.edit_key(buf, key);
        }
        match &self.page {
            Page::Menu => self.browse_menu(key),
            Page::Providers => self.browse_providers(key),
            Page::NativeProviders => self.browse_native_providers(key),
            Page::NativeMethods { .. } => self.browse_native_methods(key),
            Page::NativeLogout { .. } => self.browse_native_logout(key),
            Page::NativeWaiting { .. } => self.browse_native_waiting(key),
            Page::NativePrompt(_) => self.browse_native_prompt(key),
            Page::NativeOutcome { .. } => match key {
                MappedKey::Command(Action::Back) | MappedKey::Command(Action::Close) | MappedKey::Command(
                    Action::Confirm,
                ) => LoginAction::Exit,
                _ => LoginAction::Nothing,
            },
            Page::ApiKey { .. } => LoginAction::Nothing,
            Page::ProxyList => self.browse_proxy_list(key),
            Page::ProxyForm => self.browse_proxy_form(key),
            Page::ProxyDelete { .. } => self.browse_proxy_delete(key),
        }
    }
}

impl Default for LoginState {
    fn default() -> (r: LoginState)
        ensures
            r.page == Page::Menu,
            r.pos == 0,
            r.loading,
            r.editing is None,
    {
        LoginState::new()
    }
}

} // verus!
