use e_tui::action::AgentRequest;
use e_tui::agent::{AuthNotice, AuthOutcomeKind, AuthPrompt, AuthPromptKind, AuthProvider, CredentialProvider, ProxyRoute};
use e_tui::key_mapping::{Action, MappedKey};
use e_tui::login::{LoginAction, LoginState, LoginView, Page};

#[derive(Clone, Copy)]
enum Key {
    Enter,
    Esc,
    Down,
    Right,
    Char(char),
}

/// The key as the page reads it: editing keys in a field, commands otherwise.
fn press(s: &mut LoginState, key: Key) -> LoginAction {
    let editing = s.editing.is_some();
    let mapped = match key {
        Key::Enter => MappedKey::Command(Action::Confirm),
        Key::Esc if editing => MappedKey::Command(Action::Cancel),
        Key::Esc => MappedKey::Command(Action::Back),
        Key::Down => MappedKey::Command(Action::MoveDown),
        Key::Right => MappedKey::Command(Action::MoveRight),
        Key::Char(c) if editing => MappedKey::Text(c),
        Key::Char(_) => MappedKey::Unbound,
    };
    s.handle_input(mapped)
}

fn type_text(s: &mut LoginState, text: &str) {
    for c in text.chars() {
        press(s, Key::Char(c));
    }
}

#[test]
fn menu_opens_subpages() {
    let mut s = LoginState::default();
    assert_eq!(s.page, Page::Menu);
    press(&mut s, Key::Enter); // API key
    assert_eq!(s.page, Page::Providers);
    press(&mut s, Key::Esc);
    s.pos = 1;
    press(&mut s, Key::Enter); // Proxy
    assert_eq!(s.page, Page::ProxyList);
}

#[test]
fn provider_enter_opens_api_key_edit_and_sends() {
    let mut s = LoginState::default();
    s.providers.push(CredentialProvider {
        id: "deepseek".into(),
        name: "DeepSeek".into(),
        api_key_configured: false,
        api_key_writable: true,
        api_key_source: None,
        api_key_hint: None,
    });
    s.page = Page::Providers;
    press(&mut s, Key::Enter);
    assert!(matches!(s.page, Page::ApiKey { .. }));
    assert_eq!(s.editing, Some(String::new()), "the secret starts empty");
    type_text(&mut s, "sk-secret");
    let action = press(&mut s, Key::Enter);
    assert!(matches!(
        action,
        LoginAction::Send(AgentRequest::LoginSetApiKey { provider, value })
            if provider == "deepseek" && value == "sk-secret"
    ));
    assert_eq!(s.page, Page::Providers);
}

#[test]
fn proxy_form_cycles_protocol_and_saves() {
    let mut s = LoginState::default();
    s.page = Page::ProxyForm;
    // base URL (pos 0): Enter begins editing, Enter commits + advances.
    press(&mut s, Key::Enter);
    type_text(&mut s, "https://example.com/v1");
    press(&mut s, Key::Enter);
    assert_eq!(s.draft.base_url, "https://example.com/v1");
    // apiKey (pos 1): secret starts empty even though the field has a value.
    press(&mut s, Key::Enter);
    type_text(&mut s, "sk-key");
    press(&mut s, Key::Enter);
    assert_eq!(s.draft.api_key, "sk-key");
    // protocol (pos 2): Enter cycles the choice, no advance.
    press(&mut s, Key::Enter);
    assert_eq!(s.draft.protocol, 1);
    // model (pos 3).
    press(&mut s, Key::Down);
    press(&mut s, Key::Enter);
    type_text(&mut s, "gpt-4o");
    press(&mut s, Key::Enter);
    assert_eq!(s.draft.model, "gpt-4o");
    // save row
    let action = press(&mut s, Key::Enter);
    assert!(matches!(
        action,
        LoginAction::Send(AgentRequest::LoginProxyCreate { protocol, .. })
            if protocol == "openai-responses"
    ));
    assert_eq!(s.page, Page::ProxyList);
}

#[test]
fn non_writable_provider_is_not_actionable() {
    let mut s = LoginState::default();
    s.providers.push(CredentialProvider {
        id: "env-only".into(),
        name: "Env only".into(),
        api_key_configured: true,
        api_key_writable: false,
        api_key_source: Some("env".into()),
        api_key_hint: Some("…1234".into()),
    });
    s.page = Page::Providers;
    press(&mut s, Key::Enter);
    assert_eq!(s.page, Page::Providers);
    assert!(s.editing.is_none());
}

#[test]
fn proxy_delete_requires_explicit_confirmation() {
    let mut s = LoginState::default();
    s.proxies.push(ProxyRoute {
        id: "proxy-1".into(),
        name: "Local".into(),
        base_url: "http://localhost".into(),
        protocol: "openai-responses".into(),
        model: String::new(),
    });
    s.page = Page::ProxyList;
    press(&mut s, Key::Enter);
    assert!(matches!(s.page, Page::ProxyDelete { .. }));
    assert!(matches!(
        press(&mut s, Key::Enter),
        LoginAction::Nothing
    ));

    s.page = Page::ProxyList;
    s.pos = 0;
    press(&mut s, Key::Enter);
    press(&mut s, Key::Right);
    assert!(matches!(
        press(&mut s, Key::Enter),
        LoginAction::Send(AgentRequest::LoginProxyDelete { id }) if id == "proxy-1"
    ));
}

#[test]
fn provider_refresh_reconciles_focus_by_stable_id() {
    let provider = |id: &str| CredentialProvider {
        id: id.into(),
        name: id.into(),
        api_key_configured: false,
        api_key_writable: true,
        api_key_source: None,
        api_key_hint: None,
    };
    let mut s = LoginState::default();
    s.page = Page::Providers;
    s.providers = vec![provider("a"), provider("b")];
    s.pos = 1;
    s.apply(LoginView {
        providers: vec![provider("b"), provider("a")],
        proxies: Vec::new(),
        error: None,
    });
    assert_eq!(s.providers[s.pos].id, "b");
}

#[test]
fn api_key_editor_treats_hjkl_as_secret_text() {
    let mut s = LoginState::default();
    s.page = Page::ApiKey {
        provider: "p".into(),
        buf: String::new(),
    };
    s.editing = Some(String::new());
    for ch in ['h', 'j', 'k', 'l'] {
        press(&mut s, Key::Char(ch));
    }
    assert_eq!(s.editing.as_deref(), Some("hjkl"));
}

fn auth_provider(id: &str, methods: &[&str], removable: bool) -> AuthProvider {
    AuthProvider {
        id: id.into(),
        name: format!("Provider {id}"),
        methods: methods
            .iter()
            .map(|method| e_tui::agent::AuthMethod {
                id: (*method).into(),
                name: (*method).into(),
                description: None,
            })
            .collect(),
        configured: removable,
        removable,
        source: if removable { Some("API key".into()) } else { None },
    }
}

#[test]
fn native_auth_uses_stable_methods_and_ephemeral_secret_replies() {
    let mut state = LoginState::native_loading(Some("two".into()), false);
    state.apply_auth_catalog(
        vec![
            auth_provider("one", &["api_key"], false),
            auth_provider("two", &["api_key", "oauth"], false),
        ],
        None,
        false,
        None,
    );
    assert_eq!(state.pos, 1);
    press(&mut state, Key::Enter);
    assert!(matches!(
        state.page,
        Page::NativeMethods { ref provider } if provider == "two"
    ));
    press(&mut state, Key::Down);
    assert!(matches!(
        press(&mut state, Key::Enter),
        LoginAction::Send(AgentRequest::AuthStart { ref provider, method: Some(ref method), .. })
            if provider == "two" && method == "oauth"
    ));

    state.start_auth("flow".into());
    state.apply_auth_prompt(AuthPrompt {
        flow_id: "flow".into(),
        prompt_id: "secret".into(),
        kind: AuthPromptKind::Secret,
        message: "Secret".into(),
        placeholder: None,
        options: Vec::new(),
    });
    type_text(&mut state, "not-retained");
    assert!(matches!(
        press(&mut state, Key::Enter),
        LoginAction::Send(AgentRequest::AuthReply { ref flow_id, ref prompt_id, ref value })
            if flow_id == "flow" && prompt_id == "secret" && value == "not-retained"
    ));
    assert!(state.editing.is_none());
    assert!(matches!(state.page, Page::NativeWaiting { .. }));
}

#[test]
fn native_logout_filters_non_stored_credentials_and_rejects_stale_events() {
    let mut state = LoginState::native_loading(None, true);
    state.apply_auth_catalog(
        vec![
            auth_provider("ambient", &["api_key"], false),
            auth_provider("stored", &["api_key"], true),
        ],
        None,
        true,
        None,
    );
    assert_eq!(state.auth_providers.len(), 1);
    assert_eq!(state.auth_providers[0].id, "stored");
    state.start_auth("current".into());
    state.finish_auth("stale", AuthOutcomeKind::Succeeded, "wrong".into());
    assert!(matches!(state.page, Page::NativeWaiting { .. }));
    state.finish_auth("current", AuthOutcomeKind::Succeeded, "done".into());
    assert!(matches!(
        state.page,
        Page::NativeOutcome {
            outcome: AuthOutcomeKind::Succeeded,
            ..
        }
    ));
}

#[test]
fn native_notice_actions_open_and_copy_explicit_values() {
    let mut state = LoginState::native_loading(None, false);
    state.start_auth("flow-actions".into());
    state.apply_auth_notice(AuthNotice {
        flow_id: "flow-actions".into(),
        kind: e_tui::agent::AuthNoticeKind::DeviceCode,
        message: "Continue in browser".into(),
        url: Some("https://example.test/device".into()),
        code: Some("ABCD-EFGH".into()),
    });
    assert!(matches!(
        press(&mut state, Key::Enter),
        LoginAction::Send(AgentRequest::AuthOpenUrl { flow_id, url })
            if flow_id == "flow-actions" && url == "https://example.test/device"
    ));
    press(&mut state, Key::Down);
    assert!(matches!(
        press(&mut state, Key::Enter),
        LoginAction::Copy(value) if value == "https://example.test/device"
    ));
    press(&mut state, Key::Down);
    assert!(matches!(
        press(&mut state, Key::Enter),
        LoginAction::Copy(value) if value == "ABCD-EFGH"
    ));
}

#[test]
fn manual_callback_prompt_keeps_notice_actions_before_masked_entry() {
    let mut state = LoginState::native_loading(None, false);
    state.start_auth("flow-manual".into());
    state.apply_auth_notice(AuthNotice {
        flow_id: "flow-manual".into(),
        kind: e_tui::agent::AuthNoticeKind::AuthorizationUrl,
        message: "Open the authorization page".into(),
        url: Some("https://example.test/auth".into()),
        code: None,
    });
    state.apply_auth_prompt(AuthPrompt {
        flow_id: "flow-manual".into(),
        prompt_id: "manual".into(),
        kind: AuthPromptKind::ManualCode,
        message: "Paste callback URL or code".into(),
        placeholder: None,
        options: Vec::new(),
    });
    assert!(state.editing.is_none());
    assert!(matches!(
        press(&mut state, Key::Enter),
        LoginAction::Send(AgentRequest::AuthOpenUrl { .. })
    ));
    press(&mut state, Key::Down);
    assert!(matches!(
        press(&mut state, Key::Enter),
        LoginAction::Copy(value) if value == "https://example.test/auth"
    ));
    press(&mut state, Key::Down);
    assert!(matches!(
        press(&mut state, Key::Enter),
        LoginAction::Nothing
    ));
    assert_eq!(state.editing.as_deref(), Some(""));
}

#[test]
fn native_prompt_preserves_empty_text_answers() {
    let mut state = LoginState::native_loading(None, false);
    state.start_auth("flow-empty".into());
    state.apply_auth_prompt(AuthPrompt {
        flow_id: "flow-empty".into(),
        prompt_id: "text".into(),
        kind: AuthPromptKind::Text,
        message: "Optional account".into(),
        placeholder: None,
        options: Vec::new(),
    });
    assert!(matches!(
        press(&mut state, Key::Enter),
        LoginAction::Send(AgentRequest::AuthReply { value, .. }) if value.is_empty()
    ));
}

#[test]
fn native_pages_always_offer_a_way_to_cancel_and_leave() {
    let mut state = LoginState::native_loading(None, false);
    state.start_auth("flow".into());
    state.apply_auth_prompt(AuthPrompt {
        flow_id: "flow".into(),
        prompt_id: "select".into(),
        kind: AuthPromptKind::Select,
        message: "Choose an account".into(),
        placeholder: None,
        options: vec![e_tui::agent::AuthPromptOption {
            value: "one".into(),
            label: "One".into(),
            description: None,
        }],
    });
    assert!(matches!(
        press(&mut state, Key::Esc),
        LoginAction::Send(AgentRequest::AuthCancel)
    ));
    assert!(matches!(state.page, Page::NativeWaiting { .. }));
    assert!(matches!(
        press(&mut state, Key::Esc),
        LoginAction::Cancel
    ));
}

#[test]
fn native_prompt_cancellation_drops_the_secret_buffer() {
    let mut state = LoginState::native_loading(None, false);
    state.start_auth("flow".into());
    state.apply_auth_prompt(AuthPrompt {
        flow_id: "flow".into(),
        prompt_id: "secret".into(),
        kind: AuthPromptKind::Secret,
        message: "Secret".into(),
        placeholder: None,
        options: Vec::new(),
    });
    type_text(&mut state, "discard-me");
    assert!(matches!(
        press(&mut state, Key::Esc),
        LoginAction::Send(AgentRequest::AuthCancel)
    ));
    assert!(state.editing.is_none());
    state.finish_auth(
        "flow",
        AuthOutcomeKind::Cancelled,
        "Authentication cancelled".into(),
    );
    assert!(matches!(
        state.page,
        Page::NativeOutcome {
            outcome: AuthOutcomeKind::Cancelled,
            ..
        }
    ));
}

#[test]
fn refresh_closes_actions_whose_stable_target_disappeared() {
    let mut key_page = LoginState {
        page: Page::ApiKey {
            provider: "gone".into(),
            buf: String::new(),
        },
        editing: Some("secret".into()),
        ..Default::default()
    };
    key_page.apply(LoginView::default());
    assert_eq!(key_page.page, Page::Providers);
    assert!(key_page.editing.is_none());

    let mut delete_page = LoginState {
        page: Page::ProxyDelete {
            id: "gone".into(),
            name: "Gone".into(),
        },
        ..Default::default()
    };
    delete_page.apply(LoginView::default());
    assert_eq!(delete_page.page, Page::ProxyList);
}
