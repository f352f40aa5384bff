use e_tui::agent::{ModelDescriptor, ModelProvider, ModelReasoning, ModelSelection, ReasoningEffort};
use e_tui::catalog::CatalogModel;
use e_tui::input_page::{EffortPage, ModelPage};
use e_tui::model_defaults::ModelDefaultEfforts;
use e_tui::model_marks::ModelMarks;
use e_tui::page_core::{FocusId, FocusState, PageEffect};

fn provider(id: &str, model: &str) -> ModelProvider {
    ModelProvider {
        id: id.into(),
        name: id.into(),
        models: vec![ModelDescriptor {
            id: model.into(),
            name: model.into(),
            description: None,
            context_window: None,
            reasoning: None,
        }],
    }
}

#[test]
fn model_catalog_keeps_stable_focus_after_reordering() {
    let mut page = ModelPage::loading();
    let mut focus = FocusState::default();
    page.apply_catalog(
        vec![provider("a", "a1"), provider("b", "b1")],
        Some(("b".into(), "b1".into())),
        &mut focus,
    );
    focus.set(ModelPage::model_focus("b", "b1"));
    page.apply_catalog(
        vec![provider("b", "b1"), provider("a", "a1")],
        Some(("b".into(), "b1".into())),
        &mut focus,
    );
    assert!(focus.is(&ModelPage::model_focus("b", "b1")));
}

#[test]
fn empty_model_catalog_has_no_fake_focus() {
    let mut page = ModelPage::loading();
    let mut focus = FocusState::default();
    page.apply_catalog(Vec::new(), None, &mut focus);
    assert!(focus.current.is_none());
    assert!(!page.loading);
}

#[test]
fn model_page_opens_on_the_current_route_and_activates_providers() {
    let mut page = ModelPage::loading();
    let mut focus = FocusState::default();
    page.apply_catalog(
        vec![provider("a", "a1"), provider("b", "b1")],
        Some(("b".into(), "b1".into())),
        &mut focus,
    );
    assert_eq!(page.active_provider.as_deref(), Some("b"));
    assert!(focus.is(&ModelPage::model_focus("b", "b1")));
    assert_eq!(page.active_models().len(), 1);
    focus.set(ModelPage::provider_focus("a"));
    let outcome = page.activate(&mut focus, &ModelDefaultEfforts::new());
    assert!(!outcome.close && outcome.effects.is_empty());
    assert_eq!(page.active_provider.as_deref(), Some("a"));
    assert!(focus.is(&ModelPage::model_focus("a", "a1")));
    let outcome = page.activate(&mut focus, &ModelDefaultEfforts::new());
    assert!(outcome.close);
    match &outcome.effects[0] {
        PageEffect::Send(e_tui::action::AgentRequest::ModelSet { provider, model, reasoning_effort }) => {
            assert_eq!(provider, "a");
            assert_eq!(model, "a1");
            assert!(reasoning_effort.is_none());
        }
        _ => panic!("expected a model selection"),
    }
}

#[test]
fn compaction_page_selects_by_command_and_marks_toggle() {
    let mut page = ModelPage::loading();
    page.for_compaction = true;
    let mut focus = FocusState::default();
    page.apply_catalog(vec![provider("p", "m")], Some(("p".into(), "m".into())), &mut focus);
    assert!(page.current.is_none());
    focus.set(ModelPage::model_focus("p", "m"));
    let outcome = page.activate(&mut focus, &ModelDefaultEfforts::new());
    match &outcome.effects[0] {
        PageEffect::Send(e_tui::action::AgentRequest::Command { line, images }) => {
            assert_eq!(line, "/compact set-model p/m");
            assert!(images.is_empty());
        }
        _ => panic!("expected a compaction command"),
    }
    let mut marks = ModelMarks::new();
    let marked = page.mark('x', &focus, &mut marks);
    assert!(matches!(marked.effects.as_slice(), [PageEffect::ConfigChanged]));
    assert_eq!(marks.letter("p", "m"), Some('x'));
    let selected = page.select_mark('x', &marks, &ModelDefaultEfforts::new());
    assert!(selected.close);
    assert!(page.select_mark('y', &marks, &ModelDefaultEfforts::new()).effects.is_empty());
}

fn effort(id: &str) -> ReasoningEffort {
    ReasoningEffort { id: id.into(), name: id.to_uppercase(), description: None }
}

#[test]
fn effort_page_focuses_the_preferred_effort_and_sends_it() {
    let mut catalog = CatalogModel::default();
    catalog.current_model = Some(ModelSelection {
        provider: "openai".into(),
        model: "deep".into(),
        reasoning_effort: Some("high".into()),
    });
    catalog.model_providers = vec![ModelProvider {
        id: "openai".into(),
        name: "OpenAI".into(),
        models: vec![ModelDescriptor {
            id: "deep".into(),
            name: "Deep".into(),
            description: None,
            context_window: None,
            reasoning: Some(ModelReasoning {
                efforts: vec![effort("low"), effort("high")],
                default_effort: Some("low".into()),
            }),
        }],
    }];
    let mut page = EffortPage::loading();
    page.apply_catalog(&catalog);
    assert!(!page.unavailable);
    assert!(!page.shows_current_default());
    let mut focus = FocusState::default();
    page.rebuild_focus(&mut focus);
    assert!(focus.is(&FocusId::new("effort:high".into())));
    let outcome = page.activate(&mut focus);
    match &outcome.effects[0] {
        PageEffect::Send(e_tui::action::AgentRequest::ModelSet { provider, model, reasoning_effort }) => {
            assert_eq!(provider, "openai");
            assert_eq!(model, "deep");
            assert_eq!(reasoning_effort.as_deref(), Some("high"));
        }
        _ => panic!("expected an effort selection"),
    }
}

use e_tui::action::AgentRequest;
use e_tui::agent::{Question, QuestionOption};
use e_tui::input_page::{InputPage, InputPageSession};
use e_tui::key_mapping::{Action, MappedKey};
use e_tui::login::Page as LoginPage;
use e_tui::question::QuestionBatch;

fn command(action: Action) -> MappedKey {
    MappedKey::Command(action)
}

#[test]
fn effort_page_has_no_fake_focus_when_unavailable() {
    let mut session = InputPageSession::effort();
    let mut catalog = CatalogModel::default();
    catalog.current_model = Some(ModelSelection {
        provider: "openai".into(),
        model: "plain".into(),
        reasoning_effort: None,
    });
    catalog.model_providers = vec![ModelProvider {
        id: "openai".into(),
        name: "OpenAI".into(),
        models: vec![ModelDescriptor {
            id: "plain".into(),
            name: "Plain".into(),
            description: None,
            context_window: None,
            reasoning: None,
        }],
    }];
    session.apply_effort(&catalog);
    assert!(session.focus.current.is_none());
    assert!(matches!(&session.page, InputPage::Effort(page) if page.unavailable));
}

#[test]
fn model_activation_sends_selection_and_closes() {
    let mut session = InputPageSession::model();
    session.apply_model(vec![provider("p", "m")], Some(("p".into(), "m".into())));
    session.focus.set(ModelPage::model_focus("p", "m"));
    let mut marks = ModelMarks::new();
    let outcome = session.handle_input(command(Action::Confirm), &mut marks, &ModelDefaultEfforts::new());
    assert!(outcome.close);
    assert!(matches!(
        outcome.effects.as_slice(),
        [PageEffect::Send(AgentRequest::ModelSet { provider, model, reasoning_effort: None })]
            if provider == "p" && model == "m"
    ));
}

#[test]
fn question_page_steps_questions_and_options_then_answers() {
    let question = |id: &str, labels: &[&str]| Question {
        id: id.into(),
        question: format!("{id}?"),
        header: None,
        options: Some(labels.iter().map(|label| QuestionOption { label: (*label).into(), description: None }).collect()),
        multi_select: false,
    };
    let mut page = InputPageSession::question(QuestionBatch::new(
        "rpc".into(),
        "session".into(),
        vec![question("first", &["A", "B"]), question("second", &["C", "D"])],
    ));
    let mut marks = ModelMarks::new();
    let defaults = ModelDefaultEfforts::new();
    page.handle_input(command(Action::MoveDown), &mut marks, &defaults);
    assert!(matches!(&page.page, InputPage::Question(batch) if batch.current == 0 && batch.sel == 1));
    page.handle_input(command(Action::NextQuestion), &mut marks, &defaults);
    assert!(matches!(&page.page, InputPage::Question(batch) if batch.current == 1 && batch.sel == 0));
    page.handle_input(command(Action::MoveDown), &mut marks, &defaults);
    page.handle_input(command(Action::PreviousQuestion), &mut marks, &defaults);
    assert!(matches!(&page.page, InputPage::Question(batch) if batch.current == 0 && batch.sel == 1));
    page.handle_input(command(Action::NextQuestion), &mut marks, &defaults);
    assert!(matches!(&page.page, InputPage::Question(batch) if batch.current == 1 && batch.sel == 1));
    page.handle_input(command(Action::MoveUp), &mut marks, &defaults);
    assert!(matches!(&page.page, InputPage::Question(batch) if batch.sel == 0));
    page.handle_input(command(Action::MoveDown), &mut marks, &defaults);
    let submitted = page.handle_input(command(Action::Confirm), &mut marks, &defaults);
    assert!(submitted.close);
    assert!(matches!(
        submitted.effects.as_slice(),
        [PageEffect::Send(AgentRequest::AnswerQuestions { request_id, answers })]
            if request_id == "rpc" && answers[0].selected == ["B"] && answers[1].selected == ["D"]
    ));
}

#[test]
fn login_session_moves_focus_and_opens_subpages() {
    let mut session = InputPageSession::login();
    let mut marks = ModelMarks::new();
    let defaults = ModelDefaultEfforts::new();
    assert!(session.focus.is(&FocusId::new("login:menu:api-key".into())));
    session.handle_input(command(Action::MoveDown), &mut marks, &defaults);
    assert!(matches!(&session.page, InputPage::Login(login) if login.pos == 1));
    session.handle_input(command(Action::Confirm), &mut marks, &defaults);
    assert!(matches!(&session.page, InputPage::Login(login) if login.page == LoginPage::ProxyList));
    assert!(session.focus.is(&FocusId::new("login:proxy:new".into())));
    let outcome = session.handle_input(command(Action::Back), &mut marks, &defaults);
    assert!(!outcome.close);
    let outcome = session.handle_input(command(Action::Back), &mut marks, &defaults);
    assert!(outcome.close && outcome.effects.is_empty());
    assert!(!session.paste("x"));
    assert_eq!(session.question_rpc_id(), None);
}
