use e_tui::agent::{ModelDescriptor, ModelProvider, ModelReasoning, ModelSelection, ReasoningEffort};
use e_tui::catalog::{configured_model_effort, CatalogModel, EffortStatus};
use e_tui::model_defaults::{ModelDefaultEffort, ModelDefaultEfforts};
use e_tui::model_marks::{prefix, ModelMark, ModelMarks};

fn catalog(current: ModelSelection, reasoning: Option<ModelReasoning>) -> CatalogModel {
    CatalogModel {
        current_model: Some(current),
        model_providers: vec![ModelProvider {
            id: "openai".into(),
            name: "OpenAI".into(),
            models: vec![ModelDescriptor {
                id: "gpt".into(),
                name: "GPT".into(),
                description: None,
                context_window: None,
                reasoning,
            }],
        }],
        ..CatalogModel::default()
    }
}

fn reasoning() -> ModelReasoning {
    ModelReasoning {
        efforts: vec![
            ReasoningEffort { id: "low".into(), name: "Low".into(), description: None },
            ReasoningEffort { id: "high".into(), name: "High".into(), description: None },
        ],
        default_effort: Some("low".into()),
    }
}

#[test]
fn effort_label_prefers_explicit_then_default_then_default() {
    let explicit = catalog(
        ModelSelection {
            provider: "openai".into(),
            model: "gpt".into(),
            reasoning_effort: Some("high".into()),
        },
        Some(reasoning()),
    );
    assert_eq!(
        explicit.effort_status(),
        Some(EffortStatus { id: Some("high".into()), label: Some("High".into()) })
    );

    let defaulted = catalog(
        ModelSelection { provider: "openai".into(), model: "gpt".into(), reasoning_effort: None },
        Some(reasoning()),
    );
    assert_eq!(
        defaulted.effort_status(),
        Some(EffortStatus { id: Some("low".into()), label: Some("Low".into()) })
    );

    let provider_default = catalog(
        ModelSelection { provider: "openai".into(), model: "gpt".into(), reasoning_effort: None },
        Some(ModelReasoning { efforts: reasoning().efforts, default_effort: None }),
    );
    assert_eq!(provider_default.effort_status(), Some(EffortStatus { id: None, label: None }));
}

#[test]
fn effort_label_hides_without_reasoning_or_unknown_route() {
    let none = catalog(
        ModelSelection { provider: "openai".into(), model: "gpt".into(), reasoning_effort: None },
        None,
    );
    assert_eq!(none.effort_status(), None);

    let unknown = CatalogModel {
        current_model: Some(ModelSelection {
            provider: "other".into(),
            model: "x".into(),
            reasoning_effort: Some("high".into()),
        }),
        model_providers: vec![ModelProvider {
            id: "openai".into(),
            name: "OpenAI".into(),
            models: vec![ModelDescriptor {
                id: "gpt".into(),
                name: "GPT".into(),
                description: None,
                context_window: None,
                reasoning: Some(reasoning()),
            }],
        }],
        ..CatalogModel::default()
    };
    assert_eq!(unknown.effort_status(), None);
}

#[test]
fn unknown_effort_ids_label_themselves_and_windows_must_be_positive() {
    let custom = catalog(
        ModelSelection {
            provider: "openai".into(),
            model: "gpt".into(),
            reasoning_effort: Some("turbo".into()),
        },
        Some(reasoning()),
    );
    assert_eq!(
        custom.effort_status(),
        Some(EffortStatus { id: Some("turbo".into()), label: Some("turbo".into()) })
    );
    assert_eq!(custom.current_model_context_window(), None);
    assert_eq!(custom.current_efforts().unwrap().len(), 2);
    let mut windowed = custom.clone();
    windowed.model_providers[0].models[0].context_window = Some(128_000);
    assert_eq!(windowed.current_model_context_window(), Some(128_000));
}

#[test]
fn marks_and_defaults_resolve_exact_routes() {
    let model = catalog(
        ModelSelection { provider: "openai".into(), model: "gpt".into(), reasoning_effort: None },
        Some(reasoning()),
    );
    let mut marks = ModelMarks::new();
    marks.toggle('a', "openai", "gpt");
    marks.toggle('b', "other", "gpt");
    let (mark, descriptor) = model.marked_model(&marks, 'a').unwrap();
    assert_eq!(mark.letter, 'a');
    assert_eq!(descriptor.id, "gpt");
    assert!(model.marked_model(&marks, 'b').is_none());
    assert!(model.marked_model(&marks, 'c').is_none());

    let mut defaults = ModelDefaultEfforts::new();
    defaults.set("openai", "gpt", "high");
    let descriptor = model.current_model_descriptor().unwrap();
    assert_eq!(configured_model_effort(&defaults, "openai", descriptor), Some("high".into()));
    defaults.set("openai", "gpt", "retired");
    assert_eq!(configured_model_effort(&defaults, "openai", descriptor), None);
}

#[test]
fn model_marks_toggle_reassign_and_validate() {
    let mut marks = ModelMarks::new();
    assert_eq!(marks.get('a'), None);
    marks.toggle('a', "p", "m");
    marks.toggle('b', "p", "other");
    marks.toggle('b', "p", "m");
    assert_eq!(marks.get('a'), None);
    assert_eq!(marks.letter("p", "other"), None);
    assert_eq!(marks.letter("p", "m"), Some('b'));
    marks.toggle('b', "p", "m");
    assert_eq!(marks.get('b'), None);
    marks.toggle('A', "p", "m");
    assert_eq!(marks.letter("p", "m"), None);
    let mark = |letter: char, provider: &str| ModelMark {
        letter,
        provider: provider.into(),
        model: "m".into(),
    };
    assert!(ModelMarks::from_marks(vec![mark('A', "p")]).is_err());
    assert!(ModelMarks::from_marks(vec![mark('a', "p"), mark('a', "q")]).is_err());
    assert!(ModelMarks::from_marks(vec![mark('a', "p"), mark('b', "p")]).is_err());
    assert!(ModelMarks::from_marks(vec![mark('a', "p"), mark('b', "q")]).is_ok());
}

#[test]
fn mark_prefix_reports_the_body_byte_offset() {
    assert_eq!(prefix("//a hello"), Some(('a', 4)));
    assert_eq!(prefix("//b"), Some(('b', 3)));
    assert_eq!(prefix("//c\u{3000}x"), Some(('c', 6)));
    assert_eq!(prefix("//ab"), None);
    assert_eq!(prefix("//A x"), None);
    assert_eq!(prefix("/a x"), None);
}

#[test]
fn model_defaults_update_keep_providers_separate_and_validate() {
    let mut defaults = ModelDefaultEfforts::new();
    assert_eq!(defaults.get("p", "m"), None);
    defaults.set("p", "m", "low");
    defaults.set("q", "m", "medium");
    defaults.set("p", "m", "high");
    assert_eq!(defaults.get("p", "m"), Some("high"));
    assert_eq!(defaults.get("q", "m"), Some("medium"));
    assert_eq!(defaults.get("P", "m"), None);
    let entry = |provider: &str, model: &str, effort: &str| ModelDefaultEffort {
        provider: provider.into(),
        model: model.into(),
        effort: effort.into(),
    };
    assert!(ModelDefaultEfforts::from_entries(vec![entry("", "m", "high")]).is_err());
    assert!(ModelDefaultEfforts::from_entries(vec![entry("p", " ", "high")]).is_err());
    assert!(ModelDefaultEfforts::from_entries(vec![entry("p", "m", "")]).is_err());
    assert!(ModelDefaultEfforts::from_entries(vec![entry("p", "m", "high"), entry("p", "m", "low")]).is_err());
    assert!(ModelDefaultEfforts::from_entries(vec![entry("p", "m", "high"), entry("q", "m", "low")]).is_ok());
}
