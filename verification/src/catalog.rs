//! Agent-provided and built-in presentation catalogs.
use vstd::prelude::*;

use crate::agent::{
    CommandDescriptor, CredentialProvider, ModelDescriptor, ModelProvider, ModelReasoning,
    ModelSelection, ProxyRoute, ReasoningEffort, SessionSummary, Skill,
};
use crate::command_catalog::NewMode;
use crate::model_defaults::{saved_effort, ModelDefaultEfforts};
use crate::model_marks::{mark_for, ModelMark, ModelMarks};
use crate::text::{opt_view, owned, str_eq};

verus! {

#[derive(Debug, Clone, PartialEq, Eq)]
pub struct EffortStatus {
    pub id: Option<String>,
    /// Provider-declared label or raw effort id. `None` means provider default.
    pub label: Option<String>,
}

/// Catalog state for the currently attached scope.
#[derive(Debug, Clone)]
pub struct CatalogModel {
    pub sessions: Vec<SessionSummary>,
    pub new_modes: Vec<NewMode>,
    pub integrated_commands: Vec<CommandDescriptor>,
    pub skills: Vec<Skill>,
    pub credential_providers: Vec<CredentialProvider>,
    pub proxies: Vec<ProxyRoute>,
    pub model_providers: Vec<ModelProvider>,
    pub current_model: Option<ModelSelection>,
}

impl Default for CatalogModel {
    fn default() -> (r: CatalogModel)
        ensures
            r.model_providers@.len() == 0,
            r.current_model is None,
    {
        CatalogModel::new()
    }
}

/// First provider with this id.
pub open spec fn provider_named(ps: Seq<ModelProvider>, id: Seq<char>) -> Option<ModelProvider>
    decreases ps.len(),
{
    if ps.len() == 0 {
        None
    } else if ps[0].id@ == id {
        Some(ps[0])
    } else {
        provider_named(ps.drop_first(), id)
    }
}

/// First model with this id.
pub open spec fn model_named(ms: Seq<ModelDescriptor>, id: Seq<char>) -> Option<ModelDescriptor>
    decreases ms.len(),
{
    if ms.len() == 0 {
        None
    } else if ms[0].id@ == id {
        Some(ms[0])
    } else {
        model_named(ms.drop_first(), id)
    }
}

/// First effort with this id.
pub open spec fn effort_named(es: Seq<ReasoningEffort>, id: Seq<char>) -> Option<ReasoningEffort>
    decreases es.len(),
{
    if es.len() == 0 {
        None
    } else if es[0].id@ == id {
        Some(es[0])
    } else {
        effort_named(es.drop_first(), id)
    }
}

/// The model on exactly this provider/model route.
pub open spec fn route_model(ps: Seq<ModelProvider>, provider: Seq<char>, model: Seq<char>) -> Option<ModelDescriptor> {
    match provider_named(ps, provider) {
        Some(p) => model_named(p.models@, model),
        None => None,
    }
}

/// The descriptor of the current route.
pub open spec fn current_descriptor(c: CatalogModel) -> Option<ModelDescriptor> {
    match c.current_model {
        Some(m) => route_model(c.model_providers@, m.provider@, m.model@),
        None => None,
    }
}

/// The effort id in force on the current route and its display label.
pub open spec fn effort_status_of(c: CatalogModel) -> Option<(Option<Seq<char>>, Option<Seq<char>>)> {
    match current_descriptor(c) {
        Some(d) => match d.reasoning {
            Some(reasoning) => {
                let id = match c.current_model.unwrap().reasoning_effort {
                    Some(e) => Some(e@),
                    None => opt_view(reasoning.default_effort),
                };
                let label = match id {
                    Some(i) => match effort_named(reasoning.efforts@, i) {
                        Some(e) => Some(e.name@),
                        None => Some(i),
                    },
                    None => None,
                };
                Some((id, label))
            },
            None => None,
        },
        None => None,
    }
}

pub(crate) fn find_provider<'a>(ps: &'a Vec<ModelProvider>, id: &str) -> (r: Option<&'a ModelProvider>)
    ensures
        match provider_named(ps@, id@) {
            Some(p) => r == Some(&p),
            None => r is None,
        },
{
    let mut i: usize = 0;
    proof {
        assert(ps@.skip(0) =~= ps@);
    }
    while i < ps.len()
        invariant
            i <= ps@.len(),
            provider_named(ps@, id@) == provider_named(ps@.skip(i as int), id@),
        decreases ps.len() - i,
    {
        proof {
            assert(ps@.skip(i as int).drop_first() =~= ps@.skip(i + 1));
        }
        if str_eq(ps[i].id.as_str(), id) {
            return Some(&ps[i]);
        }
        i = i + 1;
    }
    None
}

pub(crate) fn find_model<'a>(ms: &'a Vec<ModelDescriptor>, id: &str) -> (r: Option<&'a ModelDescriptor>)
    ensures
        match model_named(ms@, id@) {
            Some(m) => r == Some(&m),
            None => r is None,
        },
{
    let mut i: usize = 0;
    proof {
        assert(ms@.skip(0) =~= ms@);
    }
    while i < ms.len()
        invariant
            i <= ms@.len(),
            model_named(ms@, id@) == model_named(ms@.skip(i as int), id@),
        decreases ms.len() - i,
    {
        proof {
            assert(ms@.skip(i as int).drop_first() =~= ms@.skip(i + 1));
        }
        if str_eq(ms[i].id.as_str(), id) {
            return Some(&ms[i]);
        }
        i = i + 1;
    }
    None
}

pub(crate) fn find_effort<'a>(es: &'a Vec<ReasoningEffort>, id: &str) -> (r: Option<&'a ReasoningEffort>)
    ensures
        match effort_named(es@, id@) {
            Some(e) => r == Some(&e),
            None => r is None,
        },
{
    let mut i: usize = 0;
    proof {
        assert(es@.skip(0) =~= es@);
    }
    while i < es.len()
        invariant
            i <= es@.len(),
            effort_named(es@, id@) == effort_named(es@.skip(i as int), id@),
        decreases es.len() - i,
    {
        proof {
            assert(es@.skip(i as int).drop_first() =~= es@.skip(i + 1));
        }
        if str_eq(es[i].id.as_str(), id) {
            return Some(&es[i]);
        }
        i = i + 1;
    }
    None
}

impl CatalogModel {
    pub fn new() -> (r: CatalogModel)
        ensures
            r.sessions@.len() == 0,
            r.new_modes@.len() == 0,
            r.integrated_commands@.len() == 0,
            r.skills@.len() == 0,
            r.credential_providers@.len() == 0,
            r.proxies@.len() == 0,
            r.model_providers@.len() == 0,
            r.current_model is None,
    {
        CatalogModel {
            sessions: Vec::new(),
            new_modes: Vec::new(),
            integrated_commands: Vec::new(),
            skills: Vec::new(),
            credential_providers: Vec::new(),
            proxies: Vec::new(),
            model_providers: Vec::new(),
            current_model: None,
        }
    }

    /// The model a letter mark points at, when its exact route is listed.
    pub fn marked_model<'a>(&'a self, marks: &'a ModelMarks, letter: char) -> (r: Option<(&'a ModelMark, &'a ModelDescriptor)>)
        ensures
            match mark_for(marks.marks_spec(), letter) {
                Some(mark) => match route_model(self.model_providers@, mark.provider@, mark.model@) {
                    Some(d) => r == Some((&mark, &d)),
                    None => r is None,
                },
                None => r is None,
            },
    {
        let mark = match marks.get(letter) {
            Some(m) => m,
            None => return None,
        };
        let provider = match find_provider(&self.model_providers, mark.provider.as_str()) {
            Some(p) => p,
            None => return None,
        };
        match find_model(&provider.models, mark.model.as_str()) {
            Some(model) => Some((mark, model)),
            None => None,
        }
    }

    /// Resolve the exact current provider/model route, never across
    /// providers by model id.
    pub fn current_model_descriptor(&self) -> (r: Option<&ModelDescriptor>)
        ensures
            match current_descriptor(*self) {
                Some(d) => r == Some(&d),
                None => r is None,
            },
    {
        let current = match &self.current_model {
            Some(c) => c,
            None => return None,
        };
        let provider = match find_provider(&self.model_providers, current.provider.as_str()) {
            Some(p) => p,
            None => return None,
        };
        find_model(&provider.models, current.model.as_str())
    }

    pub fn current_model_reasoning(&self) -> (r: Option<&ModelReasoning>)
        ensures
            match current_descriptor(*self) {
                Some(d) => match d.reasoning {
                    Some(reasoning) => r == Some(&reasoning),
                    None => r is None,
                },
                None => r is None,
            },
    {
        match self.current_model_descriptor() {
            Some(d) => match &d.reasoning {
                Some(reasoning) => Some(reasoning),
                None => None,
            },
            None => None,
        }
    }

    /// The current route's declared context window, when positive.
    pub fn current_model_context_window(&self) -> (r: Option<u64>)
        ensures
            match current_descriptor(*self) {
                Some(d) => match d.context_window {
                    Some(w) => if w > 0 {
                        r == Some(w)
                    } else {
                        r is None
                    },
                    None => r is None,
                },
                None => r is None,
            },
    {
        match self.current_model_descriptor() {
            Some(d) => match d.context_window {
                Some(w) => if w > 0 {
                    Some(w)
                } else {
                    None
                },
                None => None,
            },
            None => None,
        }
    }

    /// Adapter-declared efforts for the exact current route, in declared order.
    pub fn current_efforts(&self) -> (r: Option<&[ReasoningEffort]>)
        ensures
            match current_descriptor(*self) {
                Some(d) => match d.reasoning {
                    Some(reasoning) => r matches Some(s) && s@ == reasoning.efforts@,
                    None => r is None,
                },
                None => r is None,
            },
    {
        match self.current_model_reasoning() {
            Some(reasoning) => Some(reasoning.efforts.as_slice()),
            None => None,
        }
    }

    /// The current route's provider-neutral effort status: `None` when the
    /// route exposes no reasoning metadata; an inner `None` label means the
    /// provider default is active.
    pub fn effort_status(&self) -> (r: Option<EffortStatus>)
        ensures
            match effort_status_of(*self) {
                Some((id, label)) => r matches Some(s) && opt_view(s.id) == id && opt_view(s.label)
                    == label,
                None => r is None,
            },
    {
        let reasoning = match self.current_model_reasoning() {
            Some(r) => r,
            None => return None,
        };
        let current = match &self.current_model {
            Some(c) => c,
            None => return None,
        };
        let id: Option<&str> = match &current.reasoning_effort {
            Some(e) => Some(e.as_str()),
            None => match &reasoning.default_effort {
                Some(d) => Some(d.as_str()),
                None => None,
            },
        };
        let label = match id {
            Some(i) => match find_effort(&reasoning.efforts, i) {
                Some(e) => Some(e.name.clone()),
                None => Some(owned(i)),
            },
            None => None,
        };
        Some(EffortStatus {
            id: match id {
                Some(i) => Some(owned(i)),
                None => None,
            },
            label,
        })
    }
}

/// The saved default effort for a route, when the model still offers it.
/// The saved default effort of a route, when the model still offers it.
pub open spec fn configured_effort(defaults: ModelDefaultEfforts, provider: Seq<char>, model: ModelDescriptor) -> Option<Seq<char>> {
    match saved_effort(defaults.entries_spec(), provider, model.id@) {
        Some(saved) => match model.reasoning {
            Some(reasoning) => match effort_named(reasoning.efforts@, saved) {
                Some(e) => Some(e.id@),
                None => None,
            },
            None => None,
        },
        None => None,
    }
}

pub fn configured_model_effort(defaults: &ModelDefaultEfforts, provider: &str, model: &ModelDescriptor) -> (r: Option<String>)
    ensures
        opt_view(r) == configured_effort(*defaults, provider@, *model),
        match saved_effort(defaults.entries_spec(), provider@, model.id@) {
            Some(saved) => match model.reasoning {
                Some(reasoning) => match effort_named(reasoning.efforts@, saved) {
                    Some(e) => r matches Some(s) && s@ == e.id@,
                    None => r is None,
                },
                None => r is None,
            },
            None => r is None,
        },
{
    let saved = match defaults.get(provider, model.id.as_str()) {
        Some(s) => s,
        None => return None,
    };
    let reasoning = match &model.reasoning {
        Some(r) => r,
        None => return None,
    };
    match find_effort(&reasoning.efforts, saved) {
        Some(e) => Some(e.id.clone()),
        None => None,
    }
}

} // verus!
