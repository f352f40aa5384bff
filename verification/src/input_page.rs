//! Catalog-backed configuration pages that replace the ordinary input bar:
//! model and reasoning-effort selection over a shared focus graph.
use vstd::prelude::*;

use crate::action::AgentRequest;
use crate::agent::{ModelDescriptor, ModelProvider, ModelSelection, ReasoningEffort};
use crate::catalog::{
    configured_effort, configured_model_effort, current_descriptor, find_model, find_provider, model_named,
    provider_named, effort_named, CatalogModel,
};
use crate::model_defaults::{saved_effort, ModelDefaultEfforts};
use crate::model_marks::{mark_for, toggled, ModelMarks};
use crate::page_core::{
    chase, direction_of, move_target, Direction, direction_from_input, focus_set, linear_focus_nodes, linear_graph, node_view, nodes_view, opt_id, replaced, FocusId,
    FocusNode, FocusState, NodeView, PageEffect, PageOutcome, ViewportState,
};
use crate::text::{decimal, decimal_string, has_prefix, opt_view, owned, push_str, str_eq, strip_prefix};
use crate::login::{
    applied, auth_finished, auth_started, browse_outcome, catalog_applied, edit_outcome, notice_applied, prompt_applied,
    prompt_withdrawn, row_focus_spec, LoginAction, LoginState, LoginView, Page as LoginPage, PROXY_SAVE_ROW};
use crate::question::{entered, erased_char, stepped_question, toggled_selection, typed_char, QuestionBatch};
use crate::key_mapping::{Action, MappedKey, Scope};

verus! {

/// Focus id of a provider row.
pub open spec fn provider_focus_id(id: Seq<char>) -> Seq<char> {
    "provider:"@ + id
}

/// Focus id of a model row.
pub open spec fn model_focus_id(provider: Seq<char>, model: Seq<char>) -> Seq<char> {
    "model:"@ + provider + ":"@ + model
}

/// Focus id of an effort row.
pub open spec fn effort_focus_id(id: Seq<char>) -> Seq<char> {
    "effort:"@ + id
}

/// Index of the first provider with this id.
pub open spec fn provider_index(ps: Seq<ModelProvider>, id: Seq<char>) -> Option<int>
    decreases ps.len(),
{
    if ps.len() == 0 {
        None
    } else if ps[0].id@ == id {
        Some(0)
    } else {
        match provider_index(ps.drop_first(), id) {
            Some(i) => Some(i + 1),
            None => None,
        }
    }
}

/// The provider that stays active after a catalog refresh: the previous
/// one while it is listed, else the current route's, else the first.
pub open spec fn chosen_active(
    previous: Option<String>,
    current: Option<(String, String)>,
    ps: Seq<ModelProvider>,
) -> Option<Seq<char>> {
    match previous {
        Some(id) if provider_index(ps, id@) is Some => Some(id@),
        _ => match current {
            Some(c) if provider_index(ps, c.0@) is Some => Some(c.0@),
            _ => if ps.len() > 0 {
                Some(ps[0].id@)
            } else {
                None
            },
        },
    }
}

fn provider_focus(id: &str) -> (r: FocusId)
    ensures
        r.0@ == provider_focus_id(id@),
{
    let mut s = owned("provider:");
    push_str(&mut s, id);
    FocusId(s)
}

fn effort_focus(id: &str) -> (r: FocusId)
    ensures
        r.0@ == effort_focus_id(id@),
{
    let mut s = owned("effort:");
    push_str(&mut s, id);
    FocusId(s)
}

fn provider_position(ps: &Vec<ModelProvider>, id: &str) -> (r: Option<usize>)
    ensures
        match r {
            Some(i) => provider_index(ps@, id@) == Some(i as int) && i < ps@.len(),
            None => provider_index(ps@, id@) is None,
        },
{
    let mut i: usize = 0;
    proof {
        assert(ps@.skip(0) =~= ps@);
    }
    while i < ps.len()
        invariant
            i <= ps@.len(),
            provider_index(ps@, id@) == match provider_index(ps@.skip(i as int), id@) {
                Some(k) => Some(k + i),
                None => None,
            },
        decreases ps.len() - i,
    {
        proof {
            assert(ps@.skip(i as int).drop_first() =~= ps@.skip(i + 1));
        }
        if str_eq(ps[i].id.as_str(), id) {
            return Some(i);
        }
        i = i + 1;
    }
    None
}

/// The model selection page: providers on the left, the active provider's
/// models on the right.
pub struct ModelPage {
    pub for_compaction: bool,
    pub providers: Vec<ModelProvider>,
    pub active_provider: Option<String>,
    pub current: Option<(String, String)>,
    pub loading: bool,
}

impl ModelPage {
    /// Index of the active provider.
    pub open spec fn active_index_spec(&self) -> Option<int> {
        match self.active_provider {
            Some(a) => provider_index(self.providers@, a@),
            None => None,
        }
    }

    /// The provider row `i`: linked up and down to its neighbors, and right
    /// to the first model when it is the active provider.
    pub open spec fn provider_node(&self, i: int) -> NodeView {
        let ps = self.providers@;
        NodeView {
            id: provider_focus_id(ps[i].id@),
            enabled: true,
            left: None,
            down: if i + 1 < ps.len() {
                Some(provider_focus_id(ps[i + 1].id@))
            } else {
                None
            },
            up: if i > 0 {
                Some(provider_focus_id(ps[i - 1].id@))
            } else {
                None
            },
            right: if opt_view(self.active_provider) == Some(ps[i].id@) && ps[i].models@.len() > 0 {
                Some(model_focus_id(ps[i].id@, ps[i].models@[0].id@))
            } else {
                None
            },
        }
    }

    /// The model row `j` of provider `a`: linked up and down to its
    /// neighbors and left to its provider.
    pub open spec fn model_node(&self, a: int, j: int) -> NodeView {
        let p = self.providers@[a];
        NodeView {
            id: model_focus_id(p.id@, p.models@[j].id@),
            enabled: true,
            left: Some(provider_focus_id(p.id@)),
            down: if j + 1 < p.models@.len() {
                Some(model_focus_id(p.id@, p.models@[j + 1].id@))
            } else {
                None
            },
            up: if j > 0 {
                Some(model_focus_id(p.id@, p.models@[j - 1].id@))
            } else {
                None
            },
            right: None,
        }
    }

    /// The page's focus graph: every provider, then the active provider's
    /// models.
    pub open spec fn graph(&self) -> Seq<NodeView> {
        Seq::new(self.providers@.len(), |i: int| self.provider_node(i)) + match self.active_index_spec() {
            Some(a) => Seq::new(self.providers@[a].models@.len(), |j: int| self.model_node(a, j)),
            None => Seq::empty(),
        }
    }

    /// A page waiting for its catalog.
    pub fn loading() -> (r: ModelPage)
        ensures
            !r.for_compaction,
            r.providers@.len() == 0,
            r.active_provider is None,
            r.current is None,
            r.loading,
    {
        ModelPage { for_compaction: false, providers: Vec::new(), active_provider: None, current: None, loading: true }
    }

    /// Focus id of a provider row.
    pub fn provider_focus(id: &str) -> (r: FocusId)
        ensures
            r.0@ == provider_focus_id(id@),
    {
        provider_focus(id)
    }

    /// Focus id of a model row.
    pub fn model_focus(provider: &str, model: &str) -> (r: FocusId)
        ensures
            r.0@ == model_focus_id(provider@, model@),
    {
        let mut s = owned("model:");
        push_str(&mut s, provider);
        push_str(&mut s, ":");
        push_str(&mut s, model);
        FocusId(s)
    }

    /// Index of the active provider.
    pub fn active_index(&self) -> (r: Option<usize>)
        ensures
            match r {
                Some(i) => self.active_index_spec() == Some(i as int) && i < self.providers@.len(),
                None => self.active_index_spec() is None,
            },
    {
        match &self.active_provider {
            Some(active) => provider_position(&self.providers, active.as_str()),
            None => None,
        }
    }

    /// The active provider's models (none without one).
    pub fn active_models(&self) -> (r: &[ModelDescriptor])
        ensures
            r@ == match self.active_index_spec() {
                Some(i) => self.providers@[i].models@,
                None => Seq::empty(),
            },
    {
        match self.active_index() {
            Some(i) => self.providers[i].models.as_slice(),
            None => &[],
        }
    }

    fn focus_nodes(&self) -> (r: Vec<FocusNode>)
        ensures
            nodes_view(r@) == self.graph(),
    {
        let mut nodes: Vec<FocusNode> = Vec::new();
        let n = self.providers.len();
        let mut i: usize = 0;
        while i < n
            invariant
                n == self.providers@.len(),
                i <= n,
                nodes@.len() == i,
                forall|k: int| 0 <= k < i ==> node_view(#[trigger] nodes@[k]) == self.provider_node(k),
            decreases n - i,
        {
            let provider = &self.providers[i];
            let mut node = FocusNode::new(provider_focus(provider.id.as_str()));
            node.up = if i > 0 {
                Some(provider_focus(self.providers[i - 1].id.as_str()))
            } else {
                None
            };
            node.down = if i + 1 < n {
                Some(provider_focus(self.providers[i + 1].id.as_str()))
            } else {
                None
            };
            let is_active = match &self.active_provider {
                Some(a) => str_eq(a.as_str(), provider.id.as_str()),
                None => false,
            };
            if is_active && provider.models.len() > 0 {
                node.right = Some(Self::model_focus(provider.id.as_str(), provider.models[0].id.as_str()));
            }
            nodes.push(node);
            i = i + 1;
        }
        let ghost first = nodes@;
        match self.active_index() {
            Some(a) => {
                let provider = &self.providers[a];
                let m = provider.models.len();
                let mut j: usize = 0;
                while j < m
                    invariant
                        m == provider.models@.len(),
                        *provider == self.providers@[a as int],
                        self.active_index_spec() == Some(a as int),
                        j <= m,
                        nodes@.len() == n + j,
                        nodes@.subrange(0, n as int) == first,
                        forall|k: int| 0 <= k < j ==> node_view(#[trigger] nodes@[n + k]) == self.model_node(a as int, k),
                    decreases m - j,
                {
                    let mut node = FocusNode::new(Self::model_focus(provider.id.as_str(), provider.models[j].id.as_str()));
                    node.left = Some(provider_focus(provider.id.as_str()));
                    node.up = if j > 0 {
                        Some(Self::model_focus(provider.id.as_str(), provider.models[j - 1].id.as_str()))
                    } else {
                        None
                    };
                    node.down = if j + 1 < m {
                        Some(Self::model_focus(provider.id.as_str(), provider.models[j + 1].id.as_str()))
                    } else {
                        None
                    };
                    let ghost before = nodes@;
                    nodes.push(node);
                    proof {
                        assert(nodes@.subrange(0, n as int) =~= before.subrange(0, n as int));
                    }
                    j = j + 1;
                }
                proof {
                    let g = self.graph();
                    assert forall|k: int| 0 <= k < nodes@.len() implies #[trigger] node_view(nodes@[k]) == g[k] by {
                        if k < n {
                            assert(nodes@[k] == nodes@.subrange(0, n as int)[k]);
                        } else {
                            assert(node_view(nodes@[n + (k - n)]) == self.model_node(a as int, k - n));
                        }
                    }
                    assert(nodes_view(nodes@) =~= g);
                }
            },
            None => {
                proof {
                    assert(nodes_view(nodes@) =~= self.graph());
                }
            },
        }
        nodes
    }

    /// Rebuild the focus graph from the page.
    pub fn rebuild_focus(&self, focus: &mut FocusState)
        ensures
            model_rebuilt(*self, *old(focus), *final(focus)),

    {
        let nodes = self.focus_nodes();
        let ghost n = nodes@;
        focus.replace(nodes);
        proof {
            assert(nodes_view(n) == self.graph() && replaced(*old(focus), *focus, n));
        }
    }

    /// Apply a catalog: the providers and current route are replaced (a
    /// compaction page has no current route), the active provider stays
    /// while listed, the focus graph is rebuilt, and a page opened without a
    /// focus focuses the current route.
    pub fn apply_catalog(&mut self, providers: Vec<ModelProvider>, current: Option<(String, String)>, focus: &mut FocusState)
        ensures
            model_catalog_applied(*old(self), *final(self), providers, current, *old(focus), *final(focus)),
    {
        let had_focus = focus.current_ref().is_some();
        let previous = match &self.active_provider {
            Some(a) => Some(a.clone()),
            None => None,
        };
        self.providers = providers;
        self.current = if self.for_compaction {
            None
        } else {
            current
        };
        self.loading = false;
        let keep_previous = match &previous {
            Some(id) => provider_position(&self.providers, id.as_str()).is_some(),
            None => false,
        };
        if keep_previous {
            self.active_provider = previous;
        } else {
            let from_current = match &self.current {
                Some(c) => if provider_position(&self.providers, c.0.as_str()).is_some() {
                    Some(c.0.clone())
                } else {
                    None
                },
                None => None,
            };
            if from_current.is_some() {
                self.active_provider = from_current;
            } else if self.providers.len() > 0 {
                self.active_provider = Some(self.providers[0].id.clone());
            } else {
                self.active_provider = None;
            }
        }
        let nodes = self.focus_nodes();
        let ghost n = nodes@;
        focus.replace(nodes);
        let ghost mid = *focus;
        if !had_focus {
            match &self.current {
                Some(c) => {
                    focus.set(Self::model_focus(c.0.as_str(), c.1.as_str()));
                },
                None => {},
            }
        }
        proof {
            assert(nodes_view(n) == self.graph() && replaced(*old(focus), mid, n));
        }
    }
}

/// The first model row (provider `i` onward, in order) whose focus id is
/// `target`.
pub open spec fn focused_route(ps: Seq<ModelProvider>, target: Seq<char>, i: int) -> Option<(int, int)>
    decreases ps.len() - i, 1int,
{
    if i < 0 || i >= ps.len() {
        None
    } else {
        match focused_in(ps[i], target, 0) {
            Some(j) => Some((i, j)),
            None => focused_route(ps, target, i + 1),
        }
    }
}

/// The first model of `p` (from `j` onward) whose focus id is `target`.
pub open spec fn focused_in(p: ModelProvider, target: Seq<char>, j: int) -> Option<int>
    decreases p.models@.len() - j,
{
    if j < 0 || j >= p.models@.len() {
        None
    } else if model_focus_id(p.id@, p.models@[j].id@) == target {
        Some(j)
    } else {
        focused_in(p, target, j + 1)
    }
}

/// The outcome asks for nothing.
pub open spec fn no_outcome(r: PageOutcome) -> bool {
    !r.close && r.effects@.len() == 0
}

/// The request a model page sends to select a route: a compaction page
/// sets the compaction model by command; otherwise the route is selected
/// with its saved default effort, when the model still offers it.
pub open spec fn selection_request(page: ModelPage, provider: Seq<char>, model: Seq<char>, defaults: ModelDefaultEfforts, req: AgentRequest) -> bool {
    if page.for_compaction {
        req matches AgentRequest::Command { line, images }
            && line@ == "/compact set-model "@ + provider + "/"@ + model && images@.len() == 0
    } else {
        req matches AgentRequest::ModelSet { provider: p, model: m, reasoning_effort }
            && p@ == provider && m@ == model && opt_view(reasoning_effort) == match provider_named(page.providers@, provider) {
                Some(pr) => match model_named(pr.models@, model) {
                    Some(md) => configured_effort(defaults, provider, md),
                    None => None,
                },
                None => None,
            }
    }
}

/// The outcome sends one request and closes the page.
pub open spec fn sends_and_closes(r: PageOutcome) -> bool {
    r.close && r.effects@.len() == 1 && r.effects@[0] is Send
}

/// The model row a provider activation focuses: the current route's model
/// when the current route is on that provider, else its first model.
pub open spec fn provider_target(page: ModelPage, provider: Seq<char>) -> Option<Seq<char>> {
    match provider_named(page.providers@, provider) {
        Some(p) => {
            let first = if p.models@.len() > 0 {
                Some(model_focus_id(provider, p.models@[0].id@))
            } else {
                None
            };
            match page.current {
                Some(c) => if c.0@ == provider {
                    match model_named(p.models@, c.1@) {
                        Some(m) => Some(model_focus_id(provider, m.id@)),
                        None => first,
                    }
                } else {
                    first
                },
                None => first,
            }
        },
        None => None,
    }
}

impl ModelPage {
    /// The model row that has focus, as (provider index, model index).
    pub open spec fn focused_spec(&self, focus: FocusState) -> Option<(int, int)> {
        match opt_id(focus.current_spec()) {
            Some(t) => focused_route(self.providers@, t, 0),
            None => None,
        }
    }

    fn focused_model(&self, focus: &FocusState) -> (r: Option<(usize, usize)>)
        ensures
            match r {
                Some((i, j)) => self.focused_spec(*focus) == Some((i as int, j as int)) && i < self.providers@.len()
                    && j < self.providers@[i as int].models@.len(),
                None => self.focused_spec(*focus) is None,
            },
    {
        let target = match focus.current_ref() {
            Some(id) => id.0.clone(),
            None => {
                return None;
            },
        };
        let mut i: usize = 0;
        while i < self.providers.len()
            invariant
                i <= self.providers@.len(),
                opt_id(focus.current_spec()) == Some(target@),
                self.focused_spec(*focus) == focused_route(self.providers@, target@, i as int),
            decreases self.providers.len() - i,
        {
            let provider = &self.providers[i];
            let mut j: usize = 0;
            while j < provider.models.len()
                invariant
                    j <= provider.models@.len(),
                    i < self.providers@.len(),
                    *provider == self.providers@[i as int],
                    opt_id(focus.current_spec()) == Some(target@),
                    self.focused_spec(*focus) == focused_route(self.providers@, target@, i as int),
                    focused_in(*provider, target@, 0) == focused_in(*provider, target@, j as int),
                decreases provider.models.len() - j,
            {
                let id = Self::model_focus(provider.id.as_str(), provider.models[j].id.as_str());
                if str_eq(id.0.as_str(), target.as_str()) {
                    return Some((i, j));
                }
                j = j + 1;
            }
            i = i + 1;
        }
        None
    }

    /// The request selecting a route, closing the page.
    fn select(&self, provider: &str, model: &str, defaults: &ModelDefaultEfforts) -> (r: PageOutcome)
        ensures
            sends_and_closes(r),
            selection_request(*self, provider@, model@, *defaults, r.effects@[0]->Send_0),
    {
        if self.for_compaction {
            let mut line = owned("/compact set-model ");
            push_str(&mut line, provider);
            push_str(&mut line, "/");
            push_str(&mut line, model);
            return PageOutcome::send(AgentRequest::Command { line, images: Vec::new() }, true);
        }
        let effort = match find_provider(&self.providers, provider) {
            Some(p) => match find_model(&p.models, model) {
                Some(m) => configured_model_effort(defaults, provider, m),
                None => None,
            },
            None => None,
        };
        PageOutcome::send(AgentRequest::ModelSet { provider: owned(provider), model: owned(model), reasoning_effort: effort }, true)
    }

    /// Toggle `letter` on the focused model route; nothing while loading or
    /// without a focused model.
    pub fn mark(&self, letter: char, focus: &FocusState, marks: &mut ModelMarks) -> (r: PageOutcome)
        ensures
            model_marked(*self, letter, *focus, *old(marks), *final(marks), r),

    {
        if self.loading {
            return PageOutcome::none();
        }
        match self.focused_model(focus) {
            Some((i, j)) => {
                marks.toggle(letter, self.providers[i].id.as_str(), self.providers[i].models[j].id.as_str());
                let mut effects: Vec<PageEffect> = Vec::new();
                effects.push(PageEffect::ConfigChanged);
                PageOutcome { close: false, effects }
            },
            None => PageOutcome::none(),
        }
    }

    /// Select the route marked with `letter`, when it is listed.
    pub fn select_mark(&self, letter: char, marks: &ModelMarks, defaults: &ModelDefaultEfforts) -> (r: PageOutcome)
        ensures
            model_mark_selected(*self, letter, *marks, *defaults, r),

    {
        let mark = match marks.get(letter) {
            Some(m) => m,
            None => {
                return PageOutcome::none();
            },
        };
        if self.loading {
            return PageOutcome::none();
        }
        let mut listed = false;
        let mut i: usize = 0;
        while i < self.providers.len()
            invariant
                i <= self.providers@.len(),
                listed == exists|k: int| 0 <= k < i && #[trigger] lists(self.providers@[k], mark.provider@, mark.model@),
            decreases self.providers.len() - i,
        {
            let hit = str_eq(self.providers[i].id.as_str(), mark.provider.as_str()) && find_model(
                &self.providers[i].models,
                mark.model.as_str(),
            ).is_some();
            proof {
                assert(hit == lists(self.providers@[i as int], mark.provider@, mark.model@));
            }
            if hit {
                listed = true;
            }
            i = i + 1;
        }
        if !listed {
            return PageOutcome::none();
        }
        self.select(mark.provider.as_str(), mark.model.as_str(), defaults)
    }

    /// Activate the focused row: a provider becomes active and focus moves
    /// onto its current or first model; a model is selected.
    pub fn activate(&mut self, focus: &mut FocusState, defaults: &ModelDefaultEfforts) -> (r: PageOutcome)
        ensures
            model_activated(*old(self), *final(self), *old(focus), *final(focus), *defaults, r),

    {
        let id = match focus.current_ref() {
            Some(id) => id.0.clone(),
            None => {
                return PageOutcome::none();
            },
        };
        match strip_prefix(id.as_str(), "provider:") {
            Some(provider_id) => {
                self.active_provider = Some(provider_id.clone());
                let nodes = self.focus_nodes();
                let ghost n = nodes@;
                focus.replace(nodes);
                let ghost mid = *focus;
                let target = match find_provider(&self.providers, provider_id.as_str()) {
                    Some(p) => {
                        let from_current = match &self.current {
                            Some(c) => if str_eq(c.0.as_str(), provider_id.as_str()) {
                                find_model(&p.models, c.1.as_str())
                            } else {
                                None
                            },
                            None => None,
                        };
                        match from_current {
                            Some(m) => Some(Self::model_focus(provider_id.as_str(), m.id.as_str())),
                            None => if p.models.len() > 0 {
                                Some(Self::model_focus(provider_id.as_str(), p.models[0].id.as_str()))
                            } else {
                                None
                            },
                        }
                    },
                    None => None,
                };
                match target {
                    Some(t) => {
                        focus.set(t);
                    },
                    None => {},
                }
                proof {
                    assert(nodes_view(n) == self.graph() && replaced(*old(focus), mid, n));
                }
                PageOutcome::none()
            },
            None => match self.focused_model(focus) {
                Some((i, j)) => self.select(self.providers[i].id.as_str(), self.providers[i].models[j].id.as_str(), defaults),
                None => PageOutcome::none(),
            },
        }
    }
}

/// The model page `after`, its focus and outcome `r` once `before` activated its focused row.
pub open spec fn model_activated(before: ModelPage, after: ModelPage, focus_before: FocusState, focus_after: FocusState, defaults: ModelDefaultEfforts, r: PageOutcome) -> bool {
    &&& (match opt_id(focus_before.current_spec()) {
                None => no_outcome(r) && after == before && focus_after == focus_before,
                Some(id) => if has_prefix(id, "provider:"@) {
                    let provider = id.subrange("provider:"@.len() as int, id.len() as int);
                    &&& no_outcome(r)
                    &&& opt_view(after.active_provider) == Some(provider)
                    &&& after.providers == before.providers
                    &&& after.current == before.current
                    &&& after.loading == before.loading
                    &&& after.for_compaction == before.for_compaction
                    &&& exists|mid: FocusState, n: Seq<FocusNode>|
                        nodes_view(n) == after.graph() && #[trigger] replaced(focus_before, mid, n)
                            && match provider_target(after, provider) {
                            Some(t) => focus_set(mid, focus_after, t),
                            None => focus_after == mid,
                        }
                } else {
                    &&& after == before && focus_after == focus_before
                    &&& match before.focused_spec(focus_before) {
                        Some((i, j)) => sends_and_closes(r) && selection_request(
                            before,
                            before.providers@[i].id@,
                            before.providers@[i].models@[j].id@,
                            defaults,
                            r.effects@[0]->Send_0,
                        ),
                        None => no_outcome(r),
                    }
                },
            })
}

/// `marks_after` and `r` once the model page toggled `letter` on its focused route.
pub open spec fn model_marked(page: ModelPage, letter: char, focus: FocusState, marks_before: ModelMarks, marks_after: ModelMarks, r: PageOutcome) -> bool {
    &&& (match (page.loading, page.focused_spec(focus)) {
                (false, Some((i, j))) => {
                    &&& toggled(
                        marks_before.marks_spec(),
                        marks_after.marks_spec(),
                        letter,
                        page.providers@[i].id@,
                        page.providers@[i].models@[j].id@,
                    )
                    &&& !r.close && r.effects@ == seq![PageEffect::ConfigChanged]
                },
                _ => no_outcome(r) && marks_after == marks_before,
            })
}

/// `r` once the model page selected the route marked `letter`.
pub open spec fn model_mark_selected(page: ModelPage, letter: char, marks: ModelMarks, defaults: ModelDefaultEfforts, r: PageOutcome) -> bool {
    &&& (match mark_for(marks.marks_spec(), letter) {
                Some(m) => if !page.loading && route_listed(page.providers@, m.provider@, m.model@) {
                    sends_and_closes(r) && selection_request(page, m.provider@, m.model@, defaults, r.effects@[0]->Send_0)
                } else {
                    no_outcome(r)
                },
                None => no_outcome(r),
            })
}

/// `focus_after` is `focus_before` rebuilt over the model page's graph.
pub open spec fn model_rebuilt(page: ModelPage, focus_before: FocusState, focus_after: FocusState) -> bool {
    &&& (exists|n: Seq<FocusNode>| #[trigger] nodes_view(n) == page.graph() && replaced(focus_before, focus_after, n))
}

/// The model page and its focus once a catalog arrived.
pub open spec fn model_catalog_applied(
    before: ModelPage,
    after: ModelPage,
    providers: Vec<ModelProvider>,
    current: Option<(String, String)>,
    focus_before: FocusState,
    focus_after: FocusState,
) -> bool {
    &&& after.providers == providers
    &&& after.for_compaction == before.for_compaction
    &&& after.current == if before.for_compaction {
        None
    } else {
        current
    }
    &&& !after.loading
    &&& opt_view(after.active_provider) == chosen_active(before.active_provider, after.current, providers@)
    &&& exists|mid: FocusState, n: Seq<FocusNode>|
        nodes_view(n) == after.graph() && #[trigger] replaced(focus_before, mid, n) && match (
            focus_before.current_spec(),
            after.current,
        ) {
            (None, Some(c)) => focus_set(mid, focus_after, model_focus_id(c.0@, c.1@)),
            _ => focus_after == mid,
        }
}

/// Provider `p` is the route's provider and lists its model.
pub open spec fn lists(p: ModelProvider, provider: Seq<char>, model: Seq<char>) -> bool {
    p.id@ == provider && model_named(p.models@, model) is Some
}

/// Some listed provider is the route's provider and lists its model.
pub open spec fn route_listed(ps: Seq<ModelProvider>, provider: Seq<char>, model: Seq<char>) -> bool {
    exists|k: int| 0 <= k < ps.len() && #[trigger] lists(ps[k], provider, model)
}

fn copy_opt(s: &Option<String>) -> (r: Option<String>)
    ensures
        r == *s,
{
    match s {
        Some(v) => Some(v.clone()),
        None => None,
    }
}

fn copy_effort(e: &ReasoningEffort) -> (r: ReasoningEffort)
    ensures
        r == *e,
{
    ReasoningEffort { id: e.id.clone(), name: e.name.clone(), description: copy_opt(&e.description) }
}

fn copy_efforts(v: &Vec<ReasoningEffort>) -> (r: Vec<ReasoningEffort>)
    ensures
        r@ == v@,
{
    let mut r: Vec<ReasoningEffort> = Vec::new();
    let mut i: usize = 0;
    while i < v.len()
        invariant
            i <= v@.len(),
            r@ == v@.take(i as int),
        decreases v.len() - i,
    {
        r.push(copy_effort(&v[i]));
        proof {
            assert(v@.take(i + 1) =~= v@.take(i as int).push(v@[i as int]));
        }
        i = i + 1;
    }
    proof {
        assert(v@.take(i as int) =~= v@);
    }
    r
}

fn copy_selection(m: &ModelSelection) -> (r: ModelSelection)
    ensures
        r == *m,
{
    ModelSelection { provider: m.provider.clone(), model: m.model.clone(), reasoning_effort: copy_opt(&m.reasoning_effort) }
}

/// The reasoning-effort page for the exact current route.
pub struct EffortPage {
    pub efforts: Vec<ReasoningEffort>,
    pub current: Option<ModelSelection>,
    pub default_effort: Option<String>,
    pub loading: bool,
    pub unavailable: bool,
}

impl EffortPage {
    /// The effort row `i`, linked up and down to its neighbors.
    pub open spec fn effort_node(&self, i: int) -> NodeView {
        let es = self.efforts@;
        NodeView {
            id: effort_focus_id(es[i].id@),
            enabled: true,
            left: None,
            down: if i + 1 < es.len() {
                Some(effort_focus_id(es[i + 1].id@))
            } else {
                None
            },
            up: if i > 0 {
                Some(effort_focus_id(es[i - 1].id@))
            } else {
                None
            },
            right: None,
        }
    }

    pub open spec fn graph(&self) -> Seq<NodeView> {
        Seq::new(self.efforts@.len(), |i: int| self.effort_node(i))
    }

    /// The effort a freshly opened page focuses: the current route's
    /// effort, else the default, when listed; else the first effort.
    pub open spec fn preferred_focus(&self) -> Option<Seq<char>> {
        let preferred = match self.current {
            Some(c) => match c.reasoning_effort {
                Some(e) => Some(e@),
                None => opt_view(self.default_effort),
            },
            None => opt_view(self.default_effort),
        };
        let first = if self.efforts@.len() > 0 {
            Some(effort_focus_id(self.efforts@[0].id@))
        } else {
            None
        };
        match preferred {
            Some(p) => match effort_named(self.efforts@, p) {
                Some(e) => Some(effort_focus_id(e.id@)),
                None => first,
            },
            None => first,
        }
    }

    /// The page marks the route's implicit default as current.
    pub fn shows_current_default(&self) -> (r: bool)
        ensures
            r == ((match self.current {
                Some(c) => c.reasoning_effort is None,
                None => true,
            }) && self.default_effort is None),
    {
        let none_current = match &self.current {
            Some(c) => c.reasoning_effort.is_none(),
            None => true,
        };
        none_current && self.default_effort.is_none()
    }

    /// A page waiting for the catalog.
    pub fn loading() -> (r: EffortPage)
        ensures
            r.efforts@.len() == 0,
            r.current is None,
            r.default_effort is None,
            r.loading,
            !r.unavailable,
    {
        EffortPage { efforts: Vec::new(), current: None, default_effort: None, loading: true, unavailable: false }
    }

    /// Populate from the catalog: only the current route's declared efforts
    /// are selectable; an absent route or an empty list is unavailable.
    pub fn apply_catalog(&mut self, catalog: &CatalogModel)
        ensures
            effort_catalog_applied(*old(self), *final(self), *catalog),

    {
        self.efforts = Vec::new();
        self.current = match &catalog.current_model {
            Some(m) => Some(copy_selection(m)),
            None => None,
        };
        self.default_effort = None;
        self.loading = false;
        self.unavailable = true;
        match catalog.current_model_reasoning() {
            Some(reasoning) => {
                self.efforts = copy_efforts(&reasoning.efforts);
                self.default_effort = copy_opt(&reasoning.default_effort);
                self.unavailable = self.efforts.len() == 0;
            },
            None => {},
        }
    }

    fn focus_nodes(&self) -> (r: Vec<FocusNode>)
        ensures
            nodes_view(r@) == self.graph(),
    {
        let mut nodes: Vec<FocusNode> = Vec::new();
        let n = self.efforts.len();
        let mut i: usize = 0;
        while i < n
            invariant
                n == self.efforts@.len(),
                i <= n,
                nodes@.len() == i,
                forall|k: int| 0 <= k < i ==> node_view(#[trigger] nodes@[k]) == self.effort_node(k),
            decreases n - i,
        {
            let mut node = FocusNode::new(effort_focus(self.efforts[i].id.as_str()));
            node.up = if i > 0 {
                Some(effort_focus(self.efforts[i - 1].id.as_str()))
            } else {
                None
            };
            node.down = if i + 1 < n {
                Some(effort_focus(self.efforts[i + 1].id.as_str()))
            } else {
                None
            };
            nodes.push(node);
            i = i + 1;
        }
        proof {
            assert(nodes_view(nodes@) =~= self.graph());
        }
        nodes
    }

    /// Rebuild the focus graph. A fresh open (no focus yet) focuses the
    /// preferred effort; a refresh keeps the user's place.
    pub fn rebuild_focus(&self, focus: &mut FocusState)
        ensures
            effort_rebuilt(*self, *old(focus), *final(focus)),

    {
        let was_empty = focus.current_ref().is_none();
        let nodes = self.focus_nodes();
        let ghost n = nodes@;
        focus.replace(nodes);
        let ghost mid = *focus;
        if was_empty {
            let preferred = match &self.current {
                Some(c) => match &c.reasoning_effort {
                    Some(e) => Some(e.clone()),
                    None => copy_opt(&self.default_effort),
                },
                None => copy_opt(&self.default_effort),
            };
            let found = match &preferred {
                Some(p) => find_effort_in(&self.efforts, p.as_str()),
                None => None,
            };
            let target = match found {
                Some(e) => Some(effort_focus(e.id.as_str())),
                None => if self.efforts.len() > 0 {
                    Some(effort_focus(self.efforts[0].id.as_str()))
                } else {
                    None
                },
            };
            match target {
                Some(t) => {
                    focus.set(t);
                },
                None => {},
            }
        }
        proof {
            assert(nodes_view(n) == self.graph() && replaced(*old(focus), mid, n));
        }
    }

    /// Activate the focused effort: select it on the current route.
    pub fn activate(&mut self, focus: &mut FocusState) -> (r: PageOutcome)
        ensures
            effort_activated(*old(self), *final(self), *old(focus), *final(focus), r),

    {
        let id = match focus.current_ref() {
            Some(id) => id.0.clone(),
            None => {
                return PageOutcome::none();
            },
        };
        let effort_id = match strip_prefix(id.as_str(), "effort:") {
            Some(e) => e,
            None => {
                return PageOutcome::none();
            },
        };
        match &self.current {
            Some(current) => PageOutcome::send(
                AgentRequest::ModelSet {
                    provider: current.provider.clone(),
                    model: current.model.clone(),
                    reasoning_effort: Some(effort_id),
                },
                true,
            ),
            None => PageOutcome::none(),
        }
    }
}

/// `focus_after` is `focus_before` rebuilt over the effort page's graph.
pub open spec fn effort_rebuilt(page: EffortPage, focus_before: FocusState, focus_after: FocusState) -> bool {
    exists|mid: FocusState, n: Seq<FocusNode>|
        nodes_view(n) == page.graph() && #[trigger] replaced(focus_before, mid, n) && if focus_before.current_spec() is None {
            match page.preferred_focus() {
                Some(t) => focus_set(mid, focus_after, t),
                None => focus_after == mid,
            }
        } else {
            focus_after == mid
        }
}

/// The effort page, its focus and outcome once `before` activated its focused effort.
pub open spec fn effort_activated(before: EffortPage, after: EffortPage, focus_before: FocusState, focus_after: FocusState, r: PageOutcome) -> bool {
    &&& (after == before)
    &&& (focus_after == focus_before)
    &&& (match (opt_id(focus_before.current_spec()), before.current) {
                (Some(id), Some(c)) => if has_prefix(id, "effort:"@) {
                    &&& sends_and_closes(r)
                    &&& r.effects@[0]->Send_0 matches AgentRequest::ModelSet { provider, model, reasoning_effort: Some(e) }
                        && provider == c.provider && model == c.model
                        && e@ == id.subrange("effort:"@.len() as int, id.len() as int)
                } else {
                    no_outcome(r)
                },
                _ => no_outcome(r),
            })
}

/// The effort page once the catalog arrived.
pub open spec fn effort_catalog_applied(before: EffortPage, after: EffortPage, catalog: CatalogModel) -> bool {
    &&& (after.current == catalog.current_model)
    &&& (!after.loading)
    &&& (match current_descriptor(catalog) {
                Some(d) => match d.reasoning {
                    Some(reasoning) => {
                        &&& after.efforts@ == reasoning.efforts@
                        &&& after.default_effort == reasoning.default_effort
                        &&& after.unavailable == (reasoning.efforts@.len() == 0)
                    },
                    None => after.efforts@.len() == 0 && after.default_effort is None && after.unavailable,
                },
                None => after.efforts@.len() == 0 && after.default_effort is None && after.unavailable,
            })
}

fn find_effort_in<'a>(es: &'a Vec<ReasoningEffort>, id: &str) -> (r: Option<&'a ReasoningEffort>)
    ensures
        match effort_named(es@, id@) {
            Some(e) => r == Some(&e),
            None => r is None,
        },
{
    crate::catalog::find_effort(es, id)
}

/// Focus targets of the login page as (id, cursor row): the menu's two
/// entries, the providers that take a key, each proxy and `+ New`, the proxy
/// form's rows, the deletion buttons, or the native rows that have an id.
pub open spec fn login_targets(l: LoginState) -> Seq<(Seq<char>, int)> {
    match l.page {
        LoginPage::Menu => seq![("login:menu:api-key"@, 0int), ("login:menu:proxy"@, 1int)],
        LoginPage::Providers => provider_targets(l.providers@, l.providers@.len() as int),
        LoginPage::ProxyList => Seq::new(l.proxies@.len(), |i: int| ("login:proxy:"@ + l.proxies@[i].id@, i)).push(
            ("login:proxy:new"@, l.proxies@.len() as int),
        ),
        LoginPage::ProxyForm => Seq::new((PROXY_SAVE_ROW + 1) as nat, |i: int| ("login:proxy-form:"@ + decimal(i as nat), i)),
        LoginPage::ProxyDelete { id, .. } => seq![
            ("login:proxy-delete:"@ + id@ + ":cancel"@, 0int),
            ("login:proxy-delete:"@ + id@ + ":delete"@, 1int),
        ],
        LoginPage::NativeProviders | LoginPage::NativeMethods { .. } | LoginPage::NativeLogout { .. } | LoginPage::NativePrompt(
            _,
        ) => native_targets(l, l.row_count_spec()),
        _ => Seq::empty(),
    }
}

/// The providers among the first `n` that take an API key.
pub open spec fn provider_targets(ps: Seq<crate::agent::CredentialProvider>, n: int) -> Seq<(Seq<char>, int)>
    decreases n,
{
    if n <= 0 {
        Seq::empty()
    } else if ps[n - 1].api_key_writable {
        provider_targets(ps, n - 1).push(("login:provider:"@ + ps[n - 1].id@, n - 1))
    } else {
        provider_targets(ps, n - 1)
    }
}

/// The native rows among the first `n` that have a focus id.
pub open spec fn native_targets(l: LoginState, n: int) -> Seq<(Seq<char>, int)>
    decreases n,
{
    if n <= 0 {
        Seq::empty()
    } else {
        native_targets(l, n - 1) + match row_focus_spec(l, n - 1) {
            Some(f) => seq![(f, n - 1)],
            None => Seq::empty(),
        }
    }
}

/// Focus id of option `index` of the current question.
pub open spec fn question_option_id(q: QuestionBatch, index: int) -> Seq<char> {
    let question_id = if q.current < q.questions@.len() {
        q.questions@[q.current as int].id@
    } else {
        "missing"@
    };
    "question:"@ + question_id + ":option:"@ + decimal(index as nat)
}

/// The focus ids of the current question's options.
pub open spec fn question_ids(q: QuestionBatch) -> Seq<Seq<char>> {
    Seq::new(q.current_options_spec().len(), |i: int| question_option_id(q, i))
}

pub open spec fn targets_view(ts: Seq<(FocusId, usize)>) -> Seq<(Seq<char>, int)> {
    ts.map_values(|t: (FocusId, usize)| (t.0.0@, t.1 as int))
}

fn prefixed_id(prefix: &str, value: &str) -> (r: FocusId)
    ensures
        r.0@ == prefix@ + value@,
{
    let mut s = owned(prefix);
    push_str(&mut s, value);
    FocusId(s)
}

/// Focus targets of the login page as (id, cursor row).
pub fn login_focus_targets(login: &LoginState) -> (r: Vec<(FocusId, usize)>)
    ensures
        targets_view(r@) == login_targets(*login),
{
    let mut out: Vec<(FocusId, usize)> = Vec::new();
    match &login.page {
        LoginPage::Menu => {
            out.push((FocusId(owned("login:menu:api-key")), 0));
            out.push((FocusId(owned("login:menu:proxy")), 1));
            proof {
                assert(targets_view(out@) =~= login_targets(*login));
            }
        },
        LoginPage::Providers => {
            let mut i: usize = 0;
            while i < login.providers.len()
                invariant
                    i <= login.providers@.len(),
                    targets_view(out@) == provider_targets(login.providers@, i as int),
                decreases login.providers.len() - i,
            {
                if login.providers[i].api_key_writable {
                    out.push((prefixed_id("login:provider:", login.providers[i].id.as_str()), i));
                    proof {
                        assert(targets_view(out@) =~= provider_targets(login.providers@, i as int).push(
                            ("login:provider:"@ + login.providers@[i as int].id@, i as int),
                        ));
                    }
                }
                i = i + 1;
            }
        },
        LoginPage::ProxyList => {
            let mut i: usize = 0;
            while i < login.proxies.len()
                invariant
                    i <= login.proxies@.len(),
                    targets_view(out@) == Seq::new(i as nat, |k: int| ("login:proxy:"@ + login.proxies@[k].id@, k)),
                decreases login.proxies.len() - i,
            {
                let ghost before = out@;
                out.push((prefixed_id("login:proxy:", login.proxies[i].id.as_str()), i));
                proof {
                    assert(targets_view(out@) =~= targets_view(before).push(targets_view(out@).last()));
                    assert(targets_view(out@) =~= Seq::new((i + 1) as nat, |k: int| ("login:proxy:"@ + login.proxies@[k].id@, k)));
                }
                i = i + 1;
            }
            out.push((FocusId(owned("login:proxy:new")), login.proxies.len()));
            proof {
                assert(targets_view(out@) =~= login_targets(*login));
            }
        },
        LoginPage::ProxyForm => {
            let mut i: usize = 0;
            while i <= PROXY_SAVE_ROW
                invariant
                    i <= PROXY_SAVE_ROW + 1,
                    targets_view(out@) == Seq::new(i as nat, |k: int| ("login:proxy-form:"@ + decimal(k as nat), k)),
                decreases PROXY_SAVE_ROW + 1 - i,
            {
                let digits = decimal_string(i as u64);
                let ghost before = out@;
                out.push((prefixed_id("login:proxy-form:", digits.as_str()), i));
                proof {
                    assert(targets_view(out@) =~= targets_view(before).push(targets_view(out@).last()));
                    assert(targets_view(out@) =~= Seq::new((i + 1) as nat, |k: int| ("login:proxy-form:"@ + decimal(k as nat), k)));
                }
                i = i + 1;
            }
        },
        LoginPage::ProxyDelete { id, .. } => {
            let mut cancel = owned("login:proxy-delete:");
            push_str(&mut cancel, id.as_str());
            push_str(&mut cancel, ":cancel");
            let mut delete = owned("login:proxy-delete:");
            push_str(&mut delete, id.as_str());
            push_str(&mut delete, ":delete");
            out.push((FocusId(cancel), 0));
            out.push((FocusId(delete), 1));
            proof {
                assert(targets_view(out@) =~= login_targets(*login));
            }
        },
        LoginPage::NativeProviders | LoginPage::NativeMethods { .. } | LoginPage::NativeLogout { .. } | LoginPage::NativePrompt(
            _,
        ) => {
            let count = login.row_count();
            let mut pos: usize = 0;
            while pos < count
                invariant
                    count == login.row_count_spec(),
                    pos <= count,
                    targets_view(out@) == native_targets(*login, pos as int),
                decreases count - pos,
            {
                match login.row_focus_id(pos) {
                    Some(id) => {
                        out.push((FocusId(id), pos));
                        proof {
                            assert(targets_view(out@) =~= native_targets(*login, pos + 1));
                        }
                    },
                    None => {
                        proof {
                            assert(native_targets(*login, pos + 1) =~= native_targets(*login, pos as int));
                        }
                    },
                }
                pos = pos + 1;
            }
        },
        _ => {
            proof {
                assert(targets_view(out@) =~= login_targets(*login));
            }
        },
    }
    out
}

/// Focus id of option `index` of the current question.
fn question_option_focus(question: &QuestionBatch, index: usize) -> (r: FocusId)
    ensures
        r.0@ == question_option_id(*question, index as int),
{
    let mut s = owned("question:");
    if question.current < question.questions.len() {
        push_str(&mut s, question.questions[question.current].id.as_str());
    } else {
        push_str(&mut s, "missing");
    }
    push_str(&mut s, ":option:");
    let digits = decimal_string(index as u64);
    push_str(&mut s, digits.as_str());
    FocusId(s)
}

/// The focus ids of the current question's options.
fn question_focus_ids(question: &QuestionBatch) -> (r: Vec<FocusId>)
    ensures
        r@.map_values(|id: FocusId| id.0@) == question_ids(*question),
{
    let count = question.current_options().len();
    let mut ids: Vec<FocusId> = Vec::new();
    let mut i: usize = 0;
    while i < count
        invariant
            count == question.current_options_spec().len(),
            i <= count,
            ids@.len() == i,
            forall|k: int| 0 <= k < i ==> (#[trigger] ids@[k]).0@ == question_option_id(*question, k),
        decreases count - i,
    {
        ids.push(question_option_focus(question, i));
        i = i + 1;
    }
    proof {
        assert(ids@.map_values(|id: FocusId| id.0@) =~= question_ids(*question));
    }
    ids
}

/// The pages that replace the input bar.
pub enum InputPage {
    Login(LoginState),
    Model(ModelPage),
    Effort(EffortPage),
    Question(QuestionBatch),
}

/// A page with its focus graph and viewport.
pub struct InputPageSession {
    pub page: InputPage,
    pub focus: FocusState,
    pub viewport: ViewportState,
}

/// The id of the first target on cursor row `pos`.
pub open spec fn target_at(ts: Seq<(Seq<char>, int)>, pos: int) -> Option<Seq<char>>
    decreases ts.len(),
{
    if ts.len() == 0 {
        None
    } else if ts[0].1 == pos {
        Some(ts[0].0)
    } else {
        target_at(ts.drop_first(), pos)
    }
}

/// The cursor row of the first target with this id.
pub open spec fn target_named(ts: Seq<(Seq<char>, int)>, id: Seq<char>) -> Option<int>
    decreases ts.len(),
{
    if ts.len() == 0 {
        None
    } else if ts[0].0 == id {
        Some(ts[0].1)
    } else {
        target_named(ts.drop_first(), id)
    }
}

/// The first option of the current question with this focus id.
pub open spec fn option_named(q: QuestionBatch, id: Seq<char>, from: int) -> Option<int>
    decreases q.current_options_spec().len() - from,
{
    if from < 0 || from >= q.current_options_spec().len() {
        None
    } else if question_option_id(q, from) == id {
        Some(from)
    } else {
        option_named(q, id, from + 1)
    }
}

/// The focus target the page asks for when its graph is rebuilt.
pub open spec fn desired_focus(page: InputPage, focus: FocusState) -> Option<Seq<char>> {
    match page {
        InputPage::Login(l) => target_at(login_targets(l), l.pos as int),
        InputPage::Model(_) | InputPage::Effort(_) => opt_id(focus.current_spec()),
        InputPage::Question(q) => if q.current_options_spec().len() > 0 {
            Some(question_option_id(q, q.sel as int))
        } else {
            None
        },
    }
}

/// `after` is `page` with its cursor moved to the focused target.
pub open spec fn synced(page: InputPage, focus: FocusState, after: InputPage) -> bool {
    match opt_id(focus.current_spec()) {
        None => after == page,
        Some(id) => match page {
            InputPage::Login(l) => match target_named(login_targets(l), id) {
                Some(p) => after == InputPage::Login(LoginState { pos: p as usize, ..l }),
                None => after == page,
            },
            InputPage::Question(q) => match option_named(q, id, 0) {
                Some(i) => after == InputPage::Question(QuestionBatch { sel: i as usize, ..q }),
                None => after == page,
            },
            _ => after == page,
        },
    }
}

/// The login buttons side by side: the deletion and logout confirmations.
pub open spec fn login_horizontal(l: LoginState) -> bool {
    l.page is ProxyDelete || l.page is NativeLogout
}

/// `after` is `before` with its focus graph rebuilt from the page.
pub open spec fn rebuilt(before: InputPageSession, after: InputPageSession) -> bool {
    &&& after.viewport == before.viewport
    &&& match before.page {
        InputPage::Model(m) => after.page == before.page && model_rebuilt(m, before.focus, after.focus),
        InputPage::Effort(e) => after.page == before.page && effort_rebuilt(e, before.focus, after.focus),
        InputPage::Login(l) => rebuilt_linear(before, after, linear_graph(login_targets(l).map_values(|t: (Seq<char>, int)| t.0), login_horizontal(l))),
        InputPage::Question(q) => rebuilt_linear(before, after, linear_graph(question_ids(q), false)),
    }
}

/// The focus was replaced by `graph`, the desired target focused, and the
/// page's cursor synchronized with the focus.
pub open spec fn rebuilt_linear(before: InputPageSession, after: InputPageSession, graph: Seq<NodeView>) -> bool {
    exists|mid: FocusState, n: Seq<FocusNode>|
        nodes_view(n) == graph && #[trigger] replaced(before.focus, mid, n) && match desired_focus(before.page, before.focus) {
            Some(d) => focus_set(mid, after.focus, d),
            None => after.focus == mid,
        } && synced(before.page, after.focus, after.page)
}

/// `la` and `action` follow from the login page `l` handling `key`.
pub open spec fn login_step(l: LoginState, key: MappedKey, la: LoginState, action: LoginAction) -> bool {
    match l.editing {
        Some(buf) => edit_outcome(LoginState { editing: None, ..l }, la, buf@, key, action),
        None => browse_outcome(l, la, key, action),
    }
}

/// The page outcome of a login action.
pub open spec fn login_outcome(action: LoginAction, r: PageOutcome) -> bool {
    match action {
        LoginAction::Nothing => no_outcome(r),
        LoginAction::Exit => r.close && r.effects@.len() == 0,
        LoginAction::Send(m) => !r.close && r.effects@ == seq![PageEffect::Send(m)],
        LoginAction::Copy(v) => !r.close && r.effects@ == seq![PageEffect::WriteClipboard(v)],
        LoginAction::Cancel => r.close && r.effects@ == seq![PageEffect::Send(AgentRequest::AuthCancel)],
    }
}

/// Focus moves in the direction when a target is reachable.
pub open spec fn moves(focus: FocusState, d: Direction) -> bool {
    match opt_id(focus.current_spec()) {
        None => focus.order_spec().len() > 0,
        Some(id) => move_target(focus.nodes_spec(), id, d) is Some,
    }
}

/// `after` is `before` once focus moved in the direction.
pub open spec fn focus_moved(before: FocusState, after: FocusState, d: Direction) -> bool {
    &&& after.nodes_spec() == before.nodes_spec()
    &&& after.order_spec() == before.order_spec()
    &&& opt_id(after.current_spec()) == match opt_id(before.current_spec()) {
        None => Some(before.order_spec()[0]),
        Some(id) => move_target(before.nodes_spec(), id, d),
    }
}

pub open spec fn is_key(key: MappedKey, action: Action) -> bool {
    key == MappedKey::Command(action)
}

/// The page's own handling of a key (focus movement aside): the page and
/// focus after it, the marks, and the outcome.
pub open spec fn page_step(
    page: InputPage,
    focus: FocusState,
    key: MappedKey,
    marks_before: ModelMarks,
    marks_after: ModelMarks,
    defaults: ModelDefaultEfforts,
    page_after: InputPage,
    focus_after: FocusState,
    r: PageOutcome,
) -> bool {
    match page {
        InputPage::Login(l) => {
            &&& focus_after == focus && marks_after == marks_before
            &&& exists|la: LoginState, action: LoginAction|
                page_after == InputPage::Login(la) && login_outcome(action, r) && #[trigger] login_step(l, key, la, action)
        },
        InputPage::Model(m) => if is_key(key, Action::Back) || is_key(key, Action::Close) {
            r.close && r.effects@.len() == 0 && page_after == page && focus_after == focus && marks_after == marks_before
        } else if is_key(key, Action::Confirm) {
            marks_after == marks_before && exists|m2: ModelPage| page_after == InputPage::Model(m2) && #[trigger] model_activated(
                m,
                m2,
                focus,
                focus_after,
                defaults,
                r,
            )
        } else if key is MarkModel {
            page_after == page && focus_after == focus && model_marked(m, key->MarkModel_0, focus, marks_before, marks_after, r)
        } else if key is SelectModel {
            page_after == page && focus_after == focus && marks_after == marks_before && model_mark_selected(
                m,
                key->SelectModel_0,
                marks_before,
                defaults,
                r,
            )
        } else {
            no_outcome(r) && page_after == page && focus_after == focus && marks_after == marks_before
        },
        InputPage::Effort(e) => {
            &&& marks_after == marks_before
            &&& if is_key(key, Action::Back) || is_key(key, Action::Close) {
                r.close && r.effects@.len() == 0 && page_after == page && focus_after == focus
            } else if is_key(key, Action::Confirm) {
                exists|e2: EffortPage| page_after == InputPage::Effort(e2) && #[trigger] effort_activated(e, e2, focus, focus_after, r)
            } else {
                no_outcome(r) && page_after == page && focus_after == focus
            }
        },
        InputPage::Question(q) => {
            let free = q.current_options_spec().len() == 0;
            &&& focus_after == focus && marks_after == marks_before
            &&& if is_key(key, Action::Cancel) {
                page_after == page && r.close && r.effects@.len() == 1 && (r.effects@[0] matches PageEffect::Send(
                    AgentRequest::CancelQuestions { request_id },
                ) && request_id == q.rpc_id)
            } else if is_key(key, Action::PreviousQuestion) {
                no_outcome(r) && exists|q2: QuestionBatch| page_after == InputPage::Question(q2) && #[trigger] stepped_question(q, q2, -1isize)
            } else if is_key(key, Action::NextQuestion) {
                no_outcome(r) && exists|q2: QuestionBatch| page_after == InputPage::Question(q2) && #[trigger] stepped_question(q, q2, 1isize)
            } else if is_key(key, Action::ToggleOption) && !free {
                no_outcome(r) && exists|q2: QuestionBatch| page_after == InputPage::Question(q2) && #[trigger] toggled_selection(q, q2)
            } else if is_key(key, Action::Confirm) {
                exists|q2: QuestionBatch, answers: Option<Vec<crate::action::QuestionAnswer>>|
                    page_after == InputPage::Question(q2) && #[trigger] entered(q, q2, answers) && match answers {
                        Some(a) => r.close && r.effects@.len() == 1 && (r.effects@[0] matches PageEffect::Send(
                            AgentRequest::AnswerQuestions { request_id, answers: sent },
                        ) && request_id == q.rpc_id && sent == a),
                        None => no_outcome(r),
                    }
            } else if is_key(key, Action::DeleteBackward) && free {
                no_outcome(r) && exists|q2: QuestionBatch| page_after == InputPage::Question(q2) && #[trigger] erased_char(q, q2)
            } else if key is Text && free {
                no_outcome(r) && exists|q2: QuestionBatch| page_after == InputPage::Question(q2) && #[trigger] typed_char(q, q2, key->Text_0)
            } else {
                no_outcome(r) && page_after == page
            }
        },
    }
}

/// The session is consistent: a question batch keeps its per-question
/// state and can step forward.
pub open spec fn session_wf(s: InputPageSession) -> bool {
    match s.page {
        InputPage::Question(q) => q.wf() && q.current < usize::MAX,
        _ => true,
    }
}

/// Focus nodes of the login page: its targets in a line (side by side for
/// the confirmations).
fn login_focus_nodes(login: &LoginState) -> (r: Vec<FocusNode>)
    ensures
        nodes_view(r@) == linear_graph(login_targets(*login).map_values(|t: (Seq<char>, int)| t.0), login_horizontal(*login)),
{
    let targets = login_focus_targets(login);
    let mut ids: Vec<FocusId> = Vec::new();
    let mut i: usize = 0;
    while i < targets.len()
        invariant
            i <= targets@.len(),
            targets_view(targets@) == login_targets(*login),
            ids@.len() == i,
            forall|k: int| 0 <= k < i ==> (#[trigger] ids@[k]).0@ == targets@[k].0.0@,
        decreases targets.len() - i,
    {
        ids.push(FocusId(targets[i].0.0.clone()));
        i = i + 1;
    }
    proof {
        assert(ids@.map_values(|id: FocusId| id.0@) =~= login_targets(*login).map_values(|t: (Seq<char>, int)| t.0));
    }
    let horizontal = match &login.page {
        LoginPage::ProxyDelete { .. } | LoginPage::NativeLogout { .. } => true,
        _ => false,
    };
    linear_focus_nodes(ids.as_slice(), horizontal)
}

fn question_focus_nodes(question: &QuestionBatch) -> (r: Vec<FocusNode>)
    ensures
        nodes_view(r@) == linear_graph(question_ids(*question), false),
{
    let ids = question_focus_ids(question);
    linear_focus_nodes(ids.as_slice(), false)
}

fn copy_focus(id: &FocusId) -> (r: FocusId)
    ensures
        r.0@ == id.0@,
{
    FocusId(id.0.clone())
}

impl InputPageSession {
    fn new(page: InputPage) -> (r: InputPageSession)
        ensures
            r.page == page,
            r.focus.current_spec() is None,
            r.focus.nodes_spec().len() == 0,
            r.viewport.start == 0,
    {
        InputPageSession { page, focus: FocusState::new(), viewport: ViewportState::new() }
    }

    /// The login page on its menu.
    pub fn login() -> (r: InputPageSession)
        ensures
            r.page matches InputPage::Login(l) && l.page == LoginPage::Menu,
            r.viewport.start == 0,
    {
        let mut page = Self::new(InputPage::Login(LoginState::new()));
        page.rebuild_focus();
        page
    }

    /// The native authentication page, loading its providers.
    pub fn authentication(provider_ref: Option<String>, logout: bool) -> (r: InputPageSession)
        ensures
            r.page matches InputPage::Login(l) && l.page == LoginPage::NativeProviders && l.auth_logout == logout,
    {
        let mut page = Self::new(InputPage::Login(LoginState::native_loading(provider_ref, logout)));
        page.rebuild_focus();
        page
    }

    pub fn model() -> (r: InputPageSession)
        ensures
            r.page matches InputPage::Model(m) && m.loading && !m.for_compaction,
            r.focus.current_spec() is None,
    {
        Self::new(InputPage::Model(ModelPage::loading()))
    }

    pub fn compaction_model() -> (r: InputPageSession)
        ensures
            r.page matches InputPage::Model(m) && m.loading && m.for_compaction,
            r.focus.current_spec() is None,
    {
        let mut model = ModelPage::loading();
        model.for_compaction = true;
        Self::new(InputPage::Model(model))
    }

    pub fn effort() -> (r: InputPageSession)
        ensures
            r.page matches InputPage::Effort(e) && e.loading,
            r.focus.current_spec() is None,
    {
        Self::new(InputPage::Effort(EffortPage::loading()))
    }

    pub fn question(batch: QuestionBatch) -> (r: InputPageSession)
        ensures
            r.page matches InputPage::Question(q) && q.rpc_id == batch.rpc_id && q.questions == batch.questions,
    {
        let mut page = Self::new(InputPage::Question(batch));
        page.rebuild_focus();
        page
    }

    /// The request id of a question page.
    pub fn question_rpc_id(&self) -> (r: Option<&str>)
        ensures
            match self.page {
                InputPage::Question(q) => r matches Some(id) && id@ == q.rpc_id@,
                _ => r is None,
            },
    {
        match &self.page {
            InputPage::Question(batch) => Some(batch.rpc_id.as_str()),
            _ => None,
        }
    }

    /// The key scope of the page.
    pub fn key_scope(&self) -> (r: Scope)
        ensures
            r == match self.page {
                InputPage::Login(l) => if l.editing is Some {
                    Scope::PageEdit
                } else {
                    Scope::Page
                },
                InputPage::Question(q) => if q.current_options_spec().len() == 0 {
                    Scope::PageQuestionEdit
                } else {
                    Scope::PageQuestion
                },
                _ => Scope::Page,
            },
    {
        match &self.page {
            InputPage::Login(login) => login.key_scope(),
            InputPage::Question(question) => if question.is_free_text() {
                Scope::PageQuestionEdit
            } else {
                Scope::PageQuestion
            },
            _ => Scope::Page,
        }
    }

    fn page_focus_id(&self) -> (r: Option<FocusId>)
        ensures
            match r {
                Some(id) => desired_focus(self.page, self.focus) == Some(id.0@),
                None => desired_focus(self.page, self.focus) is None,
            },
    {
        match &self.page {
            InputPage::Login(login) => {
                let targets = login_focus_targets(login);
                let mut i: usize = 0;
                proof {
                    assert(targets_view(targets@).skip(0) =~= targets_view(targets@));
                }
                while i < targets.len()
                    invariant
                        i <= targets@.len(),
                        self.page == InputPage::Login(*login),
                        targets_view(targets@) == login_targets(*login),
                        target_at(login_targets(*login), login.pos as int) == target_at(targets_view(targets@).skip(i as int), login.pos as int),
                    decreases targets.len() - i,
                {
                    proof {
                        let v = targets_view(targets@).skip(i as int);
                        assert(v[0] == (targets@[i as int].0.0@, targets@[i as int].1 as int));
                        assert(v.drop_first() =~= targets_view(targets@).skip(i + 1));
                    }
                    if targets[i].1 == login.pos {
                        return Some(copy_focus(&targets[i].0));
                    }
                    i = i + 1;
                }
                None
            },
            InputPage::Model(_) | InputPage::Effort(_) => match self.focus.current_ref() {
                Some(id) => Some(copy_focus(id)),
                None => None,
            },
            InputPage::Question(question) => if question.is_free_text() {
                None
            } else {
                Some(question_option_focus(question, question.sel))
            },
        }
    }

    fn sync_page_from_focus(&mut self)
        ensures
            synced(old(self).page, old(self).focus, final(self).page),
            final(self).focus == old(self).focus,
            final(self).viewport == old(self).viewport,
    {
        let id = match self.focus.current_ref() {
            Some(id) => copy_focus(id),
            None => {
                return ;
            },
        };
        let mut page = InputPage::Effort(EffortPage::loading());
        std::mem::swap(&mut page, &mut self.page);
        let ghost original = page;
        let updated = match page {
            InputPage::Login(mut login) => {
                let targets = login_focus_targets(&login);
                let mut i: usize = 0;
                let mut found: Option<usize> = None;
                proof {
                    assert(targets_view(targets@).skip(0) =~= targets_view(targets@));
                }
                while found.is_none() && i < targets.len()
                    invariant
                        i <= targets@.len(),
                        targets_view(targets@) == login_targets(login),
                        match found {
                            Some(p) => target_named(login_targets(login), id.0@) == Some(p as int),
                            None => target_named(login_targets(login), id.0@) == target_named(
                                targets_view(targets@).skip(i as int),
                                id.0@,
                            ),
                        },
                    decreases targets.len() - i + (if found is Some { 0int } else { 1int }),
                {
                    proof {
                        let v = targets_view(targets@).skip(i as int);
                        assert(v[0] == (targets@[i as int].0.0@, targets@[i as int].1 as int));
                        assert(v.drop_first() =~= targets_view(targets@).skip(i + 1));
                    }
                    if str_eq(targets[i].0.0.as_str(), id.0.as_str()) {
                        found = Some(targets[i].1);
                    } else {
                        i = i + 1;
                    }
                }
                proof {
                    if found is None {
                        assert(targets_view(targets@).skip(i as int) =~= Seq::<(Seq<char>, int)>::empty());
                    }
                }
                match found {
                    Some(p) => {
                        login.pos = p;
                    },
                    None => {},
                }
                InputPage::Login(login)
            },
            InputPage::Question(mut question) => {
                let count = question.current_options().len();
                let mut i: usize = 0;
                let mut found: Option<usize> = None;
                while found.is_none() && i < count
                    invariant
                        count == question.current_options_spec().len(),
                        i <= count,
                        match found {
                            Some(p) => option_named(question, id.0@, 0) == Some(p as int),
                            None => option_named(question, id.0@, 0) == option_named(question, id.0@, i as int),
                        },
                    decreases count - i + (if found is Some { 0int } else { 1int }),
                {
                    let candidate = question_option_focus(&question, i);
                    if str_eq(candidate.0.as_str(), id.0.as_str()) {
                        found = Some(i);
                    } else {
                        i = i + 1;
                    }
                }
                match found {
                    Some(p) => {
                        question.sel = p;
                    },
                    None => {},
                }
                InputPage::Question(question)
            },
            other => other,
        };
        self.page = updated;
    }

    /// Rebuild the focus graph from the page, focus the target the page asks
    /// for, and move the page's cursor to the focus.
    pub fn rebuild_focus(&mut self)
        ensures
            rebuilt(*old(self), *final(self)),
    {
        match &self.page {
            InputPage::Model(model) => {
                model.rebuild_focus(&mut self.focus);
                return ;
            },
            InputPage::Effort(effort) => {
                effort.rebuild_focus(&mut self.focus);
                return ;
            },
            _ => {},
        }
        let desired = self.page_focus_id();
        let nodes = match &self.page {
            InputPage::Login(login) => login_focus_nodes(login),
            InputPage::Question(question) => question_focus_nodes(question),
            _ => Vec::new(),
        };
        let ghost n = nodes@;
        self.focus.replace(nodes);
        let ghost mid = self.focus;
        match desired {
            Some(d) => {
                self.focus.set(d);
            },
            None => {},
        }
        let ghost before_sync = *self;
        self.sync_page_from_focus();
        proof {
            assert(replaced(old(self).focus, mid, n));
        }
    }
}

/// The session after one key (see `page_step` for the page's part): a
/// direction key that moves focus only moves it and the page cursor;
/// otherwise the page handles the key, and a login or question page that
/// stays open has its focus graph rebuilt.
pub open spec fn handled(
    before: InputPageSession,
    after: InputPageSession,
    key: MappedKey,
    marks_before: ModelMarks,
    marks_after: ModelMarks,
    defaults: ModelDefaultEfforts,
    r: PageOutcome,
) -> bool {
    if direction_of(key) is Some && moves(before.focus, direction_of(key)->0) {
        &&& no_outcome(r) && marks_after == marks_before && after.viewport == before.viewport
        &&& focus_moved(before.focus, after.focus, direction_of(key)->0)
        &&& synced(before.page, after.focus, after.page)
    } else {
        exists|page: InputPage, focus: FocusState|
            #[trigger] page_step(before.page, before.focus, key, marks_before, marks_after, defaults, page, focus, r) && if (page is Login
                || page is Question) && !r.close {
                rebuilt(InputPageSession { page, focus, viewport: before.viewport }, after)
            } else {
                after.page == page && after.focus == focus && after.viewport == before.viewport
            }
    }
}

/// `la` is the login page `l` once it applied the frame `view`.
pub open spec fn login_view_applied(l: LoginState, la: LoginState, view: LoginView) -> bool {
    la == (LoginState { pos: applied(l, view).clamped_pos() as usize, ..applied(l, view) })
}

impl InputPageSession {
    /// Handle one key already mapped for the page's scope.
    pub fn handle_input(&mut self, key: MappedKey, marks: &mut ModelMarks, defaults: &ModelDefaultEfforts) -> (r: PageOutcome)
        requires
            session_wf(*old(self)),
        ensures
            handled(*old(self), *final(self), key, *old(marks), *final(marks), *defaults, r),
            session_wf(*final(self)),
    {
        match direction_from_input(key) {
            Some(direction) => {
                if self.focus.move_in(direction) {
                    self.sync_page_from_focus();
                    return PageOutcome::none();
                }
            },
            None => {},
        }
        let ghost focus0 = self.focus;
        let mut page = InputPage::Effort(EffortPage::loading());
        std::mem::swap(&mut page, &mut self.page);
        let ghost page0 = page;
        let (page, outcome) = match page {
            InputPage::Login(mut login) => {
                let ghost l0 = login;
                let action = login.handle_input(key);
                let ghost a = action;
                let outcome = match action {
                    LoginAction::Nothing => PageOutcome::none(),
                    LoginAction::Exit => PageOutcome::close(),
                    LoginAction::Send(message) => PageOutcome::send(message, false),
                    LoginAction::Copy(value) => {
                        let mut effects: Vec<PageEffect> = Vec::new();
                        effects.push(PageEffect::WriteClipboard(value));
                        PageOutcome { close: false, effects }
                    },
                    LoginAction::Cancel => PageOutcome::send(AgentRequest::AuthCancel, true),
                };
                proof {
                    assert(login_outcome(a, outcome)) by {
                        match a {
                            LoginAction::Send(m) => {
                                assert(outcome.effects@ =~= seq![PageEffect::Send(m)]);
                            },
                            LoginAction::Copy(v) => {
                                assert(outcome.effects@ =~= seq![PageEffect::WriteClipboard(v)]);
                            },
                            LoginAction::Cancel => {
                                assert(outcome.effects@ =~= seq![PageEffect::Send(AgentRequest::AuthCancel)]);
                            },
                            _ => {},
                        }
                    }
                    assert(login_step(l0, key, login, a));
                }
                (InputPage::Login(login), outcome)
            },
            InputPage::Model(mut model) => {
                let outcome = match key {
                    MappedKey::Command(Action::Back) | MappedKey::Command(Action::Close) => PageOutcome::close(),
                    MappedKey::Command(Action::Confirm) => model.activate(&mut self.focus, defaults),
                    MappedKey::MarkModel(letter) => model.mark(letter, &self.focus, marks),
                    MappedKey::SelectModel(letter) => model.select_mark(letter, marks, defaults),
                    _ => PageOutcome::none(),
                };
                (InputPage::Model(model), outcome)
            },
            InputPage::Effort(mut effort) => {
                let outcome = match key {
                    MappedKey::Command(Action::Back) | MappedKey::Command(Action::Close) => PageOutcome::close(),
                    MappedKey::Command(Action::Confirm) => effort.activate(&mut self.focus),
                    _ => PageOutcome::none(),
                };
                (InputPage::Effort(effort), outcome)
            },
            InputPage::Question(mut question) => {
                let free = question.is_free_text();
                let request_id = question.rpc_id.clone();
                let count = question.questions.len();
                let outcome = match key {
                    MappedKey::Command(Action::Cancel) => PageOutcome::send(
                        AgentRequest::CancelQuestions { request_id },
                        true,
                    ),
                    MappedKey::Command(Action::PreviousQuestion) => {
                        question.step_question(-1);
                        proof {
                            assert(question.current < usize::MAX);
                        }
                        PageOutcome::none()
                    },
                    MappedKey::Command(Action::NextQuestion) => {
                        question.step_question(1);
                        proof {
                            assert(question.questions@.len() == count);
                            assert(question.current < usize::MAX);
                        }
                        PageOutcome::none()
                    },
                    MappedKey::Command(Action::ToggleOption) if !free => {
                        question.toggle_selection();
                        PageOutcome::none()
                    },
                    MappedKey::Command(Action::Confirm) => {
                        let answers = question.enter();
                        proof {
                            assert(count == old(self).page->Question_0.questions@.len());
                            assert(question.current < usize::MAX);
                        }
                        match answers {
                            Some(list) => PageOutcome::send(AgentRequest::AnswerQuestions { request_id, answers: list }, true),
                            None => PageOutcome::none(),
                        }
                    },
                    MappedKey::Command(Action::DeleteBackward) if free => {
                        question.backspace();
                        proof {
                            assert(question.wf());
                        }
                        PageOutcome::none()
                    },
                    MappedKey::Text(c) if free => {
                        question.push_char(c);
                        proof {
                            assert(question.wf());
                        }
                        PageOutcome::none()
                    },
                    _ => PageOutcome::none(),
                };
                proof {
                    assert(question.wf() && question.current < usize::MAX);
                }
                (InputPage::Question(question), outcome)
            },
        };
        self.page = page;
        let ghost mid = *self;
        let rebuild = match &self.page {
            InputPage::Login(_) | InputPage::Question(_) => !outcome.close,
            _ => false,
        };
        proof {
            assert(focus0 == old(self).focus);
            assert(page_step(page0, focus0, key, *old(marks), *marks, *defaults, mid.page, mid.focus, outcome));
        }
        proof {
            assert(session_wf(mid));
        }
        if rebuild {
            self.rebuild_focus();
        }
        outcome
    }
}

impl InputPageSession {
    /// Apply one bridge `login` frame to a login page.
    pub fn apply_login(&mut self, view: LoginView)
        ensures
            match old(self).page {
                InputPage::Login(l) => exists|la: LoginState|
                    #[trigger] login_view_applied(l, la, view) && la == (LoginState { pos: applied(l, view).clamped_pos() as usize, ..applied(l, view) }) && rebuilt(InputPageSession { page: InputPage::Login(la), ..*old(self) }, *final(self)),
                _ => *final(self) == *old(self),
            },
    {
        let mut page = InputPage::Effort(EffortPage::loading());
        std::mem::swap(&mut page, &mut self.page);
        match page {
            InputPage::Login(mut login) => {
                let ghost l0 = login;
                login.apply(view);
                let ghost la = login;
                self.page = InputPage::Login(login);
                let ghost mid = *self;
                self.rebuild_focus();
                proof {
                    assert(rebuilt(mid, *self));
                    assert(login_view_applied(l0, la, view));
                }
            },
            other => {
                self.page = other;
            },
        }
    }

    /// Apply the native provider catalog to a login page.
    pub fn apply_auth_catalog(&mut self, providers: Vec<crate::agent::AuthProvider>, provider_ref: Option<String>, logout: bool, error: Option<String>)
        ensures
            match old(self).page {
                InputPage::Login(l) => exists|la: LoginState|
                    #[trigger] catalog_applied(l, la, providers, provider_ref, logout, error) && rebuilt(InputPageSession { page: InputPage::Login(la), ..*old(self) }, *final(self)),
                _ => *final(self) == *old(self),
            },
    {
        let mut page = InputPage::Effort(EffortPage::loading());
        std::mem::swap(&mut page, &mut self.page);
        match page {
            InputPage::Login(mut login) => {
                let ghost l0 = login;
                login.apply_auth_catalog(providers, provider_ref, logout, error);
                let ghost la = login;
                self.page = InputPage::Login(login);
                let ghost mid = *self;
                self.rebuild_focus();
                proof {
                    assert(rebuilt(mid, *self));
                    assert(catalog_applied(l0, la, providers, provider_ref, logout, error));
                }
            },
            other => {
                self.page = other;
            },
        }
    }

    /// A native flow started on a login page.
    pub fn start_auth(&mut self, flow_id: String)
        ensures
            match old(self).page {
                InputPage::Login(l) => exists|la: LoginState|
                    #[trigger] auth_started(l, la, flow_id) && rebuilt(InputPageSession { page: InputPage::Login(la), ..*old(self) }, *final(self)),
                _ => *final(self) == *old(self),
            },
    {
        let mut page = InputPage::Effort(EffortPage::loading());
        std::mem::swap(&mut page, &mut self.page);
        match page {
            InputPage::Login(mut login) => {
                let ghost l0 = login;
                login.start_auth(flow_id);
                let ghost la = login;
                self.page = InputPage::Login(login);
                let ghost mid = *self;
                self.rebuild_focus();
                proof {
                    assert(rebuilt(mid, *self));
                    assert(auth_started(l0, la, flow_id));
                }
            },
            other => {
                self.page = other;
            },
        }
    }

    /// Show a prompt of the active flow on a login page.
    pub fn apply_auth_prompt(&mut self, prompt: crate::agent::AuthPrompt)
        ensures
            match old(self).page {
                InputPage::Login(l) => exists|la: LoginState|
                    #[trigger] prompt_applied(l, la, prompt) && rebuilt(InputPageSession { page: InputPage::Login(la), ..*old(self) }, *final(self)),
                _ => *final(self) == *old(self),
            },
    {
        let mut page = InputPage::Effort(EffortPage::loading());
        std::mem::swap(&mut page, &mut self.page);
        match page {
            InputPage::Login(mut login) => {
                let ghost l0 = login;
                login.apply_auth_prompt(prompt);
                let ghost la = login;
                self.page = InputPage::Login(login);
                let ghost mid = *self;
                self.rebuild_focus();
                proof {
                    assert(rebuilt(mid, *self));
                    assert(prompt_applied(l0, la, prompt));
                }
            },
            other => {
                self.page = other;
            },
        }
    }

    /// Take back a prompt shown on a login page.
    pub fn withdraw_auth_prompt(&mut self, flow_id: &str, prompt_id: &str)
        ensures
            match old(self).page {
                InputPage::Login(l) => exists|la: LoginState|
                    #[trigger] prompt_withdrawn(l, la, flow_id@, prompt_id@) && rebuilt(InputPageSession { page: InputPage::Login(la), ..*old(self) }, *final(self)),
                _ => *final(self) == *old(self),
            },
    {
        let mut page = InputPage::Effort(EffortPage::loading());
        std::mem::swap(&mut page, &mut self.page);
        match page {
            InputPage::Login(mut login) => {
                let ghost l0 = login;
                login.withdraw_auth_prompt(flow_id, prompt_id);
                let ghost la = login;
                self.page = InputPage::Login(login);
                let ghost mid = *self;
                self.rebuild_focus();
                proof {
                    assert(rebuilt(mid, *self));
                    assert(prompt_withdrawn(l0, la, flow_id@, prompt_id@));
                }
            },
            other => {
                self.page = other;
            },
        }
    }

    /// Keep a notice of the active flow on a login page.
    pub fn apply_auth_notice(&mut self, notice: crate::agent::AuthNotice)
        ensures
            match old(self).page {
                InputPage::Login(l) => exists|la: LoginState|
                    #[trigger] notice_applied(l, la, notice) && rebuilt(InputPageSession { page: InputPage::Login(la), ..*old(self) }, *final(self)),
                _ => *final(self) == *old(self),
            },
    {
        let mut page = InputPage::Effort(EffortPage::loading());
        std::mem::swap(&mut page, &mut self.page);
        match page {
            InputPage::Login(mut login) => {
                let ghost l0 = login;
                login.apply_auth_notice(notice);
                let ghost la = login;
                self.page = InputPage::Login(login);
                let ghost mid = *self;
                self.rebuild_focus();
                proof {
                    assert(rebuilt(mid, *self));
                    assert(notice_applied(l0, la, notice));
                }
            },
            other => {
                self.page = other;
            },
        }
    }

    /// Show the outcome of the active flow on a login page.
    pub fn finish_auth(&mut self, flow_id: &str, outcome: crate::agent::AuthOutcomeKind, message: String)
        ensures
            match old(self).page {
                InputPage::Login(l) => exists|la: LoginState|
                    #[trigger] auth_finished(l, la, flow_id@, outcome, message) && rebuilt(InputPageSession { page: InputPage::Login(la), ..*old(self) }, *final(self)),
                _ => *final(self) == *old(self),
            },
    {
        let mut page = InputPage::Effort(EffortPage::loading());
        std::mem::swap(&mut page, &mut self.page);
        match page {
            InputPage::Login(mut login) => {
                let ghost l0 = login;
                login.finish_auth(flow_id, outcome, message);
                let ghost la = login;
                self.page = InputPage::Login(login);
                let ghost mid = *self;
                self.rebuild_focus();
                proof {
                    assert(rebuilt(mid, *self));
                    assert(auth_finished(l0, la, flow_id@, outcome, message));
                }
            },
            other => {
                self.page = other;
            },
        }
    }

    /// Apply a model catalog to a model page.
    pub fn apply_model(&mut self, providers: Vec<ModelProvider>, current: Option<(String, String)>)
        ensures
            match old(self).page {
                InputPage::Model(m) => final(self).viewport == old(self).viewport && exists|m2: ModelPage|
                    final(self).page == InputPage::Model(m2) && #[trigger] model_catalog_applied(
                        m,
                        m2,
                        providers,
                        current,
                        old(self).focus,
                        final(self).focus,
                    ),
                _ => *final(self) == *old(self),
            },
    {
        let mut page = InputPage::Effort(EffortPage::loading());
        std::mem::swap(&mut page, &mut self.page);
        match page {
            InputPage::Model(mut model) => {
                let ghost m0 = model;
                model.apply_catalog(providers, current, &mut self.focus);
                let ghost m1 = model;
                self.page = InputPage::Model(model);
                proof {
                    assert(old(self).page == InputPage::Model(m0));
                    assert(self.page == InputPage::Model(m1));
                    assert(model_catalog_applied(m0, m1, providers, current, old(self).focus, self.focus));
                }
            },
            other => {
                self.page = other;
            },
        }
    }

    /// Apply the catalog to an effort page and rebuild its focus.
    pub fn apply_effort(&mut self, catalog: &CatalogModel)
        ensures
            match old(self).page {
                InputPage::Effort(e) => final(self).viewport == old(self).viewport && exists|e2: EffortPage|
                    final(self).page == InputPage::Effort(e2) && #[trigger] effort_catalog_applied(e, e2, *catalog)
                        && effort_rebuilt(e2, old(self).focus, final(self).focus),
                _ => *final(self) == *old(self),
            },
    {
        let mut page = InputPage::Effort(EffortPage::loading());
        std::mem::swap(&mut page, &mut self.page);
        match page {
            InputPage::Effort(mut effort) => {
                let ghost e0 = effort;
                effort.apply_catalog(catalog);
                effort.rebuild_focus(&mut self.focus);
                proof {
                    assert(effort_catalog_applied(e0, effort, *catalog));
                }
                self.page = InputPage::Effort(effort);
            },
            other => {
                self.page = other;
            },
        }
    }

    /// Paste text into the field being edited: a login edit or a free-text
    /// answer. Whether anything took it.
    pub fn paste(&mut self, text: &str) -> (r: bool)
        ensures
            match old(self).page {
                InputPage::Login(l) => match l.editing {
                    Some(buf) => r && (final(self).page matches InputPage::Login(la) && la == (LoginState { editing: la.editing, ..l })
                        && (la.editing matches Some(b) && b@ == buf@ + text@)),
                    None => !r && *final(self) == *old(self),
                },
                InputPage::Question(q) => if q.current_options_spec().len() == 0 {
                    r && (final(self).page matches InputPage::Question(q2) && q2 == (QuestionBatch { draft: q2.draft, ..q })
                        && q2.draft@ == q.draft@ + text@)
                } else {
                    !r && *final(self) == *old(self)
                },
                _ => !r && *final(self) == *old(self),
            },
            final(self).focus == old(self).focus,
            final(self).viewport == old(self).viewport,
    {
        let mut page = InputPage::Effort(EffortPage::loading());
        std::mem::swap(&mut page, &mut self.page);
        let (page, taken) = match page {
            InputPage::Login(mut login) => {
                let mut editing: Option<String> = None;
                std::mem::swap(&mut editing, &mut login.editing);
                match editing {
                    Some(mut buf) => {
                        push_str(&mut buf, text);
                        login.editing = Some(buf);
                        (InputPage::Login(login), true)
                    },
                    None => (InputPage::Login(login), false),
                }
            },
            InputPage::Question(mut question) => {
                if question.is_free_text() {
                    push_str(&mut question.draft, text);
                    (InputPage::Question(question), true)
                } else {
                    (InputPage::Question(question), false)
                }
            },
            other => (other, false),
        };
        self.page = page;
        taken
    }
}

} // verus!
