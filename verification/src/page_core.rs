//! Low-level Input Page primitives: focus navigation, text editing,
//! viewport anchoring, and generic page effects.
use vstd::prelude::*;

use crate::action::AgentRequest;
use crate::key_mapping::{Action, MappedKey};
use crate::text::{opt_view, push_char, str_eq};

verus! {

#[derive(Debug, Clone, Copy, PartialEq, Eq, Structural)]
pub enum Direction {
    Left,
    Down,
    Up,
    Right,
}

pub open spec fn direction_of(key: MappedKey) -> Option<Direction> {
    match key {
        MappedKey::Command(Action::MoveLeft) => Some(Direction::Left),
        MappedKey::Command(Action::MoveDown) | MappedKey::Command(Action::NextOption) => Some(Direction::Down),
        MappedKey::Command(Action::MoveUp) | MappedKey::Command(Action::PreviousOption) => Some(Direction::Up),
        MappedKey::Command(Action::MoveRight) => Some(Direction::Right),
        _ => None,
    }
}

pub fn direction_from_input(key: MappedKey) -> (r: Option<Direction>)
    ensures
        r == direction_of(key),
{
    match key {
        MappedKey::Command(Action::MoveLeft) => Some(Direction::Left),
        MappedKey::Command(Action::MoveDown) | MappedKey::Command(Action::NextOption) => Some(Direction::Down),
        MappedKey::Command(Action::MoveUp) | MappedKey::Command(Action::PreviousOption) => Some(Direction::Up),
        MappedKey::Command(Action::MoveRight) => Some(Direction::Right),
        _ => None,
    }
}

#[derive(Debug, Clone, PartialEq, Eq, Hash)]
pub struct FocusId(pub String);

impl FocusId {
    pub fn new(value: String) -> (r: FocusId)
        ensures
            r.0 == value,
    {
        FocusId(value)
    }
}

pub open spec fn opt_id(o: Option<FocusId>) -> Option<Seq<char>> {
    match o {
        Some(id) => Some(id.0@),
        None => None,
    }
}

fn copy_id(id: &FocusId) -> (r: FocusId)
    ensures
        r.0@ == id.0@,
{
    FocusId(id.0.clone())
}

fn copy_opt_id(id: &Option<FocusId>) -> (r: Option<FocusId>)
    ensures
        opt_id(r) == opt_id(*id),
{
    match id {
        Some(x) => Some(copy_id(x)),
        None => None,
    }
}

#[derive(Debug, Clone)]
pub struct FocusNode {
    pub id: FocusId,
    pub enabled: bool,
    pub left: Option<FocusId>,
    pub down: Option<FocusId>,
    pub up: Option<FocusId>,
    pub right: Option<FocusId>,
}

pub open spec fn neighbor_of(node: FocusNode, direction: Direction) -> Option<Seq<char>> {
    match direction {
        Direction::Left => opt_id(node.left),
        Direction::Down => opt_id(node.down),
        Direction::Up => opt_id(node.up),
        Direction::Right => opt_id(node.right),
    }
}

impl FocusNode {
    /// An enabled node with no neighbors.
    pub fn new(id: FocusId) -> (r: FocusNode)
        ensures
            r.id == id,
            r.enabled,
            r.left is None && r.down is None && r.up is None && r.right is None,
    {
        FocusNode { id, enabled: true, left: None, down: None, up: None, right: None }
    }

    fn neighbor(&self, direction: Direction) -> (r: &Option<FocusId>)
        ensures
            opt_id(*r) == neighbor_of(*self, direction),
    {
        match direction {
            Direction::Left => &self.left,
            Direction::Down => &self.down,
            Direction::Up => &self.up,
            Direction::Right => &self.right,
        }
    }
}

/// Index of the node with this id.
pub open spec fn node_index(nodes: Seq<FocusNode>, id: Seq<char>) -> Option<int>
    decreases nodes.len(),
{
    if nodes.len() == 0 {
        None
    } else if nodes.last().id.0@ == id {
        Some(nodes.len() - 1)
    } else {
        node_index(nodes.drop_last(), id)
    }
}

/// Nodes keyed by id: a later node replaces an earlier one with its id.
pub open spec fn keyed(nodes: Seq<FocusNode>) -> Seq<FocusNode>
    decreases nodes.len(),
{
    if nodes.len() == 0 {
        nodes
    } else {
        let k = keyed(nodes.drop_last());
        match node_index(k, nodes.last().id.0@) {
            Some(i) => k.update(i, nodes.last()),
            None => k.push(nodes.last()),
        }
    }
}

/// Ids of the enabled nodes, in the order given.
pub open spec fn enabled_ids(nodes: Seq<FocusNode>) -> Seq<Seq<char>>
    decreases nodes.len(),
{
    if nodes.len() == 0 {
        Seq::empty()
    } else if nodes.last().enabled {
        enabled_ids(nodes.drop_last()).push(nodes.last().id.0@)
    } else {
        enabled_ids(nodes.drop_last())
    }
}

/// The node with this id is present and enabled.
pub open spec fn enabled_in(nodes: Seq<FocusNode>, id: Seq<char>) -> bool {
    match node_index(nodes, id) {
        Some(i) => nodes[i].enabled,
        None => false,
    }
}

/// Follow `direction` from `next`, skipping disabled nodes, for at most
/// `steps` nodes: the first enabled node reached.
pub open spec fn chase(nodes: Seq<FocusNode>, next: Option<Seq<char>>, direction: Direction, steps: nat) -> Option<Seq<char>>
    decreases steps,
{
    if steps == 0 {
        None
    } else {
        match next {
            None => None,
            Some(id) => match node_index(nodes, id) {
                None => None,
                Some(i) => if nodes[i].enabled {
                    Some(id)
                } else {
                    chase(nodes, neighbor_of(nodes[i], direction), direction, (steps - 1) as nat)
                },
            },
        }
    }
}

/// Where focus goes from the node `id` toward `direction`: the first enabled
/// node along that direction, visiting at most as many nodes as there are.
pub open spec fn move_target(nodes: Seq<FocusNode>, id: Seq<char>, direction: Direction) -> Option<Seq<char>> {
    match node_index(nodes, id) {
        Some(i) => chase(nodes, neighbor_of(nodes[i], direction), direction, nodes.len()),
        None => None,
    }
}

/// A focus node as values: its id, whether it takes focus, and its neighbors.
pub struct NodeView {
    pub id: Seq<char>,
    pub enabled: bool,
    pub left: Option<Seq<char>>,
    pub down: Option<Seq<char>>,
    pub up: Option<Seq<char>>,
    pub right: Option<Seq<char>>,
}

pub open spec fn node_view(n: FocusNode) -> NodeView {
    NodeView {
        id: n.id.0@,
        enabled: n.enabled,
        left: opt_id(n.left),
        down: opt_id(n.down),
        up: opt_id(n.up),
        right: opt_id(n.right),
    }
}

pub open spec fn nodes_view(nodes: Seq<FocusNode>) -> Seq<NodeView> {
    nodes.map_values(|n: FocusNode| node_view(n))
}

/// `after` is `before` once its graph was replaced by `nodes`.
pub open spec fn replaced(before: FocusState, after: FocusState, nodes: Seq<FocusNode>) -> bool {
    &&& after.nodes_spec() == keyed(nodes)
    &&& after.order_spec() == enabled_ids(nodes)
    &&& opt_id(after.current_spec()) == match opt_id(before.current_spec()) {
        Some(id) => if enabled_in(keyed(nodes), id) {
            Some(id)
        } else if enabled_ids(nodes).len() > 0 {
            Some(enabled_ids(nodes)[0])
        } else {
            None
        },
        None => if enabled_ids(nodes).len() > 0 {
            Some(enabled_ids(nodes)[0])
        } else {
            None
        },
    }
}

/// `after` is `before` once the node `id` was asked to take focus.
pub open spec fn focus_set(before: FocusState, after: FocusState, id: Seq<char>) -> bool {
    &&& after.nodes_spec() == before.nodes_spec()
    &&& after.order_spec() == before.order_spec()
    &&& enabled_in(before.nodes_spec(), id) ==> opt_id(after.current_spec()) == Some(id)
    &&& !enabled_in(before.nodes_spec(), id) ==> after.current_spec() == before.current_spec()
}

/// Focus over a set of nodes; only enabled nodes take focus.
#[derive(Debug, Clone)]
pub struct FocusState {
    pub current: Option<FocusId>,
    nodes: Vec<FocusNode>,
    order: Vec<FocusId>,
}

impl FocusState {
    /// The focused id, if any.
    pub closed spec fn current_spec(&self) -> Option<FocusId> {
        self.current
    }

    /// The nodes by id.
    pub closed spec fn nodes_spec(&self) -> Seq<FocusNode> {
        self.nodes@
    }

    /// The enabled ids, in the order the nodes were given.
    pub closed spec fn order_spec(&self) -> Seq<Seq<char>> {
        self.order@.map_values(|id: FocusId| id.0@)
    }

    pub fn new() -> (r: FocusState)
        ensures
            r.current_spec() is None,
            r.nodes_spec().len() == 0,
            r.order_spec().len() == 0,
    {
        let r = FocusState { current: None, nodes: Vec::new(), order: Vec::new() };
        proof {
            assert(r.order_spec() =~= Seq::<Seq<char>>::empty());
        }
        r
    }

    fn find(&self, id: &str) -> (r: Option<usize>)
        ensures
            match r {
                Some(i) => node_index(self.nodes_spec(), id@) == Some(i as int) && i < self.nodes@.len(),
                None => node_index(self.nodes_spec(), id@) is None,
            },
    {
        let mut n = self.nodes.len();
        proof {
            assert(self.nodes@.take(n as int) =~= self.nodes@);
        }
        while n > 0
            invariant
                n <= self.nodes@.len(),
                node_index(self.nodes@, id@) == node_index(self.nodes@.take(n as int), id@),
            decreases n,
        {
            proof {
                assert(self.nodes@.take(n as int).drop_last() =~= self.nodes@.take(n - 1));
            }
            if str_eq(self.nodes[n - 1].id.0.as_str(), id) {
                return Some(n - 1);
            }
            n = n - 1;
        }
        None
    }

    /// Rebuild the focus graph, keeping the current focus when its node is
    /// still enabled, else focusing the first enabled node.
    pub fn replace(&mut self, nodes: Vec<FocusNode>)
        ensures
            replaced(*old(self), *final(self), nodes@),
            final(self).nodes_spec() == keyed(nodes@),
            final(self).order_spec() == enabled_ids(nodes@),
            opt_id(final(self).current_spec()) == match opt_id(old(self).current_spec()) {
                Some(id) => if enabled_in(keyed(nodes@), id) {
                    Some(id)
                } else if enabled_ids(nodes@).len() > 0 {
                    Some(enabled_ids(nodes@)[0])
                } else {
                    None
                },
                None => if enabled_ids(nodes@).len() > 0 {
                    Some(enabled_ids(nodes@)[0])
                } else {
                    None
                },
            },
    {
        let ghost given = nodes@;
        let mut order: Vec<FocusId> = Vec::new();
        let mut i: usize = 0;
        while i < nodes.len()
            invariant
                i <= nodes@.len(),
                given == nodes@,
                order@.map_values(|id: FocusId| id.0@) == enabled_ids(nodes@.take(i as int)),
            decreases nodes.len() - i,
        {
            proof {
                assert(nodes@.take(i + 1).drop_last() =~= nodes@.take(i as int));
            }
            if nodes[i].enabled {
                let ghost before = order@;
                order.push(copy_id(&nodes[i].id));
                proof {
                    assert(order@.map_values(|id: FocusId| id.0@) =~= before.map_values(|id: FocusId| id.0@).push(
                        nodes@[i as int].id.0@,
                    ));
                }
            }
            i = i + 1;
        }
        proof {
            assert(nodes@.take(i as int) =~= nodes@);
        }
        let mut rest = nodes;
        let mut reversed: Vec<FocusNode> = Vec::new();
        while rest.len() > 0
            invariant
                rest@ == given.take(rest@.len() as int),
                reversed@.len() + rest@.len() == given.len(),
                forall|k: int| 0 <= k < reversed@.len() ==> #[trigger] reversed@[k] == given[given.len() - 1 - k],
            decreases rest.len(),
        {
            let ghost n = rest@.len() as int;
            let node = rest.pop().unwrap();
            proof {
                assert(given.take(n - 1) =~= given.take(n).drop_last());
            }
            reversed.push(node);
        }
        let mut keyed_nodes: Vec<FocusNode> = Vec::new();
        std::mem::swap(&mut keyed_nodes, &mut self.nodes);
        keyed_nodes.clear();
        let mut j: usize = 0;
        let total = reversed.len();
        while reversed.len() > 0
            invariant
                reversed@.len() + j == given.len(),
                given.len() == total,
                forall|k: int| 0 <= k < reversed@.len() ==> #[trigger] reversed@[k] == given[given.len() - 1 - k],
                keyed_nodes@ == keyed(given.take(j as int)),
            decreases reversed.len(),
        {
            let node = reversed.pop().unwrap();
            proof {
                assert(node == given[j as int]);
                assert(given.take(j + 1).drop_last() =~= given.take(j as int));
                assert(given.take(j + 1).last() == node);
            }
            let mut n = keyed_nodes.len();
            let ghost kn = keyed_nodes@;
            proof {
                assert(kn.take(n as int) =~= kn);
            }
            while n > 0 && !str_eq(keyed_nodes[n - 1].id.0.as_str(), node.id.0.as_str())
                invariant
                    n <= keyed_nodes@.len(),
                    kn == keyed_nodes@,
                    node_index(kn, node.id.0@) == node_index(kn.take(n as int), node.id.0@),
                decreases n,
            {
                proof {
                    assert(kn.take(n as int).drop_last() =~= kn.take(n - 1));
                }
                n = n - 1;
            }
            if n > 0 {
                proof {
                    assert(kn.take(n as int).drop_last() =~= kn.take(n - 1));
                    assert(node_index(kn, node.id.0@) == Some(n - 1));
                }
                keyed_nodes.set(n - 1, node);
            } else {
                proof {
                    assert(kn.take(0) =~= Seq::<FocusNode>::empty());
                }
                keyed_nodes.push(node);
            }
            j = j + 1;
        }
        proof {
            assert(given.take(j as int) =~= given);
        }
        self.nodes = keyed_nodes;
        self.order = order;
        let previous = copy_opt_id(&self.current);
        let keep = match &previous {
            Some(id) => match self.find(id.0.as_str()) {
                Some(k) => self.nodes[k].enabled,
                None => false,
            },
            None => false,
        };
        if keep {
            self.current = previous;
        } else if self.order.len() > 0 {
            self.current = Some(copy_id(&self.order[0]));
        } else {
            self.current = None;
        }
    }

    /// Focus a node when it is present and enabled.
    pub fn set(&mut self, id: FocusId)
        ensures
            focus_set(*old(self), *final(self), id.0@),
            final(self).nodes_spec() == old(self).nodes_spec(),
            final(self).order_spec() == old(self).order_spec(),
            enabled_in(old(self).nodes_spec(), id.0@) ==> opt_id(final(self).current_spec()) == Some(id.0@),
            !enabled_in(old(self).nodes_spec(), id.0@) ==> final(self).current_spec() == old(self).current_spec(),
    {
        let enabled = match self.find(id.0.as_str()) {
            Some(k) => self.nodes[k].enabled,
            None => false,
        };
        if enabled {
            self.current = Some(id);
        }
    }

    /// Move focus toward `direction`, skipping disabled nodes. Without a
    /// focus, the first enabled node takes it.
    pub fn move_in(&mut self, direction: Direction) -> (moved: bool)
        ensures
            final(self).nodes_spec() == old(self).nodes_spec(),
            final(self).order_spec() == old(self).order_spec(),
            match opt_id(old(self).current_spec()) {
                None => moved == (old(self).order_spec().len() > 0) && opt_id(final(self).current_spec()) == if old(self).order_spec().len() > 0 {
                    Some(old(self).order_spec()[0])
                } else {
                    None
                },
                Some(id) => {
                    let target = move_target(old(self).nodes_spec(), id, direction);
                    &&& moved == target is Some
                    &&& moved ==> opt_id(final(self).current_spec()) == target
                    &&& !moved ==> final(self).current_spec() == old(self).current_spec()
                },
            },
            !moved ==> *final(self) == *old(self),
    {
        let current = match &self.current {
            Some(c) => copy_id(c),
            None => {
                if self.order.len() > 0 {
                    self.current = Some(copy_id(&self.order[0]));
                    return true;
                } else {
                    self.current = None;
                    return false;
                }
            },
        };
        proof {
            assert(opt_id(old(self).current_spec()) == Some(current.0@));
        }
        let mut next = match self.find(current.0.as_str()) {
            Some(k) => {
                proof {
                    assert(node_index(old(self).nodes_spec(), current.0@) == Some(k as int));
                }
                copy_opt_id(self.nodes[k].neighbor(direction))
            },
            None => {
                proof {
                    assert(node_index(old(self).nodes_spec(), current.0@) is None);
                }
                return false;
            },
        };
        let ghost nodes = self.nodes@;
        let ghost target = chase(nodes, opt_id(next), direction, nodes.len());
        let n = self.nodes.len();
        let mut steps: usize = 0;
        while steps < n
            invariant
                nodes == self.nodes@,
                *self == *old(self),
                n == nodes.len(),
                steps <= n,
                target == chase(nodes, opt_id(next), direction, (n - steps) as nat),
                opt_id(old(self).current_spec()) == Some(current.0@),
                target == move_target(nodes, current.0@, direction),
            decreases n - steps,
        {
            let candidate = match &next {
                Some(c) => copy_id(c),
                None => return false,
            };
            let k = match self.find(candidate.0.as_str()) {
                Some(k) => k,
                None => return false,
            };
            if self.nodes[k].enabled {
                self.current = Some(candidate);
                return true;
            }
            next = copy_opt_id(self.nodes[k].neighbor(direction));
            steps = steps + 1;
        }
        false
    }

    /// The focused id, if any.
    pub fn current_ref(&self) -> (r: &Option<FocusId>)
        ensures
            *r == self.current_spec(),
    {
        &self.current
    }

    pub fn is(&self, id: &FocusId) -> (r: bool)
        ensures
            r == (opt_id(self.current_spec()) == Some(id.0@)),
    {
        match &self.current {
            Some(c) => str_eq(c.0.as_str(), id.0.as_str()),
            None => false,
        }
    }
}

impl Default for FocusState {
    fn default() -> (r: FocusState)
        ensures
            r.current_spec() is None,
            r.nodes_spec().len() == 0,
    {
        FocusState::new()
    }
}

#[derive(Debug, Clone, PartialEq, Eq)]
pub struct TextEditor {
    pub buf: String,
    pub secret: bool,
}

#[derive(Debug, Clone, PartialEq, Eq)]
pub enum TextEditResult {
    Continue,
    Confirm(String),
    Cancel,
}

/// One key in a text field: confirm hands the text over and empties the
/// field, cancel leaves it, backspace drops the last character, text is
/// appended.
pub fn handle_text_input(editor: &mut TextEditor, key: MappedKey) -> (r: TextEditResult)
    ensures
        final(editor).secret == old(editor).secret,
        match key {
            MappedKey::Command(Action::Confirm) => r matches TextEditResult::Confirm(t) && t@ == old(editor).buf@ && final(editor).buf@.len() == 0,
            MappedKey::Command(Action::Cancel) => r == TextEditResult::Cancel && final(editor).buf@ == old(editor).buf@,
            MappedKey::Command(Action::DeleteBackward) => r == TextEditResult::Continue && final(editor).buf@ == if old(editor).buf@.len() > 0 {
                old(editor).buf@.drop_last()
            } else {
                old(editor).buf@
            },
            MappedKey::Text(c) => r == TextEditResult::Continue && final(editor).buf@ == old(editor).buf@.push(c),
            _ => r == TextEditResult::Continue && final(editor).buf@ == old(editor).buf@,
        },
{
    match key {
        MappedKey::Command(Action::Confirm) => {
            let mut taken = String::new();
            std::mem::swap(&mut taken, &mut editor.buf);
            TextEditResult::Confirm(taken)
        },
        MappedKey::Command(Action::Cancel) => TextEditResult::Cancel,
        MappedKey::Command(Action::DeleteBackward) => {
            let v = crate::text::chars_of(editor.buf.as_str());
            if v.len() > 0 {
                editor.buf = crate::text::string_of_range(v.as_slice(), 0, v.len() - 1);
                proof {
                    assert(v@.subrange(0, v@.len() - 1) =~= v@.drop_last());
                }
            }
            TextEditResult::Continue
        },
        MappedKey::Text(c) => {
            push_char(&mut editor.buf, c);
            TextEditResult::Continue
        },
        _ => TextEditResult::Continue,
    }
}

#[derive(Debug, Clone, Copy, PartialEq, Eq, Structural)]
pub struct ViewportState {
    pub start: usize,
}

/// `a + b`, held at `usize::MAX`.
pub open spec fn sat_add(a: nat, b: nat) -> nat {
    if a + b > usize::MAX {
        usize::MAX as nat
    } else {
        a + b
    }
}

/// `a - b`, held at zero.
pub open spec fn sat_sub(a: nat, b: nat) -> nat {
    if a > b {
        (a - b) as nat
    } else {
        0
    }
}

/// The first visible row after scrolling `index` into a window of
/// `visible` rows over `total`.
pub open spec fn visible_start(start: nat, index: nat, visible: nat, total: nat) -> nat {
    if visible == 0 || total == 0 {
        0
    } else {
        let moved = if index < start {
            index
        } else if index >= sat_add(start, visible) {
            sat_sub(sat_add(index, 1), visible)
        } else {
            start
        };
        let max_start = sat_sub(total, if visible < total {
            visible
        } else {
            total
        });
        if moved < max_start {
            moved
        } else {
            max_start
        }
    }
}

impl ViewportState {
    pub fn new() -> (r: ViewportState)
        ensures
            r.start == 0,
    {
        ViewportState { start: 0 }
    }

    /// Scroll the least distance that shows `index`, never past the end:
    /// the window always fits in `total`, and holds `index` when it is a row.
    pub fn ensure_visible(&mut self, index: usize, visible: usize, total: usize)
        ensures
            final(self).start == visible_start(old(self).start as nat, index as nat, visible as nat, total as nat),
            final(self).start + (if visible < total { visible } else { total }) <= total,
            visible > 0 && index < total ==> final(self).start <= index < final(self).start + visible,
    {
        if visible == 0 || total == 0 {
            self.start = 0;
            return ;
        }
        let end = if self.start > usize::MAX - visible {
            usize::MAX
        } else {
            self.start + visible
        };
        if index < self.start {
            self.start = index;
        } else if index >= end {
            let past = if index == usize::MAX {
                usize::MAX
            } else {
                index + 1
            };
            self.start = if past > visible {
                past - visible
            } else {
                0
            };
        }
        let shown = if visible < total {
            visible
        } else {
            total
        };
        let max_start = total - shown;
        if self.start > max_start {
            self.start = max_start;
        }
    }
}

impl Default for ViewportState {
    fn default() -> (r: ViewportState)
        ensures
            r.start == 0,
    {
        ViewportState::new()
    }
}

pub enum PageEffect {
    Send(AgentRequest),
    ConfigChanged,
    WriteClipboard(String),
}

/// What handling one key in a page asks of its owner.
pub struct PageOutcome {
    pub close: bool,
    pub effects: Vec<PageEffect>,
}

impl PageOutcome {
    pub fn none() -> (r: PageOutcome)
        ensures
            !r.close,
            r.effects@.len() == 0,
    {
        PageOutcome { close: false, effects: Vec::new() }
    }

    pub fn close() -> (r: PageOutcome)
        ensures
            r.close,
            r.effects@.len() == 0,
    {
        PageOutcome { close: true, effects: Vec::new() }
    }

    pub fn send(message: AgentRequest, close: bool) -> (r: PageOutcome)
        ensures
            r.close == close,
            r.effects@.len() == 1,
            r.effects@[0] == PageEffect::Send(message),
    {
        let mut effects: Vec<PageEffect> = Vec::new();
        effects.push(PageEffect::Send(message));
        PageOutcome { close, effects }
    }
}

/// The node `i` of a linear list: linked to its neighbors left and right
/// when `horizontal`, else up and down.
pub open spec fn linear_node(ids: Seq<Seq<char>>, i: int, horizontal: bool) -> NodeView {
    let previous = if i > 0 {
        Some(ids[i - 1])
    } else {
        None
    };
    let next = if i + 1 < ids.len() {
        Some(ids[i + 1])
    } else {
        None
    };
    NodeView {
        id: ids[i],
        enabled: true,
        left: if horizontal {
            previous
        } else {
            None
        },
        down: if horizontal {
            None
        } else {
            next
        },
        up: if horizontal {
            None
        } else {
            previous
        },
        right: if horizontal {
            next
        } else {
            None
        },
    }
}

/// A linear focus list over `ids`.
pub open spec fn linear_graph(ids: Seq<Seq<char>>, horizontal: bool) -> Seq<NodeView> {
    Seq::new(ids.len(), |i: int| linear_node(ids, i, horizontal))
}

/// Focus nodes for a list of ids, in order, each linked to its neighbors.
pub fn linear_focus_nodes(ids: &[FocusId], horizontal: bool) -> (r: Vec<FocusNode>)
    ensures
        nodes_view(r@) == linear_graph(ids@.map_values(|id: FocusId| id.0@), horizontal),
{
    let ghost v = ids@.map_values(|id: FocusId| id.0@);
    let mut nodes: Vec<FocusNode> = Vec::new();
    let mut i: usize = 0;
    while i < ids.len()
        invariant
            v == ids@.map_values(|id: FocusId| id.0@),
            i <= ids@.len(),
            nodes@.len() == i,
            forall|k: int| 0 <= k < i ==> node_view(#[trigger] nodes@[k]) == linear_node(v, k, horizontal),
        decreases ids.len() - i,
    {
        let mut node = FocusNode::new(copy_id(&ids[i]));
        let previous = if i > 0 {
            Some(copy_id(&ids[i - 1]))
        } else {
            None
        };
        let next = if i + 1 < ids.len() {
            Some(copy_id(&ids[i + 1]))
        } else {
            None
        };
        if horizontal {
            node.left = previous;
            node.right = next;
        } else {
            node.up = previous;
            node.down = next;
        }
        nodes.push(node);
        i = i + 1;
    }
    proof {
        assert(nodes_view(nodes@) =~= linear_graph(v, horizontal));
    }
    nodes
}

} // verus!
