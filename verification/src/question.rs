//! Retained state for one blocking agent-question batch.
use vstd::prelude::*;

use crate::action::QuestionAnswer;
use crate::agent::{Question, QuestionOption};
use crate::text::{push_char, strs_view, trim, trimmed};

verus! {

/// One pending user-question batch. `current` is the visible question;
/// `sel` and `draft` mirror that question's retained option and text state
/// while the batch is navigated.
#[derive(Debug, Clone)]
pub struct QuestionBatch {
    pub rpc_id: String,
    pub session_id: String,
    pub questions: Vec<Question>,
    pub current: usize,
    pub sel: usize,
    pub draft: String,
    /// The retained highlight of each question.
    pub selections: Vec<usize>,
    /// The explicit choices of each question, in increasing order.
    pub chosen: Vec<Vec<usize>>,
    /// The retained text of each question.
    pub drafts: Vec<String>,
}

/// The options a question offers; none for a free-text question.
pub open spec fn options_of(q: Question) -> Seq<QuestionOption> {
    match q.options {
        Some(o) => o@,
        None => Seq::empty(),
    }
}

pub open spec fn strictly_increasing(s: Seq<usize>) -> bool {
    forall|i: int, j: int| 0 <= i < j < s.len() ==> s[i] < s[j]
}

/// `s` with `x` removed when present, added when absent.
pub open spec fn toggled(s: Set<usize>, x: usize) -> Set<usize> {
    if s.contains(x) {
        s.remove(x)
    } else {
        s.insert(x)
    }
}

/// `a - b`, or zero.
pub open spec fn sat_sub(a: int, b: int) -> int {
    if a > b {
        a - b
    } else {
        0
    }
}

/// Move an index by `delta`, clamped to `0..=last`.
pub open spec fn stepped(at: usize, delta: isize, last: int) -> int {
    if delta < 0 {
        sat_sub(at as int, -delta)
    } else if at + delta < last {
        at + delta
    } else {
        last
    }
}

/// The labels of the chosen options that exist, in choice order.
pub open spec fn chosen_labels(options: Seq<QuestionOption>, chosen: Seq<usize>) -> Seq<Seq<char>>
    decreases chosen.len(),
{
    if chosen.len() == 0 {
        Seq::empty()
    } else {
        let rest = chosen_labels(options, chosen.drop_last());
        if chosen.last() < options.len() {
            rest.push(options[chosen.last() as int].label@)
        } else {
            rest
        }
    }
}

/// The retained answer to one question: trimmed text for a free-text
/// question, the chosen labels for a multi-select one, else the explicit
/// choice or the highlighted option.
pub open spec fn answer_of(q: Question, selection: usize, chosen: Seq<usize>, draft: Seq<char>) -> (Seq<char>, Seq<Seq<char>>, Option<Seq<char>>) {
    let options = options_of(q);
    if options.len() == 0 {
        (q.id@, Seq::empty(), if trim(draft).len() == 0 {
            None
        } else {
            Some(trim(draft))
        })
    } else if q.multi_select {
        (q.id@, chosen_labels(options, chosen), None)
    } else {
        let pick = if chosen.len() > 0 {
            chosen[0]
        } else {
            selection
        };
        let index = if pick < options.len() - 1 {
            pick as int
        } else {
            options.len() - 1
        };
        (q.id@, seq![options[index].label@], None)
    }
}

pub open spec fn answer_view(a: QuestionAnswer) -> (Seq<char>, Seq<Seq<char>>, Option<Seq<char>>) {
    (a.id@, strs_view(a.selected@), crate::text::opt_view(a.custom))
}

proof fn lemma_remove_sorted(s: Seq<usize>, k: int)
    requires
        strictly_increasing(s),
        0 <= k < s.len(),
    ensures
        strictly_increasing(s.remove(k)),
        s.remove(k).to_set() == s.to_set().remove(s[k]),
{
    let r = s.remove(k);
    assert forall|x: usize| r.to_set().contains(x) <==> s.to_set().remove(s[k]).contains(x) by {
        if r.to_set().contains(x) {
            let j = choose|j: int| 0 <= j < r.len() && r[j] == x;
            if j < k {
                assert(s[j] == x);
            } else {
                assert(s[j + 1] == x);
            }
        }
        if s.to_set().remove(s[k]).contains(x) {
            let j = choose|j: int| 0 <= j < s.len() && s[j] == x;
            if j < k {
                assert(r[j] == x);
            } else {
                assert(r[j - 1] == x);
            }
        }
    }
    assert(r.to_set() =~= s.to_set().remove(s[k]));
}

proof fn lemma_insert_sorted(s: Seq<usize>, k: int, x: usize)
    requires
        strictly_increasing(s),
        0 <= k <= s.len(),
        forall|j: int| 0 <= j < k ==> s[j] < x,
        k < s.len() ==> s[k] > x,
    ensures
        strictly_increasing(s.insert(k, x)),
        s.insert(k, x).to_set() == s.to_set().insert(x),
        !s.to_set().contains(x),
{
    let r = s.insert(k, x);
    assert forall|i: int, j: int| 0 <= i < j < r.len() implies r[i] < r[j] by {
        if j < k {
        } else if j == k {
        } else if i < k {
            assert(r[j] == s[j - 1]);
            if j - 1 > k {
                assert(s[k] < s[j - 1]);
            }
        } else if i == k {
            assert(r[j] == s[j - 1]);
            if j - 1 > k {
                assert(s[k] < s[j - 1]);
            }
        } else {
            assert(r[i] == s[i - 1] && r[j] == s[j - 1]);
        }
    }
    assert forall|y: usize| r.to_set().contains(y) <==> s.to_set().insert(x).contains(y) by {
        if r.to_set().contains(y) {
            let j = choose|j: int| 0 <= j < r.len() && r[j] == y;
            if j < k {
                assert(s[j] == y);
            } else if j > k {
                assert(s[j - 1] == y);
            }
        }
        if s.to_set().contains(y) {
            let j = choose|j: int| 0 <= j < s.len() && s[j] == y;
            if j < k {
                assert(r[j] == y);
            } else {
                assert(r[j + 1] == y);
            }
        }
        if y == x {
            assert(r[k] == x);
        }
    }
    assert(r.to_set() =~= s.to_set().insert(x));
    if s.to_set().contains(x) {
        let j = choose|j: int| 0 <= j < s.len() && s[j] == x;
        if j >= k && k < s.len() {
            if j > k {
                assert(s[k] < s[j]);
            }
        }
    }
}

/// `after` is `before` once it moved `delta` questions.
pub open spec fn stepped_question(before: QuestionBatch, after: QuestionBatch, delta: isize) -> bool {
    &&& (after.wf())
    &&& (before.questions@.len() == 0 ==> after == before)
    &&& (before.questions@.len() > 0 ==> {
                let c = before.current;
                let saved_sel = if c < before.questions@.len() {
                    before.selections_spec().update(c as int, before.sel)
                } else {
                    before.selections_spec()
                };
                let saved_drafts = if c < before.questions@.len() {
                    before.drafts_spec().update(c as int, before.draft@)
                } else {
                    before.drafts_spec()
                };
                let next = stepped(c, delta, before.questions@.len() - 1);
                &&& after.current == next
                &&& after.selections_spec() == saved_sel
                &&& after.drafts_spec() == saved_drafts
                &&& after.sel == if next < before.questions@.len() {
                    saved_sel[next]
                } else {
                    0
                }
                &&& after.draft@ == if next < before.questions@.len() {
                    saved_drafts[next]
                } else {
                    Seq::empty()
                }
                &&& after.chosen_spec() == before.chosen_spec()
                &&& after.questions == before.questions
                &&& after.rpc_id == before.rpc_id
                &&& after.session_id == before.session_id
            })
}

/// `after` is `before` once the highlighted option was toggled.
pub open spec fn toggled_selection(before: QuestionBatch, after: QuestionBatch) -> bool {
    &&& (after.wf())
    &&& (after.selections_spec() == before.selections_spec())
    &&& (after.drafts_spec() == before.drafts_spec())
    &&& (after.current == before.current)
    &&& (after.sel == before.sel)
    &&& (after.questions == before.questions)
    &&& (after.draft == before.draft)
    &&& ((before.current >= before.questions@.len() || before.current_options_spec().len()
                == 0 || before.sel >= before.current_options_spec().len())
                ==> after.chosen_spec() == before.chosen_spec())
    &&& (!(before.current >= before.questions@.len() || before.current_options_spec().len()
                == 0 || before.sel >= before.current_options_spec().len()) ==> {
                let c = before.current as int;
                &&& after.chosen_spec().len() == before.chosen_spec().len()
                &&& forall|k: int| 0 <= k < before.chosen_spec().len() && k != c ==> #[trigger] after.chosen_spec()[k] == before.chosen_spec()[k]
                &&& if before.questions@[c].multi_select {
                    after.chosen_spec()[c].to_set() == toggled(before.chosen_spec()[c].to_set(), before.sel)
                } else {
                    after.chosen_spec()[c] == seq![before.sel]
                }
            })
}

/// `after` is `before` once `c` was typed.
pub open spec fn typed_char(before: QuestionBatch, after: QuestionBatch, c: char) -> bool {
    &&& (after == if before.current_options_spec().len() == 0 {
                QuestionBatch { draft: after.draft, ..before }
            } else {
                before
            })
    &&& (before.current_options_spec().len() == 0 ==> after.draft@ == before.draft@.push(c))
}

/// `after` is `before` once backspace was pressed.
pub open spec fn erased_char(before: QuestionBatch, after: QuestionBatch) -> bool {
    &&& (after == if before.current_options_spec().len() == 0 {
                QuestionBatch { draft: after.draft, ..before }
            } else {
                before
            })
    &&& (before.current_options_spec().len() == 0 ==> after.draft@ == if before.draft@.len() > 0 {
                before.draft@.drop_last()
            } else {
                before.draft@
            })
}

/// `after` and `r` follow from `before` once enter was pressed.
pub open spec fn entered(before: QuestionBatch, after: QuestionBatch, r: Option<Vec<QuestionAnswer>>) -> bool {
    &&& (after.wf())
    &&& (before.current >= before.questions@.len() ==> (r matches Some(v) && v@.len() == 0) && after == before)
    &&& (before.current + 1 == before.questions@.len() ==> after.current == before.current && after.questions
        == before.questions)
    &&& (before.current < before.questions@.len() && before.current + 1 < before.questions@.len()
                ==> r is None && after.current == before.current + 1)
    &&& (before.current + 1 == before.questions@.len() ==> (r matches Some(v) && v@.len()
                == before.questions@.len() && forall|k: int| 0 <= k < v@.len() ==> answer_view(#[trigger] v@[k]) == answer_of(
                    after.questions@[k],
                    after.selections_spec()[k],
                    after.chosen_spec()[k],
                    after.drafts_spec()[k],
                )))
}

impl QuestionBatch {
    /// Per-question state exists for every question, and explicit choices
    /// are kept in increasing order.
    pub open spec fn wf(&self) -> bool {
        &&& self.selections@.len() == self.questions@.len()
        &&& self.chosen@.len() == self.questions@.len()
        &&& self.drafts@.len() == self.questions@.len()
        &&& forall|k: int| 0 <= k < self.chosen@.len() ==> strictly_increasing(#[trigger] self.chosen@[k]@)
    }

    /// The retained highlight of each question.
    pub open spec fn selections_spec(&self) -> Seq<usize> {
        self.selections@
    }

    /// The explicit choices of each question.
    pub open spec fn chosen_spec(&self) -> Seq<Seq<usize>> {
        self.chosen@.map_values(|c: Vec<usize>| c@)
    }

    /// The retained text of each question.
    pub open spec fn drafts_spec(&self) -> Seq<Seq<char>> {
        strs_view(self.drafts@)
    }

    pub open spec fn current_options_spec(&self) -> Seq<QuestionOption> {
        if self.current < self.questions@.len() {
            options_of(self.questions@[self.current as int])
        } else {
            Seq::empty()
        }
    }

    pub fn new(rpc_id: String, session_id: String, questions: Vec<Question>) -> (r: QuestionBatch)
        ensures
            r.wf(),
            r.rpc_id == rpc_id,
            r.session_id == session_id,
            r.questions@ == questions@,
            r.current == 0,
            r.sel == 0,
            r.draft@.len() == 0,
            r.selections_spec() == Seq::new(questions@.len(), |k: int| 0usize),
            r.chosen_spec() == Seq::new(questions@.len(), |k: int| Seq::<usize>::empty()),
            r.drafts_spec() == Seq::new(questions@.len(), |k: int| Seq::<char>::empty()),
    {
        let count = questions.len();
        let mut selections: Vec<usize> = Vec::new();
        let mut chosen: Vec<Vec<usize>> = Vec::new();
        let mut drafts: Vec<String> = Vec::new();
        let mut i: usize = 0;
        while i < count
            invariant
                i <= count,
                selections@.len() == i,
                chosen@.len() == i,
                drafts@.len() == i,
                forall|k: int| 0 <= k < i ==> #[trigger] selections@[k] == 0,
                forall|k: int| 0 <= k < i ==> (#[trigger] chosen@[k])@.len() == 0,
                forall|k: int| 0 <= k < i ==> (#[trigger] drafts@[k])@.len() == 0,
            decreases count - i,
        {
            selections.push(0);
            chosen.push(Vec::new());
            drafts.push(String::new());
            i = i + 1;
        }
        let r = QuestionBatch {
            rpc_id,
            session_id,
            questions,
            current: 0,
            sel: 0,
            draft: String::new(),
            selections,
            chosen,
            drafts,
        };
        proof {
            assert(r.selections_spec() =~= Seq::new(count as nat, |k: int| 0usize));
            assert forall|k: int| 0 <= k < count implies #[trigger] r.chosen_spec()[k] =~= Seq::<usize>::empty() by {
                assert(r.chosen_spec()[k] == r.chosen@[k]@);
            }
            assert forall|k: int| 0 <= k < count implies #[trigger] r.drafts_spec()[k] =~= Seq::<char>::empty() by {
                assert(r.drafts_spec()[k] == r.drafts@[k]@);
            }
            assert(r.chosen_spec() =~= Seq::new(count as nat, |k: int| Seq::<usize>::empty()));
            assert(r.drafts_spec() =~= Seq::new(count as nat, |k: int| Seq::<char>::empty()));
        }
        r
    }

    /// Options of the question being answered (empty = free-text question).
    pub fn current_options(&self) -> (r: &[QuestionOption])
        ensures
            r@ == self.current_options_spec(),
    {
        if self.current < self.questions.len() {
            match &self.questions[self.current].options {
                Some(o) => o.as_slice(),
                None => &[],
            }
        } else {
            &[]
        }
    }

    pub fn is_free_text(&self) -> (r: bool)
        ensures
            r == (self.current_options_spec().len() == 0),
    {
        self.current_options().len() == 0
    }

    /// Move the highlighted option (nothing for free text), remembering it
    /// for the question.
    pub fn step(&mut self, delta: isize)
        requires
            old(self).wf(),
            delta >= 0 ==> old(self).sel + delta <= usize::MAX,
        ensures
            final(self).wf(),
            old(self).current_options_spec().len() == 0 ==> *final(self) == *old(self),
            old(self).current_options_spec().len() > 0 ==> {
                let next = stepped(old(self).sel, delta, old(self).current_options_spec().len() - 1);
                &&& final(self).sel == next
                &&& final(self).selections_spec() == old(self).selections_spec().update(old(self).current as int, next as usize)
                &&& final(self).chosen_spec() == old(self).chosen_spec()
                &&& final(self).drafts_spec() == old(self).drafts_spec()
                &&& final(self).current == old(self).current
                &&& final(self).questions == old(self).questions
                &&& final(self).draft == old(self).draft
            },
    {
        let n = self.current_options().len();
        if n == 0 {
            return ;
        }
        let next = if delta < 0 {
            let back: usize = (-(delta + 1)) as usize + 1;
            self.sel.saturating_sub(back)
        } else {
            let ahead = self.sel + delta as usize;
            if ahead < n - 1 {
                ahead
            } else {
                n - 1
            }
        };
        self.sel = next;
        if self.current < self.selections.len() {
            self.selections.set(self.current, next);
        }
    }

    /// Choose the highlighted option without changing questions: toggle it
    /// in a multi-select question, make it the only choice otherwise.
    pub fn toggle_selection(&mut self)
        requires
            old(self).wf(),
        ensures
            toggled_selection(*old(self), *final(self)),

    {
        if self.current >= self.questions.len() {
            return ;
        }
        let option_count = match &self.questions[self.current].options {
            Some(o) => o.len(),
            None => 0,
        };
        if option_count == 0 || self.sel >= option_count {
            return ;
        }
        let c = self.current;
        let sel = self.sel;
        let ghost before = self.chosen@;
        let old_chosen = &self.chosen[c];
        let ghost oc = old_chosen@;
        let mut next: Vec<usize> = Vec::new();
        if self.questions[c].multi_select {
            let mut k: usize = 0;
            while k < old_chosen.len() && old_chosen[k] < sel
                invariant
                    k <= oc.len(),
                    oc == old_chosen@,
                    forall|j: int| 0 <= j < k ==> oc[j] < sel,
                decreases old_chosen.len() - k,
            {
                k = k + 1;
            }
            next = old_chosen.clone();
            proof {
                assert(next@ =~= oc);
            }
            if k < next.len() && next[k] == sel {
                next.remove(k);
                proof {
                    lemma_remove_sorted(oc, k as int);
                }
            } else {
                next.insert(k, sel);
                proof {
                    lemma_insert_sorted(oc, k as int, sel);
                }
            }
        } else {
            next.push(sel);
            proof {
                assert(next@ =~= seq![sel]);
            }
        }
        self.chosen.set(c, next);
        proof {
            assert forall|k: int| 0 <= k < self.chosen@.len() implies strictly_increasing(#[trigger] self.chosen@[k]@) by {
                if k != c {
                    assert(self.chosen@[k] == before[k]);
                }
            }
        }
    }

    pub fn is_option_selected(&self, option: usize) -> (r: bool)
        requires
            self.wf(),
        ensures
            r == (self.current < self.questions@.len() && self.chosen_spec()[self.current as int].contains(option)),
    {
        if self.current >= self.chosen.len() {
            return false;
        }
        let chosen = &self.chosen[self.current];
        let mut i: usize = 0;
        while i < chosen.len()
            invariant
                i <= chosen@.len(),
                self.wf(),
                self.current < self.chosen@.len(),
                chosen@ == self.chosen@[self.current as int]@,
                forall|k: int| 0 <= k < i ==> chosen@[k] != option,
            decreases chosen.len() - i,
        {
            if chosen[i] == option {
                proof {
                    assert(self.chosen_spec()[self.current as int] == chosen@);
                    assert(self.chosen_spec()[self.current as int][i as int] == option);
                }
                return true;
            }
            i = i + 1;
        }
        proof {
            assert(self.chosen_spec()[self.current as int] == chosen@);
        }
        false
    }

    fn save_current(&mut self)
        requires
            old(self).wf(),
        ensures
            final(self).wf(),
            final(self).selections_spec() == if old(self).current < old(self).questions@.len() {
                old(self).selections_spec().update(old(self).current as int, old(self).sel)
            } else {
                old(self).selections_spec()
            },
            final(self).drafts_spec() == if old(self).current < old(self).questions@.len() {
                old(self).drafts_spec().update(old(self).current as int, old(self).draft@)
            } else {
                old(self).drafts_spec()
            },
            final(self).chosen_spec() == old(self).chosen_spec(),
            final(self).current == old(self).current,
            final(self).sel == old(self).sel,
            final(self).draft == old(self).draft,
            final(self).questions == old(self).questions,
            final(self).rpc_id == old(self).rpc_id,
            final(self).session_id == old(self).session_id,
    {
        if self.current < self.selections.len() {
            self.selections.set(self.current, self.sel);
        }
        if self.current < self.drafts.len() {
            let ghost before = self.drafts@;
            self.drafts.set(self.current, self.draft.clone());
            proof {
                assert(strs_view(self.drafts@) =~= strs_view(before).update(self.current as int, self.draft@));
            }
        }
    }

    /// Move between questions, retaining each one's highlight and text.
    pub fn step_question(&mut self, delta: isize)
        requires
            old(self).wf(),
            delta >= 0 ==> old(self).current + delta <= usize::MAX,
        ensures
            stepped_question(*old(self), *final(self), delta),

    {
        if self.questions.len() == 0 {
            return ;
        }
        self.save_current();
        let last = self.questions.len() - 1;
        self.current = if delta < 0 {
            let back: usize = (-(delta + 1)) as usize + 1;
            self.current.saturating_sub(back)
        } else {
            let ahead = self.current + delta as usize;
            if ahead < last {
                ahead
            } else {
                last
            }
        };
        if self.current < self.selections.len() {
            self.sel = self.selections[self.current];
            self.draft = self.drafts[self.current].clone();
        } else {
            self.sel = 0;
            self.draft = String::new();
        }
    }

    /// A printable key for the current free-text question.
    pub fn push_char(&mut self, c: char)
        ensures
            typed_char(*old(self), *final(self), c),

    {
        if self.is_free_text() {
            push_char(&mut self.draft, c);
        }
    }

    /// Backspace for the current free-text question.
    pub fn backspace(&mut self)
        ensures
            erased_char(*old(self), *final(self)),

    {
        if self.is_free_text() {
            let v = crate::text::chars_of(self.draft.as_str());
            if v.len() > 0 {
                self.draft = crate::text::string_of_range(v.as_slice(), 0, v.len() - 1);
                proof {
                    assert(v@.subrange(0, v@.len() - 1) =~= v@.drop_last());
                }
            }
        }
    }

    fn answer_for(&self, index: usize) -> (r: QuestionAnswer)
        requires
            self.wf(),
            index < self.questions@.len(),
        ensures
            answer_view(r) == answer_of(
                self.questions@[index as int],
                self.selections_spec()[index as int],
                self.chosen_spec()[index as int],
                self.drafts_spec()[index as int],
            ),
    {
        let question = &self.questions[index];
        let empty: Vec<QuestionOption> = Vec::new();
        let options: &Vec<QuestionOption> = match &question.options {
            Some(o) => o,
            None => &empty,
        };
        proof {
            assert(options@ == options_of(*question));
        }
        if options.len() == 0 {
            let t = trimmed(self.drafts[index].as_str());
            let custom = if t.unicode_len() == 0 {
                None
            } else {
                Some(t)
            };
            let r = QuestionAnswer { id: question.id.clone(), selected: Vec::new(), custom };
            proof {
                assert(strs_view(r.selected@) =~= Seq::<Seq<char>>::empty());
            }
            r
        } else if question.multi_select {
            let chosen = &self.chosen[index];
            let mut selected: Vec<String> = Vec::new();
            let mut i: usize = 0;
            while i < chosen.len()
                invariant
                    i <= chosen@.len(),
                    options@.len() > 0,
                    strs_view(selected@) == chosen_labels(options@, chosen@.take(i as int)),
                decreases chosen.len() - i,
            {
                proof {
                    assert(chosen@.take(i + 1).drop_last() =~= chosen@.take(i as int));
                }
                if chosen[i] < options.len() {
                    let ghost before = selected@;
                    selected.push(options[chosen[i]].label.clone());
                    proof {
                        assert(strs_view(selected@) =~= strs_view(before).push(options@[chosen@[i as int] as int].label@));
                    }
                }
                i = i + 1;
            }
            proof {
                assert(chosen@.take(i as int) =~= chosen@);
            }
            QuestionAnswer { id: question.id.clone(), selected, custom: None }
        } else {
            let chosen = &self.chosen[index];
            let pick = if chosen.len() > 0 {
                chosen[0]
            } else {
                self.selections[index]
            };
            let i = if pick < options.len() - 1 {
                pick
            } else {
                options.len() - 1
            };
            let mut selected: Vec<String> = Vec::new();
            selected.push(options[i].label.clone());
            proof {
                assert(strs_view(selected@) =~= seq![options@[i as int].label@]);
            }
            QuestionAnswer { id: question.id.clone(), selected, custom: None }
        }
    }

    /// Enter moves to the next question, or, on the last one, submits the
    /// retained answer of every question.
    pub fn enter(&mut self) -> (r: Option<Vec<QuestionAnswer>>)
        requires
            old(self).wf(),
        ensures
            entered(*old(self), *final(self), r),

    {
        if self.current >= self.questions.len() {
            return Some(Vec::new());
        }
        self.save_current();
        if self.current + 1 < self.questions.len() {
            self.step_question(1);
            return None;
        }
        let mut answers: Vec<QuestionAnswer> = Vec::new();
        let mut i: usize = 0;
        while i < self.questions.len()
            invariant
                self.wf(),
                i <= self.questions@.len(),
                answers@.len() == i,
                forall|k: int| 0 <= k < i ==> answer_view(#[trigger] answers@[k]) == answer_of(
                    self.questions@[k],
                    self.selections_spec()[k],
                    self.chosen_spec()[k],
                    self.drafts_spec()[k],
                ),
            decreases self.questions.len() - i,
        {
            answers.push(self.answer_for(i));
            i = i + 1;
        }
        Some(answers)
    }
}

} // verus!
