//! The client's stack of screens: which screens a transition pops and pushes,
//! which screen is told that it is visible again, and from which screen up the
//! stack is drawn. The screens themselves (type `V`) belong to the caller.
use vstd::prelude::*;

use crate::session::{Server, SessionView};
use vstd::string::StringExecFns;

verus! {

/// The kinds of screens.
#[derive(PartialEq, Eq, Clone, Copy, Debug, Structural)]
pub enum ViewId {
    MainMenu,
    TrainingMenu,
    ServerConnectMenu,
    ServerLobby,
    GameView,
    InGameMenu,
    OptionsMenu,
    Popup,
    GameCreation,
    RequestView,
}

/// A screen on the stack, with its kind and whether it is an overlay (drawn
/// over the screen below it rather than hiding it).
pub struct StackEntry<V> {
    pub id: ViewId,
    pub overlay: bool,
    pub view: V,
}

/// What a screen asks for after an update.
pub enum Transition<V> {
    /// Stay on the current screen.
    Stay,
    /// Push a new screen onto the stack.
    Push(StackEntry<V>),
    /// Pop the top screen.
    Pop,
    /// Like `Pop`, then push a new screen (e.g. an overlay popup).
    PopAnd(StackEntry<V>),
    /// Pop screens until one of the given kind is on top.
    PopUntil(ViewId),
    /// `PopUntil`, then push a new screen.
    PopUntilAnd(ViewId, StackEntry<V>),
    /// Leave the server: close the connection and go back to the server
    /// connection menu, pushing the given popup that tells the reason.
    ToServerlessView(StackEntry<V>),
}

/// What the caller still has to do after a transition.
#[derive(PartialEq, Eq, Clone, Debug)]
pub enum TransitionEffect {
    Nothing,
    /// Tell the screen at this stack index that it is visible again.
    VisibleAgain(usize),
    /// Close the server connection; the stack is already back at the server
    /// connection menu with the popup on top. When `Some(i)`, also tell the
    /// screen at index `i` that it is visible again.
    LeaveServer(Option<usize>),
}

/// The stack of screens, bottom first.
pub struct ViewStack<V> {
    pub stack: Vec<StackEntry<V>>,
}

/// Index of the topmost screen of kind `id`, or -1 when there is none.
pub open spec fn last_index_of<V>(s: Seq<StackEntry<V>>, id: ViewId) -> int
    decreases s.len(),
{
    if s.len() == 0 {
        -1
    } else if s.last().id == id {
        s.len() - 1
    } else {
        last_index_of(s.drop_last(), id)
    }
}

/// All screens from index `from` up are overlays.
pub open spec fn overlays_from<V>(s: Seq<StackEntry<V>>, from: int) -> bool {
    forall|j: int| from <= j < s.len() ==> (#[trigger] s[j]).overlay
}

proof fn lemma_last_index_of<V>(s: Seq<StackEntry<V>>, id: ViewId)
    ensures
        -1 <= last_index_of(s, id) < s.len(),
        last_index_of(s, id) >= 0 ==> s[last_index_of(s, id)].id == id,
        forall|j: int| last_index_of(s, id) < j < s.len() ==> (#[trigger] s[j]).id != id,
        (exists|j: int| 0 <= j < s.len() && (#[trigger] s[j]).id == id) ==> last_index_of(s, id)
            >= 0,
    decreases s.len(),
{
    if s.len() > 0 && s.last().id != id {
        lemma_last_index_of(s.drop_last(), id);
        assert forall|j: int| last_index_of(s, id) < j < s.len() implies (#[trigger] s[j]).id
            != id by {
            if j < s.len() - 1 {
                assert(s[j] == s.drop_last()[j]);
            }
        }
        if exists|j: int| 0 <= j < s.len() && (#[trigger] s[j]).id == id {
            let j = choose|j: int| 0 <= j < s.len() && (#[trigger] s[j]).id == id;
            assert(s.drop_last()[j] == s[j]);
        }
    }
}

/// Whether `t` may be performed on stack `s` (the stack never runs out of
/// the screens the transition needs).
pub open spec fn transition_allowed<V>(s: Seq<StackEntry<V>>, t: Transition<V>) -> bool {
    match t {
        Transition::Stay => true,
        Transition::Push(_) => true,
        Transition::Pop => s.len() >= 1,
        Transition::PopAnd(v) => s.len() >= 1 && (!s.last().overlay && v.overlay ==> s.len() >= 2),
        Transition::PopUntil(id) => last_index_of(s, id) >= 0,
        Transition::PopUntilAnd(id, _) => last_index_of(s, id) >= 0,
        Transition::ToServerlessView(_) => last_index_of(s, ViewId::ServerConnectMenu) >= 0,
    }
}

/// The stack after transition `t`.
pub open spec fn spec_transition_stack<V>(s: Seq<StackEntry<V>>, t: Transition<V>) -> Seq<
    StackEntry<V>,
> {
    match t {
        Transition::Stay => s,
        Transition::Push(v) => s.push(v),
        Transition::Pop => s.drop_last(),
        Transition::PopAnd(v) => s.drop_last().push(v),
        Transition::PopUntil(id) => s.take(last_index_of(s, id) + 1),
        Transition::PopUntilAnd(id, v) => s.take(last_index_of(s, id) + 1).push(v),
        Transition::ToServerlessView(v) => s.take(last_index_of(s, ViewId::ServerConnectMenu) + 1).push(
            v,
        ),
    }
}

/// What is left to do after transition `t` on stack `s`: a screen that was
/// hidden by popped or replaced non-overlay screens is told it is visible
/// again, except when it gets covered at once by a new non-overlay screen.
pub open spec fn spec_transition_effect<V>(s: Seq<StackEntry<V>>, t: Transition<V>) -> TransitionEffect {
    match t {
        Transition::Pop => if s.len() >= 2 && !s.last().overlay {
            TransitionEffect::VisibleAgain((s.len() - 2) as usize)
        } else {
            TransitionEffect::Nothing
        },
        Transition::PopAnd(v) => if !s.last().overlay && v.overlay {
            TransitionEffect::VisibleAgain((s.len() - 2) as usize)
        } else {
            TransitionEffect::Nothing
        },
        Transition::PopUntil(id) => {
            let k = last_index_of(s, id);
            if !overlays_from(s, k + 1) {
                TransitionEffect::VisibleAgain(k as usize)
            } else {
                TransitionEffect::Nothing
            }
        },
        Transition::PopUntilAnd(id, v) => {
            let k = last_index_of(s, id);
            if !overlays_from(s, k + 1) && v.overlay {
                TransitionEffect::VisibleAgain(k as usize)
            } else {
                TransitionEffect::Nothing
            }
        },
        Transition::ToServerlessView(v) => {
            let k = last_index_of(s, ViewId::ServerConnectMenu);
            if !overlays_from(s, k + 1) && v.overlay {
                TransitionEffect::LeaveServer(Some(k as usize))
            } else {
                TransitionEffect::LeaveServer(None)
            }
        },
        _ => TransitionEffect::Nothing,
    }
}

/// Index from which the stack is drawn: the topmost screen that is not an
/// overlay, or the bottom when all are overlays.
pub open spec fn spec_first_drawn<V>(s: Seq<StackEntry<V>>) -> int
    decreases s.len(),
{
    if s.len() == 0 {
        0
    } else if !s.last().overlay {
        s.len() - 1
    } else {
        spec_first_drawn(s.drop_last())
    }
}

impl<V> ViewStack<V> {
    pub fn new(bottom: StackEntry<V>) -> (s: Self)
        ensures
            s.stack@ == seq![bottom],
    {
        let mut stack = Vec::new();
        stack.push(bottom);
        ViewStack { stack }
    }

    pub fn len(&self) -> (n: usize)
        ensures
            n == self.stack@.len(),
    {
        self.stack.len()
    }

    pub fn is_empty(&self) -> (b: bool)
        ensures
            b == (self.stack@.len() == 0),
    {
        self.stack.len() == 0
    }

    /// Index of the topmost screen of kind `id`, if there is one.
    pub fn position_of(&self, id: ViewId) -> (r: Option<usize>)
        ensures
            match r {
                Some(i) => i == last_index_of(self.stack@, id),
                None => last_index_of(self.stack@, id) < 0,
            },
    {
        let mut i = self.stack.len();
        assert(self.stack@.take(i as int) == self.stack@);
        while i > 0
            invariant
                i <= self.stack@.len(),
                last_index_of(self.stack@, id) == last_index_of(self.stack@.take(i as int), id),
            decreases i,
        {
            assert(self.stack@.take(i as int).last() == self.stack@[i - 1]);
            if self.stack[i - 1].id == id {
                return Some(i - 1);
            }
            assert(self.stack@.take(i as int).drop_last() == self.stack@.take(i - 1));
            i -= 1;
        }
        None
    }

    /// Pops screens until one of kind `target_id` is on top. Returns whether
    /// every popped screen was an overlay (so the target was never hidden).
    pub fn pop_until(&mut self, target_id: ViewId) -> (only_overlay: bool)
        requires
            last_index_of(old(self).stack@, target_id) >= 0,
        ensures
            final(self).stack@ == old(self).stack@.take(
                last_index_of(old(self).stack@, target_id) + 1,
            ),
            only_overlay == overlays_from(
                old(self).stack@,
                last_index_of(old(self).stack@, target_id) + 1,
            ),
    {
        let ghost s0 = self.stack@;
        let ghost k = last_index_of(s0, target_id);
        proof {
            lemma_last_index_of(s0, target_id);
        }
        let mut only_overlay = true;
        while self.stack.len() > 0 && self.stack[self.stack.len() - 1].id != target_id
            invariant
                0 <= k < s0.len(),
                s0[k].id == target_id,
                forall|j: int| k < j < s0.len() ==> (#[trigger] s0[j]).id != target_id,
                k < self.stack@.len() <= s0.len(),
                self.stack@ == s0.take(self.stack@.len() as int),
                only_overlay == overlays_from(s0, self.stack@.len() as int),
            decreases self.stack@.len(),
        {
            let n = self.stack.len();
            assert(self.stack@[n - 1] == s0[n - 1]);
            if !self.stack[n - 1].overlay {
                only_overlay = false;
            }
            self.stack.pop();
            assert(self.stack@ == s0.take(n - 1));
        }
        assert(self.stack@.len() == k + 1) by {
            let n = self.stack@.len();
            assert(self.stack@[n - 1] == s0[n - 1]);
        }
        only_overlay
    }

    /// Performs a transition on the stack and says what the caller still has
    /// to do.
    pub fn perform_transition(&mut self, transition: Transition<V>) -> (effect: TransitionEffect)
        requires
            transition_allowed(old(self).stack@, transition),
        ensures
            final(self).stack@ == spec_transition_stack(old(self).stack@, transition),
            effect == spec_transition_effect(old(self).stack@, transition),
    {
        match transition {
            Transition::Push(new_view) => {
                self.stack.push(new_view);
                TransitionEffect::Nothing
            },
            Transition::PopUntil(target_id) => {
                let only_overlay = self.pop_until(target_id);
                if !only_overlay {
                    TransitionEffect::VisibleAgain(self.stack.len() - 1)
                } else {
                    TransitionEffect::Nothing
                }
            },
            Transition::PopUntilAnd(target_id, new_view) => {
                let only_overlay = self.pop_until(target_id);
                let effect = if !only_overlay && new_view.overlay {
                    TransitionEffect::VisibleAgain(self.stack.len() - 1)
                } else {
                    TransitionEffect::Nothing
                };
                self.stack.push(new_view);
                effect
            },
            Transition::Pop => {
                let from_overlay = self.stack[self.stack.len() - 1].overlay;
                self.stack.pop();
                if self.stack.len() > 0 && !from_overlay {
                    TransitionEffect::VisibleAgain(self.stack.len() - 1)
                } else {
                    TransitionEffect::Nothing
                }
            },
            Transition::PopAnd(new_view) => {
                let from_overlay = self.stack[self.stack.len() - 1].overlay;
                self.stack.pop();
                let effect = if !from_overlay && new_view.overlay {
                    TransitionEffect::VisibleAgain(self.stack.len() - 1)
                } else {
                    TransitionEffect::Nothing
                };
                self.stack.push(new_view);
                effect
            },
            Transition::ToServerlessView(popup) => {
                let only_overlay = self.pop_until(ViewId::ServerConnectMenu);
                let effect = if !only_overlay && popup.overlay {
                    TransitionEffect::LeaveServer(Some(self.stack.len() - 1))
                } else {
                    TransitionEffect::LeaveServer(None)
                };
                self.stack.push(popup);
                effect
            },
            Transition::Stay => TransitionEffect::Nothing,
        }
    }

    /// Index from which the stack is drawn (see [`spec_first_drawn`]).
    pub fn first_drawn(&self) -> (start: usize)
        ensures
            start == spec_first_drawn(self.stack@),
    {
        let mut i = self.stack.len();
        assert(self.stack@.take(i as int) == self.stack@);
        while i > 0
            invariant
                i <= self.stack@.len(),
                spec_first_drawn(self.stack@) == spec_first_drawn(self.stack@.take(i as int)),
            decreases i,
        {
            assert(self.stack@.take(i as int).last() == self.stack@[i - 1]);
            if !self.stack[i - 1].overlay {
                return i - 1;
            }
            assert(self.stack@.take(i as int).drop_last() == self.stack@.take(i - 1));
            i -= 1;
        }
        0
    }
}

/// Drawing starts at a screen that hides what is below it (or at the bottom),
/// and every screen above it is an overlay.
pub proof fn lemma_first_drawn<V>(s: Seq<StackEntry<V>>)
    ensures
        0 <= spec_first_drawn(s) <= s.len(),
        s.len() > 0 ==> spec_first_drawn(s) < s.len(),
        overlays_from(s, spec_first_drawn(s) + 1),
        0 < spec_first_drawn(s) ==> !s[spec_first_drawn(s)].overlay,
    decreases s.len(),
{
    if s.len() > 0 && s.last().overlay {
        lemma_first_drawn(s.drop_last());
        assert forall|j: int| spec_first_drawn(s) + 1 <= j < s.len() implies (#[trigger] s[j]).overlay by {
            if j < s.len() - 1 {
                assert(s[j] == s.drop_last()[j]);
            }
        }
    }
}

/// What a screen waiting for the answer to a request does next.
#[derive(PartialEq, Eq, Clone, Debug)]
pub enum RequestOutcome {
    /// Keep waiting.
    Wait,
    /// The request succeeded: perform the success action.
    Succeed,
    /// The request failed: replace the waiting screen by a popup with this reason.
    ShowError(String),
    /// The user gave up: leave the server with this reason.
    Abort(String),
}

/// The waiting screen's decision. Nothing happens until it has been shown for
/// a moment (so it does not flash); then an answer to the request, when there
/// is one, is taken and acted upon; otherwise a click on "Abort" gives up.
pub fn request_outcome<U>(server: &mut Server<U>, shown_long_enough: bool, abort_clicked: bool) -> (r:
    RequestOutcome)
    ensures
        !shown_long_enough ==> r == RequestOutcome::Wait && final(server)@ == old(server)@,
        shown_long_enough ==> final(server)@ == (SessionView {
            request_response: None,
            ..old(server)@
        }),
        shown_long_enough ==> match old(server)@.request_response {
            Some(Ok(())) => r == RequestOutcome::Succeed,
            Some(Err(reason)) => r matches RequestOutcome::ShowError(m) && m@ == reason,
            None => if abort_clicked {
                r matches RequestOutcome::Abort(m) && m@ == "User aborted connection."@
            } else {
                r == RequestOutcome::Wait
            },
        },
{
    if !shown_long_enough {
        return RequestOutcome::Wait;
    }
    match server.take_request_response() {
        Some(Ok(())) => RequestOutcome::Succeed,
        Some(Err(reason)) => RequestOutcome::ShowError(reason),
        None => if abort_clicked {
            RequestOutcome::Abort(String::from_str("User aborted connection."))
        } else {
            RequestOutcome::Wait
        },
    }
}

/// Going back to a screen leaves that screen on top, with everything below
/// it untouched.
pub proof fn lemma_pop_until_reaches_target<V>(s: Seq<StackEntry<V>>, id: ViewId)
    requires
        exists|j: int| 0 <= j < s.len() && (#[trigger] s[j]).id == id,
    ensures
        ({
            let s2 = spec_transition_stack(s, Transition::PopUntil(id));
            &&& s2.len() > 0
            &&& s2.last().id == id
            &&& s2 == s.take(s2.len() as int)
        }),
{
    lemma_last_index_of(s, id);
}

/// Popping the screen just pushed restores the stack.
pub proof fn lemma_push_then_pop<V>(s: Seq<StackEntry<V>>, v: StackEntry<V>)
    ensures
        spec_transition_stack(spec_transition_stack(s, Transition::Push(v)), Transition::Pop) == s,
{
    assert(s.push(v).drop_last() == s);
}

/// Going back to the topmost screen `k` of a kind keeps exactly the screens up
/// to `k`. Screen `k` is told it is visible again exactly when a screen that
/// covered it (one that is not an overlay) was removed: popping only overlays
/// asks nothing of it. Going back and pushing a new screen does the same, and
/// the screen is then told only when the new screen is an overlay; leaving the
/// server goes back to the connection menu that way.
pub proof fn lemma_pop_until_visibility<V>(
    s: Seq<StackEntry<V>>,
    id: ViewId,
    k: int,
    v: StackEntry<V>,
)
    requires
        0 <= k < s.len(),
        s[k].id == id,
        forall|j: int| k < j < s.len() ==> (#[trigger] s[j]).id != id,
    ensures
        spec_transition_stack(s, Transition::PopUntil(id)) == s.take(k + 1),
        (forall|j: int| k < j < s.len() ==> (#[trigger] s[j]).overlay) ==> spec_transition_effect(
            s,
            Transition::PopUntil(id),
        ) == TransitionEffect::Nothing,
        (exists|j: int| k < j < s.len() && !(#[trigger] s[j]).overlay) ==> spec_transition_effect(
            s,
            Transition::PopUntil(id),
        ) == TransitionEffect::VisibleAgain(k as usize),
        spec_transition_stack(s, Transition::PopUntilAnd(id, v)) == s.take(k + 1).push(v),
        spec_transition_effect(s, Transition::PopUntilAnd(id, v)) == if v.overlay && (exists|j: int|
            k < j < s.len() && !(#[trigger] s[j]).overlay) {
            TransitionEffect::VisibleAgain(k as usize)
        } else {
            TransitionEffect::Nothing
        },
        id == ViewId::ServerConnectMenu ==> spec_transition_stack(
            s,
            Transition::ToServerlessView(v),
        ) == s.take(k + 1).push(v),
        id == ViewId::ServerConnectMenu ==> spec_transition_effect(
            s,
            Transition::ToServerlessView(v),
        ) == if v.overlay && (exists|j: int| k < j < s.len() && !(#[trigger] s[j]).overlay) {
            TransitionEffect::LeaveServer(Some(k as usize))
        } else {
            TransitionEffect::LeaveServer(None)
        },
{
    lemma_last_index_of(s, id);
    assert(last_index_of(s, id) == k);
}

/// Popping the top screen uncovers the screen below it, which is told it is
/// visible again exactly when the popped screen covered it (was not an
/// overlay); replacing the top screen tells it so only when the replacement
/// is an overlay. A pushed screen goes on top of everything.
pub proof fn lemma_pop_visibility<V>(s: Seq<StackEntry<V>>, v: StackEntry<V>)
    requires
        s.len() >= 2,
    ensures
        spec_transition_stack(s, Transition::Pop) == s.subrange(0, s.len() - 1),
        spec_transition_effect(s, Transition::Pop) == if s[s.len() - 1].overlay {
            TransitionEffect::Nothing
        } else {
            TransitionEffect::VisibleAgain((s.len() - 2) as usize)
        },
        spec_transition_stack(s, Transition::PopAnd(v)) == s.subrange(0, s.len() - 1).push(v),
        spec_transition_effect(s, Transition::PopAnd(v)) == if !s[s.len() - 1].overlay && v.overlay {
            TransitionEffect::VisibleAgain((s.len() - 2) as usize)
        } else {
            TransitionEffect::Nothing
        },
        spec_transition_stack(s, Transition::Push(v)) == s + seq![v],
        spec_transition_effect(s, Transition::Push(v)) == TransitionEffect::Nothing,
{
    assert(s.drop_last() =~= s.subrange(0, s.len() - 1));
    assert(s.push(v) =~= s + seq![v]);
}

} // verus!
