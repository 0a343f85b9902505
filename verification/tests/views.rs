use neuroblasters::net::protocol::messages::GameUpdate;
use neuroblasters::session::Server;
use neuroblasters::views::{
    request_outcome, RequestOutcome, StackEntry, Transition, TransitionEffect, ViewId, ViewStack,
};

fn entry(id: ViewId, overlay: bool, tag: u32) -> StackEntry<u32> {
    StackEntry { id, overlay, view: tag }
}

fn ids(s: &ViewStack<u32>) -> Vec<ViewId> {
    s.stack.iter().map(|e| e.id).collect()
}

#[test]
fn push_and_pop() {
    let mut s = ViewStack::new(entry(ViewId::MainMenu, false, 0));
    assert_eq!(s.perform_transition(Transition::Push(entry(ViewId::OptionsMenu, false, 1))), TransitionEffect::Nothing);
    assert_eq!(s.len(), 2);
    // Popping a full screen makes the one below visible again.
    assert_eq!(s.perform_transition(Transition::Pop), TransitionEffect::VisibleAgain(0));
    assert_eq!(ids(&s), vec![ViewId::MainMenu]);
    // Popping an overlay does not.
    s.perform_transition(Transition::Push(entry(ViewId::Popup, true, 2)));
    assert_eq!(s.perform_transition(Transition::Pop), TransitionEffect::Nothing);
    // Popping the last screen leaves nothing to notify.
    assert_eq!(s.perform_transition(Transition::Pop), TransitionEffect::Nothing);
    assert!(s.is_empty());
}

#[test]
fn pop_until_reports_hidden_target() {
    let mut s = ViewStack::new(entry(ViewId::MainMenu, false, 0));
    s.perform_transition(Transition::Push(entry(ViewId::ServerConnectMenu, false, 1)));
    s.perform_transition(Transition::Push(entry(ViewId::ServerLobby, false, 2)));
    s.perform_transition(Transition::Push(entry(ViewId::RequestView, true, 3)));
    let effect = s.perform_transition(Transition::PopUntil(ViewId::ServerConnectMenu));
    assert_eq!(effect, TransitionEffect::VisibleAgain(1));
    assert_eq!(ids(&s), vec![ViewId::MainMenu, ViewId::ServerConnectMenu]);
    // Only overlays above the target: nothing to notify.
    s.perform_transition(Transition::Push(entry(ViewId::Popup, true, 4)));
    assert_eq!(s.pop_until(ViewId::ServerConnectMenu), true);
    // The target already on top.
    assert_eq!(s.perform_transition(Transition::PopUntil(ViewId::ServerConnectMenu)), TransitionEffect::Nothing);
}

#[test]
fn pop_until_and_pushes_after_popping() {
    let mut s = ViewStack::new(entry(ViewId::MainMenu, false, 0));
    s.perform_transition(Transition::Push(entry(ViewId::ServerConnectMenu, false, 1)));
    s.perform_transition(Transition::Push(entry(ViewId::ServerLobby, false, 2)));
    let effect = s.perform_transition(Transition::PopUntilAnd(ViewId::ServerConnectMenu, entry(ViewId::Popup, true, 9)));
    assert_eq!(effect, TransitionEffect::VisibleAgain(1));
    assert_eq!(ids(&s), vec![ViewId::MainMenu, ViewId::ServerConnectMenu, ViewId::Popup]);
    // A full-screen view pushed on top covers the target at once.
    let effect = s.perform_transition(Transition::PopUntilAnd(ViewId::MainMenu, entry(ViewId::TrainingMenu, false, 5)));
    assert_eq!(effect, TransitionEffect::Nothing);
    assert_eq!(ids(&s), vec![ViewId::MainMenu, ViewId::TrainingMenu]);
}

#[test]
fn pop_and_replaces_top() {
    let mut s = ViewStack::new(entry(ViewId::MainMenu, false, 0));
    s.perform_transition(Transition::Push(entry(ViewId::GameCreation, false, 1)));
    let effect = s.perform_transition(Transition::PopAnd(entry(ViewId::Popup, true, 2)));
    assert_eq!(effect, TransitionEffect::VisibleAgain(0));
    assert_eq!(ids(&s), vec![ViewId::MainMenu, ViewId::Popup]);
    let effect = s.perform_transition(Transition::PopAnd(entry(ViewId::OptionsMenu, false, 3)));
    assert_eq!(effect, TransitionEffect::Nothing);
    assert_eq!(s.stack[1].view, 3);
}

#[test]
fn serverless_transition_returns_to_connect_menu_with_popup() {
    let mut s = ViewStack::new(entry(ViewId::MainMenu, false, 0));
    s.perform_transition(Transition::Push(entry(ViewId::ServerConnectMenu, false, 1)));
    s.perform_transition(Transition::Push(entry(ViewId::ServerLobby, false, 2)));
    s.perform_transition(Transition::Push(entry(ViewId::GameCreation, false, 3)));
    let effect = s.perform_transition(Transition::ToServerlessView(entry(ViewId::Popup, true, 4)));
    // Screens were removed that hid the connect menu, and the popup is an
    // overlay: the connect menu shows again under it.
    assert_eq!(effect, TransitionEffect::LeaveServer(Some(1)));
    assert_eq!(ids(&s), vec![ViewId::MainMenu, ViewId::ServerConnectMenu, ViewId::Popup]);
    assert_eq!(s.stack[2].view, 4);
}

#[test]
fn serverless_transition_from_connect_menu_only_leaves_server() {
    let mut s = ViewStack::new(entry(ViewId::MainMenu, false, 0));
    s.perform_transition(Transition::Push(entry(ViewId::ServerConnectMenu, false, 1)));
    let effect = s.perform_transition(Transition::ToServerlessView(entry(ViewId::Popup, true, 2)));
    assert_eq!(effect, TransitionEffect::LeaveServer(None));
    assert_eq!(ids(&s), vec![ViewId::MainMenu, ViewId::ServerConnectMenu, ViewId::Popup]);
}

#[test]
fn drawing_starts_at_topmost_full_screen() {
    let mut s = ViewStack::new(entry(ViewId::MainMenu, false, 0));
    assert_eq!(s.first_drawn(), 0);
    s.perform_transition(Transition::Push(entry(ViewId::GameView, false, 1)));
    assert_eq!(s.first_drawn(), 1);
    s.perform_transition(Transition::Push(entry(ViewId::InGameMenu, true, 2)));
    s.perform_transition(Transition::Push(entry(ViewId::Popup, true, 3)));
    assert_eq!(s.first_drawn(), 1);
    let only_overlays = ViewStack::new(entry(ViewId::Popup, true, 0));
    assert_eq!(only_overlays.first_drawn(), 0);
}

#[test]
fn request_outcome_follows_the_answer() {
    let mut server = Server::<GameUpdate<(), ()>>::new();
    server.request_response = Some(Ok(()));
    // Too early: the answer stays.
    assert_eq!(request_outcome(&mut server, false, true), RequestOutcome::Wait);
    assert!(server.request_response.is_some());
    assert_eq!(request_outcome(&mut server, true, true), RequestOutcome::Succeed);
    assert!(server.request_response.is_none());
    assert_eq!(request_outcome(&mut server, true, false), RequestOutcome::Wait);
    assert_eq!(
        request_outcome(&mut server, true, true),
        RequestOutcome::Abort("User aborted connection.".to_string())
    );
    server.request_response = Some(Err("Game is full.".to_string()));
    assert_eq!(
        request_outcome(&mut server, true, true),
        RequestOutcome::ShowError("Game is full.".to_string())
    );
}
