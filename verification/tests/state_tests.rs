use editor_core::actions::{Confirm, InputAction};
use editor_core::buffer::TextBuffer;
use editor_core::cursor::{LineColumn, Position, Selection};
use editor_core::error::Error;
use editor_core::events::LoadingStateChangedEvent;
use editor_core::lsp::{
    CodeAction, CompletionItem, ContextMenu, HoverDefinition, LocationLink, PositionRange,
    TextEdit,
};
use editor_core::marker::{Marker, MarkerSeverity};
use editor_core::state::{ClickOutcome, InputState};
use editor_core::text_wrapper::MonoShaper;

fn new_state() -> InputState<MonoShaper> {
    InputState::new(MonoShaper {}, None)
}

#[test]
fn test_replace_text_in_range() {
    let mut state = new_state();
    state.replace_text_in_range(Some(Selection::new(0, 0)), "hello world");
    assert_eq!(state.text.to_string(), "hello world");
    assert_eq!(state.cursor(), 11);

    state.replace_text_in_range(Some(Selection::new(0, 5)), "goodbye");
    assert_eq!(state.text.to_string(), "goodbye world");
    assert_eq!(state.cursor(), 7);

    // an empty replacement over the selection deletes it
    state.move_to(0);
    state.select_to(8);
    state.replace_text_in_range(None, "");
    assert_eq!(state.text.to_string(), "world");
    assert_eq!(state.cursor(), 0);
}

#[test]
fn test_completion_cancellation() {
    let mut state = new_state();
    state.replace_text_in_range(Some(Selection::new(0, 0)), "0123456789/a@");

    // first query: trigger "/" typed at offset 9..10, cursor at 10
    state.move_to(10);
    let first = state
        .handle_completion_trigger(Selection::new(9, 10), true)
        .expect("first query should be issued");

    // before its result arrives, a second query at offset 12
    state.move_to(12);
    let second = state
        .handle_completion_trigger(Selection::new(11, 12), true)
        .expect("second query should be issued");
    assert_ne!(first.id, second.id);

    // the stale response is dropped
    let stale = vec![CompletionItem {
        label: "stale".to_string(),
        insert_text: "stale".to_string(),
    }];
    assert!(!state.apply_completion_response(first.id, stale));
    assert!(!state.is_context_menu_open());

    // the current response is shown
    let fresh = vec![CompletionItem {
        label: "fresh".to_string(),
        insert_text: "fresh".to_string(),
    }];
    assert!(state.apply_completion_response(second.id, fresh));
    assert!(state.is_context_menu_open());
    match state.context_menu.as_ref().expect("menu should exist") {
        ContextMenu::Completion(menu) => {
            assert_eq!(menu.items.len(), 1);
            assert_eq!(menu.items[0].label, "fresh");
        }
        _ => panic!("expected a completion menu"),
    }
}

#[test]
fn test_completion_confirm_inserts() {
    let mut state = new_state();
    // the trigger character "/" was just typed at 6..7
    state.replace_text_in_range(Some(Selection::new(0, 0)), "hello /");
    let req = state
        .handle_completion_trigger(Selection::new(6, 7), true)
        .expect("query should be issued");
    let items = vec![CompletionItem {
        label: "world".to_string(),
        insert_text: "world".to_string(),
    }];
    assert!(state.apply_completion_response(req.id, items));

    // the user typed two more characters of the query
    state.replace_text_in_range(Some(Selection::new(7, 7)), "wo");
    assert_eq!(state.cursor(), 9);
    assert!(state.handle_action_for_context_menu(InputAction::Confirm(Confirm {
        secondary: false
    })));
    assert_eq!(state.text.to_string(), "hello /world");
    assert!(state.context_menu.is_none());
}

#[test]
fn test_menu_selection_moves() {
    let mut state = new_state();
    state.replace_text_in_range(Some(Selection::new(0, 0)), "a/");
    state.move_to(2);
    let req = state
        .handle_completion_trigger(Selection::new(1, 2), true)
        .expect("query should be issued");
    let items = vec![
        CompletionItem {
            label: "one".to_string(),
            insert_text: "one".to_string(),
        },
        CompletionItem {
            label: "two".to_string(),
            insert_text: "two".to_string(),
        },
    ];
    assert!(state.apply_completion_response(req.id, items));

    assert!(state.handle_action_for_context_menu(InputAction::SelectNext));
    assert!(state.handle_action_for_context_menu(InputAction::SelectNext));
    match state.context_menu.as_ref().unwrap() {
        ContextMenu::Completion(menu) => assert_eq!(menu.selected_ix, 1),
        _ => panic!("expected a completion menu"),
    }
    assert!(state.handle_action_for_context_menu(InputAction::SelectPrev));
    match state.context_menu.as_ref().unwrap() {
        ContextMenu::Completion(menu) => assert_eq!(menu.selected_ix, 0),
        _ => panic!("expected a completion menu"),
    }
    assert!(state.handle_action_for_context_menu(InputAction::Cancel));
    assert!(state.context_menu.is_none());
    assert!(!state.handle_action_for_context_menu(InputAction::Cancel));
}

#[test]
fn test_apply_lsp_edits() {
    let mut state = new_state();
    state.replace_text_in_range(Some(Selection::new(0, 0)), "line1\nworld\n");
    let edits = vec![TextEdit {
        range: PositionRange {
            start: Position::new(1, 0),
            end: Position::new(1, 5),
        },
        new_text: "earth".to_string(),
    }];
    state.apply_lsp_edits(&edits);
    assert_eq!(state.text.to_string(), "line1\nearth\n");
}

#[test]
fn test_marker_resolution() {
    let mut marker = Marker::new(
        MarkerSeverity::Warning,
        LineColumn::new(1, 1),
        LineColumn::new(1, 5),
        "something odd".to_string(),
    );
    assert!(marker.range.is_none());
    let text = TextBuffer::from_str("line1\nworld\n");
    marker.prepare(&text);
    assert_eq!(marker.range, Some(Selection::new(6, 10)));
}

#[test]
fn test_markers_prepared_by_state() {
    let mut state = new_state();
    state.replace_text_in_range(Some(Selection::new(0, 0)), "line1\nworld\n");
    let marker = Marker::new(
        MarkerSeverity::Error,
        LineColumn::new(1, 1),
        LineColumn::new(1, 5),
        "bad".to_string(),
    );
    state.set_markers(vec![marker]);
    assert_eq!(state.markers[0].range, Some(Selection::new(6, 10)));
}

#[test]
fn test_marker_severity_from() {
    assert_eq!(MarkerSeverity::from("error"), MarkerSeverity::Error);
    assert_eq!(MarkerSeverity::from("warning"), MarkerSeverity::Warning);
    assert_eq!(MarkerSeverity::from("hint"), MarkerSeverity::Hint);
    assert_eq!(MarkerSeverity::from("info"), MarkerSeverity::Info);
    assert_eq!(MarkerSeverity::from("whatever"), MarkerSeverity::Info);
    assert_eq!(MarkerSeverity::default(), MarkerSeverity::Hint);
}

#[test]
fn test_hover_definition_flow() {
    let mut state = new_state();
    state.replace_text_in_range(Some(Selection::new(0, 0)), "Hello world\nfn foo() {}\n");

    let req = state
        .handle_hover_definition(6)
        .expect("a lookup should be issued");
    // hovering elsewhere supersedes the first lookup
    let req2 = state
        .handle_hover_definition(0)
        .expect("a second lookup should be issued");
    assert_ne!(req.id, req2.id);

    let location = LocationLink {
        origin_selection_range: None,
        target_uri: "file:///demo.rs".to_string(),
        target_range: PositionRange {
            start: Position::new(1, 3),
            end: Position::new(1, 6),
        },
    };
    // stale response dropped
    assert!(!state.apply_definition_response(req.id, vec![location.clone()]));
    assert!(state.hover_definition.is_none());
    // current response kept, attached to the hovered word
    assert!(state.apply_definition_response(req2.id, vec![location]));
    let hd = state.hover_definition.as_ref().expect("lookup should be kept");
    assert_eq!(hd.symbol_range, Selection::new(0, 5));

    // a secondary click follows the definition
    let outcome = state.handle_click_hover_definition(2, true);
    match outcome {
        ClickOutcome::Moved => {}
        _ => panic!("expected the cursor to move"),
    }
    assert_eq!(state.selected_range, Selection::new(15, 18));
}

#[test]
fn test_mouse_move_dispatch() {
    let mut state = new_state();
    state.replace_text_in_range(Some(Selection::new(0, 0)), "alpha beta");
    // with the modifier held a lookup is issued for the hovered word
    let req = state.handle_mouse_move(1, true).expect("a lookup should be issued");
    assert_eq!(req.offset, 1);
    // without it the hovered definition is dropped and nothing is asked
    state.hover_definition = Some(HoverDefinition::new(Selection::new(0, 5), vec![]));
    assert!(state.handle_mouse_move(3, false).is_none());
    assert!(state.hover_definition.is_none());
}

#[test]
fn test_click_web_definition() {
    let mut state = new_state();
    state.replace_text_in_range(Some(Selection::new(0, 0)), "docs here");
    let location = LocationLink {
        origin_selection_range: None,
        target_uri: "https://example.com/doc".to_string(),
        target_range: PositionRange {
            start: Position::new(0, 0),
            end: Position::new(0, 0),
        },
    };
    state.hover_definition = Some(HoverDefinition::new(
        Selection::new(0, 4),
        vec![location],
    ));
    match state.handle_click_hover_definition(1, true) {
        ClickOutcome::OpenUrl(url) => assert_eq!(url, "https://example.com/doc"),
        _ => panic!("expected a web link"),
    }
    // a plain click is not intercepted
    match state.handle_click_hover_definition(1, false) {
        ClickOutcome::NotHandled => {}
        _ => panic!("expected the click to pass through"),
    }
}

#[test]
fn test_code_action_aggregation() {
    let mut state = new_state();
    state.replace_text_in_range(Some(Selection::new(0, 0)), "fn main() {}\n");

    let round = state.handle_code_action_trigger();
    assert!(!state.is_context_menu_open());

    // two providers answer the round; a third provider failed and
    // never answers, which must not block the others
    let from_linter = vec![CodeAction {
        provider_id: "linter".to_string(),
        title: "fix style".to_string(),
        edits: vec![],
    }];
    assert!(state.apply_code_actions_response(round, from_linter));
    assert!(state.is_context_menu_open());
    let from_refactor = vec![CodeAction {
        provider_id: "refactor".to_string(),
        title: "extract function".to_string(),
        edits: vec![],
    }];
    assert!(state.apply_code_actions_response(round, from_refactor));
    match state.context_menu.as_ref().unwrap() {
        ContextMenu::CodeAction(menu) => {
            assert_eq!(menu.actions.len(), 2);
            assert_eq!(menu.actions[0].provider_id, "linter");
            assert_eq!(menu.actions[1].provider_id, "refactor");
        }
        _ => panic!("expected a code-action menu"),
    }

    // a new round supersedes the old one; stale responses are dropped
    let round2 = state.handle_code_action_trigger();
    assert!(!state.apply_code_actions_response(round, vec![]));
    assert!(state.apply_code_actions_response(round2, vec![]));
    assert!(!state.is_context_menu_open());
}

#[test]
fn test_code_action_confirm_applies_edits() {
    let mut state = new_state();
    state.replace_text_in_range(Some(Selection::new(0, 0)), "old name\n");
    let round = state.handle_code_action_trigger();
    let actions = vec![CodeAction {
        provider_id: "refactor".to_string(),
        title: "rename".to_string(),
        edits: vec![TextEdit {
            range: PositionRange {
                start: Position::new(0, 0),
                end: Position::new(0, 3),
            },
            new_text: "new".to_string(),
        }],
    }];
    assert!(state.apply_code_actions_response(round, actions));
    assert!(state.handle_action_for_context_menu(InputAction::Confirm(Confirm {
        secondary: false
    })));
    assert_eq!(state.text.to_string(), "new name\n");
    assert!(state.context_menu.is_none());
}

#[test]
fn test_error_messages() {
    assert_eq!(Error::LoadLibrary.message(), "failed to load CEF library");
    assert_eq!(
        Error::InitializeBrowserProcess.message(),
        "failed to initialize the CEF browser process"
    );
}

#[test]
fn test_loading_state_event() {
    let event = LoadingStateChangedEvent {
        is_loading: true,
        can_go_back: false,
        can_go_forward: true,
    };
    assert!(event.is_loading);
    assert!(!event.can_go_back);
    assert!(event.can_go_forward);
}
