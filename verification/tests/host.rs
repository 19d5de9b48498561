//! The preview process.

use lixun::hits::SizingPreference;
use lixun::model::{Action, Category, DocId, Hit};
use lixun::preview_host::{
    apply_monitor_and_cap, apply_sizing, build_failed, key_pressed, pick_monitor, rebuild_header,
    Chosen, HostAction, HostState, Import, KeyAction, MountPlan, ShowPlan, SizeLimits, Slot,
    MIN_HEIGHT, MIN_WIDTH,
};
use lixun::preview_ipc::{PreviewCommand, PreviewEvent};

fn hit() -> Hit {
    Hit {
        id: DocId("fs:/tmp/demo.txt".to_string()),
        category: Category::File,
        title: "demo.txt".to_string(),
        subtitle: "/tmp".to_string(),
        icon_name: None,
        kind_label: None,
        action: Action::OpenFile { path: "/tmp/demo.txt".to_string() },
        extract_fail: false,
        sender: None,
        recipients: None,
        body: None,
        secondary_action: None,
        source_instance: String::new(),
        mime: None,
    }
}

fn chosen(id: &str, sizing: SizingPreference) -> Chosen {
    Chosen { id: id.to_string(), sizing }
}

#[test]
fn a_hit_is_shown_and_stops_the_countdown() {
    let mut state = HostState::new();
    state.idle = true;
    let show = PreviewCommand::ShowOrUpdate { epoch: 7, hit: hit(), monitor: None };
    assert_eq!(
        state.handle_command(show),
        vec![HostAction::CancelIdle, HostAction::Show { hit: hit(), monitor: None }]
    );
    assert_eq!(state.epoch, 7);
    assert!(!state.idle);
}

#[test]
fn closing_and_hiding_are_acknowledged() {
    let mut state = HostState::new();
    let told = HostAction::Send(PreviewEvent::Closed { epoch: 3 });
    assert_eq!(
        state.handle_command(PreviewCommand::Close { epoch: 3 }),
        vec![HostAction::CancelIdle, told.clone(), HostAction::ScheduleIdle]
    );
    state.window = true;
    assert_eq!(
        state.handle_command(PreviewCommand::Hide { epoch: 3 }),
        vec![HostAction::CancelIdle, HostAction::HideWindow, told, HostAction::ScheduleIdle]
    );
    assert!(state.idle);
    assert!(state.handle_command(PreviewCommand::Ping).is_empty());
}

#[test]
fn a_parent_is_noted_until_there_is_a_window() {
    let mut state = HostState::new();
    let set = || PreviewCommand::SetParent { handle: "h".to_string() };
    assert!(state.handle_command(set()).is_empty());
    assert_eq!(state.parent.as_deref(), Some("h"));
    state.window = true;
    assert_eq!(state.handle_command(set()), vec![HostAction::ApplyParent]);
    assert_eq!(
        state.handle_command(PreviewCommand::ClearParent),
        vec![HostAction::DropParent]
    );
    assert_eq!(state.parent, None);
}

#[test]
fn content_is_updated_in_place_by_the_same_preview() {
    let mut state = HostState::new();
    let text = chosen("text", SizingPreference::FixedCap);
    assert_eq!(
        state.show_or_update(&hit(), &Some(text.clone()), true),
        Ok(ShowPlan { build_window: true, try_update: false })
    );
    assert_eq!(state.mount(&text), MountPlan { detach: None, attach: Slot::Scroll });
    assert_eq!(
        state.show_or_update(&hit(), &Some(text), true),
        Ok(ShowPlan { build_window: false, try_update: true })
    );
    let folder = chosen("folder", SizingPreference::OwnsScroll);
    assert_eq!(
        state.show_or_update(&hit(), &Some(folder.clone()), true),
        Ok(ShowPlan { build_window: false, try_update: false })
    );
    assert_eq!(
        state.mount(&folder),
        MountPlan { detach: Some(Slot::Scroll), attach: Slot::Box }
    );
}

#[test]
fn hits_that_cannot_be_shown_are_reported() {
    let mut state = HostState::new();
    let err = state.show_or_update(&hit(), &None, true).unwrap_err();
    assert_eq!(err, "no plugin matches hit id=fs:/tmp/demo.txt category=File");
    let text = Some(chosen("text", SizingPreference::FixedCap));
    let err = state.show_or_update(&hit(), &text, false).unwrap_err();
    assert_eq!(err, "no default GDK display");
    state.epoch = 4;
    assert_eq!(
        state.show_failed(err.clone()),
        PreviewEvent::Error { epoch: 4, msg: err }
    );
    assert_eq!(build_failed("code", "boom"), "Preview failed (code):\nboom");
}

#[test]
fn only_a_key_closes_silently() {
    let mut state = HostState::new();
    state.window = true;
    state.epoch = 9;
    let told = HostAction::Send(PreviewEvent::Closed { epoch: 9 });
    let dismissed = vec![told, HostAction::HideWindow, HostAction::ScheduleIdle];
    assert_eq!(
        state.close_via_keyboard(),
        vec![HostAction::HideWindow, HostAction::ScheduleIdle]
    );
    assert_eq!(state.close_request(), dismissed);
    assert_eq!(state.run_plugin_launch(true), dismissed);
    assert!(state.run_plugin_launch(false).is_empty());

    assert_eq!(key_pressed("Escape", Some(true)), KeyAction::Close);
    assert_eq!(key_pressed("space", None), KeyAction::Close);
    assert_eq!(key_pressed("Return", Some(true)), KeyAction::Launch);
    assert_eq!(key_pressed("KP_Enter", Some(false)), KeyAction::Close);
    assert_eq!(key_pressed("Return", None), KeyAction::Close);
    assert_eq!(key_pressed("a", Some(true)), KeyAction::Proceed);
}

#[test]
fn windows_fit_their_monitor() {
    let limits =
        SizeLimits { width_percent: 80, height_percent: 50, max_width_px: 1400, max_height_px: 900 };
    assert_eq!(apply_monitor_and_cap(Some((1920, 1080)), limits), (1400, 540));
    assert_eq!(apply_monitor_and_cap(Some((1001, 1601)), limits), (800, 800));
    assert_eq!(apply_monitor_and_cap(Some((100, 100)), limits), (MIN_WIDTH, MIN_HEIGHT));
    assert_eq!(apply_monitor_and_cap(Some((-100, -100)), limits), (MIN_WIDTH, MIN_HEIGHT));
    assert_eq!(apply_monitor_and_cap(None, limits), (MIN_WIDTH, MIN_HEIGHT));

    let fixed = apply_sizing(SizingPreference::FixedCap, 900, 700);
    assert_eq!((fixed.default_size, fixed.propagate), ((900, 700), Some(false)));
    let fit = apply_sizing(SizingPreference::FitToContent, 900, 700);
    assert_eq!((fit.default_size, fit.max_content), ((MIN_WIDTH, MIN_HEIGHT), Some((900, 700))));
    assert!(!apply_sizing(SizingPreference::OwnsScroll, 900, 700).scroll_visible);
}

#[test]
fn monitors_are_picked_by_name_then_by_pointer() {
    let connectors = vec![None, Some("eDP-1".to_string()), Some("DP-2".to_string())];
    assert_eq!(pick_monitor(&connectors, Some("DP-2"), Some(0)), Some(2));
    assert_eq!(pick_monitor(&connectors, Some("HDMI-1"), Some(1)), Some(1));
    assert_eq!(pick_monitor(&connectors, Some(""), None), Some(0));
    assert_eq!(pick_monitor(&connectors, None, None), Some(0));
    assert_eq!(pick_monitor(&vec![], None, None), None);
}

#[test]
fn headers_name_the_hit_and_the_preview() {
    let h = rebuild_header(&hit(), "text", true);
    assert_eq!((h.title.as_str(), h.badge.as_str(), h.open_button), ("demo.txt", "text", true));
    assert_eq!(h.subtitle.as_deref(), Some("/tmp"));
    let mut bare = hit();
    bare.subtitle = String::new();
    assert_eq!(rebuild_header(&bare, "text", false).subtitle, None);
}

#[test]
fn a_parent_that_cannot_be_imported_is_lost() {
    let mut state = HostState::new();
    assert!(state.try_apply_pending_parent(Import::Failed).is_empty());
    state.handle_command(PreviewCommand::SetParent { handle: "abc".to_string() });
    assert_eq!(
        state.try_apply_pending_parent(Import::Failed),
        vec![HostAction::Send(PreviewEvent::ParentLost)]
    );
    assert!(state.try_apply_pending_parent(Import::Done).is_empty());
    assert!(state.try_apply_pending_parent(Import::Unavailable).is_empty());
}
