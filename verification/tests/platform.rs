use stella_app::account::{Key, NamedKey};
use stella_app::platform::game_key_name;
use stella_app::platform::{
    app_store_product_url, check_screenshot_frame, ScreenshotError, escape_html, gamer_services_page, next_display_link_deadline,
    primary_touch_update, take_display_link_delta, update_native_touch_vector, CloseRequest,
    GamerServicesView, TouchPhase, DISPLAY_LINK_STEP, MAX_FRAME_DELTA,
};

const MILLIS: u64 = 1_000_000;

#[test]
fn display_link_delta_waits_for_a_tick_then_consumes_the_whole_debt_once() {
    let mut accumulator = 0;
    assert_eq!(take_display_link_delta(&mut accumulator, 8 * MILLIS), None);
    assert_eq!(accumulator, 8 * MILLIS);
    assert_eq!(
        take_display_link_delta(&mut accumulator, 42 * MILLIS),
        Some(50 * MILLIS)
    );
    assert_eq!(accumulator, 0);
}

#[test]
fn display_link_delta_clamps_a_stall_without_leaving_catch_up_debt() {
    let mut accumulator = 10 * MILLIS;
    assert_eq!(
        take_display_link_delta(&mut accumulator, 2_000 * MILLIS),
        Some(MAX_FRAME_DELTA)
    );
    assert_eq!(accumulator, 0);
}

#[test]
fn display_link_deadline_keeps_early_input_wakeups_on_the_same_tick() {
    let last_tick = 5_000_000_000;
    let retained = 8 * MILLIS;
    assert_eq!(
        next_display_link_deadline(last_tick, retained),
        last_tick + DISPLAY_LINK_STEP.saturating_sub(retained)
    );
    assert_eq!(
        next_display_link_deadline(last_tick, 0),
        last_tick + DISPLAY_LINK_STEP
    );
}

#[test]
fn display_link_saturates_and_deadline_falls_back_to_the_last_tick() {
    let mut accumulator = u64::MAX;
    assert_eq!(
        take_display_link_delta(&mut accumulator, u64::MAX),
        Some(MAX_FRAME_DELTA)
    );
    assert_eq!(next_display_link_deadline(u64::MAX, 0), u64::MAX);
    assert_eq!(next_display_link_deadline(7, DISPLAY_LINK_STEP * 2), 7);
}

#[test]
fn unsafe_platform_close_waits_until_a_later_safe_frame() {
    let mut close = CloseRequest::default();
    assert!(!close.request(false));
    assert!(!close.should_exit(false, false));
    assert!(close.should_exit(true, false));
}

#[test]
fn safe_platform_close_exits_immediately() {
    let mut close = CloseRequest::default();
    assert!(close.request(true));
    assert!(close.should_exit(true, false));
}

#[test]
fn script_requested_exit_bypasses_an_unsafe_platform_gate() {
    let close = CloseRequest::default();
    assert!(close.should_exit(false, true));
}

#[test]
fn native_touch_vector_appends_replaces_first_and_erases_all_matches() {
    let mut touches = Vec::new();
    update_native_touch_vector(&mut touches, TouchPhase::Started, (7, 10, 20));
    update_native_touch_vector(&mut touches, TouchPhase::Started, (7, 30, 40));
    update_native_touch_vector(&mut touches, TouchPhase::Started, (8, 50, 60));
    assert_eq!(touches, [(7, 10, 20), (7, 30, 40), (8, 50, 60)]);

    update_native_touch_vector(&mut touches, TouchPhase::Moved, (7, 70, 80));
    assert_eq!(touches, [(7, 70, 80), (7, 30, 40), (8, 50, 60)]);

    update_native_touch_vector(&mut touches, TouchPhase::Ended, (7, 90, 100));
    assert_eq!(touches, [(8, 50, 60)]);
}

#[test]
fn unknown_moves_are_ignored_and_cancel_removes_like_end() {
    let mut touches = vec![(1, 0, 0), (2, 0, 0)];
    update_native_touch_vector(&mut touches, TouchPhase::Moved, (3, 5, 5));
    assert_eq!(touches, [(1, 0, 0), (2, 0, 0)]);
    update_native_touch_vector(&mut touches, TouchPhase::Cancelled, (1, 0, 0));
    assert_eq!(touches, [(2, 0, 0)]);
}

#[test]
fn the_first_started_touch_drives_the_cursor_until_it_ends() {
    assert_eq!(
        primary_touch_update(None, 7, TouchPhase::Started),
        (Some(7), Some(true))
    );
    assert_eq!(
        primary_touch_update(Some(7), 8, TouchPhase::Started),
        (Some(7), None)
    );
    assert_eq!(
        primary_touch_update(Some(7), 8, TouchPhase::Moved),
        (Some(7), None)
    );
    assert_eq!(
        primary_touch_update(Some(7), 7, TouchPhase::Moved),
        (Some(7), Some(true))
    );
    assert_eq!(
        primary_touch_update(Some(7), 8, TouchPhase::Ended),
        (Some(7), None)
    );
    assert_eq!(
        primary_touch_update(Some(7), 7, TouchPhase::Cancelled),
        (None, Some(false))
    );
}

#[test]
fn app_store_product_action_preserves_the_native_identifier() {
    assert_eq!(
        app_store_product_url("875251011", 3),
        "https://apps.apple.com/app/id875251011"
    );
}

#[test]
fn html_escaping_covers_markup_and_quotes() {
    assert_eq!(
        escape_html("<a href=\"x\">Tom & Jerry's</a>"),
        "&lt;a href=&quot;x&quot;&gt;Tom &amp; Jerry&#39;s&lt;/a&gt;"
    );
    assert_eq!(escape_html("鸟 plain"), "鸟 plain");
}

#[test]
fn gamer_services_view_escapes_provider_text_and_preserves_values() {
    let (file, html) = gamer_services_page(
        GamerServicesView::Leaderboards,
        &[("<LEVEL&1>".to_owned(), "902.5".to_owned())],
    );
    assert_eq!(file, "Angry Birds Stella Leaderboards.html");
    assert!(html.contains("&lt;LEVEL&amp;1&gt;"));
    assert!(html.contains("902.5"));
    assert!(html.contains("<tr><td>&lt;LEVEL&amp;1&gt;</td><td>902.5</td></tr>"));
    assert!(html.contains("<h1>Leaderboards</h1>"));
}

#[test]
fn empty_gamer_services_page_shows_its_placeholder() {
    let (file, html) = gamer_services_page(GamerServicesView::Achievements, &[]);
    assert_eq!(file, "Angry Birds Stella Achievements.html");
    assert!(html.starts_with(
        "<!doctype html><meta charset=utf-8><title>Angry Birds Stella: Rehost — Achievements</title>"
    ));
    assert!(html.ends_with("<h1>Achievements</h1><p class=empty>No achievements unlocked yet.</p>"));
}

#[test]
fn rejects_a_framebuffer_with_the_wrong_extent() {
    assert_eq!(
        check_screenshot_frame(7, 2, 1),
        Err(ScreenshotError::WrongLength {
            actual: 7,
            expected: 8
        })
    );
    assert_eq!(check_screenshot_frame(8, 2, 1), Ok(()));
    assert_eq!(check_screenshot_frame(0, 0, 5), Ok(()));
}

#[test]
fn only_the_hardware_keys_reach_the_game() {
    assert_eq!(game_key_name(&Key::Named(NamedKey::Escape)), Some("KEY_BACK"));
    assert_eq!(game_key_name(&Key::Named(NamedKey::ContextMenu)), Some("KEY_MENU"));
    assert_eq!(game_key_name(&Key::Named(NamedKey::AudioVolumeUp)), Some("VOLUME_UP"));
    assert_eq!(game_key_name(&Key::Named(NamedKey::AudioVolumeDown)), Some("VOLUME_DOWN"));
    assert_eq!(game_key_name(&Key::Named(NamedKey::Enter)), None);
    assert_eq!(game_key_name(&Key::Character("a".to_string())), None);
}
