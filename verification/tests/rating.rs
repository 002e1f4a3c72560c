use stella_app::rating::{AppRatingButton, AppRatingChoice, AppRatingPrompt, AppRatingUi};

fn prompt(id: u64) -> AppRatingPrompt {
    AppRatingPrompt {
        id,
        message: "Enjoying Angry Birds Stella? Please rate the game!".to_owned(),
        buttons: [
            AppRatingButton {
                choice: AppRatingChoice::Later,
                title: "Remind me later".to_owned(),
            },
            AppRatingButton {
                choice: AppRatingChoice::Decline,
                title: "No, thanks".to_owned(),
            },
            AppRatingButton {
                choice: AppRatingChoice::Rate,
                title: "Rate now".to_owned(),
            },
        ],
    }
}

/// What the painter does after drawing: the layout is current again.
fn paint(ui: &mut AppRatingUi, force: bool) -> bool {
    let paints = ui.needs_paint(force);
    if paints {
        ui.painted();
    }
    paints
}

#[test]
fn modal_press_cannot_cross_prompt_resize_cancel_or_other_button() {
    let mut ui = AppRatingUi::new();
    ui.sync(Some(prompt(1)), 1024, 768);
    assert!(paint(&mut ui, false));
    ui.press(Some(AppRatingChoice::Rate));
    assert_eq!(ui.release(Some(AppRatingChoice::Decline)), None);
    ui.press(Some(AppRatingChoice::Rate));
    assert!(ui.sync(Some(prompt(2)), 1024, 768));
    assert_eq!(ui.release(Some(AppRatingChoice::Rate)), None);
    paint(&mut ui, false);
    ui.press(Some(AppRatingChoice::Rate));
    assert!(!ui.sync(Some(prompt(2)), 768, 1024));
    assert_eq!(ui.release(Some(AppRatingChoice::Rate)), None);
    assert!(paint(&mut ui, false));
    ui.press(Some(AppRatingChoice::Rate));
    ui.cancel_press();
    assert_eq!(ui.release(Some(AppRatingChoice::Rate)), None);
    ui.press(Some(AppRatingChoice::Rate));
    assert_eq!(
        ui.release(Some(AppRatingChoice::Rate)),
        Some((2, AppRatingChoice::Rate))
    );
}

#[test]
fn nothing_is_under_the_pointer_before_the_first_layout() {
    let mut ui = AppRatingUi::new();
    ui.sync(Some(prompt(3)), 1024, 768);
    assert!(!ui.laid_out());
    ui.press(Some(AppRatingChoice::Later));
    assert_eq!(ui.release(Some(AppRatingChoice::Later)), None);
}

#[test]
fn modal_keyboard_wraps_without_defaulting_to_rate_and_repaint_can_be_forced() {
    let mut ui = AppRatingUi::new();
    ui.sync(Some(prompt(7)), 1024, 768);
    assert_eq!(ui.focused_answer(), Some((7, AppRatingChoice::Later)));
    ui.focus_next(true);
    assert_eq!(ui.focused_answer(), Some((7, AppRatingChoice::Rate)));
    ui.focus_next(false);
    assert_eq!(ui.focused_answer(), Some((7, AppRatingChoice::Later)));
    assert!(ui.highlighted(0));
    assert!(!ui.highlighted(2));
    assert!(paint(&mut ui, false));
    assert!(!paint(&mut ui, false));
    assert!(paint(&mut ui, true));
    ui.sync(None, 1024, 768);
    assert!(ui.focused_answer().is_none());
    assert!(!ui.visible());
    assert!(!paint(&mut ui, true));
}

#[test]
fn a_pressed_button_is_highlighted_and_zero_area_windows_do_not_paint() {
    let mut ui = AppRatingUi::new();
    ui.sync(Some(prompt(4)), 0, 768);
    assert!(!ui.needs_paint(true));
    ui.sync(Some(prompt(4)), 800, 600);
    assert!(paint(&mut ui, false));
    ui.press(Some(AppRatingChoice::Decline));
    assert!(ui.highlighted(1));
    assert!(ui.highlighted(0));
    assert!(!ui.highlighted(2));
    ui.pointer_moved();
    assert!(ui.needs_paint(false));
}
