use stella_app::account::validation::{AccountValidationField, AccountValidationResult};
use stella_app::account::{
    AccountFieldError, AccountUi, AccountUiAction, AccountUiSnapshot, AccountView, Command, Field,
    Key, Message, Modifiers, NamedKey,
};

const EMAIL_INVALID: Message = Message::EmailInvalid;
const EMAIL_TAKEN: Message = Message::EmailTaken;
const WRONG_EMAIL: Message = Message::WrongEmail;
const WRONG_PASSWORD: Message = Message::WrongPassword;
const PASSWORD_REQUIRED: Message = Message::PasswordRequired;
const PASSWORD_HELP: Message = Message::PasswordHelp;

const MILLIS: u64 = 1_000_000;
const SECONDS: u64 = 1_000_000_000;

fn snapshot(id: u64, view: AccountView) -> AccountUiSnapshot {
    AccountUiSnapshot {
        id,
        view,
        busy: false,
        field_error: None,
    }
}

fn ui(view: AccountView) -> AccountUi {
    let mut ui = AccountUi::default();
    ui.sync(Some(snapshot(7, view)));
    ui
}

fn clock(ui: &mut AccountUi, millis: u64) {
    ui.set_validation_clock(millis * MILLIS);
}

fn edit(ui: &mut AccountUi, field: Field, text: &str) {
    ui.focus(Some(field));
    let forgot = ui
        .snapshot
        .map_or(false, |s| s.view == AccountView::ForgotPassword);
    match (field, forgot) {
        (Field::Email, false) => ui.email.select_all(),
        (Field::Email, true) => ui.forgot_email.select_all(),
        (Field::Password, _) => ui.password.select_all(),
    }
    ui.text(text);
}

fn enter(ui: &mut AccountUi, field: Field, text: &str) {
    ui.focus(Some(field));
    ui.text(text);
}

fn feedback(ui: &AccountUi, field: u32, message: u32) -> AccountValidationResult {
    AccountValidationResult {
        id: ui.owner_id().unwrap(),
        view: ui.snapshot.as_ref().unwrap().view,
        field: if matches!(field, 17 | 19 | 23) {
            AccountValidationField::Password
        } else {
            AccountValidationField::Email
        },
        generation: 0,
        error: Some(AccountFieldError { field, message }),
        valid: false,
    }
}

fn deliver(ui: &mut AccountUi, field: u32, message: u32) {
    ui.apply_validation_result(feedback(ui, field, message));
}

fn key(ui: &mut AccountUi, key: NamedKey) -> Option<Command> {
    ui.key(&Key::Named(key), None, Modifiers::empty())
}

fn control() -> Modifiers {
    Modifiers {
        control: true,
        ..Modifiers::empty()
    }
}

fn command_key() -> Modifiers {
    Modifiers {
        super_key: true,
        ..Modifiers::empty()
    }
}

#[test]
fn editing_clears_only_its_visuals_with_native_submit_flag_asymmetry() {
    let mut ui = ui(AccountView::SignIn);
    ui.email_error = Some(EMAIL_INVALID);
    ui.email_popup = true;
    ui.email_border = true;
    ui.password_error = Some(WRONG_PASSWORD);
    ui.password_popup = true;
    ui.password_border = true;
    ui.validation.submitted = [true; 3];
    edit(&mut ui, Field::Password, "short");
    assert_eq!(ui.validation.submitted, [false, true, true]);
    assert_eq!(ui.password_error, None);
    assert!(!ui.password_popup && !ui.password_border);
    assert_eq!(ui.email_error, Some(EMAIL_INVALID));
    assert!(ui.email_popup && ui.email_border);
    edit(&mut ui, Field::Email, "invalid");
    assert_eq!(ui.validation.submitted, [false; 3]);
    assert_eq!(ui.email_error, None);
    assert!(!ui.email_popup && !ui.email_border);
}

#[test]
fn before_submit_feedback_changes_icons_without_opening_bubbles_or_red_borders() {
    for view in [
        AccountView::SignIn,
        AccountView::Register2,
        AccountView::ForgotPassword,
    ] {
        let mut ui = ui(view);
        deliver(&mut ui, 18, 1);
        assert_eq!(ui.email_error, Some(EMAIL_INVALID));
        assert!(!ui.email_popup && !ui.email_border);
        if view != AccountView::ForgotPassword {
            ui.password_help = true;
            deliver(&mut ui, 19, 6);
            assert_eq!(ui.password_error, Some(PASSWORD_HELP));
            assert!(!ui.password_popup && !ui.password_border && !ui.password_help);
        }
        // Already-open presentation is not forcibly hidden by another reply.
        ui.email_popup = true;
        ui.email_border = true;
        deliver(&mut ui, 18, 3);
        assert_eq!(ui.email_error, Some(WRONG_EMAIL));
        assert!(ui.email_popup && ui.email_border);
    }
}

#[test]
fn valid_boolean_is_a_noop_and_cannot_suppress_an_error() {
    let mut ui = ui(AccountView::SignIn);
    deliver(&mut ui, 18, 3);
    ui.email_popup = true;
    ui.email_border = true;
    let revision = ui.revision;
    for valid in [false, true] {
        let mut result = feedback(&ui, 18, 1);
        result.error = None;
        result.valid = valid;
        ui.apply_validation_result(result);
        assert_eq!(ui.email_error, Some(WRONG_EMAIL));
        assert!(ui.email_popup && ui.email_border);
        assert_eq!(ui.revision, revision);
    }
    let mut result = feedback(&ui, 16, 2);
    result.valid = true;
    ui.apply_validation_result(result);
    assert_eq!(ui.email_error, Some(EMAIL_TAKEN));
}

#[test]
fn submitted_email_error_cancels_both_timers_except_forgot_password() {
    for (view, index) in [
        (AccountView::SignIn, 0),
        (AccountView::Register2, 1),
        (AccountView::ForgotPassword, 2),
    ] {
        let mut ui = ui(view);
        ui.validation.deadlines = [Some(4 * SECONDS); 2];
        ui.validation.submitted = [true; 3];
        deliver(&mut ui, 15, 1);
        assert!(ui.email_popup && ui.email_border);
        assert_eq!(ui.validation.deadlines[0], None);
        assert_eq!(
            ui.validation.deadlines[1],
            (index == 2).then_some(4 * SECONDS)
        );
        let mut flags = [true; 3];
        flags[index] = false;
        assert_eq!(ui.validation.submitted, flags);
    }
}

#[test]
fn submitted_password_error_keeps_timers_and_has_view_specific_presentation() {
    let mut signin = ui(AccountView::SignIn);
    signin.validation.submitted = [true; 3];
    signin.validation.deadlines = [Some(4 * SECONDS); 2];
    deliver(&mut signin, 19, 6);
    assert_eq!(signin.password_error, Some(WRONG_PASSWORD));
    assert!(signin.password_popup && signin.password_border);
    assert_eq!(signin.validation.submitted, [false, true, true]);
    assert_eq!(signin.validation.deadlines, [Some(4 * SECONDS); 2]);

    for previous in [None, Some(PASSWORD_HELP)] {
        for popup in [false, true] {
            let mut register = ui(AccountView::Register2);
            register.password_error = previous;
            register.password_popup = popup;
            register.validation.submitted[1] = true;
            deliver(&mut register, 17, 4);
            assert_eq!(
                register.password_error,
                Some(previous.unwrap_or(PASSWORD_REQUIRED))
            );
            assert_eq!(register.password_popup, popup);
            assert!(register.password_border);
            assert!(!register.validation.submitted[1]);
        }
    }
}

#[test]
fn register2_edit_hides_password_error_but_preserves_its_text_for_submitted_feedback() {
    let mut ui = ui(AccountView::Register2);
    deliver(&mut ui, 17, 4);
    assert_eq!(ui.password_error, Some(PASSWORD_HELP));
    edit(&mut ui, Field::Password, "another-short-input");
    assert_eq!(ui.password_error, None);
    assert_eq!(ui.validation.password_error_text, Some(PASSWORD_HELP));
    assert!(!ui.password_popup && !ui.password_border);
    ui.validation_submission(AccountView::Register2);
    deliver(&mut ui, 17, 4);
    assert_eq!(ui.password_error, Some(PASSWORD_HELP));
    assert!(ui.password_border);
    assert!(!ui.password_popup);
}

#[test]
fn new_register2_nib_discards_hidden_password_label_text_and_uses_required_default() {
    let mut ui = ui(AccountView::Register2);
    deliver(&mut ui, 17, 4);
    edit(&mut ui, Field::Password, "edited");
    assert_eq!(ui.validation.password_error_text, Some(PASSWORD_HELP));
    ui.sync(Some(snapshot(7, AccountView::Register1)));
    ui.sync(Some(snapshot(7, AccountView::Register2)));
    assert_eq!(ui.validation.password_error_text, None);
    assert_eq!(ui.password_error, None);
    ui.validation_submission(AccountView::Register2);
    deliver(&mut ui, 17, 4);
    assert_eq!(ui.password_error, Some(PASSWORD_REQUIRED));
    assert!(ui.password_border);
    assert!(!ui.password_popup);
}

#[test]
fn forgot_password_and_non_input_views_ignore_password_feedback() {
    for view in [
        AccountView::ForgotPassword,
        AccountView::Help1,
        AccountView::Register1,
        AccountView::NoNetworkConnectivity,
    ] {
        for submitted in [false, true] {
            let mut ui = ui(view);
            ui.validation.submitted = [submitted; 3];
            let revision = ui.revision;
            for field in [17, 19, 23] {
                deliver(&mut ui, field, 4);
            }
            assert_eq!(ui.password_error, None);
            assert!(!ui.password_popup && !ui.password_border);
            assert_eq!(ui.revision, revision);
            assert_eq!(ui.validation.submitted, [submitted; 3]);
        }
    }
}

#[test]
fn only_register2_empty_password_submit_can_color_an_existing_email_icon_border() {
    for view in [AccountView::SignIn, AccountView::Register2] {
        for password in ["", "short"] {
            let mut ui = ui(view);
            ui.email_error = Some(EMAIL_INVALID);
            ui.password.replace(password);
            ui.password_error = Some(PASSWORD_REQUIRED);
            ui.password_popup = true;
            ui.decorate_submission_errors();
            assert!(ui.password_border);
            assert!(!ui.email_popup);
            assert_eq!(
                ui.email_border,
                view == AccountView::Register2 && password.is_empty()
            );
        }
    }
}

#[test]
fn in_flight_old_generations_apply_in_arrival_order_to_current_owner_view() {
    let mut ui = ui(AccountView::SignIn);
    edit(&mut ui, Field::Email, "old");
    let mut old = feedback(&ui, 18, 3);
    old.generation = 1;
    edit(&mut ui, Field::Email, "new");
    ui.sync(Some(snapshot(7, AccountView::Register2)));
    assert_eq!(ui.validation.generation[0], 2);
    ui.apply_validation_result(old); // Result.view intentionally remains SignIn.
    assert_eq!(ui.email_error, Some(WRONG_EMAIL));
    let mut next = old;
    next.error.as_mut().unwrap().message = 1;
    ui.apply_validation_result(next);
    assert_eq!(ui.email_error, Some(EMAIL_INVALID));
    let revision = ui.revision;
    next.id = 999;
    next.error.as_mut().unwrap().message = 2;
    ui.apply_validation_result(next);
    assert_eq!(ui.email_error, Some(EMAIL_INVALID));
    assert_eq!(ui.revision, revision);
}

#[test]
fn signin_retains_error_icons_across_help_without_reopening_popups_or_borders() {
    let mut ui = ui(AccountView::SignIn);
    edit(&mut ui, Field::Password, "short");
    deliver(&mut ui, 18, 3);
    deliver(&mut ui, 19, 6);
    ui.email_popup = true;
    ui.password_popup = true;
    ui.email_border = true;
    ui.password_border = true;
    ui.sync(Some(snapshot(7, AccountView::Help1)));
    ui.sync(Some(snapshot(7, AccountView::SignIn)));
    assert_eq!(ui.email_error, Some(WRONG_EMAIL));
    assert_eq!(ui.password_error, Some(PASSWORD_HELP));
    assert!(!ui.email_popup && !ui.password_popup && !ui.email_border && !ui.password_border);
    edit(&mut ui, Field::Email, "changed");
    edit(&mut ui, Field::Password, "long-enough-secret");
    ui.sync(Some(snapshot(7, AccountView::Help1)));
    ui.sync(Some(snapshot(7, AccountView::SignIn)));
    assert_eq!((ui.email_error, ui.password_error), (None, None));
}

#[test]
fn submitted_snapshot_errors_use_the_same_retained_signin_icon_state() {
    for (field, message) in [(18, 3), (19, 6)] {
        let mut ui = ui(AccountView::SignIn);
        edit(&mut ui, Field::Email, "nobody@example.invalid");
        edit(&mut ui, Field::Password, "long-enough-password");
        let mut error = snapshot(7, AccountView::SignIn);
        error.field_error = Some(AccountFieldError { field, message });
        ui.sync(Some(error));
        ui.sync(Some(snapshot(7, AccountView::Help1)));
        ui.sync(Some(snapshot(7, AccountView::SignIn)));
        if field == 18 {
            assert_eq!(ui.email_error, Some(WRONG_EMAIL));
        } else {
            assert_eq!(ui.password_error, Some(WRONG_PASSWORD));
        }
        assert!(!ui.email_popup && !ui.password_popup && !ui.email_border && !ui.password_border);
    }
}

#[test]
fn ime_cancel_restores_cache_to_visible_committed_text_and_restarts_edit_timer() {
    for blur in [false, true] {
        let mut ui = ui(AccountView::SignIn);
        edit(&mut ui, Field::Password, "committed");
        ui.preedit("撤销", Some((0, 6)));
        clock(&mut ui, 700);
        if blur {
            ui.focus(None);
        } else {
            assert_eq!(key(&mut ui, NamedKey::Escape), None);
        }
        assert!(ui.password.preedit.is_empty());
        assert_eq!(ui.validation.cached[1], "committed");
        assert_eq!(ui.validation.deadlines[1], Some(2700 * MILLIS));
    }
}

#[test]
fn caret_and_selection_are_not_edits_but_actual_deletion_is() {
    let mut ui = ui(AccountView::SignIn);
    edit(&mut ui, Field::Email, "e\u{301}x");
    deliver(&mut ui, 18, 3);
    clock(&mut ui, 700);
    let deadlines = ui.validation.deadlines;
    let generation = ui.validation.generation;
    key(&mut ui, NamedKey::Home);
    key(&mut ui, NamedKey::Backspace); // No content to delete at start.
    key(&mut ui, NamedKey::End);
    ui.key(&Key::Character("a".into()), None, control());
    assert_eq!(ui.validation.deadlines, deadlines);
    assert_eq!(ui.validation.generation, generation);
    assert_eq!(ui.email_error, Some(WRONG_EMAIL));
    key(&mut ui, NamedKey::Backspace);
    assert_eq!(ui.email.text(), "");
    assert_eq!(ui.validation.cached[0], "");
    assert_eq!(ui.validation.deadlines[0], Some(2700 * MILLIS));
    assert_eq!(ui.email_error, None);
}

#[test]
fn native_utf8_cache_uses_strlen_boundary_and_clock_does_not_move_backwards() {
    let mut ui = ui(AccountView::SignIn);
    clock(&mut ui, 900);
    edit(&mut ui, Field::Password, "x");
    clock(&mut ui, 100);
    ui.preedit("中\0ignored", Some((3, 3)));
    assert_eq!(ui.validation.now, 900 * MILLIS);
    assert_eq!(ui.validation.cached[1], "x中");
    assert_eq!(ui.validation.deadlines[1], Some(2900 * MILLIS));
}

#[test]
fn signin_return_moves_email_to_password_then_blurs_without_submission() {
    let mut ui = AccountUi::default();
    ui.sync(Some(snapshot(1, AccountView::SignIn)));
    enter(&mut ui, Field::Password, "secret");
    enter(&mut ui, Field::Email, "stella@example.invalid");

    assert_eq!(key(&mut ui, NamedKey::Enter), None);
    assert_eq!(ui.focused(), Some(Field::Password));
    assert_eq!(key(&mut ui, NamedKey::Enter), None);
    assert_eq!(ui.focused(), None);
    assert!(!ui.busy());
    assert_eq!(ui.snapshot.as_ref().unwrap().view, AccountView::SignIn);

    ui.focus(Some(Field::Email));
    ui.preedit("中文", Some((0, 6)));
    assert_eq!(key(&mut ui, NamedKey::Enter), None);
    assert_eq!(ui.focused(), Some(Field::Email));
    assert_eq!(ui.email.preedit, "中文");
    assert_eq!(ui.email.text(), "stella@example.invalid");
    assert_eq!(key(&mut ui, NamedKey::Escape), None);
    assert!(ui.email.preedit.is_empty());
    assert_eq!(
        key(&mut ui, NamedKey::Escape),
        Some(Command::Action(AccountUiAction::Cancel))
    );

    ui.sync(Some(snapshot(1, AccountView::ForgotPassword)));
    ui.focus(Some(Field::Email));
    assert_eq!(key(&mut ui, NamedKey::Enter), None);
    assert_eq!(ui.focused(), None);
}

#[test]
fn owner_changes_clear_credentials_but_same_owner_help_and_errors_retain_them() {
    let mut ui = AccountUi::default();
    assert!(!ui.visible());
    assert_eq!(key(&mut ui, NamedKey::Escape), None);
    assert!(ui.sync(Some(snapshot(41, AccountView::SignIn))));
    enter(&mut ui, Field::Email, "private@example.invalid");
    enter(&mut ui, Field::Password, "retained secret");
    ui.preedit("composing secret", Some((0, 16)));
    ui.pressed = Some("submit".to_owned());
    let mut error = snapshot(41, AccountView::SignIn);
    error.field_error = Some(AccountFieldError {
        field: 19,
        message: 6,
    });
    assert!(!ui.sync(Some(error)));
    assert_eq!(ui.password_error, Some(WRONG_PASSWORD));
    assert_eq!(
        ui.password_error.unwrap().text(),
        ("rovio_id_wrong_password", "Wrong password")
    );
    assert_eq!(ui.email.text(), "private@example.invalid");
    assert_eq!(ui.password.text(), "retained secret");

    assert!(!ui.sync(Some(snapshot(41, AccountView::Help1))));
    assert_eq!(ui.focused(), None);
    assert!(ui.email.preedit.is_empty());
    assert!(ui.password.preedit.is_empty());
    assert_eq!(ui.pressed, None);
    assert_eq!(ui.password_error, None);
    assert!(!ui.sync(Some(snapshot(41, AccountView::SignIn))));
    assert_eq!(ui.email.text(), "private@example.invalid");
    assert_eq!(ui.password.text(), "retained secret");

    assert!(ui.sync(Some(snapshot(42, AccountView::SignIn))));
    assert_eq!(ui.email.text(), "");
    assert_eq!(ui.password.text(), "");
    assert_eq!(ui.email.cursor(), 0);
    assert_eq!(ui.password.cursor(), 0);
    enter(&mut ui, Field::Password, "another secret");
    assert!(ui.sync(None));
    assert!(!ui.visible());
    assert_eq!(ui.password.text(), "");
    assert_eq!(ui.focused(), None);
}

#[test]
fn repeated_server_snapshot_does_not_restore_field_errors_cleared_by_editing() {
    for (field, message, focus, expected) in [
        (15, 1, Field::Email, EMAIL_INVALID),
        (18, 3, Field::Email, WRONG_EMAIL),
        (16, 2, Field::Email, EMAIL_TAKEN),
        (19, 6, Field::Password, WRONG_PASSWORD),
        (17, 4, Field::Password, PASSWORD_HELP),
    ] {
        let mut ui = AccountUi::default();
        let mut next = snapshot(
            12,
            if matches!(field, 16 | 17) {
                AccountView::Register2
            } else {
                AccountView::SignIn
            },
        );
        next.field_error = Some(AccountFieldError { field, message });
        ui.sync(Some(next));
        assert_eq!(
            if focus == Field::Email {
                ui.email_error
            } else {
                ui.password_error
            },
            Some(expected)
        );
        enter(&mut ui, focus, "correction");
        assert_eq!(ui.email_error, None);
        assert_eq!(ui.password_error, None);
        let revision = ui.revision;
        assert!(!ui.sync(Some(next)));
        assert_eq!(ui.revision, revision);
        assert_eq!(ui.email_error, None);
        assert_eq!(ui.password_error, None);
    }
}

#[test]
fn help_and_other_non_input_views_do_not_focus_or_edit_hidden_credentials() {
    for view in [
        AccountView::Help1,
        AccountView::Help2,
        AccountView::Help3,
        AccountView::NoNetworkConnectivity,
        AccountView::PasswordResetEmailSent,
        AccountView::AccountNotVerified,
        AccountView::ThanksForRegistering,
        AccountView::RegistrationFailure,
    ] {
        let mut ui = AccountUi::default();
        ui.sync(Some(snapshot(9, AccountView::SignIn)));
        enter(&mut ui, Field::Email, "retained@example.invalid");
        enter(&mut ui, Field::Password, "retained secret");
        ui.sync(Some(snapshot(9, view)));
        assert_eq!(ui.focused(), None);
        assert_eq!(key(&mut ui, NamedKey::Tab), None);
        assert_eq!(ui.focused(), None, "{view:?}");
        for field in [Field::Email, Field::Password] {
            ui.focus(Some(field));
            assert_eq!(ui.focused(), None, "{view:?}/{field:?}");
            ui.text("hidden edit");
            ui.preedit("hidden composition", Some((0, 5)));
            assert_eq!(
                ui.key(&Key::Character("x".into()), Some("x"), Modifiers::empty()),
                None
            );
            assert_eq!(key(&mut ui, NamedKey::Backspace), None);
        }
        assert_eq!(ui.email.text(), "retained@example.invalid");
        assert_eq!(ui.password.text(), "retained secret");
        assert!(ui.email.preedit.is_empty());
        assert!(ui.password.preedit.is_empty());
        assert_eq!(key(&mut ui, NamedKey::Enter), None);
        assert_eq!(ui.focused(), None);
        ui.sync(Some(snapshot(9, AccountView::SignIn)));
        assert_eq!(ui.email.text(), "retained@example.invalid");
        assert_eq!(ui.password.text(), "retained secret");
    }
}

#[test]
fn clipboard_shortcuts_require_explicit_input_and_never_export_secure_selection() {
    let mut ui = AccountUi::default();
    ui.sync(Some(snapshot(1, AccountView::SignIn)));
    let shortcut = |ui: &mut AccountUi, key: &str, modifier| {
        ui.key(&Key::Character(key.into()), None, modifier)
    };
    for modifier in [control(), command_key()] {
        assert_eq!(shortcut(&mut ui, "v", modifier), None);
        enter(&mut ui, Field::Email, "mail@example.invalid");
        assert_eq!(shortcut(&mut ui, "c", modifier), None);
        assert_eq!(shortcut(&mut ui, "x", modifier), None);
        assert_eq!(shortcut(&mut ui, "a", modifier), None);
        assert_eq!(ui.copyable_selection(), Some("mail@example.invalid"));
        assert_eq!(shortcut(&mut ui, "C", modifier), Some(Command::Copy));
        assert_eq!(shortcut(&mut ui, "x", modifier), Some(Command::Cut));
        assert_eq!(ui.email.text(), "mail@example.invalid");
        enter(&mut ui, Field::Password, "秘密👩‍🚀");
        assert_eq!(shortcut(&mut ui, "a", modifier), None);
        assert_eq!(ui.copyable_selection(), None);
        assert_eq!(shortcut(&mut ui, "c", modifier), None);
        assert_eq!(shortcut(&mut ui, "X", modifier), None);
        assert_eq!(shortcut(&mut ui, "V", modifier), Some(Command::Paste));
        assert_eq!(ui.password.text(), "秘密👩‍🚀");
        ui.sync(None);
        ui.sync(Some(snapshot(2, AccountView::SignIn)));
    }
}

#[test]
fn ime_owns_navigation_and_clipboard_until_commit_or_escape() {
    let mut ui = AccountUi::default();
    ui.sync(Some(snapshot(1, AccountView::SignIn)));
    enter(&mut ui, Field::Email, "base");
    ui.email.select_all();
    ui.preedit("候选", Some((0, 6)));
    for named in [
        NamedKey::Tab,
        NamedKey::Enter,
        NamedKey::Backspace,
        NamedKey::ArrowRight,
    ] {
        assert_eq!(key(&mut ui, named), None);
        assert_eq!(ui.focused(), Some(Field::Email));
        assert_eq!(ui.email.preedit, "候选");
        assert_eq!(ui.email.text(), "base");
    }
    for letter in ["c", "x", "v"] {
        assert_eq!(
            ui.key(&Key::Character(letter.into()), None, command_key()),
            None
        );
    }
    assert_eq!(ui.copyable_selection(), None);
    assert_eq!(key(&mut ui, NamedKey::Escape), None);
    assert!(ui.email.preedit.is_empty());
    assert_eq!(ui.email.text(), "base");
    assert_eq!(
        key(&mut ui, NamedKey::Escape),
        Some(Command::Action(AccountUiAction::Cancel))
    );
}

#[test]
fn desktop_reverse_tab_starts_last_field_and_caret_motion_retains_validation_errors() {
    let mut ui = AccountUi::default();
    ui.sync(Some(snapshot(1, AccountView::SignIn)));
    ui.key(
        &Key::Named(NamedKey::Tab),
        None,
        Modifiers {
            shift: true,
            ..Modifiers::empty()
        },
    );
    assert_eq!(ui.focused(), Some(Field::Password));
    key(&mut ui, NamedKey::Tab);
    assert_eq!(ui.focused(), Some(Field::Email));
    ui.text("invalid");
    ui.email_error = Some(EMAIL_INVALID);
    key(&mut ui, NamedKey::ArrowLeft);
    assert_eq!(ui.email_error, Some(EMAIL_INVALID));
    ui.key(&Key::Character("a".into()), None, control());
    assert_eq!(ui.email_error, Some(EMAIL_INVALID));
    key(&mut ui, NamedKey::Delete);
    assert_eq!(ui.email_error, None);
    assert_eq!(ui.email.text(), "");
}

#[test]
fn blur_return_same_owner_page_and_progress_do_not_cancel_timers() {
    let mut ui = ui(AccountView::SignIn);
    edit(&mut ui, Field::Email, "invalid");
    clock(&mut ui, 400);
    edit(&mut ui, Field::Password, "short");
    let deadlines = ui.validation.deadlines;
    ui.focus(Some(Field::Email));
    assert_eq!(key(&mut ui, NamedKey::Enter), None);
    assert_eq!(ui.focus, Some(Field::Password));
    assert_eq!(key(&mut ui, NamedKey::Enter), None);
    assert_eq!(ui.focus, None);
    assert_eq!(ui.validation.deadlines, deadlines);
    for view in [
        AccountView::Help1,
        AccountView::Register2,
        AccountView::SignIn,
    ] {
        assert!(!ui.sync(Some(snapshot(7, view))));
        assert_eq!(ui.validation.deadlines, deadlines);
        assert_eq!(ui.validation.cached, ["invalid", "short"]);
    }
    let mut busy = snapshot(7, AccountView::SignIn);
    busy.busy = true;
    ui.sync(Some(busy));
    assert_eq!(ui.validation.deadlines, deadlines);
    assert_eq!(ui.validation.generation, [1, 1]);
    ui.sync(Some(snapshot(8, AccountView::SignIn)));
    assert_eq!(ui.validation.deadlines, [None; 2]);
    assert_eq!(ui.validation.cached, ["", ""]);
    assert_eq!(ui.validation.generation, [0; 2]);
}

#[test]
fn progress_email_feedback_retains_wrapper_text_without_consuming_form_state() {
    let mut ui = ui(AccountView::SignIn);
    edit(&mut ui, Field::Email, "invalid");
    edit(&mut ui, Field::Password, "short");
    deliver(&mut ui, 18, 1);
    ui.validation.submitted = [true; 3];
    let deadlines = ui.validation.deadlines;
    let mut busy = snapshot(7, AccountView::SignIn);
    busy.busy = true;
    ui.sync(Some(busy));
    let revision = ui.revision;
    deliver(&mut ui, 18, 3);
    assert_eq!(ui.validation.email_error_text, Some(WRONG_EMAIL));
    assert_eq!(ui.email_error, None);
    assert!(!ui.email_popup && !ui.email_border);
    assert!(ui.validation.signin_email_error);
    assert!(!ui.validation.signin_password_error);
    assert_eq!(ui.validation.submitted, [true; 3]);
    assert_eq!(ui.validation.deadlines, deadlines);
    assert_eq!(ui.revision, revision);
}

#[test]
fn submit_preserves_timers_and_native_cache_copy_order() {
    let mut ui = ui(AccountView::SignIn);
    edit(&mut ui, Field::Email, "cached");
    edit(&mut ui, Field::Password, "cached-password");
    let deadlines = ui.validation.deadlines;
    // Direct editor changes isolate the submit callback from editing-changed.
    ui.email.select_all();
    ui.email.replace("new-email");
    ui.password.select_all();
    ui.password.replace("");
    ui.validation_submission(AccountView::SignIn);
    assert_eq!(ui.validation.cached, ["cached", "cached-password"]);
    assert_eq!(ui.validation.submitted, [true, false, false]);
    ui.validation_submission(AccountView::Register2);
    assert_eq!(ui.validation.cached, ["new-email", ""]);
    ui.password.replace("new-password");
    ui.validation_submission(AccountView::SignIn);
    assert_eq!(ui.validation.cached, ["new-email", "new-password"]);
    ui.validation_submission(AccountView::ForgotPassword);
    assert_eq!(ui.validation.cached, ["", "new-password"]);
    assert_eq!(ui.validation.deadlines, deadlines);
    assert_eq!(ui.validation.submitted, [true; 3]);
}

#[test]
fn shared_cache_restores_unsubmitted_email_and_password_across_pages() {
    let mut ui = ui(AccountView::SignIn);
    edit(&mut ui, Field::Email, "draft@first.invalid");
    edit(&mut ui, Field::Password, "draft-secret");
    ui.sync(Some(snapshot(7, AccountView::Register2)));
    assert_eq!(ui.email.text(), "draft@first.invalid");
    assert_eq!(ui.password.text(), "draft-secret");
    ui.sync(Some(snapshot(7, AccountView::ForgotPassword)));
    assert_eq!(ui.forgot_email.text(), "");
    edit(&mut ui, Field::Email, "draft@reset.invalid");
    ui.sync(Some(snapshot(7, AccountView::SignIn)));
    assert_eq!(ui.email.text(), "draft@reset.invalid");
    assert_eq!(ui.password.text(), "draft-secret");
    assert_eq!(ui.validation.submitted, [false; 3]);
}
