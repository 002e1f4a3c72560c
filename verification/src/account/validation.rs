//! UIKit editing timers and field presentation. These use real elapsed time,
//! not scaled game time, and survive focus/page changes within the same owner.
//! Times are nanoseconds of a monotonic clock.
use super::{
    bump, email_message, email_message_spec, input_view, input_view_spec, native_string,
    before_nul, AccountModel, AccountUi, AccountView, AccountFieldError, Field, Message,
};
use crate::text::{byte_len, str_byte_len};
use vstd::prelude::*;

verus! {

/// Delay between the last edit of a field and its validation: two seconds.
pub const DELAY: u64 = 2_000_000_000;

/// Which field a validation request or reply concerns.
#[derive(Clone, Copy, Debug, PartialEq, Eq, Structural)]
pub enum AccountValidationField {
    Email,
    Password,
}

/// Reply of the validation provider for one request.
#[derive(Clone, Copy, Debug, PartialEq, Eq, Structural)]
pub struct AccountValidationResult {
    pub id: u64,
    pub view: AccountView,
    pub field: AccountValidationField,
    pub generation: u64,
    pub error: Option<AccountFieldError>,
    pub valid: bool,
}

/// A due validation the host is to hand to the provider.
pub struct ValidationRequest {
    pub id: u64,
    pub field: AccountValidationField,
    pub generation: u64,
    pub text: String,
}

pub struct Validation {
    pub now: u64,
    pub deadlines: [Option<u64>; 2],
    pub generation: [u64; 2],
    /// Native wrapper view_address/view_password. Never included in snapshots,
    /// logging, save data, or renderer cache keys. Timer reads the latest cache.
    pub cached: [String; 2],
    /// SignIn, Register2, ForgotPassword.
    pub submitted: [bool; 3],
    pub signin_email_error: bool,
    pub signin_password_error: bool,
    pub email_error_text: Option<Message>,
    pub password_error_text: Option<Message>,
}

pub struct ValidationModel {
    pub now: u64,
    pub deadlines: Seq<Option<u64>>,
    pub generation: Seq<u64>,
    pub cached: Seq<Seq<char>>,
    pub submitted: Seq<bool>,
    pub signin_email_error: bool,
    pub signin_password_error: bool,
    pub email_error_text: Option<Message>,
    pub password_error_text: Option<Message>,
}

impl View for Validation {
    type V = ValidationModel;

    open spec fn view(&self) -> ValidationModel {
        ValidationModel {
            now: self.now,
            deadlines: self.deadlines@,
            generation: self.generation@,
            cached: seq![self.cached[0]@, self.cached[1]@],
            submitted: self.submitted@,
            signin_email_error: self.signin_email_error,
            signin_password_error: self.signin_password_error,
            email_error_text: self.email_error_text,
            password_error_text: self.password_error_text,
        }
    }
}

pub open spec fn default_validation() -> ValidationModel {
    ValidationModel {
        now: 0,
        deadlines: seq![None, None],
        generation: seq![0, 0],
        cached: seq![Seq::empty(), Seq::empty()],
        submitted: seq![false, false, false],
        signin_email_error: false,
        signin_password_error: false,
        email_error_text: None,
        password_error_text: None,
    }
}

impl ValidationModel {
    pub open spec fn wf(self) -> bool {
        &&& self.deadlines.len() == 2
        &&& self.generation.len() == 2
        &&& self.cached.len() == 2
        &&& self.submitted.len() == 3
        &&& byte_len(self.cached[0]) <= isize::MAX
        &&& byte_len(self.cached[1]) <= isize::MAX
    }
}

impl Default for Validation {
    fn default() -> (v: Validation)
        ensures
            v@ == default_validation(),
    {
        let v = Validation {
            now: 0,
            deadlines: [None, None],
            generation: [0, 0],
            cached: [String::new(), String::new()],
            submitted: [false, false, false],
            signin_email_error: false,
            signin_password_error: false,
            email_error_text: None,
            password_error_text: None,
        };
        assert(v@.deadlines =~= seq![None, None]);
        assert(v@.generation =~= seq![0u64, 0u64]);
        assert(v@.submitted =~= seq![false, false, false]);
        assert(v@.cached =~= seq![Seq::<char>::empty(), Seq::<char>::empty()]);
        v
    }
}

/// Deadline two seconds after `now`, unless that overflows the clock.
pub open spec fn deadline_after(now: u64) -> Option<u64> {
    if now + DELAY > u64::MAX {
        None
    } else {
        Some((now + DELAY) as u64)
    }
}

impl AccountModel {
    pub open spec fn retain_password_error_text(self) -> AccountModel {
        if self.password_error is Some {
            AccountModel {
                validation: ValidationModel {
                    password_error_text: self.password_error,
                    ..self.validation
                },
                ..self
            }
        } else {
            self
        }
    }

    pub open spec fn reset_validation_view(self) -> AccountModel {
        AccountModel {
            validation: ValidationModel { password_error_text: None, ..self.validation },
            ..self
        }
    }

    pub open spec fn set_validation_clock(self, now: u64) -> AccountModel {
        AccountModel {
            validation: ValidationModel {
                now: if self.validation.now < now {
                    now
                } else {
                    self.validation.now
                },
                ..self.validation
            },
            ..self
        }
    }

    /// An edit of the focused field on an input page caches its visible text
    /// (marked text included), bumps its generation, restarts its two-second
    /// timer and drops submitted flags.
    pub open spec fn edit_validation_field(self) -> AccountModel {
        match self.snapshot {
            None => self,
            Some(snapshot) => match input_view_spec(snapshot.view) {
                None => self,
                Some(index) => match self.focus {
                    None => self,
                    Some(field) => {
                        let slot: int = if field == Field::Password {
                            1
                        } else {
                            0
                        };
                        let text = if slot == 0 {
                            self.email_editor().display(false).0
                        } else {
                            self.password.display(false).0
                        };
                        let v = self.validation;
                        let v1 = ValidationModel {
                            cached: v.cached.update(slot, before_nul(text)),
                            generation: v.generation.update(slot, bump(v.generation[slot])),
                            deadlines: v.deadlines.update(slot, deadline_after(v.now)),
                            ..v
                        };
                        let v2 = if slot == 0 {
                            ValidationModel {
                                submitted: seq![false, false, false],
                                signin_email_error: if index == 0 {
                                    false
                                } else {
                                    v1.signin_email_error
                                },
                                ..v1
                            }
                        } else {
                            ValidationModel {
                                submitted: v1.submitted.update(index, false),
                                signin_password_error: if index == 0 {
                                    false
                                } else {
                                    v1.signin_password_error
                                },
                                ..v1
                            }
                        };
                        AccountModel { validation: v2, ..self }
                    },
                },
            },
        }
    }

    /// Re-entering SignIn or Register2 rebuilds both editors from the shared
    /// cache; SignIn also restores its retained error icons.
    pub open spec fn restore_native_validation_text(self, view: AccountView) -> AccountModel {
        if view == AccountView::SignIn || view == AccountView::Register2 {
            let restored = AccountModel {
                email: crate::editor::empty_editor().replace(self.validation.cached[0]),
                password: crate::editor::empty_editor().replace(self.validation.cached[1]),
                ..self
            };
            if view == AccountView::SignIn {
                let with_email = if self.validation.signin_email_error {
                    AccountModel { email_error: self.validation.email_error_text, ..restored }
                } else {
                    restored
                };
                if self.validation.signin_password_error {
                    AccountModel {
                        password_error: Some(
                            if byte_len(self.validation.cached[1]) <= 7 {
                                Message::PasswordHelp
                            } else {
                                Message::WrongPassword
                            },
                        ),
                        ..with_email
                    }
                } else {
                    with_email
                }
            } else {
                restored
            }
        } else {
            self
        }
    }

    pub open spec fn remember_native_field_error(self, field: u32) -> AccountModel {
        let with_text = if field == 15 || field == 16 || field == 18 {
            AccountModel {
                validation: ValidationModel {
                    email_error_text: self.email_error,
                    ..self.validation
                },
                ..self
            }
        } else {
            self
        };
        if !self.busy() && (self.snapshot matches Some(s) && s.view == AccountView::SignIn) {
            if field == 18 {
                AccountModel {
                    validation: ValidationModel { signin_email_error: true, ..with_text.validation },
                    ..with_text
                }
            } else if field == 19 {
                AccountModel {
                    validation: ValidationModel {
                        signin_password_error: true,
                        ..with_text.validation
                    },
                    ..with_text
                }
            } else {
                with_text
            }
        } else {
            with_text
        }
    }

    /// Submitting marks the page's flag and copies the raw field texts into
    /// the shared cache, without touching either timer.
    pub open spec fn validation_submission(self, view: AccountView) -> AccountModel {
        let v = self.validation;
        let flagged = match input_view_spec(view) {
            Some(index) => ValidationModel { submitted: v.submitted.update(index, true), ..v },
            None => v,
        };
        let copied = if view == AccountView::Register2 || (view == AccountView::SignIn
            && self.email.value.len() > 0 && self.password.value.len() > 0) {
            ValidationModel {
                cached: seq![before_nul(self.email.value), before_nul(self.password.value)],
                ..flagged
            }
        } else if view == AccountView::ForgotPassword {
            ValidationModel { cached: flagged.cached.update(0, Seq::empty()), ..flagged }
        } else {
            flagged
        };
        AccountModel { validation: copied, ..self }
    }

    pub open spec fn decorate_submission_errors(self) -> AccountModel {
        let email_done = if self.email_popup && self.email_error is Some {
            AccountModel { email_border: true, ..self }
        } else {
            self
        };
        if self.password_popup && self.password_error is Some {
            let extra = self.snapshot matches Some(s) && s.view == AccountView::Register2
                && self.password.value.len() == 0 && self.email_error is Some;
            AccountModel {
                password_border: true,
                email_border: if extra {
                    true
                } else {
                    email_done.email_border
                },
                ..email_done
            }
        } else {
            email_done
        }
    }

    /// A field error on a submitted input page stops the email timer (and the
    /// password timer except on ForgotPassword) and consumes the submit flag.
    pub open spec fn invalidate_submitted_email_timers(self) -> AccountModel {
        match self.snapshot {
            None => self,
            Some(s) => match input_view_spec(s.view) {
                None => self,
                Some(index) => if self.validation.submitted[index] {
                    let v = self.validation;
                    let d0 = v.deadlines.update(0, None);
                    AccountModel {
                        validation: ValidationModel {
                            deadlines: if index != 2 {
                                d0.update(1, None)
                            } else {
                                d0
                            },
                            submitted: v.submitted.update(index, false),
                            ..v
                        },
                        ..self
                    }
                } else {
                    self
                },
            },
        }
    }

    /// Presentation of one provider reply for the current owner.
    pub open spec fn apply_validation_result(self, result: AccountValidationResult) -> AccountModel {
        if self.owner_id() != Some(result.id) {
            self
        } else {
            match result.error {
                None => self,
                Some(error) => {
                    let is_email = error.field == 15 || error.field == 16 || error.field == 18;
                    let texted = if is_email {
                        AccountModel {
                            validation: ValidationModel {
                                email_error_text: Some(email_message_spec(error.message)),
                                ..self.validation
                            },
                            ..self
                        }
                    } else {
                        self
                    };
                    if texted.busy() {
                        texted
                    } else {
                        match input_view_spec(texted.snapshot.unwrap().view) {
                            None => texted,
                            Some(index) => {
                                let submitted = texted.validation.submitted[index];
                                if is_email {
                                    texted.present_email_result(index, submitted)
                                } else if (error.field == 17 || error.field == 19) && index != 2 {
                                    texted.present_password_result(index, submitted)
                                } else {
                                    texted
                                }
                            },
                        }
                    }
                },
            }
        }
    }

    /// An email reply shows the retained error text; on a submitted page it
    /// also opens the bubble and red border and stops the timers.
    pub open spec fn present_email_result(self, index: int, submitted: bool) -> AccountModel {
        let shown = AccountModel {
            email_error: self.validation.email_error_text,
            validation: ValidationModel {
                signin_email_error: if index == 0 {
                    true
                } else {
                    self.validation.signin_email_error
                },
                ..self.validation
            },
            ..self
        };
        if submitted {
            AccountModel {
                email_popup: true,
                email_border: true,
                ..shown
            }.invalidate_submitted_email_timers().dirty()
        } else {
            shown.dirty()
        }
    }

    /// A password reply before submit is the length hint; after submit it is
    /// "wrong password" on SignIn and a red border on Register2.
    pub open spec fn present_password_result(self, index: int, submitted: bool) -> AccountModel {
        let base = AccountModel {
            password_help: false,
            validation: ValidationModel {
                signin_password_error: if index == 0 {
                    true
                } else {
                    self.validation.signin_password_error
                },
                ..self.validation
            },
            ..self
        };
        let presented = if !submitted {
            AccountModel { password_error: Some(Message::PasswordHelp), ..base }
        } else if index == 0 {
            AccountModel {
                password_error: Some(Message::WrongPassword),
                password_popup: true,
                password_border: true,
                validation: ValidationModel {
                    submitted: base.validation.submitted.update(0, false),
                    ..base.validation
                },
                ..base
            }
        } else {
            AccountModel {
                password_error: if base.password_error is Some {
                    base.password_error
                } else {
                    Some(
                        match base.validation.password_error_text {
                            Some(m) => m,
                            None => Message::PasswordRequired,
                        },
                    )
                },
                password_border: true,
                validation: ValidationModel {
                    submitted: base.validation.submitted.update(1, false),
                    ..base.validation
                },
                ..base
            }
        };
        presented.dirty()
    }

    /// Expiry of one field's timer: the deadline is consumed, and a request is
    /// produced when the cached text is non-empty.
    pub open spec fn take_due_validation(self, slot: int) -> AccountModel {
        if self.owner_id() is Some && (self.validation.deadlines[slot] matches Some(at)
            && at <= self.validation.now) {
            AccountModel {
                validation: ValidationModel {
                    deadlines: self.validation.deadlines.update(slot, None),
                    ..self.validation
                },
                ..self
            }
        } else {
            self
        }
    }

    pub open spec fn due_request(self, slot: int) -> Option<(u64, u64, Seq<char>)> {
        if self.owner_id() is Some && (self.validation.deadlines[slot] matches Some(at)
            && at <= self.validation.now) && self.validation.cached[slot].len() > 0 {
            Some((self.owner_id().unwrap(), self.validation.generation[slot], self.validation.cached[slot]))
        } else {
            None
        }
    }
}

impl AccountUi {
    pub fn retain_password_error_text(&mut self)
        requires
            old(self)@.wf(),
        ensures
            final(self)@ == old(self)@.retain_password_error_text(),
            final(self)@.wf(),
    {
        if self.password_error.is_some() {
            // UIKit hides this label on editing; it does not erase its text.
            self.validation.password_error_text = self.password_error;
        }
    }

    pub fn reset_validation_view(&mut self)
        requires
            old(self)@.wf(),
        ensures
            final(self)@ == old(self)@.reset_validation_view(),
            final(self)@.wf(),
    {
        // A newly instantiated nib gets its own default password popup. The
        // SignIn retained flags and wrapper-wide email errorText are separate.
        self.validation.password_error_text = None;
    }

    /// The validation clock never moves backwards.
    pub fn set_validation_clock(&mut self, now: u64)
        requires
            old(self)@.wf(),
        ensures
            final(self)@ == old(self)@.set_validation_clock(now),
            final(self)@.wf(),
    {
        if self.validation.now < now {
            self.validation.now = now;
        }
    }

    pub fn edit_validation_field(&mut self)
        requires
            old(self)@.wf(),
        ensures
            final(self)@ == old(self)@.edit_validation_field(),
            final(self)@.wf(),
    {
        let view = match &self.snapshot {
            Some(snapshot) => snapshot.view,
            None => return,
        };
        let index = match input_view(view) {
            Some(index) => index,
            None => return,
        };
        let field = match self.focus {
            Some(field) => field,
            None => return,
        };
        let slot: usize = if field == Field::Password {
            1
        } else {
            0
        };
        let text = if slot == 0 {
            self.email_editor().display(false).0
        } else {
            self.password.display(false).0
        };
        let cached = native_string(text.as_str());
        let ghost before = self.validation@;
        self.validation.cached[slot] = cached;
        assert(self.validation@.cached =~= before.cached.update(slot as int, cached@));
        self.validation.generation[slot] = self.validation.generation[slot].wrapping_add(1);
        self.validation.deadlines[slot] = self.validation.now.checked_add(DELAY);
        if slot == 0 {
            self.validation.submitted = [false, false, false];
            if index == 0 {
                self.validation.signin_email_error = false;
            }
        } else {
            self.validation.submitted[index] = false;
            if index == 0 {
                self.validation.signin_password_error = false;
            }
        }
        assert(self.validation.deadlines@ =~= old(self)@.edit_validation_field().validation.deadlines);
        assert(self.validation.generation@ =~= old(self)@.edit_validation_field().validation.generation);
        assert(self.validation.submitted@ =~= old(self)@.edit_validation_field().validation.submitted);
        assert(self@.validation =~= old(self)@.edit_validation_field().validation);
    }

    pub fn restore_native_validation_text(&mut self, view: AccountView)
        requires
            old(self)@.wf(),
        ensures
            final(self)@ == old(self)@.restore_native_validation_text(view),
            final(self)@.wf(),
    {
        if view == AccountView::SignIn || view == AccountView::Register2 {
            self.email = crate::editor::Editor::default();
            self.email.replace(self.validation.cached[0].as_str());
            self.password = crate::editor::Editor::default();
            self.password.replace(self.validation.cached[1].as_str());
            if view == AccountView::SignIn {
                if self.validation.signin_email_error {
                    self.email_error = self.validation.email_error_text;
                }
                if self.validation.signin_password_error {
                    self.password_error = Some(
                        if str_byte_len(self.validation.cached[1].as_str()) <= 7 {
                            Message::PasswordHelp
                        } else {
                            Message::WrongPassword
                        },
                    );
                }
            }
        }
    }

    pub fn remember_native_field_error(&mut self, field: u32)
        requires
            old(self)@.wf(),
        ensures
            final(self)@ == old(self)@.remember_native_field_error(field),
            final(self)@.wf(),
    {
        if field == 15 || field == 16 || field == 18 {
            self.validation.email_error_text = self.email_error;
        }
        let signin = match &self.snapshot {
            Some(snapshot) => snapshot.view == AccountView::SignIn,
            None => false,
        };
        if !self.busy() && signin {
            if field == 18 {
                self.validation.signin_email_error = true;
            } else if field == 19 {
                self.validation.signin_password_error = true;
            }
        }
    }

    pub fn validation_submission(&mut self, view: AccountView)
        requires
            old(self)@.wf(),
        ensures
            final(self)@ == old(self)@.validation_submission(view),
            final(self)@.wf(),
    {
        if let Some(index) = input_view(view) {
            self.validation.submitted[index] = true;
        }
        // Submit does not invalidate either scheduled timer. Required SignIn
        // checks happen before copying; Register2 copies even empty fields.
        let signin_filled = view == AccountView::SignIn && !self.email.text().is_empty()
            && !self.password.text().is_empty();
        if view == AccountView::Register2 || signin_filled {
            let email = native_string(self.email.text());
            let password = native_string(self.password.text());
            self.validation.cached = [email, password];
            assert(self.validation@.cached =~= seq![email@, password@]);
        } else if view == AccountView::ForgotPassword {
            let ghost before = self.validation@;
            self.validation.cached[0] = String::new();
            assert(self.validation@.cached =~= before.cached.update(0, Seq::empty()));
        }
        assert(self.validation.submitted@ =~= old(self)@.validation_submission(view).validation.submitted);
        assert(self@.validation =~= old(self)@.validation_submission(view).validation);
    }

    pub fn decorate_submission_errors(&mut self)
        requires
            old(self)@.wf(),
        ensures
            final(self)@ == old(self)@.decorate_submission_errors(),
            final(self)@.wf(),
    {
        if self.email_popup && self.email_error.is_some() {
            self.email_border = true;
        }
        if self.password_popup && self.password_error.is_some() {
            self.password_border = true;
            let register2 = match &self.snapshot {
                Some(snapshot) => snapshot.view == AccountView::Register2,
                None => false,
            };
            if register2 && self.password.text().is_empty() && self.email_error.is_some() {
                self.email_border = true;
            }
        }
    }

    pub fn invalidate_submitted_email_timers(&mut self)
        requires
            old(self)@.wf(),
        ensures
            final(self)@ == old(self)@.invalidate_submitted_email_timers(),
            final(self)@.wf(),
    {
        let view = match &self.snapshot {
            Some(snapshot) => snapshot.view,
            None => return,
        };
        let index = match input_view(view) {
            Some(index) => index,
            None => return,
        };
        if self.validation.submitted[index] {
            self.validation.deadlines[0] = None;
            if index != 2 {
                self.validation.deadlines[1] = None;
            }
            self.validation.submitted[index] = false;
        }
        assert(self@.validation =~= old(self)@.invalidate_submitted_email_timers().validation);
    }

    /// Expire the timer of one field: when it is due, clear it and return the
    /// request to hand to the provider if the cached text is non-empty.
    pub fn take_due_validation(&mut self, field: AccountValidationField) -> (request: Option<ValidationRequest>)
        requires
            old(self)@.wf(),
        ensures
            ({
                let slot = if field == AccountValidationField::Password { 1int } else { 0int };
                &&& final(self)@ == old(self)@.take_due_validation(slot)
                &&& match (request, old(self)@.due_request(slot)) {
                    (Some(r), Some((id, generation, text))) => r.id == id && r.generation == generation
                        && r.text@ == text && r.field == field,
                    (None, None) => true,
                    _ => false,
                }
            }),
            final(self)@.wf(),
    {
        let id = match self.owner_id() {
            Some(id) => id,
            None => return None,
        };
        let slot: usize = if field == AccountValidationField::Password {
            1
        } else {
            0
        };
        match self.validation.deadlines[slot] {
            Some(at) => {
                if at > self.validation.now {
                    return None;
                }
            },
            None => return None,
        }
        self.validation.deadlines[slot] = None;
        assert(self@.validation =~= old(self)@.take_due_validation(slot as int).validation);
        if self.validation.cached[slot].as_str().is_empty() {
            return None;
        }
        Some(
            ValidationRequest {
                id,
                field,
                generation: self.validation.generation[slot],
                text: self.validation.cached[slot].clone(),
            },
        )
    }

    #[verifier::spinoff_prover]
    #[verifier::rlimit(60)]
    pub fn apply_validation_result(&mut self, result: AccountValidationResult)
        requires
            old(self)@.wf(),
        ensures
            final(self)@ == old(self)@.apply_validation_result(result),
            final(self)@.wf(),
    {
        if self.owner_id() != Some(result.id) {
            return;
        }
        // C++ copies each in-flight email request, but does not cancel it on
        // another edit. Preserve same-owner arrival order, not a newer-text
        // filter. The valid boolean is an iOS provider no-op, not a reset.
        let error = match result.error {
            Some(error) => error,
            None => return,
        };
        let is_email = error.field == 15 || error.field == 16 || error.field == 18;
        if is_email {
            // Stored before any view check, even when progress or help cannot
            // show the field error itself.
            self.validation.email_error_text = Some(email_message(error.message));
        }
        // Progress preserves the controller's logical view, but replaces its
        // form: the reply cannot paint errors or consume its flags/timers.
        if self.busy() {
            return;
        }
        let view = match &self.snapshot {
            Some(snapshot) => snapshot.view,
            None => return,
        };
        let index = match input_view(view) {
            Some(index) => index,
            None => return,
        };
        let submitted = self.validation.submitted[index];
        if is_email {
            self.present_email_result(index, submitted);
        } else if (error.field == 17 || error.field == 19) && index != 2 {
            self.present_password_result(index, submitted);
        }
    }

    fn present_email_result(&mut self, index: usize, submitted: bool)
        requires
            old(self)@.wf(),
            index < 3,
        ensures
            final(self)@ == old(self)@.present_email_result(index as int, submitted),
            final(self)@.wf(),
    {
        self.email_error = self.validation.email_error_text;
        if index == 0 {
            self.validation.signin_email_error = true;
        }
        if submitted {
            self.email_popup = true;
            self.email_border = true;
            self.invalidate_submitted_email_timers();
        }
        self.dirty();
    }

    fn present_password_result(&mut self, index: usize, submitted: bool)
        requires
            old(self)@.wf(),
            index < 2,
        ensures
            final(self)@ == old(self)@.present_password_result(index as int, submitted),
            final(self)@.wf(),
    {
        self.password_help = false;
        if index == 0 {
            self.validation.signin_password_error = true;
        }
        if !submitted {
            self.password_error = Some(Message::PasswordHelp);
        } else if index == 0 {
            self.password_error = Some(Message::WrongPassword);
            self.password_popup = true;
            self.password_border = true;
            self.validation.submitted[0] = false;
            assert(self@.validation.submitted =~= old(self)@.present_password_result(0, submitted).validation.submitted);
        } else {
            // The submitted Register2 branch only installs red borders,
            // retaining prior local error text and visibility; a fresh nib
            // initializes this separate popup to "required".
            if self.password_error.is_none() {
                self.password_error = Some(
                    match self.validation.password_error_text {
                        Some(message) => message,
                        None => Message::PasswordRequired,
                    },
                );
            }
            self.password_border = true;
            self.validation.submitted[1] = false;
            assert(self@.validation.submitted =~= old(self)@.present_password_result(1, submitted).validation.submitted);
        }
        self.dirty();
    }
}

/// The validation clock never moves backwards: it follows the latest time
/// it was given and nothing else.
pub proof fn law_validation_clock_is_monotone(m: AccountModel, now: u64)
    ensures
        m.set_validation_clock(now).validation.now >= m.validation.now,
        m.set_validation_clock(now).validation.now >= now,
        m.set_validation_clock(now).validation.now == m.validation.now
            || m.set_validation_clock(now).validation.now == now,
        m.set_validation_clock(now).validation.deadlines == m.validation.deadlines,
{
}

} // verus!
