//! Platform-owned account views: the form state behind the Skynest sign-in,
//! registration and password-reset pages. Credentials never leave this state
//! except in the explicit requests that a submit produces.
use crate::editor::{empty_editor, Editor, EditorModel};
use crate::text::{
    blank, byte_len, char_boundary_of, chars_of, is_blank, lemma_take_shorter, same_text, str_byte_len,
    string_from_chars,
};
use registration::{
    default_registration, AccountGender, Registration, RegistrationBirthday, RegistrationModel,
};
use vstd::utf8::{decode_utf8, encode_utf8, is_char_boundary};
use validation::{default_validation, Validation, ValidationModel};
use vstd::prelude::*;

pub mod registration;
pub mod validation;

verus! {

broadcast use vstd::utf8::encode_utf8_valid_utf8, vstd::utf8::encode_utf8_decode_utf8;

/// Native page shown by the account controller.
#[derive(Clone, Copy, Debug, PartialEq, Eq, Structural)]
pub enum AccountView {
    SignIn,
    Register1,
    Register2,
    ForgotPassword,
    Help1,
    Help2,
    Help3,
    NoNetworkConnectivity,
    AccountNotVerified,
    PasswordResetEmailSent,
    ThanksForRegistering,
    RegistrationFailure,
}

/// Native field/message identifiers reported for a rejected value.
#[derive(Clone, Copy, Debug, PartialEq, Eq, Structural)]
pub struct AccountFieldError {
    pub field: u32,
    pub message: u32,
}

/// What the script side publishes about the current account page.
#[derive(Clone, Copy, Debug, PartialEq, Eq, Structural)]
pub struct AccountUiSnapshot {
    pub id: u64,
    pub view: AccountView,
    pub busy: bool,
    pub field_error: Option<AccountFieldError>,
}

#[derive(Clone, Copy, Debug, PartialEq, Eq, Structural)]
pub enum Field {
    Email,
    Password,
}

#[derive(Clone, Copy, Debug, PartialEq, Eq, Structural)]
pub enum AccountUiAction {
    Cancel,
    Back,
    Continue,
    ForgotPassword,
    Register,
}

#[derive(Clone, Copy, Debug, PartialEq, Eq)]
pub enum Command {
    Action(AccountUiAction),
    Submit,
    Paste,
    Copy,
    Cut,
    OpenUrl(&'static str),
}

/// Localized message shown beside a field: a strings-table key and its
/// English fallback.
#[derive(Clone, Copy, Debug, PartialEq, Eq, Structural)]
pub enum Message {
    EmailTaken,
    WrongEmail,
    EmailInvalid,
    EmailRequired,
    PasswordRequired,
    PasswordHelp,
    WrongPassword,
}

/// The strings-table key and English fallback of a message.
pub open spec fn message_text(message: Message) -> (&'static str, &'static str) {
    match message {
        Message::EmailTaken => (
            "rovio_id_email_taken",
            "This email address has already been registered",
        ),
        Message::WrongEmail => ("rovio_id_wrong_email", "Email address not found"),
        Message::EmailInvalid => (
            "rovio_id_validate_email_invalid",
            "Please enter a valid email address",
        ),
        Message::EmailRequired => (
            "rovio_id_validate_email_required",
            "Please enter your email address",
        ),
        Message::PasswordRequired => (
            "rovio_id_validate_password_required",
            "Please enter a password",
        ),
        Message::PasswordHelp => (
            "rovio_id_password_help_text",
            "Password must contain at least 8 characters",
        ),
        Message::WrongPassword => ("rovio_id_wrong_password", "Wrong password"),
    }
}

impl Message {
    pub fn text(self) -> (pair: (&'static str, &'static str))
        ensures
            pair == message_text(self),
    {
        match self {
            Message::EmailTaken => (
                "rovio_id_email_taken",
                "This email address has already been registered",
            ),
            Message::WrongEmail => ("rovio_id_wrong_email", "Email address not found"),
            Message::EmailInvalid => (
                "rovio_id_validate_email_invalid",
                "Please enter a valid email address",
            ),
            Message::EmailRequired => (
                "rovio_id_validate_email_required",
                "Please enter your email address",
            ),
            Message::PasswordRequired => (
                "rovio_id_validate_password_required",
                "Please enter a password",
            ),
            Message::PasswordHelp => (
                "rovio_id_password_help_text",
                "Password must contain at least 8 characters",
            ),
            Message::WrongPassword => ("rovio_id_wrong_password", "Wrong password"),
        }
    }
}

/// Key pressed on the desktop keyboard, reduced to what the form reads.
#[derive(Clone, Copy, Debug, PartialEq, Eq, Structural)]
pub enum NamedKey {
    Escape,
    Tab,
    Enter,
    ArrowLeft,
    ArrowRight,
    ArrowUp,
    ArrowDown,
    Home,
    End,
    Backspace,
    Delete,
    ContextMenu,
    AudioVolumeUp,
    AudioVolumeDown,
    Other,
}

pub enum Key {
    Named(NamedKey),
    Character(String),
}

#[derive(Clone, Copy, Debug, PartialEq, Eq, Structural)]
pub struct Modifiers {
    pub shift: bool,
    pub control: bool,
    pub super_key: bool,
}

impl Modifiers {
    pub fn empty() -> (m: Modifiers)
        ensures
            !m.shift && !m.control && !m.super_key,
    {
        Modifiers { shift: false, control: false, super_key: false }
    }

    pub fn shift_key(&self) -> (b: bool)
        ensures
            b == self.shift,
    {
        self.shift
    }

    pub fn control_key(&self) -> (b: bool)
        ensures
            b == self.control,
    {
        self.control
    }

    pub fn super_key(&self) -> (b: bool)
        ensures
            b == self.super_key,
    {
        self.super_key
    }
}

/// Wrapping increment, as `u64::wrapping_add(1)`.
pub open spec fn bump(value: u64) -> u64 {
    if value == u64::MAX {
        0
    } else {
        (value + 1) as u64
    }
}

/// Native input views that own editable fields: SignIn, Register2, ForgotPassword.
pub open spec fn input_view_spec(view: AccountView) -> Option<int> {
    match view {
        AccountView::SignIn => Some(0),
        AccountView::Register2 => Some(1),
        AccountView::ForgotPassword => Some(2),
        _ => None,
    }
}

pub fn input_view(view: AccountView) -> (index: Option<usize>)
    ensures
        index matches Some(i) ==> input_view_spec(view) == Some(i as int),
        index is None <==> input_view_spec(view) is None,
{
    match view {
        AccountView::SignIn => Some(0),
        AccountView::Register2 => Some(1),
        AccountView::ForgotPassword => Some(2),
        _ => None,
    }
}

/// Message for an email field error, by native message code.
pub open spec fn email_message_spec(message: u32) -> Message {
    if message == 2 {
        Message::EmailTaken
    } else if message == 3 {
        Message::WrongEmail
    } else {
        Message::EmailInvalid
    }
}

pub fn email_message(message: u32) -> (m: Message)
    ensures
        m == email_message_spec(message),
{
    match message {
        2 => Message::EmailTaken,
        3 => Message::WrongEmail,
        _ => Message::EmailInvalid,
    }
}

/// The prefix before the first NUL, as a C `strlen` would see the UTF-8 string.
pub open spec fn before_nul(text: Seq<char>) -> Seq<char> {
    if exists|i: int| 0 <= i < text.len() && text[i] == '\0' {
        text.take(choose|i: int| 0 <= i < text.len() && text[i] == '\0' && forall|j: int| 0 <= j < i ==> text[j] != '\0')
    } else {
        text
    }
}

proof fn lemma_before_nul(text: Seq<char>, i: int)
    requires
        0 <= i <= text.len(),
        forall|j: int| 0 <= j < i ==> text[j] != '\0',
        i < text.len() ==> text[i] == '\0',
    ensures
        before_nul(text) == text.take(i),
{
    if i < text.len() {
        let c = choose|k: int| 0 <= k < text.len() && text[k] == '\0' && forall|j: int| 0 <= j < k ==> text[j] != '\0';
        assert(0 <= c < text.len() && text[c] == '\0' && forall|j: int| 0 <= j < c ==> text[j] != '\0');
        if c < i {
            assert(text[c] != '\0');
        } else if i < c {
            assert(text[i] != '\0');
        }
    } else {
        assert(text.take(i) =~= text);
    }
}

/// All four native callbacks use UTF8String then strlen.
pub fn native_string(value: &str) -> (text: String)
    ensures
        text@ == before_nul(value@),
        byte_len(text@) <= byte_len(value@),
        byte_len(text@) <= isize::MAX,
{
    let chars = chars_of(value);
    let _ = str_byte_len(value);
    let mut i: usize = 0;
    while i < chars.len() && chars[i] != '\0'
        invariant
            0 <= i <= chars@.len(),
            forall|j: int| 0 <= j < i ==> chars@[j] != '\0',
        decreases chars@.len() - i,
    {
        i = i + 1;
    }
    let mut kept: Vec<char> = Vec::new();
    let mut k: usize = 0;
    while k < i
        invariant
            0 <= k <= i <= chars@.len(),
            kept@ == chars@.take(k as int),
        decreases i - k,
    {
        kept.push(chars[k]);
        k = k + 1;
        assert(kept@ =~= chars@.take(k as int));
    }
    proof {
        lemma_before_nul(value@, i as int);
        lemma_take_shorter(value@, i as int);
    }
    string_from_chars(&kept)
}

pub open spec fn opt_view(name: Option<&str>) -> Option<Seq<char>> {
    match name {
        Some(n) => Some(n@),
        None => None,
    }
}

/// An outlet name equal to `expected`.
pub open spec fn named(name: Option<Seq<char>>, expected: Seq<char>) -> bool {
    name matches Some(n) && n == expected
}

pub fn same_name(name: Option<&str>, expected: &str) -> (same: bool)
    ensures
        same == named(opt_view(name), expected@),
{
    match name {
        Some(n) => same_text(n, expected),
        None => false,
    }
}

/// A key text equal, ignoring ASCII case, to the one-letter ASCII text `lower`.
pub open spec fn is_letter(key: Seq<char>, lower: char, upper: char) -> bool {
    key == seq![lower] || key == seq![upper]
}

pub fn letter_key(key: &str, lower: char, upper: char) -> (matched: bool)
    ensures
        matched == is_letter(key@, lower, upper),
{
    let chars = chars_of(key);
    if chars.len() != 1 {
        return false;
    }
    let c = chars[0];
    if c == lower {
        assert(chars@ =~= seq![lower]);
        true
    } else if c == upper {
        assert(chars@ =~= seq![upper]);
        true
    } else {
        false
    }
}

/// Which editor a focused field edits.
#[derive(Clone, Copy, Debug, PartialEq, Eq, Structural)]
pub enum EditorSlot {
    Email,
    ForgotEmail,
    Password,
}

pub struct AccountUi {
    pub snapshot: Option<AccountUiSnapshot>,
    pub email: Editor,
    pub forgot_email: Editor,
    pub password: Editor,
    pub focus: Option<Field>,
    pub email_error: Option<Message>,
    pub password_error: Option<Message>,
    pub email_popup: bool,
    pub password_popup: bool,
    pub password_help: bool,
    pub email_border: bool,
    pub password_border: bool,
    pub validation: Validation,
    pub registration: Registration,
    pub pressed: Option<String>,
    pub revision: u64,
}

pub struct AccountModel {
    pub snapshot: Option<AccountUiSnapshot>,
    pub email: EditorModel,
    pub forgot_email: EditorModel,
    pub password: EditorModel,
    pub focus: Option<Field>,
    pub email_error: Option<Message>,
    pub password_error: Option<Message>,
    pub email_popup: bool,
    pub password_popup: bool,
    pub password_help: bool,
    pub email_border: bool,
    pub password_border: bool,
    pub validation: ValidationModel,
    pub registration: RegistrationModel,
    pub pressed: Option<Seq<char>>,
    pub revision: u64,
}

impl View for AccountUi {
    type V = AccountModel;

    open spec fn view(&self) -> AccountModel {
        AccountModel {
            snapshot: self.snapshot,
            email: self.email@,
            forgot_email: self.forgot_email@,
            password: self.password@,
            focus: self.focus,
            email_error: self.email_error,
            password_error: self.password_error,
            email_popup: self.email_popup,
            password_popup: self.password_popup,
            password_help: self.password_help,
            email_border: self.email_border,
            password_border: self.password_border,
            validation: self.validation@,
            registration: self.registration@,
            pressed: match self.pressed {
                Some(name) => Some(name@),
                None => None,
            },
            revision: self.revision,
        }
    }
}

pub open spec fn owner_of(snapshot: Option<AccountUiSnapshot>) -> Option<u64> {
    match snapshot {
        Some(s) => Some(s.id),
        None => None,
    }
}

pub open spec fn view_of(snapshot: Option<AccountUiSnapshot>) -> Option<AccountView> {
    match snapshot {
        Some(s) => Some(s.view),
        None => None,
    }
}

/// The state of a form that has never been shown.
pub open spec fn default_account() -> AccountModel {
    AccountModel {
        snapshot: None,
        email: empty_editor(),
        forgot_email: empty_editor(),
        password: empty_editor(),
        focus: None,
        email_error: None,
        password_error: None,
        email_popup: false,
        password_popup: false,
        password_help: false,
        email_border: false,
        password_border: false,
        validation: default_validation(),
        registration: default_registration(),
        pressed: None,
        revision: 0,
    }
}

impl AccountModel {
    pub open spec fn wf(self) -> bool {
        &&& self.email.wf()
        &&& self.forgot_email.wf()
        &&& self.password.wf()
        &&& self.validation.wf()
        &&& self.registration.wf()
    }

    pub open spec fn visible(self) -> bool {
        self.snapshot is Some
    }

    pub open spec fn busy(self) -> bool {
        self.snapshot matches Some(s) && s.busy
    }

    pub open spec fn owner_id(self) -> Option<u64> {
        owner_of(self.snapshot)
    }

    pub open spec fn in_view(self, view: AccountView) -> bool {
        self.snapshot matches Some(s) && s.view == view
    }

    /// The reset page edits its own address field; every other page edits
    /// the shared one.
    pub open spec fn email_slot(self) -> EditorSlot {
        if self.in_view(AccountView::ForgotPassword) {
            EditorSlot::ForgotEmail
        } else {
            EditorSlot::Email
        }
    }

    pub open spec fn focused_slot(self) -> Option<EditorSlot> {
        match self.focus {
            Some(Field::Email) => Some(self.email_slot()),
            Some(Field::Password) => Some(EditorSlot::Password),
            None => None,
        }
    }

    pub open spec fn editor(self, slot: EditorSlot) -> EditorModel {
        match slot {
            EditorSlot::Email => self.email,
            EditorSlot::ForgotEmail => self.forgot_email,
            EditorSlot::Password => self.password,
        }
    }

    pub open spec fn with_editor(self, slot: EditorSlot, editor: EditorModel) -> AccountModel {
        match slot {
            EditorSlot::Email => AccountModel { email: editor, ..self },
            EditorSlot::ForgotEmail => AccountModel { forgot_email: editor, ..self },
            EditorSlot::Password => AccountModel { password: editor, ..self },
        }
    }

    pub open spec fn email_editor(self) -> EditorModel {
        self.editor(self.email_slot())
    }

    /// Marked text is being composed in the focused field.
    pub open spec fn composing(self) -> bool {
        self.focused_slot() matches Some(slot) && self.editor(slot).preedit.len() > 0
    }

    pub open spec fn dirty(self) -> AccountModel {
        AccountModel { revision: bump(self.revision), ..self }
    }

    /// Editing hides the focused field's error, icon and border.
    pub open spec fn clear_field_error(self) -> AccountModel {
        match self.focus {
            Some(Field::Email) => AccountModel {
                email_error: None,
                email_popup: false,
                email_border: false,
                ..self
            },
            Some(Field::Password) => AccountModel {
                password_error: None,
                password_popup: false,
                password_help: false,
                password_border: false,
                ..self.retain_password_error_text()
            },
            None => self,
        }
    }

    /// Dropping marked text changes the visible contents of the focused
    /// field, so it counts as an edit of that field.
    pub open spec fn clear_preedit(self) -> AccountModel {
        let cleared = AccountModel {
            email: self.email.clear_preedit(),
            forgot_email: self.forgot_email.clear_preedit(),
            password: self.password.clear_preedit(),
            ..self
        };
        if self.composing() {
            cleared.clear_field_error().edit_validation_field().dirty()
        } else {
            cleared.dirty()
        }
    }

    pub open spec fn focus_allowed(self, field: Field) -> bool {
        self.snapshot matches Some(s) && !s.busy && (s.view == AccountView::SignIn || s.view
            == AccountView::Register2 || (s.view == AccountView::ForgotPassword && field
            == Field::Email))
    }

    pub open spec fn focus(self, next: Option<Field>) -> AccountModel {
        if next matches Some(field) && !self.focus_allowed(field) {
            self
        } else if self.focus != next {
            AccountModel { focus: next, ..self.clear_preedit() }.dirty()
        } else {
            self
        }
    }

    /// Room for `text` in the focused field.
    pub open spec fn fits(self, text: Seq<char>) -> bool {
        self.focused_slot() matches Some(slot) ==> byte_len(self.editor(slot).value) + byte_len(
            text,
        ) <= isize::MAX
    }

    pub open spec fn text(self, text: Seq<char>) -> AccountModel {
        if self.busy() {
            self
        } else {
            match self.focused_slot() {
                None => self,
                Some(slot) => self.with_editor(
                    slot,
                    self.editor(slot).replace(text),
                ).clear_field_error().edit_validation_field().dirty(),
            }
        }
    }

    pub open spec fn preedit(self, text: Seq<char>, cursor: Option<(usize, usize)>) -> AccountModel {
        if self.busy() {
            self
        } else {
            match self.focused_slot() {
                None => self,
                Some(slot) => {
                    let marked = self.with_editor(slot, self.editor(slot).set_preedit(text, cursor));
                    if self.editor(slot).preedit != text {
                        marked.clear_field_error().edit_validation_field().dirty()
                    } else {
                        marked.dirty()
                    }
                },
            }
        }
    }

    /// Decoding of a native field error carried by a new snapshot.
    pub open spec fn apply_field_error(self, error: AccountFieldError) -> AccountModel {
        if 12 <= error.field <= 14 {
            let index: int = if error.field == 12 {
                0
            } else if error.field == 13 {
                1
            } else {
                2
            };
            let r = self.registration;
            let marked = r.date_errors.update(index, true);
            let all_set = r.values[0] is Some && r.values[1] is Some && r.values[2] is Some;
            AccountModel {
                registration: RegistrationModel {
                    date_errors: if error.field == 13 && all_set {
                        marked.update(0, true)
                    } else {
                        marked
                    },
                    ..r
                },
                ..self
            }
        } else if error.field == 15 || error.field == 16 || error.field == 18 {
            AccountModel {
                email_error: Some(email_message_spec(error.message)),
                ..AccountModel {
                    email_popup: true,
                    email_border: true,
                    ..self
                }.invalidate_submitted_email_timers()
            }.remember_native_field_error(error.field)
        } else if error.field == 17 || error.field == 19 {
            AccountModel {
                password_popup: true,
                password_border: true,
                password_help: false,
                password_error: Some(
                    if error.field == 17 && error.message == 5 {
                        Message::PasswordRequired
                    } else if error.field == 17 && error.message == 4 {
                        Message::PasswordHelp
                    } else {
                        Message::WrongPassword
                    },
                ),
                ..self
            }.remember_native_field_error(error.field)
        } else {
            self
        }
    }

    /// A snapshot from another owner starts from blank credentials and timers.
    pub open spec fn sync(self, next: Option<AccountUiSnapshot>) -> AccountModel {
        if self.snapshot == next {
            self
        } else {
            let changed_owner = owner_of(self.snapshot) != owner_of(next);
            let changed_view = view_of(self.snapshot) != view_of(next);
            let s1 = if changed_owner {
                self.owner_reset()
            } else {
                self
            };
            let s2 = if changed_view && (next matches Some(n) && n.view
                == AccountView::ForgotPassword && n.field_error is None) {
                AccountModel { forgot_email: empty_editor(), ..s1 }
            } else {
                s1
            };
            let s3 = if changed_view || changed_owner || (next matches Some(n) && n.busy) {
                s2.presentation_reset()
            } else {
                s2
            };
            let s4 = match next {
                Some(n) => if changed_view {
                    s3.restore_native_validation_text(n.view)
                } else {
                    s3
                },
                None => s3,
            };
            let s5 = AccountModel { snapshot: next, ..s4 };
            let s6 = match next {
                Some(n) => match n.field_error {
                    Some(error) => s5.apply_field_error(error),
                    None => s5,
                },
                None => s5,
            };
            s6.dirty()
        }
    }

    /// Blank credentials, birthday and timers for a new owner.
    pub open spec fn owner_reset(self) -> AccountModel {
        AccountModel {
            email: empty_editor(),
            forgot_email: empty_editor(),
            password: empty_editor(),
            registration: default_registration(),
            validation: default_validation(),
            ..self
        }
    }

    /// A new page, owner or progress state drops focus, press and all field
    /// presentation, and closes the date picker.
    pub open spec fn presentation_reset(self) -> AccountModel {
        let f = self.focus(None).reset_validation_view();
        AccountModel {
            pressed: None,
            email_error: None,
            password_error: None,
            email_popup: false,
            password_popup: false,
            password_help: false,
            email_border: false,
            password_border: false,
            registration: RegistrationModel { picker: None, ..f.registration },
            ..f
        }
    }

    pub open spec fn sync_changed_owner(self, next: Option<AccountUiSnapshot>) -> bool {
        self.snapshot != next && owner_of(self.snapshot) != owner_of(next)
    }
}

impl Default for AccountUi {
    fn default() -> (ui: AccountUi)
        ensures
            ui@ == default_account(),
            ui@.wf(),
    {
        AccountUi {
            snapshot: None,
            email: Editor::default(),
            forgot_email: Editor::default(),
            password: Editor::default(),
            focus: None,
            email_error: None,
            password_error: None,
            email_popup: false,
            password_popup: false,
            password_help: false,
            email_border: false,
            password_border: false,
            validation: Validation::default(),
            registration: Registration::default(),
            pressed: None,
            revision: 0,
        }
    }
}

impl AccountUi {
    pub fn visible(&self) -> (visible: bool)
        ensures
            visible == self@.visible(),
    {
        self.snapshot.is_some()
    }

    pub fn owner_id(&self) -> (id: Option<u64>)
        ensures
            id == self@.owner_id(),
    {
        match &self.snapshot {
            Some(snapshot) => Some(snapshot.id),
            None => None,
        }
    }

    pub fn busy(&self) -> (busy: bool)
        ensures
            busy == self@.busy(),
    {
        match &self.snapshot {
            Some(snapshot) => snapshot.busy,
            None => false,
        }
    }

    pub fn focused(&self) -> (field: Option<Field>)
        ensures
            field == self@.focus,
    {
        self.focus
    }

    pub fn dirty(&mut self)
        requires
            old(self)@.wf(),
        ensures
            final(self)@ == old(self)@.dirty(),
            final(self)@.wf(),
    {
        self.revision = self.revision.wrapping_add(1);
    }

    fn email_slot(&self) -> (slot: EditorSlot)
        ensures
            slot == self@.email_slot(),
    {
        let forgot = match &self.snapshot {
            Some(snapshot) => snapshot.view == AccountView::ForgotPassword,
            None => false,
        };
        if forgot {
            EditorSlot::ForgotEmail
        } else {
            EditorSlot::Email
        }
    }

    fn focused_slot(&self) -> (slot: Option<EditorSlot>)
        ensures
            slot == self@.focused_slot(),
    {
        match self.focus {
            Some(Field::Email) => Some(self.email_slot()),
            Some(Field::Password) => Some(EditorSlot::Password),
            None => None,
        }
    }

    fn editor(&self, slot: EditorSlot) -> (editor: &Editor)
        ensures
            editor@ == self@.editor(slot),
    {
        match slot {
            EditorSlot::Email => &self.email,
            EditorSlot::ForgotEmail => &self.forgot_email,
            EditorSlot::Password => &self.password,
        }
    }

    /// The address field of the current page.
    pub fn email_editor(&self) -> (editor: &Editor)
        ensures
            editor@ == self@.email_editor(),
    {
        self.editor(self.email_slot())
    }

    fn composing(&self) -> (composing: bool)
        ensures
            composing == self@.composing(),
    {
        match self.focused_slot() {
            Some(slot) => !self.editor(slot).preedit.as_str().is_empty(),
            None => false,
        }
    }

    pub fn clear_field_error(&mut self)
        requires
            old(self)@.wf(),
        ensures
            final(self)@ == old(self)@.clear_field_error(),
            final(self)@.wf(),
    {
        match self.focus {
            Some(Field::Email) => {
                self.email_error = None;
                self.email_popup = false;
                self.email_border = false;
            },
            Some(Field::Password) => {
                self.retain_password_error_text();
                self.password_error = None;
                self.password_popup = false;
                self.password_help = false;
                self.password_border = false;
            },
            None => {},
        }
    }

    pub fn clear_preedit(&mut self)
        requires
            old(self)@.wf(),
        ensures
            final(self)@ == old(self)@.clear_preedit(),
            final(self)@.wf(),
    {
        let changed_text = self.composing();
        self.email.clear_preedit();
        self.forgot_email.clear_preedit();
        self.password.clear_preedit();
        if changed_text {
            // Desktop IME adaptation: cancellation changes visible contents,
            // so it is an edit, not a bare focus event. Do not validate marked
            // text after the host has removed it from the input field.
            self.clear_field_error();
            self.edit_validation_field();
        }
        self.dirty();
    }

    pub fn focus(&mut self, next: Option<Field>)
        requires
            old(self)@.wf(),
        ensures
            final(self)@ == old(self)@.focus(next),
            final(self)@.wf(),
    {
        if let Some(field) = next {
            let allowed = match &self.snapshot {
                Some(s) => !s.busy && (s.view == AccountView::SignIn || s.view
                    == AccountView::Register2 || (s.view == AccountView::ForgotPassword && field
                    == Field::Email)),
                None => false,
            };
            if !allowed {
                return;
            }
        }
        if self.focus != next {
            self.clear_preedit();
            self.focus = next;
            self.dirty();
        }
    }

    pub fn text(&mut self, text: &str)
        requires
            old(self)@.wf(),
            old(self)@.fits(text@),
        ensures
            final(self)@ == old(self)@.text(text@),
            final(self)@.wf(),
    {
        if self.busy() {
            return;
        }
        if let Some(slot) = self.focused_slot() {
            match slot {
                EditorSlot::Email => self.email.replace(text),
                EditorSlot::ForgotEmail => self.forgot_email.replace(text),
                EditorSlot::Password => self.password.replace(text),
            }
            self.clear_field_error();
            self.edit_validation_field();
            self.dirty();
        }
    }

    pub fn preedit(&mut self, text: &str, cursor: Option<(usize, usize)>)
        requires
            old(self)@.wf(),
            old(self)@.fits(text@),
        ensures
            final(self)@ == old(self)@.preedit(text@, cursor),
            final(self)@.wf(),
    {
        if self.busy() {
            return;
        }
        if let Some(slot) = self.focused_slot() {
            let changed_text = !same_text(self.editor(slot).preedit.as_str(), text);
            match slot {
                EditorSlot::Email => self.email.set_preedit(text, cursor),
                EditorSlot::ForgotEmail => self.forgot_email.set_preedit(text, cursor),
                EditorSlot::Password => self.password.set_preedit(text, cursor),
            }
            if changed_text {
                self.clear_field_error();
                self.edit_validation_field();
            }
            self.dirty();
        }
    }

    fn apply_field_error(&mut self, error: AccountFieldError)
        requires
            old(self)@.wf(),
        ensures
            final(self)@ == old(self)@.apply_field_error(error),
            final(self)@.wf(),
    {
        if 12 <= error.field && error.field <= 14 {
            let index: usize = if error.field == 12 {
                0
            } else if error.field == 13 {
                1
            } else {
                2
            };
            self.registration.date_errors[index] = true;
            // showInvalidDayError marks day and month.
            let all_set = self.registration.values[0].is_some()
                && self.registration.values[1].is_some() && self.registration.values[2].is_some();
            if error.field == 13 && all_set {
                self.registration.date_errors[0] = true;
            }
            assert(self@.registration =~= old(self)@.apply_field_error(error).registration);
        } else if error.field == 15 || error.field == 16 || error.field == 18 {
            self.email_popup = true;
            self.email_border = true;
            self.invalidate_submitted_email_timers();
            self.email_error = Some(email_message(error.message));
            self.remember_native_field_error(error.field);
        } else if error.field == 17 || error.field == 19 {
            self.password_popup = true;
            self.password_border = true;
            self.password_help = false;
            self.password_error = Some(
                if error.field == 17 && error.message == 5 {
                    Message::PasswordRequired
                } else if error.field == 17 && error.message == 4 {
                    Message::PasswordHelp
                } else {
                    Message::WrongPassword
                },
            );
            self.remember_native_field_error(error.field);
        }
    }

    fn owner_reset(&mut self)
        requires
            old(self)@.wf(),
        ensures
            final(self)@ == old(self)@.owner_reset(),
            final(self)@.wf(),
    {
        self.email = Editor::default();
        self.forgot_email = Editor::default();
        self.password = Editor::default();
        self.registration = Registration::default();
        self.validation = Validation::default();
    }

    fn presentation_reset(&mut self)
        requires
            old(self)@.wf(),
        ensures
            final(self)@ == old(self)@.presentation_reset(),
            final(self)@.wf(),
    {
        self.focus(None);
        self.reset_validation_view();
        self.pressed = None;
        self.email_error = None;
        self.password_error = None;
        self.email_popup = false;
        self.password_popup = false;
        self.password_help = false;
        self.email_border = false;
        self.password_border = false;
        self.registration.picker = None;
    }

    /// Adopt the script's latest snapshot; returns whether the owner changed.
    #[verifier::spinoff_prover]
    #[verifier::rlimit(60)]
    pub fn sync(&mut self, next: Option<AccountUiSnapshot>) -> (changed_owner: bool)
        requires
            old(self)@.wf(),
        ensures
            final(self)@ == old(self)@.sync(next),
            changed_owner == old(self)@.sync_changed_owner(next),
            final(self)@.wf(),
    {
        if self.snapshot == next {
            return false;
        }
        let changed_owner = match (&self.snapshot, &next) {
            (Some(a), Some(b)) => a.id != b.id,
            (None, None) => false,
            _ => true,
        };
        let changed_view = match (&self.snapshot, &next) {
            (Some(a), Some(b)) => a.view != b.view,
            (None, None) => false,
            _ => true,
        };
        if changed_owner {
            self.owner_reset();
        }
        let fresh_reset_page = match &next {
            Some(s) => s.view == AccountView::ForgotPassword && s.field_error.is_none(),
            None => false,
        };
        if changed_view && fresh_reset_page {
            // The old view's address is set before a new reset nib exists. A
            // new/reset-back page starts blank; a submitted-error callback
            // separately restores its address.
            self.forgot_email = Editor::default();
        }
        let next_busy = match &next {
            Some(s) => s.busy,
            None => false,
        };
        if changed_view || changed_owner || next_busy {
            self.presentation_reset();
        }
        if changed_view {
            if let Some(s) = &next {
                self.restore_native_validation_text(s.view);
            }
        }
        self.snapshot = next;
        // Native field/message decoding is separate from retaining text.
        // A repeated snapshot must not restore an error cleared by editing.
        if let Some(s) = &next {
            if let Some(error) = s.field_error {
                self.apply_field_error(error);
            }
        }
        self.dirty();
        changed_owner
    }
}

/// An edit that a navigation or deletion key applies to the focused field.
#[derive(Clone, Copy, Debug, PartialEq, Eq, Structural)]
pub enum EditKey {
    Left(bool),
    Right(bool),
    Home(bool),
    End(bool),
    Backspace,
    Delete,
    SelectAll,
}

pub open spec fn apply_edit_key(editor: EditorModel, op: EditKey) -> EditorModel {
    match op {
        EditKey::Left(extend) => editor.move_horizontal(false, extend),
        EditKey::Right(extend) => editor.move_horizontal(true, extend),
        EditKey::Home(extend) => editor.move_to(0, extend),
        EditKey::End(extend) => editor.move_to(byte_len(editor.value), extend),
        EditKey::Backspace => editor.erase(false),
        EditKey::Delete => editor.erase(true),
        EditKey::SelectAll => editor.select_all(),
    }
}

/// The editing key a key press is, given whether a command modifier is held.
pub open spec fn edit_key_for(key: Key, shift: bool, command: bool) -> Option<EditKey> {
    match key {
        Key::Named(NamedKey::ArrowLeft) => Some(EditKey::Left(shift)),
        Key::Named(NamedKey::ArrowRight) => Some(EditKey::Right(shift)),
        Key::Named(NamedKey::Home) => Some(EditKey::Home(shift)),
        Key::Named(NamedKey::End) => Some(EditKey::End(shift)),
        Key::Named(NamedKey::Backspace) => Some(EditKey::Backspace),
        Key::Named(NamedKey::Delete) => Some(EditKey::Delete),
        Key::Character(k) => if command && is_letter(k@, 'a', 'A') {
            Some(EditKey::SelectAll)
        } else {
            None
        },
        _ => None,
    }
}

/// A request the host makes of the account script on behalf of the form.
pub enum AccountRequest {
    Action { id: u64, action: AccountUiAction },
    Login { id: u64, email: String, password: String },
    PasswordReset { id: u64, email: String },
    Birthday { id: u64, birthday: RegistrationBirthday },
    Registration { id: u64, email: String, password: String, gender: AccountGender },
}

pub enum RequestModel {
    Action { id: u64, action: AccountUiAction },
    Login { id: u64, email: Seq<char>, password: Seq<char> },
    PasswordReset { id: u64, email: Seq<char> },
    Birthday { id: u64, birthday: RegistrationBirthday },
    Registration { id: u64, email: Seq<char>, password: Seq<char>, gender: AccountGender },
}

impl View for AccountRequest {
    type V = RequestModel;

    open spec fn view(&self) -> RequestModel {
        match self {
            AccountRequest::Action { id, action } => RequestModel::Action { id: *id, action: *action },
            AccountRequest::Login { id, email, password } => RequestModel::Login {
                id: *id,
                email: email@,
                password: password@,
            },
            AccountRequest::PasswordReset { id, email } => RequestModel::PasswordReset {
                id: *id,
                email: email@,
            },
            AccountRequest::Birthday { id, birthday } => RequestModel::Birthday {
                id: *id,
                birthday: *birthday,
            },
            AccountRequest::Registration { id, email, password, gender } => RequestModel::Registration {
                id: *id,
                email: email@,
                password: password@,
                gender: *gender,
            },
        }
    }
}

pub open spec fn request_view(request: Option<AccountRequest>) -> Option<RequestModel> {
    match request {
        Some(r) => Some(r@),
        None => None,
    }
}

impl AccountModel {
    /// Keys with a focused field: clipboard shortcuts, caret motion, deletion,
    /// select-all, and text for everything else without a command modifier.
    pub open spec fn field_key(self, slot: EditorSlot, key: Key, text: Option<Seq<char>>, modifiers: Modifiers) -> (AccountModel, Option<Command>) {
        let secure = self.focus == Some(Field::Password);
        let command = modifiers.super_key || modifiers.control;
        let editor = self.editor(slot);
        let letter = |lower: char, upper: char| key matches Key::Character(k) && is_letter(k@, lower, upper);
        if command && letter('v', 'V') {
            (self, Some(Command::Paste))
        } else if command && (letter('c', 'C') || letter('x', 'X')) {
            if secure || editor.start() == editor.end() {
                (self, None)
            } else {
                (self, Some(if letter('c', 'C') { Command::Copy } else { Command::Cut }))
            }
        } else {
            match edit_key_for(key, modifiers.shift, command) {
                None => (
                    if !command && text is Some {
                        self.text(text.unwrap())
                    } else {
                        self
                    },
                    None,
                ),
                Some(op) => {
                    let edited = apply_edit_key(editor, op);
                    let moved = self.with_editor(slot, edited);
                    // Caret motion is not an edit; changing the contents is.
                    let changed = if byte_len(edited.value) != byte_len(editor.value) {
                        moved.clear_field_error().edit_validation_field()
                    } else {
                        moved
                    };
                    (changed.dirty(), None)
                },
            }
        }
    }

    pub open spec fn key(self, key: Key, text: Option<Seq<char>>, modifiers: Modifiers) -> (AccountModel, Option<Command>) {
        if !self.visible() {
            (self, None)
        } else if key matches Key::Named(NamedKey::Escape) {
            if self.registration.picker is Some {
                (self.close_picker().dirty(), None)
            } else if self.composing() {
                (self.clear_preedit(), None)
            } else {
                (self, Some(Command::Action(AccountUiAction::Cancel)))
            }
        } else if self.busy() {
            (self, None)
        } else if self.registration.picker is Some {
            (self.registration_key(key), None)
        } else if self.composing() {
            // The desktop IME owns navigation and confirmation until it commits.
            (self, None)
        } else if key matches Key::Named(NamedKey::Tab) {
            let view = self.snapshot.unwrap().view;
            if !(view == AccountView::SignIn || view == AccountView::Register2 || view
                == AccountView::ForgotPassword) {
                (self, None)
            } else {
                let has_password = view == AccountView::SignIn || view == AccountView::Register2;
                let next = if has_password && (self.focus == Some(Field::Email) || (self.focus is None
                    && modifiers.shift)) {
                    Field::Password
                } else {
                    Field::Email
                };
                (self.focus(Some(next)), None)
            }
        } else if key matches Key::Named(NamedKey::Enter) {
            let view = self.snapshot.unwrap().view;
            let sign_in = view == AccountView::SignIn || view == AccountView::Register2;
            (
                self.focus(
                    if sign_in && self.focus == Some(Field::Email) {
                        Some(Field::Password)
                    } else {
                        None
                    },
                ),
                None,
            )
        } else {
            match self.focused_slot() {
                None => (self, None),
                Some(slot) => self.field_key(slot, key, text, modifiers),
            }
        }
    }

    /// Only a plain, uncomposed selection of the address field may be copied.
    pub open spec fn copyable_selection(self) -> Option<Seq<char>> {
        let email = self.email_editor();
        if self.focus != Some(Field::Email) || self.busy() || email.preedit.len() > 0
            || email.start() == email.end() {
            None
        } else {
            Some(decode_utf8(encode_utf8(email.value).subrange(email.start(), email.end())))
        }
    }

    pub open spec fn press(self, name: Option<Seq<char>>) -> AccountModel {
        AccountModel { pressed: name, ..self }.dirty()
    }

    /// Tapping root views hides the bubbles without clearing error icons or
    /// borders, and reopens only the visible icon that was tapped.
    pub open spec fn release_presentation(self, name: Option<Seq<char>>) -> AccountModel {
        if named(name, "emailTextField"@) || named(name, "passwordTextField"@) {
            self
        } else {
            AccountModel {
                email_popup: named(name, "emailErrorButton"@) && self.email_error is Some,
                password_popup: named(name, "passwordErrorButton"@) && self.password_error is Some,
                password_help: named(name, "passwordTooltipButton"@) && self.password_error is None,
                ..self
            }
        }
    }

    pub open spec fn button_command(name: Option<Seq<char>>) -> Option<Command> {
        if named(name, "signInButton"@) || named(name, "sendRequestButton"@) {
            Some(Command::Submit)
        } else if named(name, "closeButton"@) {
            Some(Command::Action(AccountUiAction::Cancel))
        } else if named(name, "backButton"@) || named(name, "questionButton"@) {
            Some(Command::Action(AccountUiAction::Back))
        } else if named(name, "nextButton"@) || named(name, "okButton"@) {
            Some(Command::Action(AccountUiAction::Continue))
        } else if named(name, "forgotPasswordLabel"@) {
            Some(Command::Action(AccountUiAction::ForgotPassword))
        } else if named(name, "registerLabel"@) {
            Some(Command::Action(AccountUiAction::Register))
        } else {
            None
        }
    }

    /// A press completes only on the element where it began.
    pub open spec fn release(self, name: Option<Seq<char>>) -> (AccountModel, Option<Command>) {
        let released = AccountModel { pressed: None, ..self }.dirty();
        if self.pressed != name {
            (released, None)
        } else {
            let (registered, consumed) = released.registration_release(name);
            match consumed {
                Some(command) => (registered, command),
                None => (registered.release_presentation(name), AccountModel::button_command(name)),
            }
        }
    }

    /// Submitting a registration page: Register1 checks the date fields,
    /// Register2 checks the raw email first, then the password's UTF-8 length.
    pub open spec fn submit_registration(self, snapshot: AccountUiSnapshot) -> (AccountModel, Option<RequestModel>) {
        if snapshot.view == AccountView::Register1 {
            let marked = self.mark_missing_dates();
            let closed = marked.close_picker();
            if self.registration.picker is Some || marked.registration.date_errors.contains(true) {
                (closed, None)
            } else {
                (closed, Some(RequestModel::Birthday { id: snapshot.id, birthday: closed.registration.birthday() }))
            }
        } else if self.email.value.len() == 0 {
            (AccountModel { email_popup: true, email_error: Some(Message::EmailRequired), ..self }, None)
        } else if byte_len(self.password.value) < 8 {
            (
                AccountModel {
                    password_popup: true,
                    password_help: false,
                    password_error: Some(
                        if self.password.value.len() == 0 {
                            Message::PasswordRequired
                        } else {
                            Message::PasswordHelp
                        },
                    ),
                    ..self
                },
                None,
            )
        } else {
            (
                self,
                Some(RequestModel::Registration {
                    id: snapshot.id,
                    email: self.email.value,
                    password: self.password.value,
                    gender: if self.registration.female {
                        AccountGender::Female
                    } else {
                        AccountGender::Male
                    },
                }),
            )
        }
    }

    /// Submit on SignIn/ForgotPassword checks raw field contents in native
    /// order, without trimming or inventing a pattern for addresses.
    pub open spec fn submit_credentials(self, snapshot: AccountUiSnapshot) -> (AccountModel, Option<RequestModel>) {
        let page = if snapshot.view == AccountView::ForgotPassword {
            AccountModel { email: empty_editor(), ..self }
        } else {
            self
        };
        if page.email_editor().value.len() == 0 {
            (AccountModel { email_popup: true, email_error: Some(Message::EmailRequired), ..page }, None)
        } else if snapshot.view == AccountView::SignIn && page.password.value.len() == 0 {
            (AccountModel { password_popup: true, password_error: Some(Message::PasswordRequired), ..page }, None)
        } else if snapshot.view == AccountView::SignIn {
            (page, Some(RequestModel::Login { id: snapshot.id, email: page.email.value, password: page.password.value }))
        } else if snapshot.view == AccountView::ForgotPassword {
            if blank(page.forgot_email.value) || page.email_error is Some {
                (AccountModel { email_popup: true, email_error: Some(Message::EmailInvalid), ..page }, None)
            } else {
                (page, Some(RequestModel::PasswordReset { id: snapshot.id, email: page.forgot_email.value }))
            }
        } else {
            (page, None)
        }
    }

    /// What executing a command does before the script is called: `None`
    /// without a page; otherwise the request to make, if any.
    pub open spec fn execute(self, command: Command) -> (AccountModel, Option<Option<RequestModel>>) {
        match self.snapshot {
            None => (self, None),
            Some(snapshot) => match command {
                Command::Action(action) => (self, Some(Some(RequestModel::Action { id: snapshot.id, action }))),
                Command::Submit => if snapshot.busy {
                    (self, Some(None))
                } else {
                    let submitted = self.validation_submission(snapshot.view);
                    let (after, request) = if snapshot.view == AccountView::Register1 || snapshot.view
                        == AccountView::Register2 {
                        submitted.submit_registration(snapshot)
                    } else {
                        submitted.submit_credentials(snapshot)
                    };
                    (after, Some(request))
                },
                _ => (self, Some(None)),
            },
        }
    }

    /// A second invalid date can produce an identical public snapshot, so the
    /// native invalid-day error is replayed from the script's reply.
    pub open spec fn birthday_submitted(self, next: Option<AccountUiSnapshot>) -> AccountModel {
        if next matches Some(s) && s.view == AccountView::Register1 && s.field_error is Some {
            AccountModel {
                registration: RegistrationModel {
                    date_errors: self.registration.date_errors.update(0, true).update(1, true),
                    ..self.registration
                },
                ..self
            }
        } else {
            self
        }
    }

    /// After the script call: submit decorates the errors, then the form
    /// adopts the script's snapshot.
    pub open spec fn finish_execute(self, command: Command, next: Option<AccountUiSnapshot>) -> AccountModel {
        let decorated = if command == Command::Submit {
            self.decorate_submission_errors()
        } else {
            self
        };
        decorated.sync(next).dirty()
    }
}

impl AccountUi {
    fn apply_edit_key(&mut self, slot: EditorSlot, op: EditKey)
        requires
            old(self)@.wf(),
        ensures
            final(self)@ == old(self)@.with_editor(slot, apply_edit_key(old(self)@.editor(slot), op)),
            final(self)@.wf(),
    {
        let editor = match slot {
            EditorSlot::Email => &mut self.email,
            EditorSlot::ForgotEmail => &mut self.forgot_email,
            EditorSlot::Password => &mut self.password,
        };
        match op {
            EditKey::Left(extend) => editor.move_horizontal(false, extend),
            EditKey::Right(extend) => editor.move_horizontal(true, extend),
            EditKey::Home(extend) => editor.move_to(0, extend),
            EditKey::End(extend) => {
                let end = str_byte_len(editor.text());
                editor.move_to(end, extend)
            },
            EditKey::Backspace => editor.erase(false),
            EditKey::Delete => editor.erase(true),
            EditKey::SelectAll => editor.select_all(),
        }
    }

    fn field_key(&mut self, slot: EditorSlot, key: &Key, text: Option<&str>, modifiers: Modifiers) -> (command: Option<Command>)
        requires
            old(self)@.wf(),
            old(self)@.focused_slot() == Some(slot),
            text matches Some(t) ==> old(self)@.fits(t@),
        ensures
            (final(self)@, command) == old(self)@.field_key(slot, *key, opt_view(text), modifiers),
            final(self)@.wf(),
    {
        let secure = self.focus == Some(Field::Password);
        let command = modifiers.super_key() || modifiers.control_key();
        let (paste, copy, cut, select_all) = match key {
            Key::Character(k) => (
                letter_key(k.as_str(), 'v', 'V'),
                letter_key(k.as_str(), 'c', 'C'),
                letter_key(k.as_str(), 'x', 'X'),
                letter_key(k.as_str(), 'a', 'A'),
            ),
            Key::Named(_) => (false, false, false, false),
        };
        if command && paste {
            return Some(Command::Paste);
        }
        if command && (copy || cut) {
            // Reject secure export before it can even request host clipboard
            // access. An empty selection is also a no-op.
            let selection = self.editor(slot).selection();
            if secure || selection.start == selection.end {
                return None;
            }
            return Some(
                if copy {
                    Command::Copy
                } else {
                    Command::Cut
                },
            );
        }
        let op = match key {
            Key::Named(NamedKey::ArrowLeft) => Some(EditKey::Left(modifiers.shift_key())),
            Key::Named(NamedKey::ArrowRight) => Some(EditKey::Right(modifiers.shift_key())),
            Key::Named(NamedKey::Home) => Some(EditKey::Home(modifiers.shift_key())),
            Key::Named(NamedKey::End) => Some(EditKey::End(modifiers.shift_key())),
            Key::Named(NamedKey::Backspace) => Some(EditKey::Backspace),
            Key::Named(NamedKey::Delete) => Some(EditKey::Delete),
            Key::Character(_) => if command && select_all {
                Some(EditKey::SelectAll)
            } else {
                None
            },
            _ => None,
        };
        match op {
            None => {
                if !command {
                    if let Some(text) = text {
                        self.text(text);
                    }
                }
                None
            },
            Some(op) => {
                let previous_len = str_byte_len(self.editor(slot).text());
                self.apply_edit_key(slot, op);
                // Native clear handlers are registered for editing-changed,
                // not caret navigation: selecting text keeps a server error.
                if str_byte_len(self.editor(slot).text()) != previous_len {
                    self.clear_field_error();
                    self.edit_validation_field();
                }
                self.dirty();
                None
            },
        }
    }

    pub fn key(&mut self, key: &Key, text: Option<&str>, modifiers: Modifiers) -> (command: Option<Command>)
        requires
            old(self)@.wf(),
            text matches Some(t) ==> old(self)@.fits(t@),
        ensures
            (final(self)@, command) == old(self)@.key(*key, opt_view(text), modifiers),
            final(self)@.wf(),
    {
        if !self.visible() {
            return None;
        }
        if let Key::Named(NamedKey::Escape) = key {
            if self.registration.picker.is_some() {
                self.registration.picker = None;
                self.dirty();
                return None;
            }
            if self.composing() {
                self.clear_preedit();
                return None;
            }
            return Some(Command::Action(AccountUiAction::Cancel));
        }
        if self.busy() {
            return None;
        }
        if self.registration_key(key) {
            return None;
        }
        // Let the desktop IME own candidate navigation/confirmation until it
        // commits. Tab must not discard marked text and move another field.
        if self.composing() {
            return None;
        }
        let view = match &self.snapshot {
            Some(snapshot) => snapshot.view,
            None => return None,
        };
        if let Key::Named(NamedKey::Tab) = key {
            if !(view == AccountView::SignIn || view == AccountView::Register2 || view
                == AccountView::ForgotPassword) {
                return None;
            }
            let has_password = view == AccountView::SignIn || view == AccountView::Register2;
            // Desktop focus-cycle adaptation: reverse traversal from no
            // focus starts at the last input field.
            let next = if has_password && (self.focus == Some(Field::Email) || (self.focus.is_none()
                && modifiers.shift_key())) {
                Field::Password
            } else {
                Field::Email
            };
            self.focus(Some(next));
            return None;
        }
        // Email Return focuses the password field; password Return resigns
        // it. No implicit submit.
        if let Key::Named(NamedKey::Enter) = key {
            let sign_in = view == AccountView::SignIn || view == AccountView::Register2;
            self.focus(
                if sign_in && self.focus == Some(Field::Email) {
                    Some(Field::Password)
                } else {
                    None
                },
            );
            return None;
        }
        match self.focused_slot() {
            None => None,
            Some(slot) => self.field_key(slot, key, text, modifiers),
        }
    }

    /// Secure native text fields do not export their selection. Clipboard
    /// access is a user-triggered desktop operation, never an automatic read.
    pub fn copyable_selection(&self) -> (selection: Option<&str>)
        requires
            self@.wf(),
        ensures
            opt_view(selection) == self@.copyable_selection(),
    {
        let email = self.email_editor();
        if self.focus != Some(Field::Email) || self.busy() || !email.preedit.as_str().is_empty() {
            return None;
        }
        let selection = email.selection();
        if selection.start == selection.end {
            return None;
        }
        proof {
            crate::editor::lemma_wf_facts(email@);
        }
        let text = email.text();
        let (head, _) = text.split_at(selection.end);
        proof {
            lemma_prefix_boundary(text@, selection.start as int, selection.end as int);
            assert(head@ == decode_utf8(encode_utf8(head@)));
        }
        let (_, selected) = head.split_at(selection.start);
        proof {
            assert(selected@ == decode_utf8(encode_utf8(selected@)));
            assert(encode_utf8(text@).subrange(0, selection.end as int).subrange(
                selection.start as int,
                selection.end as int,
            ) =~= encode_utf8(text@).subrange(selection.start as int, selection.end as int));
        }
        Some(selected)
    }

    pub fn press(&mut self, name: Option<&str>)
        requires
            old(self)@.wf(),
        ensures
            final(self)@ == old(self)@.press(opt_view(name)),
            final(self)@.wf(),
    {
        self.pressed = match name {
            Some(name) => Some(name.to_owned()),
            None => None,
        };
        self.dirty();
    }

    pub fn pressed(&self) -> (name: Option<&str>)
        ensures
            opt_view(name) == self@.pressed,
    {
        match &self.pressed {
            Some(name) => Some(name.as_str()),
            None => None,
        }
    }

    fn button_command(name: Option<&str>) -> (command: Option<Command>)
        ensures
            command == AccountModel::button_command(opt_view(name)),
    {
        if same_name(name, "signInButton") || same_name(name, "sendRequestButton") {
            Some(Command::Submit)
        } else if same_name(name, "closeButton") {
            Some(Command::Action(AccountUiAction::Cancel))
        } else if same_name(name, "backButton") || same_name(name, "questionButton") {
            Some(Command::Action(AccountUiAction::Back))
        } else if same_name(name, "nextButton") || same_name(name, "okButton") {
            Some(Command::Action(AccountUiAction::Continue))
        } else if same_name(name, "forgotPasswordLabel") {
            Some(Command::Action(AccountUiAction::ForgotPassword))
        } else if same_name(name, "registerLabel") {
            Some(Command::Action(AccountUiAction::Register))
        } else {
            None
        }
    }

    pub fn release(&mut self, name: Option<&str>) -> (command: Option<Command>)
        requires
            old(self)@.wf(),
        ensures
            (final(self)@, command) == old(self)@.release(opt_view(name)),
            final(self)@.wf(),
    {
        let pressed = self.pressed.take();
        self.dirty();
        let same = match (&pressed, name) {
            (Some(p), Some(n)) => same_text(p.as_str(), n),
            (None, None) => true,
            _ => false,
        };
        assert(same == (old(self)@.pressed == opt_view(name)));
        if !same {
            return None;
        }
        if let Some(command) = self.registration_release(name) {
            return command;
        }
        self.release_presentation(name);
        AccountUi::button_command(name)
    }

    fn release_presentation(&mut self, name: Option<&str>)
        requires
            old(self)@.wf(),
        ensures
            final(self)@ == old(self)@.release_presentation(opt_view(name)),
            final(self)@.wf(),
    {
        if !(same_name(name, "emailTextField") || same_name(name, "passwordTextField")) {
            self.email_popup = same_name(name, "emailErrorButton") && self.email_error.is_some();
            self.password_popup = same_name(name, "passwordErrorButton")
                && self.password_error.is_some();
            self.password_help = same_name(name, "passwordTooltipButton")
                && self.password_error.is_none();
        }
    }

    fn submit_registration(&mut self, snapshot: AccountUiSnapshot) -> (request: Option<AccountRequest>)
        requires
            old(self)@.wf(),
        ensures
            (final(self)@, request_view(request)) == old(self)@.submit_registration(snapshot),
            final(self)@.wf(),
    {
        if snapshot.view == AccountView::Register1 {
            self.mark_missing_dates();
            let open = self.registration.picker.is_some();
            self.registration.picker = None;
            let errors = self.registration.date_errors;
            proof {
                assert(self@.registration.date_errors.contains(true) <==> (errors[0] || errors[1] || errors[2])) by {
                    if self@.registration.date_errors.contains(true) {
                        let i = choose|i: int| 0 <= i < 3 && self@.registration.date_errors[i] == true;
                        assert(i == 0 || i == 1 || i == 2);
                    }
                    if errors[0] {
                        assert(self@.registration.date_errors[0] == true);
                    } else if errors[1] {
                        assert(self@.registration.date_errors[1] == true);
                    } else if errors[2] {
                        assert(self@.registration.date_errors[2] == true);
                    }
                }
            }
            if open || errors[0] || errors[1] || errors[2] {
                return None;
            }
            return Some(AccountRequest::Birthday { id: snapshot.id, birthday: self.registration.birthday() });
        }
        if self.email.text().is_empty() {
            self.email_popup = true;
            self.email_error = Some(Message::EmailRequired);
            None
        } else if str_byte_len(self.password.text()) < 8 {
            self.password_popup = true;
            self.password_help = false;
            self.password_error = Some(
                if self.password.text().is_empty() {
                    Message::PasswordRequired
                } else {
                    Message::PasswordHelp
                },
            );
            None
        } else {
            // The native wrapper counts UTF-8 bytes, not characters; it does
            // not trim, require a checkbox, or block on an old email icon.
            Some(
                AccountRequest::Registration {
                    id: snapshot.id,
                    email: self.email.text().to_owned(),
                    password: self.password.text().to_owned(),
                    gender: if self.registration.female {
                        AccountGender::Female
                    } else {
                        AccountGender::Male
                    },
                },
            )
        }
    }

    fn submit_credentials(&mut self, snapshot: AccountUiSnapshot) -> (request: Option<AccountRequest>)
        requires
            old(self)@.wf(),
            old(self)@.snapshot == Some(snapshot),
        ensures
            (final(self)@, request_view(request)) == old(self)@.submit_credentials(snapshot),
            final(self)@.wf(),
    {
        if snapshot.view == AccountView::ForgotPassword {
            // Requesting a new password clears the retained SignIn address;
            // reset entry itself is a separate native field.
            self.email = Editor::default();
        }
        if self.email_editor().text().is_empty() {
            self.email_popup = true;
            self.email_error = Some(Message::EmailRequired);
            None
        } else if snapshot.view == AccountView::SignIn && self.password.text().is_empty() {
            self.password_popup = true;
            self.password_error = Some(Message::PasswordRequired);
            None
        } else if snapshot.view == AccountView::SignIn {
            Some(
                AccountRequest::Login {
                    id: snapshot.id,
                    email: self.email.text().to_owned(),
                    password: self.password.text().to_owned(),
                },
            )
        } else if snapshot.view == AccountView::ForgotPassword {
            if is_blank(self.forgot_email.text()) || self.email_error.is_some() {
                self.email_popup = true;
                self.email_error = Some(Message::EmailInvalid);
                None
            } else {
                Some(
                    AccountRequest::PasswordReset {
                        id: snapshot.id,
                        email: self.forgot_email.text().to_owned(),
                    },
                )
            }
        } else {
            None
        }
    }

    /// First half of executing a command: everything the form decides before
    /// the script is called. `None` when no page is shown (nothing further
    /// happens); otherwise the request for the host to make, if any, after
    /// which the host calls `finish_execute` with the script's new snapshot.
    pub fn execute(&mut self, command: Command) -> (request: Option<Option<AccountRequest>>)
        requires
            old(self)@.wf(),
        ensures
            ({
                let (after, expected) = old(self)@.execute(command);
                &&& final(self)@ == after
                &&& match (request, expected) {
                    (None, None) => true,
                    (Some(r), Some(e)) => request_view(r) == e,
                    _ => false,
                }
            }),
            final(self)@.wf(),
    {
        let snapshot = match self.snapshot {
            Some(snapshot) => snapshot,
            None => return None,
        };
        match command {
            Command::Action(action) => Some(Some(AccountRequest::Action { id: snapshot.id, action })),
            Command::Submit => {
                if snapshot.busy {
                    return Some(None);
                }
                self.validation_submission(snapshot.view);
                if snapshot.view == AccountView::Register1 || snapshot.view == AccountView::Register2 {
                    Some(self.submit_registration(snapshot))
                } else {
                    Some(self.submit_credentials(snapshot))
                }
            },
            _ => Some(None),
        }
    }

    /// After a birthday request: replay the invalid-date error from the
    /// script's reply.
    pub fn birthday_submitted(&mut self, next: Option<AccountUiSnapshot>)
        requires
            old(self)@.wf(),
        ensures
            final(self)@ == old(self)@.birthday_submitted(next),
            final(self)@.wf(),
    {
        let invalid = match &next {
            Some(s) => s.view == AccountView::Register1 && s.field_error.is_some(),
            None => false,
        };
        if invalid {
            self.registration.date_errors[0] = true;
            self.registration.date_errors[1] = true;
            assert(self@.registration.date_errors =~= old(self)@.birthday_submitted(next).registration.date_errors);
        }
    }

    /// Second half of executing a command, once the script has answered.
    pub fn finish_execute(&mut self, command: Command, next: Option<AccountUiSnapshot>)
        requires
            old(self)@.wf(),
        ensures
            final(self)@ == old(self)@.finish_execute(command, next),
            final(self)@.wf(),
    {
        if let Command::Submit = command {
            self.decorate_submission_errors();
        }
        self.sync(next);
        self.dirty();
    }
}

/// A character boundary below `end` stays one in the prefix that ends there.
proof fn lemma_prefix_boundary(text: Seq<char>, start: int, end: int)
    requires
        0 <= start <= end <= byte_len(text),
        char_boundary_of(text, start),
        char_boundary_of(text, end),
    ensures
        is_char_boundary(encode_utf8(text).subrange(0, end), start),
{
    let b = encode_utf8(text);
    let head = b.subrange(0, end);
    vstd::utf8::valid_utf8_split(b, end);
    if start < end {
        vstd::utf8::is_char_boundary_iff_not_is_continuation_byte(b, start);
        vstd::utf8::is_char_boundary_iff_not_is_continuation_byte(head, start);
    } else {
        vstd::utf8::is_char_boundary_start_end_of_seq(head);
    }
}

/// Showing the snapshot the form already shows changes nothing, and showing
/// the same snapshot twice is the same as showing it once.
pub proof fn law_repeated_snapshot_is_idempotent(m: AccountModel, next: Option<AccountUiSnapshot>)
    ensures
        m.sync(m.snapshot) == m,
        m.sync(next).snapshot == next,
        m.sync(next).sync(next) == m.sync(next),
{
}

proof fn lemma_empty_replace_empty()
    ensures
        crate::editor::empty_editor().replace(Seq::empty()).value.len() == 0,
{
    let e = crate::editor::empty_editor();
    assert(crate::text::without_controls(Seq::<char>::empty()) =~= Seq::<char>::empty());
    assert(crate::text::splice_bytes(e.value, 0, 0, Seq::empty()) =~= Seq::<u8>::empty());
}

proof fn lemma_blank_credentials_survive_presentation_reset(s: AccountModel)
    requires
        s.email.value.len() == 0,
        s.password.value.len() == 0,
        s.forgot_email.value.len() == 0,
        s.email.preedit.len() == 0,
        s.password.preedit.len() == 0,
        s.forgot_email.preedit.len() == 0,
    ensures
        s.presentation_reset().email.value.len() == 0,
        s.presentation_reset().password.value.len() == 0,
        s.presentation_reset().forgot_email.value.len() == 0,
        s.presentation_reset().validation.cached == s.validation.cached,
{
}

/// Credentials belong to their owner: a snapshot from another owner (or the
/// form closing) leaves every credential field blank.
#[verifier::spinoff_prover]
#[verifier::rlimit(60)]
pub proof fn law_owner_change_clears_credentials(m: AccountModel, next: Option<AccountUiSnapshot>)
    requires
        owner_of(m.snapshot) != owner_of(next),
    ensures
        m.sync(next).email.value.len() == 0,
        m.sync(next).password.value.len() == 0,
        m.sync(next).forgot_email.value.len() == 0,
{
    lemma_empty_replace_empty();
    assert(default_validation().cached[0] =~= Seq::<char>::empty());
    assert(default_validation().cached[1] =~= Seq::<char>::empty());
    let changed_view = view_of(m.snapshot) != view_of(next);
    let s1 = m.owner_reset();
    let s2 = if changed_view && (next matches Some(n) && n.view == AccountView::ForgotPassword
        && n.field_error is None) {
        AccountModel { forgot_email: empty_editor(), ..s1 }
    } else {
        s1
    };
    lemma_blank_credentials_survive_presentation_reset(s2);
    let s3 = s2.presentation_reset();
    assert(s3.validation.cached[0].len() == 0);
    assert(s3.validation.cached[1].len() == 0);
    let s4 = match next {
        Some(n) => if changed_view {
            s3.restore_native_validation_text(n.view)
        } else {
            s3
        },
        None => s3,
    };
    assert(s4.email.value.len() == 0);
    assert(s4.password.value.len() == 0);
    assert(s4.forgot_email.value.len() == 0);
}

/// While a request is in flight the form ignores every key but Escape.
pub proof fn law_busy_form_ignores_keys(
    m: AccountModel,
    key: Key,
    text: Option<Seq<char>>,
    modifiers: Modifiers,
)
    requires
        m.busy(),
        m.registration.picker is None,
        !(key matches Key::Named(NamedKey::Escape)),
    ensures
        m.key(key, text, modifiers) == (m, None::<Command>),
{
}

/// Only the address field can export text: a selection in the password
/// field, a composing field or a busy form never reaches the clipboard.
pub proof fn law_password_never_reaches_clipboard(m: AccountModel)
    ensures
        m.copyable_selection() is Some ==> m.focus == Some(Field::Email) && !m.busy()
            && m.email_editor().preedit.len() == 0,
{
}

/// Home and End move the caret to the start and the end of the field's
/// text; with Shift the anchor stays where it was, so the selection spans
/// from it to the new caret; without Shift the selection collapses there.
pub proof fn law_home_and_end_select_with_shift(editor: EditorModel)
    requires
        editor.wf(),
    ensures
        apply_edit_key(editor, EditKey::End(true)).cursor == byte_len(editor.value),
        apply_edit_key(editor, EditKey::End(true)).anchor == editor.anchor,
        apply_edit_key(editor, EditKey::End(false)).cursor == byte_len(editor.value),
        apply_edit_key(editor, EditKey::End(false)).anchor == byte_len(editor.value),
        apply_edit_key(editor, EditKey::Home(true)).cursor == 0,
        apply_edit_key(editor, EditKey::Home(true)).anchor == editor.anchor,
        apply_edit_key(editor, EditKey::Home(false)).cursor == 0,
        apply_edit_key(editor, EditKey::Home(false)).anchor == 0,
        apply_edit_key(editor, EditKey::End(true)).value == editor.value,
        apply_edit_key(editor, EditKey::Home(true)).value == editor.value,
{
    crate::editor::law_move_to_keeps_the_anchor_when_extending(editor, byte_len(editor.value));
    crate::editor::law_move_to_keeps_the_anchor_when_extending(editor, 0);
}

/// Shift with an arrow key keeps the anchor: only the caret moves.
pub proof fn law_shift_arrows_keep_the_anchor(editor: EditorModel)
    requires
        editor.wf(),
    ensures
        apply_edit_key(editor, EditKey::Left(true)).anchor == editor.anchor,
        apply_edit_key(editor, EditKey::Right(true)).anchor == editor.anchor,
{
    crate::editor::law_move_to_keeps_the_anchor_when_extending(
        editor,
        editor.horizontal_target(false, true),
    );
    crate::editor::law_move_to_keeps_the_anchor_when_extending(
        editor,
        editor.horizontal_target(true, true),
    );
}

} // verus!
