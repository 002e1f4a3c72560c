//! Registration controls: the birthday pickers and their keyboard and wheel input.
use super::{
    named, opt_view, same_name, AccountModel, AccountUi, AccountUiAction, AccountView, Command, Key,
    NamedKey,
};
use crate::layout::{date_tag, date_tag_spec, picker_row_count, picker_rows, PRIVACY_URL, TERMS_URL};
use vstd::prelude::*;

verus! {

#[derive(Clone, Copy, Debug, PartialEq, Eq, Structural)]
pub enum AccountGender {
    Male,
    Female,
}

/// A calendar date as the birthday picker and the script exchange it.
#[derive(Clone, Copy, Debug, PartialEq, Eq, Structural)]
pub struct RegistrationBirthday {
    pub day: u32,
    pub month: u32,
    pub year: i32,
}

pub struct Registration {
    pub values: [Option<i32>; 3],
    pub today: Option<RegistrationBirthday>,
    pub picker: Option<u8>,
    pub row: i32,
    pub female: bool,
    pub date_errors: [bool; 3],
}

pub struct RegistrationModel {
    pub values: Seq<Option<i32>>,
    pub today: Option<RegistrationBirthday>,
    pub picker: Option<u8>,
    pub row: i32,
    pub female: bool,
    pub date_errors: Seq<bool>,
}

impl View for Registration {
    type V = RegistrationModel;

    open spec fn view(&self) -> RegistrationModel {
        RegistrationModel {
            values: self.values@,
            today: self.today,
            picker: self.picker,
            row: self.row,
            female: self.female,
            date_errors: self.date_errors@,
        }
    }
}

pub open spec fn default_registration() -> RegistrationModel {
    RegistrationModel {
        values: seq![None, None, None],
        today: None,
        picker: None,
        row: 0,
        female: false,
        date_errors: seq![false, false, false],
    }
}

/// A date the picker can open on without overflowing its row arithmetic.
pub open spec fn usable_date(date: RegistrationBirthday) -> bool {
    &&& date.day <= i32::MAX
    &&& date.month <= i32::MAX
    &&& date.year >= i32::MIN + 1900
}

/// Row offset of a picker: years count from 1900, days and months from 1.
pub open spec fn row_base(tag: u8) -> int {
    if tag == 2 {
        1900
    } else {
        1
    }
}

impl RegistrationModel {
    pub open spec fn wf(self) -> bool {
        &&& self.values.len() == 3
        &&& self.date_errors.len() == 3
        &&& self.picker matches Some(tag) ==> tag < 3
        &&& 0 <= self.row <= i32::MAX - 1900
        &&& self.today matches Some(date) ==> usable_date(date)
        &&& forall|i: int| 0 <= i < 3 ==> (#[trigger] self.values[i] matches Some(v) ==> v >= 1)
    }

    pub open spec fn current_year(self) -> i32 {
        match self.today {
            Some(date) => date.year,
            None => 1900,
        }
    }

    pub open spec fn row_count(self, tag: u8) -> int {
        picker_rows(tag, self.current_year())
    }

    /// Highest selectable row of the picker `tag`.
    pub open spec fn last_row(self, tag: u8) -> int {
        if self.row_count(tag) - 1 > 0 {
            self.row_count(tag) - 1
        } else {
            0
        }
    }

    pub open spec fn commit(self) -> RegistrationModel {
        match self.picker {
            Some(tag) => RegistrationModel {
                values: self.values.update(tag as int, Some((self.row + row_base(tag)) as i32)),
                ..self
            },
            None => self,
        }
    }

    /// Opening a picker selects the field's value, or today's, clamped to its rows.
    pub open spec fn open(self, tag: u8) -> RegistrationModel {
        let today: int = match self.today {
            Some(date) => if tag == 0 {
                date.day as int
            } else if tag == 1 {
                date.month as int
            } else {
                date.year as int
            },
            None => 1900,
        };
        let value: int = match self.values[tag as int] {
            Some(v) => v as int,
            None => today,
        };
        let wanted = value - row_base(tag);
        let row = if wanted < 0 {
            0
        } else if wanted > self.last_row(tag) {
            self.last_row(tag)
        } else {
            wanted
        };
        RegistrationModel {
            row: row as i32,
            picker: Some(tag),
            date_errors: self.date_errors.update(tag as int, false),
            ..self
        }
    }

    pub open spec fn missing_dates(self) -> Seq<bool> {
        seq![self.values[0] is None, self.values[1] is None, self.values[2] is None]
    }

    pub open spec fn birthday(self) -> RegistrationBirthday {
        RegistrationBirthday {
            day: match self.values[0] {
                Some(v) => if v > 0 {
                    v as u32
                } else {
                    0
                },
                None => 0,
            },
            month: match self.values[1] {
                Some(v) => if v > 0 {
                    v as u32
                } else {
                    0
                },
                None => 0,
            },
            year: match self.values[2] {
                Some(v) => v,
                None => 0,
            },
        }
    }
}

impl Default for Registration {
    fn default() -> (r: Registration)
        ensures
            r@ == default_registration(),
    {
        let r = Registration {
            values: [None, None, None],
            today: None,
            picker: None,
            row: 0,
            female: false,
            date_errors: [false, false, false],
        };
        assert(r@.values =~= seq![None, None, None]);
        assert(r@.date_errors =~= seq![false, false, false]);
        r
    }
}

impl Registration {
    pub fn row_count(&self, tag: u8) -> (rows: i32)
        ensures
            rows as int == self@.row_count(tag),
            rows >= 0,
    {
        let year = match self.today {
            Some(date) => date.year,
            None => 1900,
        };
        picker_row_count(tag, year) as i32
    }

    fn last_row(&self, tag: u8) -> (row: i32)
        ensures
            row as int == self@.last_row(tag),
            0 <= row <= i32::MAX - 1900,
    {
        let rows = self.row_count(tag);
        if rows - 1 > 0 {
            rows - 1
        } else {
            0
        }
    }

    fn open(&mut self, tag: u8)
        requires
            old(self)@.wf(),
            tag < 3,
        ensures
            final(self)@ == old(self)@.open(tag),
            final(self)@.wf(),
    {
        let today = match self.today {
            Some(date) => match tag {
                0 => date.day as i32,
                1 => date.month as i32,
                _ => date.year,
            },
            None => 1900,
        };
        let value = match self.values[tag as usize] {
            Some(value) => value,
            None => today,
        };
        let wanted = value - if tag == 2 {
            1900
        } else {
            1
        };
        let last = self.last_row(tag);
        self.row = if wanted < 0 {
            0
        } else if wanted > last {
            last
        } else {
            wanted
        };
        self.picker = Some(tag);
        self.date_errors[tag as usize] = false;
        assert(self@.date_errors =~= old(self)@.open(tag).date_errors);
    }

    fn commit(&mut self)
        requires
            old(self)@.wf(),
        ensures
            final(self)@ == old(self)@.commit(),
            final(self)@.wf(),
    {
        if let Some(tag) = self.picker {
            self.values[tag as usize] = Some(
                self.row + if tag == 2 {
                    1900
                } else {
                    1
                },
            );
            assert(self@.values =~= old(self)@.commit().values);
        }
    }

    pub(crate) fn mark_missing_dates(&mut self)
        requires
            old(self)@.wf(),
        ensures
            final(self)@ == (RegistrationModel { date_errors: old(self)@.missing_dates(), ..old(self)@ }),
            final(self)@.wf(),
    {
        self.date_errors = [
            self.values[0].is_none(),
            self.values[1].is_none(),
            self.values[2].is_none(),
        ];
        assert(self@.date_errors =~= old(self)@.missing_dates());
    }

    pub fn birthday(&self) -> (date: RegistrationBirthday)
        requires
            self@.wf(),
        ensures
            date == self@.birthday(),
    {
        RegistrationBirthday {
            day: match self.values[0] {
                Some(value) => if value > 0 {
                    value as u32
                } else {
                    0
                },
                None => 0,
            },
            month: match self.values[1] {
                Some(value) => if value > 0 {
                    value as u32
                } else {
                    0
                },
                None => 0,
            },
            year: match self.values[2] {
                Some(value) => value,
                None => 0,
            },
        }
    }
}

/// Picker row buttons tapped while a picker is open, as a row offset.
pub open spec fn picker_offset_spec(name: Option<Seq<char>>) -> Option<i32> {
    if named(name, "pickerRowMinus2"@) {
        Some(-2i32)
    } else if named(name, "pickerRowMinus1"@) {
        Some(-1i32)
    } else if named(name, "pickerRow0"@) {
        Some(0i32)
    } else if named(name, "pickerRowPlus1"@) {
        Some(1i32)
    } else if named(name, "pickerRowPlus2"@) {
        Some(2i32)
    } else {
        None
    }
}

pub fn picker_offset(name: Option<&str>) -> (offset: Option<i32>)
    ensures
        offset == picker_offset_spec(opt_view(name)),
{
    if same_name(name, "pickerRowMinus2") {
        Some(-2)
    } else if same_name(name, "pickerRowMinus1") {
        Some(-1)
    } else if same_name(name, "pickerRow0") {
        Some(0)
    } else if same_name(name, "pickerRowPlus1") {
        Some(1)
    } else if same_name(name, "pickerRowPlus2") {
        Some(2)
    } else {
        None
    }
}

impl AccountModel {
    pub open spec fn set_calendar_today(self, today: RegistrationBirthday) -> AccountModel {
        AccountModel {
            registration: RegistrationModel { today: Some(today), ..self.registration },
            ..self
        }
    }

    /// Wheel/arrow scrolling moves the open picker by `rows`, clamped to its
    /// rows, and writes the selected value while the picker stays open.
    pub open spec fn scroll_picker(self, rows: i32) -> AccountModel {
        if self.busy() || rows == 0 {
            self
        } else {
            match self.registration.picker {
                None => self,
                Some(tag) => {
                    let r = self.registration;
                    let sum = r.row + rows;
                    let saturated = if sum > i32::MAX {
                        i32::MAX as int
                    } else if sum < i32::MIN {
                        i32::MIN as int
                    } else {
                        sum
                    };
                    let row = if saturated < 0 {
                        0
                    } else if saturated > r.last_row(tag) {
                        r.last_row(tag)
                    } else {
                        saturated
                    };
                    AccountModel {
                        registration: RegistrationModel { row: row as i32, ..r }.commit(),
                        ..self
                    }.dirty()
                },
            }
        }
    }

    pub open spec fn close_picker(self) -> AccountModel {
        AccountModel {
            registration: RegistrationModel { picker: None, ..self.registration },
            ..self
        }
    }

    pub open spec fn commit_picker(self) -> AccountModel {
        AccountModel { registration: self.registration.commit(), ..self }
    }

    pub open spec fn mark_missing_dates(self) -> AccountModel {
        AccountModel {
            registration: RegistrationModel {
                date_errors: self.registration.missing_dates(),
                ..self.registration
            },
            ..self
        }
    }

    /// Keys consumed by an open picker.
    pub open spec fn registration_key(self, key: Key) -> AccountModel {
        match key {
            Key::Named(NamedKey::ArrowUp) => self.scroll_picker(-1i32),
            Key::Named(NamedKey::ArrowDown) => self.scroll_picker(1i32),
            Key::Named(NamedKey::Home) => self.scroll_picker((-i32::MAX) as i32),
            Key::Named(NamedKey::End) => self.scroll_picker(i32::MAX),
            Key::Named(NamedKey::Enter) => self.commit_picker().close_picker().dirty(),
            _ => self,
        }
    }

    /// Register1 buttons and links once no picker intercepts the tap.
    pub open spec fn register1_command(self, name: Option<Seq<char>>) -> (AccountModel, Option<Option<Command>>) {
        if named(name, "backButton"@) {
            (self, Some(Some(Command::Action(AccountUiAction::Cancel))))
        } else if named(name, "continueButton"@) {
            let marked = self.mark_missing_dates();
            let complete = !marked.registration.date_errors.contains(true);
            (marked, Some(if complete { Some(Command::Submit) } else { None }))
        } else if named(name, "eulaLabel"@) {
            (self, Some(Some(Command::OpenUrl(TERMS_URL))))
        } else if named(name, "privacyPolicyLabel"@) {
            (self, Some(Some(Command::OpenUrl(PRIVACY_URL))))
        } else if named(name, "registerLabel"@) {
            (self, Some(None))
        } else {
            (self, None)
        }
    }

    pub open spec fn register1_release(self, name: Option<Seq<char>>) -> (AccountModel, Option<Option<Command>>) {
        let tag = match name {
            Some(n) => date_tag_spec(n),
            None => None,
        };
        match tag {
            Some(t) => if self.registration.picker == Some(t) {
                (self.commit_picker().close_picker(), Some(None))
            } else {
                (AccountModel { registration: self.registration.open(t), ..self }, Some(None))
            },
            None => if self.registration.picker is Some {
                let offset = picker_offset_spec(name);
                let scrolled = match offset {
                    Some(o) => self.scroll_picker(o).commit_picker(),
                    None => self,
                };
                let closed = scrolled.close_picker();
                if named(name, "continueButton"@) {
                    (closed.mark_missing_dates(), Some(None))
                } else if named(name, "eulaLabel"@) || named(name, "privacyPolicyLabel"@)
                    || offset is Some {
                    (closed, Some(None))
                } else {
                    closed.register1_command(name)
                }
            } else {
                self.register1_command(name)
            },
        }
    }

    /// The outer option says whether a registration control consumed the tap.
    pub open spec fn registration_release(self, name: Option<Seq<char>>) -> (AccountModel, Option<Option<Command>>) {
        match self.snapshot {
            None => (self, None),
            Some(s) => if self.busy() {
                (self, None)
            } else if s.view == AccountView::Register1 {
                self.register1_release(name)
            } else if s.view == AccountView::Register2 {
                if named(name, "gender_male_button"@) {
                    (
                        AccountModel {
                            registration: RegistrationModel { female: false, ..self.registration },
                            ..self
                        },
                        Some(None),
                    )
                } else if named(name, "gender_female_button"@) {
                    (
                        AccountModel {
                            registration: RegistrationModel { female: true, ..self.registration },
                            ..self
                        },
                        Some(None),
                    )
                } else if named(name, "registerButton"@) {
                    (self, Some(Some(Command::Submit)))
                } else {
                    (self, None)
                }
            } else {
                (self, None)
            },
        }
    }
}

impl AccountUi {
    /// Today's local date, which bounds the year picker and seeds new pickers.
    pub fn set_calendar_today(&mut self, today: RegistrationBirthday)
        requires
            old(self)@.wf(),
            usable_date(today),
        ensures
            final(self)@ == old(self)@.set_calendar_today(today),
            final(self)@.wf(),
    {
        self.registration.today = Some(today);
    }

    pub fn scroll_picker(&mut self, rows: i32)
        requires
            old(self)@.wf(),
        ensures
            final(self)@ == old(self)@.scroll_picker(rows),
            final(self)@.wf(),
    {
        if self.busy() || rows == 0 {
            return;
        }
        if let Some(tag) = self.registration.picker {
            let sum = self.registration.row as i64 + rows as i64;
            let saturated: i32 = if sum > i32::MAX as i64 {
                i32::MAX
            } else if sum < i32::MIN as i64 {
                i32::MIN
            } else {
                sum as i32
            };
            let last = self.registration.last_row(tag);
            self.registration.row = if saturated < 0 {
                0
            } else if saturated > last {
                last
            } else {
                saturated
            };
            // didSelectRow writes while visible, but does not dismiss it.
            self.registration.commit();
            self.dirty();
        }
    }

    fn commit_and_close_picker(&mut self)
        requires
            old(self)@.wf(),
        ensures
            final(self)@ == old(self)@.commit_picker().close_picker(),
            final(self)@.wf(),
    {
        self.registration.commit();
        self.registration.picker = None;
    }

    /// Keys go to an open picker first; returns whether it consumed the key.
    pub fn registration_key(&mut self, key: &Key) -> (consumed: bool)
        requires
            old(self)@.wf(),
        ensures
            consumed == (old(self)@.registration.picker is Some),
            consumed ==> final(self)@ == old(self)@.registration_key(*key),
            !consumed ==> final(self)@ == old(self)@,
            final(self)@.wf(),
    {
        if self.registration.picker.is_none() {
            return false;
        }
        match key {
            Key::Named(NamedKey::ArrowUp) => self.scroll_picker(-1i32),
            Key::Named(NamedKey::ArrowDown) => self.scroll_picker(1i32),
            Key::Named(NamedKey::Home) => self.scroll_picker(-i32::MAX),
            Key::Named(NamedKey::End) => self.scroll_picker(i32::MAX),
            Key::Named(NamedKey::Enter) => {
                self.commit_and_close_picker();
                self.dirty();
            },
            _ => {},
        }
        true
    }

    pub(crate) fn mark_missing_dates(&mut self)
        requires
            old(self)@.wf(),
        ensures
            final(self)@ == old(self)@.mark_missing_dates(),
            final(self)@.wf(),
    {
        self.registration.mark_missing_dates();
    }

    fn register1_command(&mut self, name: Option<&str>) -> (result: Option<Option<Command>>)
        requires
            old(self)@.wf(),
        ensures
            (final(self)@, result) == old(self)@.register1_command(opt_view(name)),
            final(self)@.wf(),
    {
        if same_name(name, "backButton") {
            Some(Some(Command::Action(AccountUiAction::Cancel)))
        } else if same_name(name, "continueButton") {
            self.mark_missing_dates();
            let errors = self.registration.date_errors;
            let complete = !errors[0] && !errors[1] && !errors[2];
            proof {
                assert(self@.registration.date_errors.contains(true) <==> !complete) by {
                    if self@.registration.date_errors.contains(true) {
                        let i = choose|i: int| 0 <= i < 3 && self@.registration.date_errors[i] == true;
                        assert(i == 0 || i == 1 || i == 2);
                    }
                    if !complete {
                        assert(errors[0] || errors[1] || errors[2]);
                        if errors[0] {
                            assert(self@.registration.date_errors[0] == true);
                        } else if errors[1] {
                            assert(self@.registration.date_errors[1] == true);
                        } else {
                            assert(self@.registration.date_errors[2] == true);
                        }
                    }
                }
            }
            Some(
                if complete {
                    Some(Command::Submit)
                } else {
                    None
                },
            )
        } else if same_name(name, "eulaLabel") {
            Some(Some(Command::OpenUrl(TERMS_URL)))
        } else if same_name(name, "privacyPolicyLabel") {
            Some(Some(Command::OpenUrl(PRIVACY_URL)))
        } else if same_name(name, "registerLabel") {
            // The title shares SignIn's link outlet name but is not a link.
            Some(None)
        } else {
            None
        }
    }

    fn register1_release(&mut self, name: Option<&str>) -> (result: Option<Option<Command>>)
        requires
            old(self)@.wf(),
        ensures
            (final(self)@, result) == old(self)@.register1_release(opt_view(name)),
            final(self)@.wf(),
    {
        let tag = match name {
            Some(n) => date_tag(n),
            None => None,
        };
        if let Some(tag) = tag {
            if self.registration.picker == Some(tag) {
                self.commit_and_close_picker();
            } else {
                self.registration.open(tag);
            }
            return Some(None);
        }
        if self.registration.picker.is_some() {
            let offset = picker_offset(name);
            if let Some(offset) = offset {
                self.scroll_picker(offset);
                self.registration.commit();
            }
            self.registration.picker = None;
            if same_name(name, "continueButton") {
                self.mark_missing_dates();
                return Some(None);
            }
            // A first tap on a link with a picker open only hides it.
            if same_name(name, "eulaLabel") || same_name(name, "privacyPolicyLabel")
                || offset.is_some() {
                return Some(None);
            }
        }
        self.register1_command(name)
    }

    /// Outer Option indicates this registration control consumed the tap.
    pub fn registration_release(&mut self, name: Option<&str>) -> (result: Option<Option<Command>>)
        requires
            old(self)@.wf(),
        ensures
            (final(self)@, result) == old(self)@.registration_release(opt_view(name)),
            final(self)@.wf(),
    {
        let view = match &self.snapshot {
            Some(snapshot) => snapshot.view,
            None => return None,
        };
        if self.busy() {
            return None;
        }
        if view == AccountView::Register1 {
            return self.register1_release(name);
        }
        if view == AccountView::Register2 {
            if same_name(name, "gender_male_button") {
                self.registration.female = false;
            } else if same_name(name, "gender_female_button") {
                self.registration.female = true;
            } else if same_name(name, "registerButton") {
                return Some(Some(Command::Submit));
            } else {
                return None;
            }
            return Some(None);
        }
        None
    }
}

} // verus!
