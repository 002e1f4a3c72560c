//! Input state of the three-button app-rating alert: which prompt is shown,
//! which button is pressed or focused, and when the overlay must repaint.
//! Button geometry lives with the painter, which reports the button under the
//! pointer (`hit`) and tells this state when its layout is current.
use crate::text::same_text;
use vstd::prelude::*;

verus! {

#[derive(Clone, Copy, Debug, PartialEq, Eq, Structural)]
pub enum AppRatingChoice {
    Later,
    Decline,
    Rate,
}

pub struct AppRatingButton {
    pub choice: AppRatingChoice,
    pub title: String,
}

/// The alert the script asks for.
pub struct AppRatingPrompt {
    pub id: u64,
    pub message: String,
    pub buttons: [AppRatingButton; 3],
}

pub struct PromptModel {
    pub id: u64,
    pub message: Seq<char>,
    pub choices: Seq<AppRatingChoice>,
    pub titles: Seq<Seq<char>>,
}

pub open spec fn prompt_model(p: AppRatingPrompt) -> PromptModel {
    PromptModel {
        id: p.id,
        message: p.message@,
        choices: seq![p.buttons[0].choice, p.buttons[1].choice, p.buttons[2].choice],
        titles: seq![p.buttons[0].title@, p.buttons[1].title@, p.buttons[2].title@],
    }
}

pub open spec fn opt_prompt(p: Option<AppRatingPrompt>) -> Option<PromptModel> {
    match p {
        Some(p) => Some(prompt_model(p)),
        None => None,
    }
}

pub struct AppRatingModel {
    pub prompt: Option<PromptModel>,
    pub pressed: Option<(u64, AppRatingChoice)>,
    pub focused: int,
    pub size: (u32, u32),
    pub dirty: bool,
    pub laid_out: bool,
}

impl AppRatingModel {
    pub open spec fn wf(self) -> bool {
        &&& 0 <= self.focused < 3
        &&& self.prompt matches Some(p) ==> p.choices.len() == 3
    }

    /// A new prompt or a new window size drops the press and the layout and
    /// forces a repaint; a new prompt also focuses the first button.
    pub open spec fn sync(self, prompt: Option<PromptModel>, width: u32, height: u32) -> AppRatingModel {
        let changed = self.prompt != prompt;
        let reset = if changed || self.size != (width, height) {
            AppRatingModel {
                pressed: None,
                laid_out: false,
                dirty: true,
                size: (width, height),
                ..self
            }
        } else {
            self
        };
        if changed {
            AppRatingModel { focused: 0, prompt, ..reset }
        } else {
            reset
        }
    }

    /// Pressing records the button under the pointer on the current prompt.
    pub open spec fn press(self, hit: Option<AppRatingChoice>) -> AppRatingModel {
        AppRatingModel {
            pressed: match (self.prompt, hit) {
                (Some(p), Some(choice)) if self.laid_out => Some((p.id, choice)),
                _ => None,
            },
            dirty: true,
            ..self
        }
    }

    /// A release answers only on the button, and the prompt, where the press
    /// began.
    pub open spec fn release(self, hit: Option<AppRatingChoice>) -> (AppRatingModel, Option<(u64, AppRatingChoice)>) {
        let answer = match self.pressed {
            Some((id, choice)) => if (self.prompt matches Some(p) && p.id == id) && self.laid_out
                && hit == Some(choice) {
                Some((id, choice))
            } else {
                None
            },
            None => None,
        };
        (AppRatingModel { pressed: None, dirty: true, ..self }, answer)
    }

    pub open spec fn focused_answer(self) -> Option<(u64, AppRatingChoice)> {
        match self.prompt {
            Some(p) => Some((p.id, p.choices[self.focused])),
            None => None,
        }
    }
}

pub struct AppRatingUi {
    prompt: Option<AppRatingPrompt>,
    pressed: Option<(u64, AppRatingChoice)>,
    focused: usize,
    size: (u32, u32),
    dirty: bool,
    laid_out: bool,
}

impl View for AppRatingUi {
    type V = AppRatingModel;

    closed spec fn view(&self) -> AppRatingModel {
        AppRatingModel {
            prompt: opt_prompt(self.prompt),
            pressed: self.pressed,
            focused: self.focused as int,
            size: self.size,
            dirty: self.dirty,
            laid_out: self.laid_out,
        }
    }
}

fn same_prompt(a: &Option<AppRatingPrompt>, b: &Option<AppRatingPrompt>) -> (same: bool)
    ensures
        same == (opt_prompt(*a) == opt_prompt(*b)),
{
    match (a, b) {
        (None, None) => true,
        (Some(x), Some(y)) => {
            let same = x.id == y.id && same_text(x.message.as_str(), y.message.as_str())
                && x.buttons[0].choice == y.buttons[0].choice && x.buttons[1].choice
                == y.buttons[1].choice && x.buttons[2].choice == y.buttons[2].choice && same_text(
                x.buttons[0].title.as_str(),
                y.buttons[0].title.as_str(),
            ) && same_text(x.buttons[1].title.as_str(), y.buttons[1].title.as_str()) && same_text(
                x.buttons[2].title.as_str(),
                y.buttons[2].title.as_str(),
            );
            proof {
                if prompt_model(*x) == prompt_model(*y) {
                    assert(prompt_model(*x).titles[0] == prompt_model(*y).titles[0]);
                    assert(prompt_model(*x).titles[1] == prompt_model(*y).titles[1]);
                    assert(prompt_model(*x).titles[2] == prompt_model(*y).titles[2]);
                    assert(prompt_model(*x).choices[0] == prompt_model(*y).choices[0]);
                    assert(prompt_model(*x).choices[1] == prompt_model(*y).choices[1]);
                    assert(prompt_model(*x).choices[2] == prompt_model(*y).choices[2]);
                }
                if same {
                    assert(prompt_model(*x).titles =~= prompt_model(*y).titles);
                    assert(prompt_model(*x).choices =~= prompt_model(*y).choices);
                }
            }
            same
        },
        _ => false,
    }
}

impl AppRatingUi {
    pub fn new() -> (ui: Self)
        ensures
            ui@ == (AppRatingModel {
                prompt: None,
                pressed: None,
                focused: 0,
                size: (0, 0),
                dirty: false,
                laid_out: false,
            }),
    {
        AppRatingUi {
            prompt: None,
            pressed: None,
            focused: 0,
            size: (0, 0),
            dirty: false,
            laid_out: false,
        }
    }

    pub closed spec fn inv(&self) -> bool {
        self.focused < 3
    }

    pub fn visible(&self) -> (visible: bool)
        ensures
            visible == self@.prompt.is_some(),
    {
        self.prompt.is_some()
    }

    /// Shows a prompt (or none) at a window size; returns whether the prompt
    /// changed.
    pub fn sync(&mut self, prompt: Option<AppRatingPrompt>, width: u32, height: u32) -> (changed:
        bool)
        requires
            old(self).inv(),
        ensures
            final(self).inv(),
            changed == (old(self)@.prompt != opt_prompt(prompt)),
            final(self)@ == old(self)@.sync(opt_prompt(prompt), width, height),
    {
        let changed = !same_prompt(&self.prompt, &prompt);
        if changed || self.size.0 != width || self.size.1 != height {
            self.pressed = None;
            self.laid_out = false;
            self.dirty = true;
            self.size = (width, height);
        }
        if changed {
            self.focused = 0;
            self.prompt = prompt;
        }
        changed
    }

    /// The pointer moved: the pressed or hovered state may look different.
    pub fn pointer_moved(&mut self)
        ensures
            final(self)@ == (AppRatingModel { dirty: true, ..old(self)@ }),
            final(self).inv() == old(self).inv(),
    {
        self.dirty = true;
    }

    /// Whether the painter's button layout belongs to the current prompt and
    /// size; until it does, nothing is under the pointer.
    pub fn laid_out(&self) -> (laid_out: bool)
        ensures
            laid_out == self@.laid_out,
    {
        self.laid_out
    }

    pub fn press(&mut self, hit: Option<AppRatingChoice>)
        ensures
            final(self)@ == old(self)@.press(hit),
            final(self).inv() == old(self).inv(),
    {
        self.pressed = match (&self.prompt, hit) {
            (Some(p), Some(choice)) => if self.laid_out {
                Some((p.id, choice))
            } else {
                None
            },
            _ => None,
        };
        self.dirty = true;
    }

    pub fn cancel_press(&mut self)
        ensures
            final(self)@ == (AppRatingModel { pressed: None, dirty: true, ..old(self)@ }),
            final(self).inv() == old(self).inv(),
    {
        self.pressed = None;
        self.dirty = true;
    }

    pub fn release(&mut self, hit: Option<AppRatingChoice>) -> (answer: Option<(u64, AppRatingChoice)>)
        ensures
            (final(self)@, answer) == old(self)@.release(hit),
            final(self).inv() == old(self).inv(),
    {
        self.dirty = true;
        let pressed = self.pressed;
        self.pressed = None;
        match pressed {
            Some((id, choice)) => {
                let same_prompt = match &self.prompt {
                    Some(p) => p.id == id,
                    None => false,
                };
                let on_button = match hit {
                    Some(h) => h == choice,
                    None => false,
                };
                if same_prompt && self.laid_out && on_button {
                    Some((id, choice))
                } else {
                    None
                }
            },
            None => None,
        }
    }

    /// Keyboard focus moves through the three buttons and wraps around.
    pub fn focus_next(&mut self, backwards: bool)
        requires
            old(self).inv(),
        ensures
            final(self).inv(),
            final(self)@ == (AppRatingModel {
                focused: (old(self)@.focused + if backwards {
                    2int
                } else {
                    1int
                }) % 3,
                dirty: true,
                ..old(self)@
            }),
    {
        self.focused = (self.focused + if backwards {
            2
        } else {
            1
        }) % 3;
        self.dirty = true;
    }

    pub fn focused_answer(&self) -> (answer: Option<(u64, AppRatingChoice)>)
        requires
            self.inv(),
        ensures
            answer == self@.focused_answer(),
    {
        match &self.prompt {
            Some(p) => Some((p.id, p.buttons[self.focused].choice)),
            None => None,
        }
    }

    /// Whether the overlay is to be painted now: something changed (or the
    /// caller forces it, when another overlay may have covered it), a prompt
    /// is shown, and the window has an area.
    pub fn needs_paint(&self, force: bool) -> (paint: bool)
        ensures
            paint == ((self@.dirty || force) && self@.prompt.is_some() && self@.size.0 != 0
                && self@.size.1 != 0),
    {
        (self.dirty || force) && self.prompt.is_some() && self.size.0 != 0 && self.size.1 != 0
    }

    /// Whether the button at `index` is drawn highlighted: pressed on this
    /// prompt, or focused.
    pub fn highlighted(&self, index: usize) -> (lit: bool)
        requires
            index < 3,
        ensures
            lit == ((self@.prompt matches Some(p) && self@.pressed == Some((p.id, p.choices[index as int])))
                || index == self@.focused),
    {
        let pressed = match &self.prompt {
            Some(p) => match self.pressed {
                Some((id, choice)) => id == p.id && choice == p.buttons[index].choice,
                None => false,
            },
            None => false,
        };
        pressed || index == self.focused
    }

    /// The painter finished a frame with a fresh button layout.
    pub fn painted(&mut self)
        ensures
            final(self)@ == (AppRatingModel { dirty: false, laid_out: true, ..old(self)@ }),
            final(self).inv() == old(self).inv(),
    {
        self.dirty = false;
        self.laid_out = true;
    }
}

/// A press can only answer the prompt it began on, and only with the button
/// it began on: replacing the prompt or resizing the window drops it.
pub proof fn law_press_answers_only_where_it_began(
    m: AppRatingModel,
    prompt: Option<PromptModel>,
    width: u32,
    height: u32,
    hit: Option<AppRatingChoice>,
)
    ensures
        m.release(hit).1 matches Some(answer) ==> m.pressed == Some(answer) && hit == Some(
            answer.1,
        ) && (m.prompt matches Some(p) && p.id == answer.0),
        (m.prompt != prompt || m.size != (width, height)) ==> m.sync(
            prompt,
            width,
            height,
        ).release(hit).1.is_none(),
        m.release(hit).0.pressed.is_none(),
{
}

/// A new prompt always starts with keyboard focus on its first button,
/// whatever was focused before, so Enter on a prompt the user never
/// navigated answers its first choice; the same prompt keeps its focus.
pub proof fn law_new_prompt_focuses_its_first_button(
    m: AppRatingModel,
    prompt: PromptModel,
    width: u32,
    height: u32,
)
    ensures
        m.prompt != Some(prompt) ==> m.sync(Some(prompt), width, height).focused == 0
            && m.sync(Some(prompt), width, height).focused_answer() == Some(
            (prompt.id, prompt.choices[0]),
        ),
        m.prompt == Some(prompt) ==> m.sync(Some(prompt), width, height).focused == m.focused,
{
}

} // verus!
