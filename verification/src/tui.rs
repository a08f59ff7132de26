//! The state of the terminal interface's components: popups and the line editor.
use vstd::prelude::*;
use vstd::string::StringExecFns;
use vstd::string::StringSliceAdditionalSpecFns;
use crate::text::string_of_chars;

verus! {

/// What a popup is shown for.
#[derive(Clone, Copy, Debug, PartialEq, Eq, Structural)]
pub enum PopupFor {
    UnownedTodos,
}

/// A popup centred in the screen, taking a share of its width and height.
pub struct Popup {
    percent_x: u16,
    percent_y: u16,
}

impl Popup {
    /// A popup taking `percent_x` percent of the width and `percent_y` percent of the
    /// height.
    pub fn new(percent_x: u16, percent_y: u16) -> (r: Self)
        ensures
            r.spec_percent_x() == percent_x,
            r.spec_percent_y() == percent_y,
    {
        Self { percent_x, percent_y }
    }

    pub closed spec fn spec_percent_x(&self) -> u16 {
        self.percent_x
    }

    pub closed spec fn spec_percent_y(&self) -> u16 {
        self.percent_y
    }

    /// The share of the width, in percent.
    pub fn percent_x(&self) -> (r: u16)
        ensures
            r == self.spec_percent_x(),
    {
        self.percent_x
    }

    /// The share of the height, in percent.
    pub fn percent_y(&self) -> (r: u16)
        ensures
            r == self.spec_percent_y(),
    {
        self.percent_y
    }

    /// The rows left empty above content `content_height` rows high in a popup `height`
    /// rows high (border included), so that the content is centred.
    pub fn vertical_padding(height: u16, content_height: u16) -> (r: u16)
        requires
            height >= 2,
            content_height / 2 <= (height - 2) / 2,
        ensures
            r == (height - 2) / 2 - content_height / 2,
    {
        ((height - 2) / 2) - (content_height / 2)
    }
}

/// What an input line is for.
#[derive(Clone, Copy, Debug, PartialEq, Eq, Structural)]
pub enum InputFor {
    Filter,
    Sort,
}

/// The text `v` and cursor `ci` after typing `c`: `c` goes in at the cursor, which moves
/// past it.
pub open spec fn typed(v: Seq<char>, ci: int, c: char) -> (Seq<char>, int) {
    (v.insert(ci, c), ci + 1)
}

/// The text `v` and cursor `ci` after a backspace: the character before the cursor goes,
/// and the cursor moves back onto its place; nothing happens at the start of the line.
pub open spec fn backspaced(v: Seq<char>, ci: int) -> (Seq<char>, int) {
    if ci == 0 {
        (v, 0)
    } else {
        (v.remove(ci - 1), ci - 1)
    }
}

/// A one-line text editor with a prompt.
pub struct Input {
    prompt: String,
    prompt_length: u16,
    input: Vec<char>,
    character_index: usize,
}

impl Input {
    /// The cursor is within the text.
    pub closed spec fn wf(&self) -> bool {
        self.character_index <= self.input@.len()
    }

    /// The prompt shown before the text.
    pub closed spec fn spec_prompt(&self) -> Seq<char> {
        self.prompt@
    }

    /// The width of the prompt: its length in bytes, as a `u16`.
    pub closed spec fn spec_prompt_length(&self) -> u16 {
        self.prompt_length
    }

    /// The text typed so far.
    pub closed spec fn spec_value(&self) -> Seq<char> {
        self.input@
    }

    /// The cursor, as a character position in the text.
    pub closed spec fn spec_cursor(&self) -> int {
        self.character_index as int
    }

    /// An empty editor with prompt `prompt`.
    pub fn new(prompt: String) -> (r: Self)
        ensures
            r.spec_prompt() == prompt@,
            r.spec_prompt_length() == ((vstd::utf8::encode_utf8(prompt@).len() as usize) as u16),
            r.spec_value() == Seq::<char>::empty(),
            r.spec_cursor() == 0,
            r.wf(),
    {
        let n = prompt.as_str().len();
        Self { prompt_length: n as u16, prompt, input: Vec::new(), character_index: 0 }
    }

    /// Moves the cursor one character left, if it is not at the start.
    pub fn move_cursor_left(&mut self)
        requires
            old(self).wf(),
        ensures
            final(self).wf(),
            final(self).spec_value() == old(self).spec_value(),
            final(self).spec_prompt() == old(self).spec_prompt(),
            final(self).spec_prompt_length() == old(self).spec_prompt_length(),
            final(self).spec_cursor() == if old(self).spec_cursor() == 0 {
                0
            } else {
                old(self).spec_cursor() - 1
            },
    {
        let moved = self.character_index.saturating_sub(1);
        self.character_index = self.clamp_cursor(moved);
    }

    /// Moves the cursor one character right, if it is not at the end.
    pub fn move_cursor_right(&mut self)
        requires
            old(self).wf(),
        ensures
            final(self).wf(),
            final(self).spec_value() == old(self).spec_value(),
            final(self).spec_prompt() == old(self).spec_prompt(),
            final(self).spec_prompt_length() == old(self).spec_prompt_length(),
            final(self).spec_cursor() == if old(self).spec_cursor() < old(self).spec_value().len() {
                old(self).spec_cursor() + 1
            } else {
                old(self).spec_cursor()
            },
    {
        let n = self.input.len();
        let moved = self.character_index.saturating_add(1);
        assert(self.character_index < n ==> moved == self.character_index + 1);
        self.character_index = self.clamp_cursor(moved);
    }

    /// Types `new_char` at the cursor (see [`typed`]).
    pub fn enter_char(&mut self, new_char: char)
        requires
            old(self).wf(),
        ensures
            final(self).wf(),
            (final(self).spec_value(), final(self).spec_cursor()) == typed(
                old(self).spec_value(),
                old(self).spec_cursor(),
                new_char,
            ),
            final(self).spec_prompt() == old(self).spec_prompt(),
            final(self).spec_prompt_length() == old(self).spec_prompt_length(),
    {
        let index = self.character_index;
        self.input.insert(index, new_char);
        self.move_cursor_right();
    }

    /// Deletes the character before the cursor (see [`backspaced`]).
    pub fn delete_char(&mut self)
        requires
            old(self).wf(),
        ensures
            final(self).wf(),
            (final(self).spec_value(), final(self).spec_cursor()) == backspaced(
                old(self).spec_value(),
                old(self).spec_cursor(),
            ),
            final(self).spec_prompt() == old(self).spec_prompt(),
            final(self).spec_prompt_length() == old(self).spec_prompt_length(),
    {
        if self.character_index != 0 {
            let current_index = self.character_index;
            self.input.remove(current_index - 1);
            self.character_index = self.clamp_cursor(current_index - 1);
        }
    }

    /// `new_cursor_pos`, kept within the text.
    fn clamp_cursor(&self, new_cursor_pos: usize) -> (r: usize)
        ensures
            r == if new_cursor_pos <= self.input@.len() {
                new_cursor_pos as int
            } else {
                self.input@.len() as int
            },
    {
        if new_cursor_pos <= self.input.len() {
            new_cursor_pos
        } else {
            self.input.len()
        }
    }

    /// Returns the text typed so far and empties the editor.
    pub fn submit(&mut self) -> (r: String)
        requires
            old(self).wf(),
        ensures
            final(self).wf(),
            r@ == old(self).spec_value(),
            final(self).spec_value() == Seq::<char>::empty(),
            final(self).spec_cursor() == 0,
            final(self).spec_prompt() == old(self).spec_prompt(),
            final(self).spec_prompt_length() == old(self).spec_prompt_length(),
    {
        let text = string_of_chars(self.input.as_slice());
        self.input.clear();
        self.character_index = 0;
        text
    }

    /// The text typed so far.
    pub fn value(&self) -> (r: String)
        ensures
            r@ == self.spec_value(),
    {
        string_of_chars(self.input.as_slice())
    }

    /// The cursor's character position in the text.
    pub fn cursor(&self) -> (r: usize)
        requires
            self.wf(),
        ensures
            r == self.spec_cursor(),
            r <= self.spec_value().len(),
    {
        self.character_index
    }

    /// The prompt.
    pub fn prompt(&self) -> (r: &String)
        ensures
            r@ == self.spec_prompt(),
    {
        &self.prompt
    }

    /// The width of the prompt.
    pub fn prompt_length(&self) -> (r: u16)
        ensures
            r == self.spec_prompt_length(),
    {
        self.prompt_length
    }
}

/// Typing a character and deleting it again restores the text and the cursor.
pub proof fn law_backspace_undoes_typing(v: Seq<char>, ci: int, c: char)
    requires
        0 <= ci <= v.len(),
    ensures
        backspaced(typed(v, ci, c).0, typed(v, ci, c).1) == (v, ci),
{
    assert(v.insert(ci, c).remove(ci) =~= v);
}

} // verus!

verus! {

/// A key pressed in the terminal interface.
#[derive(Clone, Copy, Debug, PartialEq, Eq, Structural)]
pub enum Key {
    Char(char),
    Esc,
    Enter,
    Backspace,
    Left,
    Right,
    Up,
    Down,
    Home,
    End,
    Other,
}

/// What the terminal interface does on a key.
#[derive(Clone, Copy, Debug, PartialEq, Eq, Structural)]
pub enum Action {
    /// Close the details of the selected TODO.
    Deselect,
    Exit,
    /// Open the selected TODO in the editor.
    EditSelected,
    SelectNone,
    ImportSelected,
    ImportAll,
    SelectNext,
    SelectPrevious,
    SelectFirst,
    SelectLast,
    /// Show the details of the selected TODO.
    ShowSelected,
    ToggleStatus,
    Refresh,
    /// Open the input line for a filter or a sort.
    OpenInput(InputFor),
    ResetFilter,
    ResetSort,
    /// Hand the input line's text over and close it.
    SubmitInput,
    InsertChar(char),
    DeleteChar,
    CursorLeft,
    CursorRight,
    CloseInput,
    Nothing,
}

/// The action for `key`: with the input line open, the key edits it; otherwise the
/// keyboard shortcuts apply (`q` or `Esc` closes the details where they are shown, and
/// exits otherwise).
pub open spec fn action_for(input_open: bool, details_shown: bool, key: Key) -> Action {
    if input_open {
        match key {
            Key::Enter => Action::SubmitInput,
            Key::Char(c) => Action::InsertChar(c),
            Key::Backspace => Action::DeleteChar,
            Key::Left => Action::CursorLeft,
            Key::Right => Action::CursorRight,
            Key::Esc => Action::CloseInput,
            _ => Action::Nothing,
        }
    } else {
        match key {
            Key::Char('q') | Key::Esc => if details_shown {
                Action::Deselect
            } else {
                Action::Exit
            },
            Key::Char('e') => Action::EditSelected,
            Key::Char('h') | Key::Left => Action::SelectNone,
            Key::Char('i') => Action::ImportSelected,
            Key::Char('I') => Action::ImportAll,
            Key::Char('j') | Key::Down => Action::SelectNext,
            Key::Char('k') | Key::Up => Action::SelectPrevious,
            Key::Char('f') => Action::OpenInput(InputFor::Filter),
            Key::Char('F') => Action::ResetFilter,
            Key::Char('g') | Key::Home => Action::SelectFirst,
            Key::Char('G') | Key::End => Action::SelectLast,
            Key::Enter => Action::ShowSelected,
            Key::Char('l') | Key::Right => Action::ToggleStatus,
            Key::Char('R') => Action::Refresh,
            Key::Char('s') => Action::OpenInput(InputFor::Sort),
            Key::Char('S') => Action::ResetSort,
            _ => Action::Nothing,
        }
    }
}

/// Returns the action for `key` (see [`action_for`]).
pub fn key_action(input_open: bool, details_shown: bool, key: Key) -> (r: Action)
    ensures
        r == action_for(input_open, details_shown, key),
{
    if input_open {
        match key {
            Key::Enter => Action::SubmitInput,
            Key::Char(c) => Action::InsertChar(c),
            Key::Backspace => Action::DeleteChar,
            Key::Left => Action::CursorLeft,
            Key::Right => Action::CursorRight,
            Key::Esc => Action::CloseInput,
            _ => Action::Nothing,
        }
    } else {
        match key {
            Key::Char('q') | Key::Esc => if details_shown {
                Action::Deselect
            } else {
                Action::Exit
            },
            Key::Char('e') => Action::EditSelected,
            Key::Char('h') | Key::Left => Action::SelectNone,
            Key::Char('i') => Action::ImportSelected,
            Key::Char('I') => Action::ImportAll,
            Key::Char('j') | Key::Down => Action::SelectNext,
            Key::Char('k') | Key::Up => Action::SelectPrevious,
            Key::Char('f') => Action::OpenInput(InputFor::Filter),
            Key::Char('F') => Action::ResetFilter,
            Key::Char('g') | Key::Home => Action::SelectFirst,
            Key::Char('G') | Key::End => Action::SelectLast,
            Key::Enter => Action::ShowSelected,
            Key::Char('l') | Key::Right => Action::ToggleStatus,
            Key::Char('R') => Action::Refresh,
            Key::Char('s') => Action::OpenInput(InputFor::Sort),
            Key::Char('S') => Action::ResetSort,
            _ => Action::Nothing,
        }
    }
}

/// The prompt of the input line opened for `input_for`.
pub fn prompt_for(input_for: InputFor) -> (r: String)
    ensures
        r@ == match input_for {
            InputFor::Filter => "filter:"@,
            InputFor::Sort => "sort:"@,
        },
{
    match input_for {
        InputFor::Filter => <String as StringExecFns>::from_str("filter:"),
        InputFor::Sort => <String as StringExecFns>::from_str("sort:"),
    }
}

/// The text typed in the input line is handed to the setting it was opened for.
#[derive(Debug, PartialEq)]
pub enum InputResult {
    SetFilter(String),
    SetSort(String),
}

/// What submitting `text` in the input line opened for `input_for` sets.
pub fn handle_input(input_for: Option<InputFor>, text: String) -> (r: Option<InputResult>)
    ensures
        match input_for {
            Some(InputFor::Filter) => r matches Some(InputResult::SetFilter(t)) && t@ == text@,
            Some(InputFor::Sort) => r matches Some(InputResult::SetSort(t)) && t@ == text@,
            None => r is None,
        },
{
    match input_for {
        Some(InputFor::Filter) => Some(InputResult::SetFilter(text)),
        Some(InputFor::Sort) => Some(InputResult::SetSort(text)),
        None => None,
    }
}

} // verus!

verus! {

/// How a key event came: pressed, held down, or let go.
#[derive(Clone, Copy, Debug, PartialEq, Eq, Structural)]
pub enum KeyKind {
    Press,
    Repeat,
    Release,
}

/// A key event: the key and how it came.
#[derive(Clone, Copy, Debug, PartialEq, Eq, Structural)]
pub struct KeyEvent {
    pub code: Key,
    pub kind: KeyKind,
}

/// The event of pressing `code`.
pub fn press(code: Key) -> (r: KeyEvent)
    ensures
        r == (KeyEvent { code, kind: KeyKind::Press }),
{
    KeyEvent { code, kind: KeyKind::Press }
}

/// The state of the terminal interface that keys change: whether it is to exit, whose
/// details are shown (a position in the list), the message shown, and the input line
/// with what it was opened for.
pub struct TuiState {
    pub should_exit: bool,
    pub details: Option<usize>,
    pub message: Option<String>,
    input: Option<(Input, InputFor)>,
}

/// An open input line as plain values: its text, cursor, purpose, prompt and the
/// prompt's width.
pub struct SpecInput {
    pub text: Seq<char>,
    pub cursor: int,
    pub purpose: InputFor,
    pub prompt: Seq<char>,
    pub prompt_width: u16,
}

/// The state as plain values.
pub struct TuiView {
    pub should_exit: bool,
    pub details: Option<usize>,
    pub message: Option<Seq<char>>,
    pub input: Option<SpecInput>,
}

/// What a key asks of the program around the interface.
#[derive(Debug, PartialEq)]
pub enum Effect {
    Nothing,
    /// An action on the list or the TODOs (selection, editing, importing, refreshing,
    /// resetting the filter or the sort, toggling a status).
    Forward(Action),
    /// The text submitted in the input line, for the filter or the sort.
    Submit(InputResult),
}

/// An [`Effect`] as plain values.
pub enum SpecEffect {
    Nothing,
    Forward(Action),
    SetFilter(Seq<char>),
    SetSort(Seq<char>),
}

/// The effect as plain values.
pub open spec fn effect_view(e: Effect) -> SpecEffect {
    match e {
        Effect::Nothing => SpecEffect::Nothing,
        Effect::Forward(a) => SpecEffect::Forward(a),
        Effect::Submit(InputResult::SetFilter(t)) => SpecEffect::SetFilter(t@),
        Effect::Submit(InputResult::SetSort(t)) => SpecEffect::SetSort(t@),
    }
}

/// The prompt of the input line opened for `f`.
pub open spec fn prompt_text(f: InputFor) -> Seq<char> {
    match f {
        InputFor::Filter => "filter:"@,
        InputFor::Sort => "sort:"@,
    }
}

/// The input line just opened for `f`: empty, with its prompt.
pub open spec fn opened_input(f: InputFor) -> SpecInput {
    SpecInput {
        text: Seq::empty(),
        cursor: 0,
        purpose: f,
        prompt: prompt_text(f),
        prompt_width: ((vstd::utf8::encode_utf8(prompt_text(f)).len() as usize) as u16),
    }
}

/// The state and effect after the key event `key`, `selection` being the list's
/// selection. Only a pressed key counts: one held down or let go changes nothing. A
/// pressed key clears the message. With the input line closed, `q`/`Esc` closes the
/// details or else exits, `Enter` shows the details of the selection, `f`/`s` open the
/// input line for the filter or the sort, and the other shortcuts go to the program.
/// With it open, keys edit it, `Enter` submits its text and closes it, and `Esc` closes
/// it.
pub open spec fn step_view(v: TuiView, key: KeyEvent, selection: Option<usize>) -> (TuiView, SpecEffect) {
    let cleared = TuiView { message: None, ..v };
    if key.kind != KeyKind::Press {
        (v, SpecEffect::Nothing)
    } else {
        match v.input {
            None => match action_for(false, v.details is Some, key.code) {
                Action::Deselect => (TuiView { details: None, ..cleared }, SpecEffect::Nothing),
                Action::Exit => (TuiView { should_exit: true, ..cleared }, SpecEffect::Nothing),
                Action::ShowSelected => (TuiView { details: selection, ..cleared }, SpecEffect::Nothing),
                Action::OpenInput(f) => (
                    TuiView { input: Some(opened_input(f)), ..cleared },
                    SpecEffect::Nothing,
                ),
                Action::Nothing => (cleared, SpecEffect::Nothing),
                a => (cleared, SpecEffect::Forward(a)),
            },
            Some(i) => match action_for(true, v.details is Some, key.code) {
                Action::SubmitInput => (
                    TuiView { input: None, ..cleared },
                    match i.purpose {
                        InputFor::Filter => SpecEffect::SetFilter(i.text),
                        InputFor::Sort => SpecEffect::SetSort(i.text),
                    },
                ),
                Action::InsertChar(c) => (
                    TuiView {
                        input: Some(
                            SpecInput {
                                text: typed(i.text, i.cursor, c).0,
                                cursor: typed(i.text, i.cursor, c).1,
                                ..i
                            },
                        ),
                        ..cleared
                    },
                    SpecEffect::Nothing,
                ),
                Action::DeleteChar => (
                    TuiView {
                        input: Some(
                            SpecInput {
                                text: backspaced(i.text, i.cursor).0,
                                cursor: backspaced(i.text, i.cursor).1,
                                ..i
                            },
                        ),
                        ..cleared
                    },
                    SpecEffect::Nothing,
                ),
                Action::CursorLeft => (
                    TuiView {
                        input: Some(
                            SpecInput {
                                cursor: if i.cursor == 0 {
                                    0
                                } else {
                                    i.cursor - 1
                                },
                                ..i
                            },
                        ),
                        ..cleared
                    },
                    SpecEffect::Nothing,
                ),
                Action::CursorRight => (
                    TuiView {
                        input: Some(
                            SpecInput {
                                cursor: if i.cursor < i.text.len() {
                                    i.cursor + 1
                                } else {
                                    i.cursor
                                },
                                ..i
                            },
                        ),
                        ..cleared
                    },
                    SpecEffect::Nothing,
                ),
                Action::CloseInput => (TuiView { input: None, ..cleared }, SpecEffect::Nothing),
                _ => (cleared, SpecEffect::Nothing),
            },
        }
    }
}

impl TuiState {
    /// The input line, if open, is well formed and shows the prompt of its purpose.
    pub closed spec fn wf(&self) -> bool {
        match self.input {
            Some((i, f)) => i.wf() && i.spec_prompt() == prompt_text(f),
            None => true,
        }
    }

    /// The state as plain values.
    pub closed spec fn view(&self) -> TuiView {
        TuiView {
            should_exit: self.should_exit,
            details: self.details,
            message: match self.message {
                Some(m) => Some(m@),
                None => None,
            },
            input: match self.input {
                Some((i, f)) => Some(
                    SpecInput {
                        text: i.spec_value(),
                        cursor: i.spec_cursor(),
                        purpose: f,
                        prompt: i.spec_prompt(),
                        prompt_width: i.spec_prompt_length(),
                    },
                ),
                None => None,
            },
        }
    }

    /// The state on start: running, no details shown, no message, the input line closed.
    pub fn new() -> (r: Self)
        ensures
            r.wf(),
            r.view() == (TuiView { should_exit: false, details: None, message: None, input: None }),
    {
        TuiState { should_exit: false, details: None, message: None, input: None }
    }

    /// The prompt of the open input line, if there is one.
    pub fn input_prompt(&self) -> (r: Option<&String>)
        requires
            self.wf(),
        ensures
            match self.view().input {
                Some(i) => r matches Some(p) && p@ == i.prompt && p@ == prompt_text(i.purpose),
                None => r is None,
            },
    {
        match &self.input {
            Some((i, _)) => Some(i.prompt()),
            None => None,
        }
    }

    /// The state and effect after the key event `key` (see [`step_view`]).
    pub fn handle_key(self, key: KeyEvent, selection: Option<usize>) -> (r: (TuiState, Effect))
        requires
            self.wf(),
        ensures
            r.0.wf(),
            (r.0.view(), effect_view(r.1)) == step_view(self.view(), key, selection),
    {
        if key.kind != KeyKind::Press {
            return (self, Effect::Nothing);
        }
        let key = key.code;
        let TuiState { should_exit, details, message: _, input } = self;
        match input {
            None => {
                let a = key_action(false, details.is_some(), key);
                match a {
                    Action::Deselect => (TuiState { should_exit, details: None, message: None, input: None }, Effect::Nothing),
                    Action::Exit => (TuiState { should_exit: true, details, message: None, input: None }, Effect::Nothing),
                    Action::ShowSelected => (TuiState { should_exit, details: selection, message: None, input: None }, Effect::Nothing),
                    Action::OpenInput(f) => {
                        let i = Input::new(prompt_for(f));
                        (TuiState { should_exit, details, message: None, input: Some((i, f)) }, Effect::Nothing)
                    },
                    Action::Nothing => (TuiState { should_exit, details, message: None, input: None }, Effect::Nothing),
                    _ => (TuiState { should_exit, details, message: None, input: None }, Effect::Forward(a)),
                }
            },
            Some((i, f)) => {
                let mut i = i;
                let a = key_action(true, details.is_some(), key);
                match a {
                    Action::SubmitInput => {
                        let text = i.submit();
                        let effect = match f {
                            InputFor::Filter => Effect::Submit(InputResult::SetFilter(text)),
                            InputFor::Sort => Effect::Submit(InputResult::SetSort(text)),
                        };
                        (TuiState { should_exit, details, message: None, input: None }, effect)
                    },
                    Action::CloseInput => (TuiState { should_exit, details, message: None, input: None }, Effect::Nothing),
                    Action::InsertChar(c) => {
                        i.enter_char(c);
                        (TuiState { should_exit, details, message: None, input: Some((i, f)) }, Effect::Nothing)
                    },
                    Action::DeleteChar => {
                        i.delete_char();
                        (TuiState { should_exit, details, message: None, input: Some((i, f)) }, Effect::Nothing)
                    },
                    Action::CursorLeft => {
                        i.move_cursor_left();
                        (TuiState { should_exit, details, message: None, input: Some((i, f)) }, Effect::Nothing)
                    },
                    Action::CursorRight => {
                        i.move_cursor_right();
                        (TuiState { should_exit, details, message: None, input: Some((i, f)) }, Effect::Nothing)
                    },
                    _ => (TuiState { should_exit, details, message: None, input: Some((i, f)) }, Effect::Nothing),
                }
            },
        }
    }
}

} // verus!

verus! {

/// A key that is held down or let go, rather than pressed, changes nothing: not even
/// the message.
pub proof fn law_only_pressed_keys_count(v: TuiView, key: KeyEvent, selection: Option<usize>)
    requires
        key.kind != KeyKind::Press,
    ensures
        step_view(v, key, selection) == (v, SpecEffect::Nothing),
{
}

/// Opening the input line for the filter or the sort and closing it with `Esc` leaves
/// the state as it was, but for the message, which every pressed key clears.
pub proof fn law_closing_the_input_undoes_opening(v: TuiView, opener: char, selection: Option<usize>)
    requires
        v.input is None,
        opener == 'f' || opener == 's',
    ensures
        step_view(
            step_view(v, KeyEvent { code: Key::Char(opener), kind: KeyKind::Press }, selection).0,
            KeyEvent { code: Key::Esc, kind: KeyKind::Press },
            selection,
        ) == (TuiView { message: None, ..v }, SpecEffect::Nothing),
{
}

/// Submitting the input line hands over exactly the text typed into it, for the
/// setting it was opened for, and closes it.
pub proof fn law_submit_hands_over_typed_text(v: TuiView, i: SpecInput, selection: Option<usize>)
    requires
        v.input == Some(i),
    ensures
        step_view(v, KeyEvent { code: Key::Enter, kind: KeyKind::Press }, selection) == (
            TuiView { message: None, input: None, ..v },
            match i.purpose {
                InputFor::Filter => SpecEffect::SetFilter(i.text),
                InputFor::Sort => SpecEffect::SetSort(i.text),
            },
        ),
{
}

} // verus!
