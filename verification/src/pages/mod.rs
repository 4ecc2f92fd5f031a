use vstd::prelude::*;

mod pages;

pub use pages::{
    law_size_word_fields, law_size_word_kind, law_text_field_word_fields, size_type_code, size_word, text_field_word, PageWidget, PageWidgetView, SizeType, TermPage,
    WidgetSize, WidgetType, WidgetTypeView,
};

verus! {

/// How the terminal is shown and what input it expects.
pub struct TerminalState {
    pub dynamic_view: bool,
    pub scroll_view: bool,
    pub input: InputState,
}

impl Default for TerminalState {
    fn default() -> (r: Self)
        ensures
            !r.dynamic_view,
            !r.scroll_view,
            r.input == InputState::Basic,
    {
        TerminalState { dynamic_view: false, scroll_view: false, input: InputState::Basic }
    }
}

/// What the terminal reads its input as.
#[derive(Clone, Copy, PartialEq, Eq, Structural)]
pub enum InputState {
    Basic,
    Keyboard,
    NumberField,
    TextField,
    Game,
}

/// The action requested of the terminal.
pub enum TerminalAction {
    Quit,
    Back,
    ChangePage,
}

} // verus!
