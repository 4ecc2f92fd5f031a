use vstd::prelude::*;

mod stuff;

pub mod color;

pub mod commands;

pub mod linux;

pub mod page;

pub mod pages;

pub mod stdio;

pub mod terminal;

pub mod virtkeys;

pub mod virtseq;

pub mod windows;

pub use stuff::{
    blocks_taken, consumed_after, decimal, joined, law_blocks_join, law_decimal_text_is_utf8, law_formatted_text_reads_back,
    law_stack_lifo, popped, returned_pops, stack_after, stored_pushes, lemma_ascii_valid_utf8, signed_decimal, FastForwardFormat, NumberSlice,
    SeqBuf, SeqSlice, Stack,
};

use stdio::StdIo;

verus! {

/// A terminal over the byte channel `T`.
pub struct Terminal<T: StdIo> {
    dynamic_view: bool,
    input: InputState,
    stdio: T,
}

enum InputState {
    Basic,
    Keyboard,
    Text,
}

/// The action requested of the terminal.
enum TerminalAction {
    Quit,
    Back,
    ChangePage,
}

impl<T: StdIo> Terminal<T> {
    /// A terminal over a newly opened channel, with a fixed view and basic input.
    pub fn new() -> (r: std::io::Result<Terminal<T>>)
        ensures
            r matches Ok(t) ==> !t.dynamic_view() && t.basic_input(),
    {
        match T::new_stdio() {
            Ok(stdio) => Ok(Terminal { dynamic_view: false, input: InputState::Basic, stdio }),
            Err(e) => Err(e),
        }
    }

    pub closed spec fn dynamic_view(&self) -> bool {
        self.dynamic_view
    }

    pub closed spec fn basic_input(&self) -> bool {
        self.input is Basic
    }

    /// Reads up to 16 pending input bytes and drops them; `Ok(0)` when none were pending.
    pub fn update_step(&mut self) -> (r: std::io::Result<usize>)
        ensures
            r matches Ok(n) ==> n <= 16,
            final(self).dynamic_view() == old(self).dynamic_view(),
            final(self).basic_input() == old(self).basic_input(),
    {
        let mut buf = [0u8; 16];
        self.stdio.read(&mut buf)
    }

    pub fn render(&self) {
    }

    pub fn render_loop() {
    }
}

/// A terminal family, with the error its operations give.
pub trait TerminalTrait {
    type Error;
}

/// What the footer shows.
pub(crate) enum _Footer {
    Basic,
    Loadbar,
    Keys,
}

impl _Footer {
    /// Where the load bar starts and how wide it is, in a footer `size.0` columns wide: a
    /// quarter of the width, ending one column before the edge.
    pub fn _calc_loadbar(size: (usize, usize)) -> (r: (usize, usize))
        requires
            size.0 > 0,
        ensures
            r.1 == size.0 / 4,
            r.0 == size.0 - size.0 / 4 - 1,
    {
        let loadbar_size = size.0 / 4;
        let loadbar_pos = size.0 - loadbar_size - 1;
        (loadbar_pos, loadbar_size)
    }
}

} // verus!
