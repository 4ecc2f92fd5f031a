use vstd::prelude::*;

verus! {

/// One cell of the screen: a UTF-16 code unit and its attribute word.
#[derive(Clone, Copy, PartialEq, Eq, Structural, Debug)]
pub struct CharInfo {
    pub unicode_char: u16,
    pub attributes: u16,
}

/// A block of screen cells, `x` columns by `y` rows, stored row by row.
pub struct TerminalStr {
    x: usize,
    y: usize,
    buf: Vec<CharInfo>,
}

pub struct TerminalStrView {
    pub x: usize,
    pub y: usize,
    pub cells: Seq<CharInfo>,
}

impl View for TerminalStr {
    type V = TerminalStrView;

    closed spec fn view(&self) -> TerminalStrView {
        TerminalStrView { x: self.x, y: self.y, cells: self.buf@ }
    }
}

/// A blank cell.
pub open spec fn blank_cell() -> CharInfo {
    CharInfo { unicode_char: 32, attributes: 0 }
}

/// `Vec::reserve_exact`: room for `additional` more cells; the cells stay. It panics when the
/// room would pass `isize::MAX` bytes (a cell takes four).
#[verifier::external_body]
fn reserve_exact(v: &mut Vec<CharInfo>, additional: usize)
    requires
        old(v)@.len() + additional <= isize::MAX / 4,
    ensures
        final(v)@ == old(v)@,
{
    v.reserve_exact(additional)
}

/// `Vec::shrink_to`: gives back room down to `min_capacity` cells; the cells stay.
#[verifier::external_body]
fn shrink_to(v: &mut Vec<CharInfo>, min_capacity: usize)
    ensures
        final(v)@ == old(v)@,
{
    v.shrink_to(min_capacity)
}

impl TerminalStr {
    /// A block of `x` by `y` that holds one cell: `char`, or a blank.
    pub fn new(x: usize, y: usize, char: Option<CharInfo>) -> (r: TerminalStr)
        ensures
            r@.x == x,
            r@.y == y,
            r@.cells == seq![
                match char {
                    Some(c) => c,
                    None => blank_cell(),
                },
            ],
    {
        let c = match char {
            Some(c) => c,
            None => CharInfo { unicode_char: 32, attributes: 0 },
        };
        let mut buf: Vec<CharInfo> = Vec::new();
        buf.push(c);
        TerminalStr { x, y, buf }
    }

    /// Sets the block to `x` by `y` and makes room for (or gives back the room of) the cells
    /// beyond those stored; a block that already holds `x * y` cells stays as it is.
    pub fn resize(&mut self, x: usize, y: usize)
        requires
            x * y <= isize::MAX / 4,
        ensures
            final(self)@.cells == old(self)@.cells,
            x * y == old(self)@.cells.len() ==> final(self)@.x == old(self)@.x && final(self)@.y
                == old(self)@.y,
            x * y != old(self)@.cells.len() ==> final(self)@.x == x && final(self)@.y == y,
    {
        let want = x * y;
        let have = self.buf.len();
        if want == have {
        } else if want > have {
            reserve_exact(&mut self.buf, want - have);
            self.x = x;
            self.y = y;
        } else {
            shrink_to(&mut self.buf, want);
            self.x = x;
            self.y = y;
        }
    }
}


/// A console input record with its fields as plain values; the fields of the kind that
/// `event_type` names are the ones that count.
#[derive(Clone, Copy, PartialEq, Eq, Structural, Debug)]
pub struct InputRecord {
    pub event_type: u16,
    pub key_down: bool,
    pub repeat_count: u16,
    pub virtual_key_code: u16,
    pub virtual_scan_code: u16,
    pub unicode_char: u16,
    pub key_control_state: u32,
    pub mouse_x: i16,
    pub mouse_y: i16,
    pub button_state: u32,
    pub mouse_control_state: u32,
    pub event_flags: u32,
    pub size_x: i16,
    pub size_y: i16,
    pub command_id: u32,
    pub set_focus: bool,
}

/// An input event of the console.
#[derive(Clone, Copy, PartialEq, Eq, Debug)]
pub enum Event {
    KeyEvent {
        keydown: bool,
        repeat_counter: u16,
        virt_scan_code: u16,
        virt_key_code: u16,
        control_keys: u32,
        as_char: char,
    },
    MouseEvent { pos: (usize, usize), button_state: u32, control_keys: u32, event: u32 },
    ResizeEvent(usize, usize),
    FocusEvent(bool),
    MenuEvent(u32),
}

/// The event kinds a record can name: key 1, mouse 2, buffer size 4, menu 8, focus 16.
pub open spec fn known_event_type(t: u16) -> bool {
    t == 1 || t == 2 || t == 4 || t == 8 || t == 16
}

/// Whether a UTF-16 code unit is a character by itself (no surrogate).
pub open spec fn is_scalar_unit(c: u16) -> bool {
    c < 0xD800 || c > 0xDFFF
}

/// The event that a record describes.
pub open spec fn event_of(r: InputRecord) -> Event {
    if r.event_type == 1 {
        Event::KeyEvent {
            keydown: r.key_down,
            repeat_counter: r.repeat_count,
            virt_scan_code: r.virtual_scan_code,
            virt_key_code: r.virtual_key_code,
            control_keys: r.key_control_state,
            as_char: r.unicode_char as char,
        }
    } else if r.event_type == 2 {
        Event::MouseEvent {
            pos: (r.mouse_x as usize, r.mouse_y as usize),
            button_state: r.button_state,
            control_keys: r.mouse_control_state,
            event: r.event_flags,
        }
    } else if r.event_type == 4 {
        Event::ResizeEvent(r.size_x as usize, r.size_y as usize)
    } else if r.event_type == 8 {
        Event::MenuEvent(r.command_id)
    } else {
        Event::FocusEvent(r.set_focus)
    }
}

/// `char::from_u32`: the character with that number, when there is one (not a surrogate, not
/// past U+10FFFF).
#[verifier::external_body]
fn char_from_u32(c: u32) -> (r: Option<char>)
    ensures
        r is Some <==> (c < 0xD800 || (0xDFFF < c && c <= 0x10FFFF)),
        r matches Some(ch) ==> ch == c as char,
{
    char::from_u32(c)
}

impl Event {
    /// The event that an input record describes. The record must name a known kind, and a key
    /// record a character that stands alone in UTF-16.
    pub fn from_input(value: &InputRecord) -> (r: Event)
        requires
            known_event_type(value.event_type),
            value.event_type == 1 ==> is_scalar_unit(value.unicode_char),
        ensures
            r == event_of(*value),
    {
        if value.event_type == 1 {
            let ch = match char_from_u32(value.unicode_char as u32) {
                Some(c) => c,
                None => {
                    proof {
                        assert(false);
                    }
                    ' '
                },
            };
            Event::KeyEvent {
                keydown: value.key_down,
                repeat_counter: value.repeat_count,
                virt_scan_code: value.virtual_scan_code,
                virt_key_code: value.virtual_key_code,
                control_keys: value.key_control_state,
                as_char: ch,
            }
        } else if value.event_type == 2 {
            Event::MouseEvent {
                pos: (value.mouse_x as usize, value.mouse_y as usize),
                button_state: value.button_state,
                control_keys: value.mouse_control_state,
                event: value.event_flags,
            }
        } else if value.event_type == 4 {
            Event::ResizeEvent(value.size_x as usize, value.size_y as usize)
        } else if value.event_type == 8 {
            Event::MenuEvent(value.command_id)
        } else {
            Event::FocusEvent(value.set_focus)
        }
    }
}

} // verus!
