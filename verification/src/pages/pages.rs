use vstd::prelude::*;

verus! {

/// A page: the widgets shown on it, in order.
pub struct TermPage {
    content: Vec<PageWidget>,
}

/// What a widget shows.
pub enum WidgetType {
    Line {
        len: usize,
        /// bit 0: aligned left, or to both sides
        bitfield: u8,
    },
    /// A text box whose content is known when the program is built.
    StaticTextbox(&'static str),
    /// A text box whose content is computed at run time.
    RuntimeTextbox(Box<str>),
    /// A text box whose content changes at run time.
    MutableTextbox(String),
    /// A text field; its greatest length is set by the widget's size.
    TextField(String),
    /// The current number and its bounds.
    NumberField { num: usize, min_bound: usize, max_bound: usize },
}

pub enum WidgetTypeView {
    Line { len: usize, bitfield: u8 },
    StaticTextbox(Seq<char>),
    RuntimeTextbox(Seq<char>),
    MutableTextbox(Seq<char>),
    TextField(Seq<char>),
    NumberField { num: usize, min_bound: usize, max_bound: usize },
}

impl View for WidgetType {
    type V = WidgetTypeView;

    open spec fn view(&self) -> WidgetTypeView {
        match self {
            WidgetType::Line { len, bitfield } => WidgetTypeView::Line { len: *len, bitfield: *bitfield },
            WidgetType::StaticTextbox(s) => WidgetTypeView::StaticTextbox(s@),
            WidgetType::RuntimeTextbox(s) => WidgetTypeView::RuntimeTextbox(s@),
            WidgetType::MutableTextbox(s) => WidgetTypeView::MutableTextbox(s@),
            WidgetType::TextField(s) => WidgetTypeView::TextField(s@),
            WidgetType::NumberField { num, min_bound, max_bound } => WidgetTypeView::NumberField {
                num: *num,
                min_bound: *min_bound,
                max_bound: *max_bound,
            },
        }
    }
}

/// How a widget is sized, packed into one word.
pub struct WidgetSize(u32);

impl View for WidgetSize {
    type V = u32;

    closed spec fn view(&self) -> u32 {
        self.0
    }
}

/// The kinds of widget size.
pub enum SizeType {
    Flex,
    /// Width to height
    Ratio,
    Fixed,
    TextField,
}

/// The number of a size kind in the packed word.
pub open spec fn size_type_code(t: SizeType) -> u32 {
    match t {
        SizeType::Flex => 0,
        SizeType::Ratio => 1,
        SizeType::Fixed => 2,
        SizeType::TextField => 3,
    }
}

/// A widget: its kind, its size, its top-left corner and its extent.
pub struct PageWidget {
    widget_type: WidgetType,
    size_config: WidgetSize,
    corner: (u16, u16),
    size: (u16, u16),
}

pub struct PageWidgetView {
    pub widget_type: WidgetTypeView,
    pub size_config: u32,
    pub corner: (u16, u16),
    pub size: (u16, u16),
}

impl View for PageWidget {
    type V = PageWidgetView;

    closed spec fn view(&self) -> PageWidgetView {
        PageWidgetView {
            widget_type: self.widget_type@,
            size_config: self.size_config@,
            corner: self.corner,
            size: self.size,
        }
    }
}

impl View for TermPage {
    type V = Seq<PageWidgetView>;

    closed spec fn view(&self) -> Seq<PageWidgetView> {
        self.content@.map_values(|w: PageWidget| w@)
    }
}

impl TermPage {
    /// A page without widgets.
    pub fn new() -> (r: TermPage)
        ensures
            r@ == Seq::<PageWidgetView>::empty(),
    {
        let r = TermPage { content: Vec::new() };
        assert(r@ =~= Seq::<PageWidgetView>::empty());
        r
    }

    /// Adds `widget` after the others.
    pub fn add_widget(&mut self, widget: PageWidget)
        ensures
            final(self)@ == old(self)@.push(widget@),
    {
        self.content.push(widget);
        assert(self@ =~= old(self)@.push(widget@));
    }
}

/// `String::into_boxed_str`: the same text, boxed.
#[verifier::external_body]
fn boxed_str(s: String) -> (b: Box<str>)
    ensures
        b@ == s@,
{
    s.into_boxed_str()
}

impl PageWidget {
    /// A text box that shows `str`, flexibly sized, at the top-left corner.
    pub fn from_static_str(str: &'static str) -> (r: PageWidget)
        ensures
            r@ == (PageWidgetView {
                widget_type: WidgetTypeView::StaticTextbox(str@),
                size_config: 0,
                corner: (0, 0),
                size: (0, 0),
            }),
    {
        PageWidget {
            widget_type: WidgetType::StaticTextbox(str),
            size_config: WidgetSize::default(),
            corner: (0, 0),
            size: (0, 0),
        }
    }

    /// A text box that shows `string`, fixed from now on.
    pub fn from_final_string(string: String) -> (r: PageWidget)
        ensures
            r@ == (PageWidgetView {
                widget_type: WidgetTypeView::RuntimeTextbox(string@),
                size_config: 0,
                corner: (0, 0),
                size: (0, 0),
            }),
    {
        PageWidget {
            widget_type: WidgetType::RuntimeTextbox(boxed_str(string)),
            size_config: WidgetSize::default(),
            corner: (0, 0),
            size: (0, 0),
        }
    }

    /// A text box that shows `string`, which may change.
    pub fn from_string(string: String) -> (r: PageWidget)
        ensures
            r@ == (PageWidgetView {
                widget_type: WidgetTypeView::MutableTextbox(string@),
                size_config: 0,
                corner: (0, 0),
                size: (0, 0),
            }),
    {
        PageWidget {
            widget_type: WidgetType::MutableTextbox(string),
            size_config: WidgetSize::default(),
            corner: (0, 0),
            size: (0, 0),
        }
    }

    /// An empty text field of at most `max_size` characters between a prefix and a suffix;
    /// `string` holds the prefix and the suffix, `prefix + suffix` bytes.
    pub fn text_field(string: String, prefix: u8, max_size: u8, suffix: u8) -> (r: PageWidget)
        requires
            vstd::utf8::encode_utf8(string@).len() == prefix + suffix,
        ensures
            r@ == (PageWidgetView {
                widget_type: WidgetTypeView::TextField(Seq::empty()),
                size_config: text_field_word(prefix, max_size, suffix),
                corner: (0, 0),
                size: (0, 0),
            }),
    {
        PageWidget {
            widget_type: WidgetType::TextField(String::new()),
            size_config: WidgetSize::from_text_field(prefix, max_size, suffix),
            corner: (0, 0),
            size: (0, 0),
        }
    }
}

/// The word of a text-field size: the prefix, the greatest length and the suffix, one byte
/// each from the lowest, and the kind in the top byte.
pub open spec fn text_field_word(prefix: u8, max_size: u8, suffix: u8) -> u32 {
    (prefix + max_size * 256 + suffix * 65536 + 3 * 16777216) as u32
}

/// The word of a ratio or fixed size: the kind in the top byte, `x` in bits 12..24, `y` in
/// bits 0..12.
pub open spec fn size_word(kind: SizeType, x: u16, y: u16) -> u32 {
    (size_type_code(kind) * 16777216 + x * 4096 + y) as u32
}

/// The numbers of a ratio or fixed size read back from its word, the second first: the low
/// twelve bits hold `y`, the next twelve `x`.
pub proof fn law_size_word_fields(kind: SizeType, x: u16, y: u16)
    requires
        x <= 4095,
        y <= 4095,
    ensures
        (size_word(kind, x, y) % 4096) as u16 == y,
        ((size_word(kind, x, y) / 4096) % 4096) as u16 == x,
{
    let k = size_type_code(kind);
    assert(k <= 3);
    let w: int = k * 16777216 + x * 4096 + y;
    assert(w < 0x1_0000_0000);
    assert(size_word(kind, x, y) == w);
    assert(w % 4096 == y && (w / 4096) % 4096 == x) by (nonlinear_arith)
        requires
            w == k * 16777216 + x * 4096 + y,
            0 <= x <= 4095,
            0 <= y <= 4095,
            0 <= k <= 3,
    ;
}

/// A text-field size reads back its kind from the top byte, and its prefix and greatest
/// length from the two lowest bytes.
pub proof fn law_text_field_word_fields(prefix: u8, max_size: u8, suffix: u8)
    ensures
        text_field_word(prefix, max_size, suffix) / 16777216 == size_type_code(SizeType::TextField),
        text_field_word(prefix, max_size, suffix) % 256 == prefix,
        (text_field_word(prefix, max_size, suffix) / 256) % 256 == max_size,
{
    let w: int = prefix + max_size * 256 + suffix * 65536 + 3 * 16777216;
    assert(w < 0x1_0000_0000);
    assert(text_field_word(prefix, max_size, suffix) == w);
    assert(w / 16777216 == 3 && w % 256 == prefix && (w / 256) % 256 == max_size) by (nonlinear_arith)
        requires
            w == prefix + max_size * 256 + suffix * 65536 + 3 * 16777216,
            0 <= prefix <= 255,
            0 <= max_size <= 255,
            0 <= suffix <= 255,
    ;
}

/// A ratio or fixed size reads back its kind from the top byte.
pub proof fn law_size_word_kind(kind: SizeType, x: u16, y: u16)
    requires
        x <= 4095,
        y <= 4095,
    ensures
        size_word(kind, x, y) / 16777216 == size_type_code(kind),
{
    let k = size_type_code(kind);
    let w: int = k * 16777216 + x * 4096 + y;
    assert(size_word(kind, x, y) == w);
    assert(w / 16777216 == k) by (nonlinear_arith)
        requires
            w == k * 16777216 + x * 4096 + y,
            0 <= x <= 4095,
            0 <= y <= 4095,
            0 <= k <= 3,
    ;
}

impl WidgetSize {
    pub const U12MAX: u16 = 4095;

    pub fn default() -> (r: WidgetSize)
        ensures
            r@ == 0,
    {
        WidgetSize::flex()
    }

    /// A size that follows the content.
    pub fn flex() -> (r: WidgetSize)
        ensures
            r@ == 0,
    {
        WidgetSize(0)
    }

    pub fn from_text_field(prefix: u8, max_size: u8, suffix: u8) -> (r: WidgetSize)
        ensures
            r@ == text_field_word(prefix, max_size, suffix),
    {
        WidgetSize((prefix as u32) + (max_size as u32) * 256 + (suffix as u32) * 65536 + 3u32
            * 16777216)
    }

    /// The kind of size, from the top byte of the word; the top byte must name one.
    pub fn get_type(&self) -> (r: SizeType)
        requires
            self@ / 16777216 <= 3,
        ensures
            size_type_code(r) == self@ / 16777216,
    {
        let t = self.0 / 16777216;
        if t == 0 {
            SizeType::Flex
        } else if t == 1 {
            SizeType::Ratio
        } else if t == 2 {
            SizeType::Fixed
        } else {
            SizeType::TextField
        }
    }

    /// A size as the ratio of width `x` to height `y`, each at most [`Self::U12MAX`].
    pub fn from_ratio(x: u16, y: u16) -> (r: WidgetSize)
        requires
            x <= Self::U12MAX,
            y <= Self::U12MAX,
        ensures
            r@ == size_word(SizeType::Ratio, x, y),
    {
        let w = (1u32 << 24u32) | ((x as u32) << 12u32) | (y as u32);
        assert(w == 16777216 + x * 4096 + y) by (bit_vector)
            requires
                w == (1u32 << 24u32) | ((x as u32) << 12u32) | (y as u32),
                x <= 4095,
                y <= 4095,
        ;
        WidgetSize(w)
    }

    /// A fixed size of `x` by `y`, each at most [`Self::U12MAX`].
    pub fn from_fixed(x: u16, y: u16) -> (r: WidgetSize)
        requires
            x <= Self::U12MAX,
            y <= Self::U12MAX,
        ensures
            r@ == size_word(SizeType::Fixed, x, y),
    {
        let w = (2u32 << 24u32) | ((x as u32) << 12u32) | (y as u32);
        assert(w == 2 * 16777216 + x * 4096 + y) by (bit_vector)
            requires
                w == (2u32 << 24u32) | ((x as u32) << 12u32) | (y as u32),
                x <= 4095,
                y <= 4095,
        ;
        WidgetSize(w)
    }

    /// The two lowest bytes of the word.
    pub fn get_ratio(&self) -> (r: (u8, u8))
        ensures
            r == ((self@ % 256) as u8, ((self@ / 256) % 256) as u8),
    {
        let v = self.0;
        ((v % 256) as u8, ((v / 256) % 256) as u8)
    }

    /// The bits 0..12 and 12..24 of the word.
    pub fn get_fixed(&self) -> (r: (u16, u16))
        ensures
            r == ((self@ % 4096) as u16, ((self@ / 4096) % 4096) as u16),
    {
        let num = self.0;
        let a = (num as u16) & Self::U12MAX;
        let b = ((num >> 12u32) as u16) & Self::U12MAX;
        assert(a == num % 4096) by (bit_vector)
            requires
                a == (num as u16) & 4095u16,
        ;
        assert(b == (num / 4096) % 4096) by (bit_vector)
            requires
                b == ((num >> 12u32) as u16) & 4095u16,
        ;
        (a, b)
    }
}

} // verus!
