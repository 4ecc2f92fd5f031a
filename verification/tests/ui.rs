use termseq::color::{Attributes, Color};
use termseq::commands::{Action, Arg, Commands};
use termseq::linux;
use termseq::pages::{PageWidget, SizeType, TermPage, TerminalState, WidgetSize};
use termseq::terminal::{CharInfo, TerminalStr};
use termseq::virtkeys::{VirtualSeq, VirtualSequence};
use termseq::windows::WindowsTerminal;

#[test]
fn commands_errors_and_panics() {
    assert!(Commands::from_string("   \r\n".to_string()).is_err());
    assert!(Commands::panics_on(&"rust x".to_string()));
    assert!(!Commands::panics_on(&"rust -t".to_string()));
    assert!(Commands::from_string("rust ab".to_string()).is_err());
    assert!(Commands::from_string("rust --a=\"open".to_string()).is_err());
    assert!(Commands::panics_on(&"rust --é".to_string()));
    assert!(Commands::panics_on(&"rust --a=".to_string()));
}

#[test]
fn commands_trims_and_keeps_unicode_values() {
    let c = Commands::from_string("  stop --name=\"héllo wörld\"\n".to_string()).unwrap();
    assert!(c.action() == Action::Stop);
    assert!(c.args() == vec![Arg::Inner(("name".to_string(), "héllo wörld".to_string()))]);
    assert_eq!(c.get_arg_inner("name"), Ok(("name".to_string(), "héllo wörld".to_string())));
    assert_eq!(c.get_arg_inner("other"), Err(()));
    let a = &c.args()[0];
    assert_eq!(a.inner().1, "héllo wörld".to_string());
}

#[test]
fn commands_flag_then_value_without_quotes() {
    let c = Commands::from_string("run --x=1 -v".to_string()).unwrap();
    assert!(c.action() == Action::Unknown("run".to_string()));
    assert!(c.args() == vec![Arg::Inner(("x".to_string(), "1".to_string())), Arg::Flag("v".to_string())]);
}

#[test]
fn color_bits() {
    assert!(Attributes::FGRed.is_contained(Attributes::FGRed));
    assert!(!Attributes::FGRed.is_contained(Attributes::BGRed));
    assert_eq!(Attributes::CMLVBUnderscore.as_attr(), 32768);
    assert_eq!(Attributes::BGGreen.as_color().0, 32);
    assert_eq!(Attributes::CMLVBReverse.as_color().0, 0);
    let mut c = Color::black();
    c.set(Color::ID_BG_RED, true);
    assert!(c.get(Color::ID_BG_RED));
    assert!(!c.get(Color::ID_FG_RED));
    assert_eq!(c.as_attr(), 64);
    c.set(Color::ID_BG_RED, false);
    assert_eq!(c.0, 0);
    assert_eq!(Color::fg_white().0, 7);
    assert_eq!(Color::bg_white().0, 112);
}

#[test]
fn widget_sizes() {
    let f = WidgetSize::from_fixed(3, 7);
    assert_eq!(f.get_fixed(), (7, 3));
    let r = WidgetSize::from_ratio(4095, 1);
    assert_eq!(r.get_fixed(), (1, 4095));
    let t = WidgetSize::from_text_field(2, 30, 4);
    assert_eq!(t.get_ratio(), (2, 30));
    assert!(matches!(t.get_type(), SizeType::TextField));
    assert!(matches!(f.get_type(), SizeType::Fixed));
    assert!(matches!(r.get_type(), SizeType::Ratio));
    assert!(matches!(WidgetSize::flex().get_type(), SizeType::Flex));
    assert_eq!(WidgetSize::default().get_fixed(), (0, 0));
    assert_eq!(WidgetSize::flex().get_ratio(), (0, 0));
}

#[test]
fn pages_and_widgets() {
    let mut p = TermPage::new();
    p.add_widget(PageWidget::from_static_str("hi"));
    p.add_widget(PageWidget::from_final_string("fixed".to_string()));
    p.add_widget(PageWidget::from_string("changing".to_string()));
    p.add_widget(PageWidget::text_field("[]".to_string(), 1, 10, 1));
    let s = TerminalState::default();
    assert!(!s.dynamic_view && !s.scroll_view);
}

#[test]
fn terminal_str_blocks() {
    let mut t = TerminalStr::new(3, 2, None);
    t.resize(4, 4);
    t.resize(1, 1);
    let _ = TerminalStr::new(1, 1, Some(CharInfo { unicode_char: 61, attributes: 0 }));
}

#[test]
fn linux_terminal_enables() {
    assert!(linux::Terminal {}.enable().is_ok());
}

fn seq<const M: usize>() -> VirtualSequence<M> {
    VirtualSequence { buf: [0u8; M], len: 0 }
}

fn bytes<const M: usize>(s: &VirtualSequence<M>) -> Vec<u8> {
    s.buf[..s.len].to_vec()
}

#[test]
fn windows_sequences() {
    let w = WindowsTerminal::from_handles(1, 2);
    let mut s = seq::<8>();
    w.cuu(&mut s, 10);
    assert_eq!(bytes(&s), b"\x1b[10A".to_vec());
    let mut s = seq::<8>();
    w.vpa(&mut s, 32767);
    assert_eq!(bytes(&s), b"\x1b[32767d".to_vec());
    let mut s = seq::<14>();
    w.cup(&mut s, 3, 100);
    assert_eq!(bytes(&s), b"\x1b[100;3H".to_vec());
    let mut s = seq::<14>();
    w.hvp(&mut s, 0, 1);
    w.ri(&mut s);
    assert_eq!(bytes(&s), b"\x1b[1;0f\x1bM".to_vec());
    let mut s = seq::<8>();
    w.dectcem(&mut s, true);
    w.decsc(&mut s);
    assert_eq!(bytes(&s), b"\x1b[?25h\x1b7".to_vec());
    let mut s = seq::<8>();
    w.att160(&mut s, false);
    w.decsr(&mut s);
    assert_eq!(bytes(&s), b"\x1b[?12l\x1b8".to_vec());
    for (f, c) in [
        (WindowsTerminal::cud as fn(&WindowsTerminal, &mut VirtualSequence<8>, u16), b'B'),
        (WindowsTerminal::cuf, b'C'),
        (WindowsTerminal::cub, b'D'),
        (WindowsTerminal::cnl, b'E'),
        (WindowsTerminal::cpl, b'F'),
        (WindowsTerminal::cha, b'G'),
        (WindowsTerminal::su, b'S'),
        (WindowsTerminal::sd, b'T'),
        (WindowsTerminal::ich, b'@'),
        (WindowsTerminal::dch, b'P'),
        (WindowsTerminal::ech, b'X'),
        (WindowsTerminal::il, b'L'),
        (WindowsTerminal::dl, b'M'),
    ] {
        let mut s = seq::<8>();
        f(&w, &mut s, 7);
        assert_eq!(bytes(&s), vec![0x1b, b'[', b'7', c]);
    }
}
