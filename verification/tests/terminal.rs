use termseq::stdio::{IoType, StdIo};
use termseq::terminal::Event;
use termseq::Terminal;

struct NullIo;

impl StdIo for NullIo {
    fn new_stdio() -> std::io::Result<Self> {
        Ok(NullIo)
    }
    fn io_type() -> IoType {
        IoType::Synchronous
    }
    fn write_all(&mut self, _buf: &[u8]) -> std::io::Result<()> {
        Ok(())
    }
    fn read(&mut self, _buf: &mut [u8]) -> std::io::Result<usize> {
        Ok(0)
    }
}

#[test]
fn try_vis() {}

#[test]
fn terminal_update_step_reads_nothing() {
    let mut t: Terminal<NullIo> = Terminal::new().unwrap();
    assert_eq!(t.update_step().unwrap(), 0);
    t.render();
    Terminal::<NullIo>::render_loop();
}

fn record(event_type: u16) -> termseq::terminal::InputRecord {
    termseq::terminal::InputRecord {
        event_type,
        key_down: true,
        repeat_count: 2,
        virtual_key_code: 0x41,
        virtual_scan_code: 30,
        unicode_char: 'a' as u16,
        key_control_state: 8,
        mouse_x: 5,
        mouse_y: 7,
        button_state: 1,
        mouse_control_state: 16,
        event_flags: 2,
        size_x: 120,
        size_y: 40,
        command_id: 99,
        set_focus: true,
    }
}

#[test]
fn input_records_become_events() {
    assert_eq!(
        Event::from_input(&record(1)),
        Event::KeyEvent {
            keydown: true,
            repeat_counter: 2,
            virt_scan_code: 30,
            virt_key_code: 0x41,
            control_keys: 8,
            as_char: 'a',
        }
    );
    assert_eq!(
        Event::from_input(&record(2)),
        Event::MouseEvent { pos: (5, 7), button_state: 1, control_keys: 16, event: 2 }
    );
    assert_eq!(Event::from_input(&record(4)), Event::ResizeEvent(120, 40));
    assert_eq!(Event::from_input(&record(8)), Event::MenuEvent(99));
    assert_eq!(Event::from_input(&record(16)), Event::FocusEvent(true));
    let mut k = record(1);
    k.unicode_char = 0xE9;
    assert!(matches!(Event::from_input(&k), Event::KeyEvent { as_char: '\u{e9}', .. }));
}
