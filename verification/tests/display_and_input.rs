//! Tests for the display writer, the layout conversion, the scan-code
//! decoding path, the PCI classification, and the boot sequencing.

use playground_os_rust::init;
use playground_os_rust::interrupts::Pics;
use playground_os_rust::interrupts::PIC_1_OFFSET;
use playground_os_rust::interrupts::PIC_2_OFFSET;
use playground_os_rust::key_conversion::keymap_de;
use playground_os_rust::key_conversion::keymap_us;
use playground_os_rust::key_conversion::KeyConversionLayout;
use playground_os_rust::pci::check_all_pci_devices;
use playground_os_rust::pci::check_device;
use playground_os_rust::pci::detect_pci_compat_bios;
use playground_os_rust::pci::extract_config_word;
use playground_os_rust::pci::pci_config_address;
use playground_os_rust::pci::PciProbe;
use playground_os_rust::task::executor::InterruptFlag;
use playground_os_rust::task::keyboard::handle_decoded;
use playground_os_rust::task::keyboard::keyboard_new;
use playground_os_rust::task::keyboard::process_scancode;
use playground_os_rust::task::keyboard::KeyOutput;
use playground_os_rust::task::keyboard::OutputAction;
use playground_os_rust::vga_buffer::Buffer;
use playground_os_rust::vga_buffer::Color;
use playground_os_rust::vga_buffer::ColorCode;
use playground_os_rust::vga_buffer::VGAChar;
use playground_os_rust::vga_buffer::Writer;
use playground_os_rust::vga_buffer::BUFFER_HEIGHT;
use playground_os_rust::vga_buffer::BUFFER_WIDTH;
use playground_os_rust::test_runner;
use playground_os_rust::QemuExitCode;
use playground_os_rust::Testable;
use std::cell::Cell;

fn fresh_writer() -> Writer {
    let color = ColorCode::new(Color::White, Color::Black);
    let blank = VGAChar { ascii_character: 0, color_code: color };
    Writer::new(0, color, Buffer::filled(blank))
}

fn cell(w: &Writer, y: usize, x: usize) -> VGAChar {
    w.buffer.chars[y][x]
}

#[test]
fn color_codes_pack_background_high() {
    assert_eq!(ColorCode::new(Color::White, Color::Black).0, 15);
    assert_eq!(ColorCode::new(Color::Black, Color::White).0, 0xF0);
    assert_eq!(ColorCode::new(Color::Yellow, Color::Blue).0, 0x1E);
}

#[test]
fn written_bytes_land_on_the_bottom_line() {
    let mut w = fresh_writer();
    w.write_byte(b'H');
    w.write_byte(b'i');
    assert_eq!(cell(&w, BUFFER_HEIGHT - 1, 0).ascii_character, b'H');
    assert_eq!(cell(&w, BUFFER_HEIGHT - 1, 1).ascii_character, b'i');
    assert_eq!(w.get_column_position(), 2);
}

#[test]
fn printed_exists() {
    let mut w = fresh_writer();
    let s = "A string that fits within one line";
    w.write_byte(b'\n');
    w.write_string(s);
    for (i, c) in s.chars().enumerate() {
        assert_eq!(cell(&w, BUFFER_HEIGHT - 1, i).ascii_character, c as u8);
    }
}

#[test]
fn line_break_scrolls_up() {
    let mut w = fresh_writer();
    w.write_string("abc\n");
    assert_eq!(cell(&w, BUFFER_HEIGHT - 2, 0).ascii_character, b'a');
    assert_eq!(cell(&w, BUFFER_HEIGHT - 2, 2).ascii_character, b'c');
    assert_eq!(cell(&w, BUFFER_HEIGHT - 1, 0).ascii_character, 0);
    assert_eq!(w.get_column_position(), 0);
}

#[test]
fn long_lines_wrap() {
    let mut w = fresh_writer();
    for _ in 0..BUFFER_WIDTH {
        w.write_byte(b'x');
    }
    w.write_byte(b'y');
    assert_eq!(cell(&w, BUFFER_HEIGHT - 2, BUFFER_WIDTH - 1).ascii_character, b'x');
    assert_eq!(cell(&w, BUFFER_HEIGHT - 1, 0).ascii_character, b'y');
    assert_eq!(w.get_column_position(), 1);
}

#[test]
fn unprintable_bytes_show_replacement_glyph() {
    let mut w = fresh_writer();
    w.write_string("\u{1}");
    assert_eq!(cell(&w, BUFFER_HEIGHT - 1, 0).ascii_character, 0xfe);
}

#[test]
fn write_line_appends_a_break() {
    let mut w = fresh_writer();
    w.write_line("ok");
    assert_eq!(cell(&w, BUFFER_HEIGHT - 2, 0).ascii_character, b'o');
    assert_eq!(cell(&w, BUFFER_HEIGHT - 2, 1).ascii_character, b'k');
    assert_eq!(w.get_column_position(), 0);
}

#[test]
fn backspace_erases_the_previous_character() {
    let mut w = fresh_writer();
    w.write_string("ab");
    w.backspace(0);
    assert_eq!(cell(&w, BUFFER_HEIGHT - 1, 0).ascii_character, b'a');
    assert_eq!(cell(&w, BUFFER_HEIGHT - 1, 1).ascii_character, 0);
    assert!(w.get_column_position() < BUFFER_WIDTH);
}

#[test]
fn backspace_rolls_the_screen_back_down() {
    let mut w = fresh_writer();
    w.write_string("abc\n");
    // the cursor sits at the left margin of a blank line: erasing steps
    // back into the scrolled-off line
    w.backspace(0);
    assert_eq!(cell(&w, BUFFER_HEIGHT - 1, 0).ascii_character, b'a');
    assert!(w.get_column_position() < BUFFER_WIDTH);
}

#[test]
fn column_position_accessors() {
    let mut w = fresh_writer();
    w.set_column_position(17);
    assert_eq!(w.get_column_position(), 17);
}

#[test]
fn init_clears_the_screen() {
    let mut w = fresh_writer();
    w.write_string("leftover text\nand more");
    let mut pics = Pics::new(PIC_1_OFFSET, PIC_2_OFFSET);
    let mut interrupts = InterruptFlag::new(false);
    let table = init(&mut w, &mut pics, &mut interrupts);
    for y in 0..BUFFER_HEIGHT {
        for x in 0..BUFFER_WIDTH {
            assert_eq!(cell(&w, y, x).ascii_character, 0);
        }
    }
    assert_eq!(w.get_column_position(), BUFFER_WIDTH, "the clearing pass ends at the margin");
    assert!(table.loaded);
    assert!(pics.initialized);
    assert!(interrupts.enabled);
}

#[test]
fn german_layout_converts_punctuation() {
    let de = keymap_de();
    assert_eq!(de.convert_char('~'), '°');
    assert_eq!(de.convert_char('@'), '"');
    assert_eq!(de.convert_char('-'), 'ß');
    assert_eq!(de.convert_char('_'), '?');
    assert_eq!(de.convert_char('a'), 'a', "unmapped characters pass through");
}

#[test]
fn us_layout_is_identity() {
    let us = keymap_us();
    assert_eq!(us.convert_char('a'), 'a');
    assert_eq!(us.convert_char('~'), '~');
}

#[test]
fn decoded_characters_follow_the_layout() {
    let us = keymap_us();
    match handle_decoded(KeyOutput::Unicode('a'), &us) {
        OutputAction::PrintChar(c) => assert_eq!(c, 'a'),
        _ => panic!("a plain character prints"),
    }
    let erasing = KeyConversionLayout {
        name: "erasing",
        code: "er",
        mapping: vec![('q', '\u{8}')],
    };
    assert!(matches!(
        handle_decoded(KeyOutput::Unicode('q'), &erasing),
        OutputAction::Backspace
    ));
}

#[test]
fn scancodes_decode_to_characters() {
    let us = keymap_us();
    let mut kb = keyboard_new();
    // make code for the first letter key of the home row's neighbour:
    // 0x1E is 'a' in scan-code set 1
    match process_scancode(&mut kb, &us, 0x1E) {
        Some(OutputAction::PrintChar(c)) => assert_eq!(c, 'a'),
        other => panic!("expected a printed character, got nothing like it: {}", other.is_some()),
    }
    // the release byte produces no output
    assert!(process_scancode(&mut kb, &us, 0x9E).is_none());
}

#[test]
fn pci_addresses_are_exact() {
    assert_eq!(pci_config_address(0, 0, 0, 0), 0x8000_0000);
    assert_eq!(pci_config_address(1, 2, 3, 0x0D), 0x8001_130C);
    assert_eq!(extract_config_word(0xDEAD_BEEF, 0), 0xBEEF);
    assert_eq!(extract_config_word(0xDEAD_BEEF, 2), 0xDEAD);
}

#[test]
fn absent_pci_slots_are_skipped() {
    let empty = PciProbe { bus: 0, device: 0, vendor_word: 0xFFFF, device_word: 0, class_word: 0 };
    assert!(check_device(empty).is_none());
    let populated = PciProbe {
        bus: 0,
        device: 3,
        vendor_word: 0x8086,
        device_word: 0x100E,
        class_word: 0x0002,
    };
    let d = check_device(populated).expect("a populated slot yields a device");
    assert_eq!(d.vendor_id, 0x8086);
    assert_eq!(d.device_id, 0x100E);
    assert_eq!(d.class_id, 0x02);
    assert_eq!(d.subclass_id, 0x00);
    let all = check_all_pci_devices(&vec![empty, populated, empty]);
    assert_eq!(all.len(), 1);
    assert_eq!(all[0].bus, 0);
    assert_eq!(all[0].device, 3);
}

#[test]
fn pci_compat_is_assumed() {
    assert!(detect_pci_compat_bios());
}

#[test]
fn exit_codes_match_the_debug_device() {
    assert_eq!(QemuExitCode::Success.code(), 0x10);
    assert_eq!(QemuExitCode::Failure.code(), 0x11);
}

#[test]
fn trivial_assertion() {
    assert_eq!(1, 1);
}

struct CountingTest {
    runs: Cell<u32>,
}

impl Testable for CountingTest {
    fn run(&self) {
        self.runs.set(self.runs.get() + 1);
    }
}

#[test]
fn test_runner_runs_every_test() {
    let first = CountingTest { runs: Cell::new(0) };
    let second = CountingTest { runs: Cell::new(0) };
    let tests: Vec<&dyn Testable> = vec![&first, &second];
    let code = test_runner(&tests);
    assert_eq!(code, QemuExitCode::Success);
    assert_eq!(first.runs.get(), 1);
    assert_eq!(second.runs.get(), 1);
}
