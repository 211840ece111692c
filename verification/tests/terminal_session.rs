use reovim_core::key::{Key, Keypress, Modifier};
use reovim_core::terminal::{
    disable_raw_mode, is_raw_mode_enabled, make_raw_attrs, model_enter, model_leave, TermAttrs,
    TerminalControl, TerminalSession, WindowSize,
};

fn sample_attrs() -> TermAttrs {
    TermAttrs {
        input_flags: 0xFFFF,
        output_flags: 0xFFFF,
        control_flags: 0xFFFF,
        local_flags: 0xFFFF,
        min_read: 0,
        read_timeout: 5,
    }
}

#[test]
fn make_raw_clears_and_sets_the_documented_bits() {
    let raw = make_raw_attrs(&sample_attrs());
    assert_eq!(raw.input_flags, 0xFA14);
    assert_eq!(raw.output_flags, 0xFFFE);
    assert_eq!(raw.control_flags, 0xFEFF);
    assert_eq!(raw.local_flags, 0x7FB4);
    assert_eq!(raw.min_read, 1);
    assert_eq!(raw.read_timeout, 0);
}

#[test]
fn make_raw_is_idempotent_on_flag_words() {
    let once = make_raw_attrs(&sample_attrs());
    let twice = make_raw_attrs(&once);
    assert_eq!(once, twice);
}

#[test]
fn entering_twice_equals_entering_once() {
    let mut t = TerminalControl { device: sample_attrs(), captured: None };
    model_enter(&mut t);
    let device_after_once = t.device;
    let captured_after_once = t.captured;
    model_enter(&mut t);
    assert_eq!(t.device, device_after_once);
    assert_eq!(t.captured, captured_after_once);
}

#[test]
fn leaving_twice_equals_leaving_once() {
    let mut t = TerminalControl { device: sample_attrs(), captured: None };
    model_enter(&mut t);
    model_leave(&mut t);
    let device_after_once = t.device;
    model_leave(&mut t);
    assert_eq!(t.device, device_after_once);
    assert!(t.captured.is_none());
}

#[test]
fn enter_then_leave_restores_captured_attributes() {
    let mut t = TerminalControl { device: sample_attrs(), captured: None };
    model_enter(&mut t);
    assert_eq!(t.captured, Some(sample_attrs()));
    assert_ne!(t.device, sample_attrs());
    model_leave(&mut t);
    assert_eq!(t.device, sample_attrs());
    assert!(t.captured.is_none());
}

#[test]
fn leaving_raw_mode_when_not_entered_is_a_noop_success() {
    let mut s = TerminalSession::new();
    assert!(!is_raw_mode_enabled(&s));
    assert!(disable_raw_mode(&mut s).is_ok());
    assert!(disable_raw_mode(&mut s).is_ok());
    assert!(!is_raw_mode_enabled(&s));
}

#[test]
fn window_size_carries_plain_fields() {
    let w = WindowSize { rows: 24, columns: 80, width: 0, height: 0 };
    assert_eq!(w.rows, 24);
    assert_eq!(w.columns, 80);
}

#[test]
fn keypress_classification_is_plain_data() {
    let k = Keypress { modi: Some(Modifier::Control), key: Key::Ascii };
    assert_eq!(k.key, Key::Ascii);
    assert_eq!(k.modi, Some(Modifier::Control));
    let f = Keypress { modi: None, key: Key::F };
    assert_ne!(k, f);
}
