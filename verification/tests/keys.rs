use pty_core::client::send::{send, send_data, SendDataOptions, SendFrame, SendOptions};
use pty_core::input::{
    is_mouse_event, parse_input, parse_key, InputEvent, KeyEvent, MouseAction, MouseButton,
    MouseEvent,
};
use pty_core::keys::{parse_seq_value, resolve_key};
use pty_core::paste::{BRACKETED_PASTE_END, BRACKETED_PASTE_START};
use pty_core::protocol::{MessageType, PacketReader};

fn items(v: &[&str]) -> Vec<Vec<u8>> {
    v.iter().map(|s| s.as_bytes().to_vec()).collect()
}

fn delivered(frames: &[SendFrame]) -> String {
    let mut reader = PacketReader::new();
    let mut out = Vec::new();
    for frame in frames {
        for packet in reader.feed(&frame.bytes).unwrap() {
            assert_eq!(packet.type_, MessageType::Data);
            out.extend(packet.payload);
        }
    }
    String::from_utf8(out).unwrap()
}

fn paste(delay_ms: u64) -> SendOptions {
    SendOptions { delay_ms, paste: true }
}

#[test]
fn paste_wraps_positional_text_in_bracketed_paste_markers() {
    let frames = send(&items(&["hello-paste"]), paste(0));
    assert_eq!(delivered(&frames), "\x1b[200~hello-paste\x1b[201~");
    assert_eq!(BRACKETED_PASTE_START, "\x1b[200~");
    assert_eq!(BRACKETED_PASTE_END, "\x1b[201~");
}

#[test]
fn paste_wraps_an_ordered_seq_payload_as_one_paste() {
    let frames = send(&items(&["first ", "second ", "third"]), paste(0));
    let received = delivered(&frames);
    assert_eq!(received.matches("\x1b[200~").count(), 1);
    assert_eq!(received.matches("\x1b[201~").count(), 1);
    assert_eq!(received, "\x1b[200~first second third\x1b[201~");
}

#[test]
fn paste_composes_with_with_delay() {
    let frames = send(&items(&["A", "B"]), paste(50));
    let received = delivered(&frames);
    assert_eq!(received.matches("\x1b[200~").count(), 1);
    assert_eq!(received.matches("\x1b[201~").count(), 1);
    assert_eq!(received, "\x1b[200~AB\x1b[201~");
    assert_eq!(frames.iter().map(|f| f.pause).collect::<Vec<_>>(), [false, false, true, false]);
}

#[test]
fn without_paste_no_markers_are_emitted() {
    let frames = send(&items(&["plain-text"]), SendOptions::default());
    assert_eq!(delivered(&frames), "plain-text");
}

#[test]
fn paste_keeps_a_multi_line_payload_in_one_paste() {
    let frames = send(&items(&["line-one\nline-two\n"]), paste(0));
    let received = delivered(&frames);
    assert_eq!(received, "\x1b[200~line-one\nline-two\n\x1b[201~");
    assert_eq!(received.matches("\x1b[200~").count(), 1);
    assert_eq!(received.matches("\x1b[201~").count(), 1);
}

#[test]
fn plain_positional_text_still_works() {
    let frames = send(&items(&["still-works"]), SendOptions::default());
    assert_eq!(delivered(&frames), "still-works");
}

#[test]
fn with_delay_scales_the_spacing() {
    let quick = send(&items(&["a", "b", "c"]), SendOptions { delay_ms: 0, paste: false });
    assert!(quick.iter().all(|f| !f.pause));
    let slow = send(&items(&["a", "b", "c"]), SendOptions { delay_ms: 300, paste: false });
    assert_eq!(slow.iter().map(|f| f.pause).collect::<Vec<_>>(), [false, true, true]);
}

#[test]
fn data_is_sent_as_one_item() {
    let options = SendDataOptions { delay_ms: 0, paste: true };
    assert_eq!(delivered(&send_data(&items(&["x"]), options)), "\x1b[200~x\x1b[201~");
}

#[test]
fn control_key_spellings_are_equivalent() {
    let sent: Vec<String> = ["key:ctrl+u", "key:ctrl-u", "key:ctrl_u", "key:C-u"]
        .into_iter()
        .map(|k| parse_seq_value(k).unwrap())
        .collect();
    assert_eq!(sent.concat().as_bytes(), b"\x15\x15\x15\x15");
}

#[test]
fn validates_the_whole_sequence_before_delivering_anything() {
    let values = ["PARTIAL", "key:ctrl-", "AFTER"];
    let resolved: Result<Vec<String>, _> = values.into_iter().map(parse_seq_value).collect();
    let message = resolved.unwrap_err().message();
    assert!(message.starts_with("Incomplete key spec"), "{message}");
    assert!(message.contains("ctrl-u"), "{message}");
    assert!(message.contains("supported keys"), "{message}");
}

#[test]
fn named_keys_send_their_sequences() {
    for (spec, sent) in [
        ("return", "\r"),
        ("ENTER", "\r"),
        ("tab", "\t"),
        ("esc", "\x1b"),
        ("space", " "),
        ("backspace", "\x7f"),
        ("delete", "\x1b[3~"),
        ("up", "\x1b[A"),
        ("pagedown", "\x1b[6~"),
        ("a", "a"),
        ("ctrl+c", "\x03"),
        ("alt+x", "\x1bx"),
        ("shift+x", "X"),
        ("ctrl+alt+a", "\x1b\x01"),
        ("shift+tab", "\x1b[Z"),
        ("ctrl+tab", "\x1b[9;5u"),
        ("ctrl+up", "\x1b[1;5A"),
        ("alt+delete", "\x1b[3;3~"),
        ("shift+return", "\x1b[13;2u"),
        ("ctrl+alt+shift+home", "\x1b[1;8H"),
    ] {
        assert_eq!(resolve_key(spec).as_deref(), Ok(sent), "{spec}");
    }
    assert_eq!(parse_seq_value("plain").as_deref(), Ok("plain"));
    assert_eq!(parse_seq_value("key:return").as_deref(), Ok("\r"));
}

#[test]
fn a_bad_key_spec_says_what_is_wrong() {
    for (spec, start) in [
        ("", "Incomplete key spec \"\"."),
        ("ctrl+", "Incomplete key spec \"ctrl+\"."),
        ("meta+x", "Unknown modifier: \"meta\" in key spec \"meta+x\"."),
        ("ctrl+foo", "Unknown key: \"foo\" in key spec \"ctrl+foo\"."),
        ("foo", "Unknown key: \"foo\" in key spec \"foo\"."),
    ] {
        let message = resolve_key(spec).unwrap_err().message();
        assert!(message.starts_with(start), "{message}");
        assert!(message.ends_with("pageup, return, right, space, tab, up."), "{message}");
    }
}

// ---- terminal input ------------------------------------------------------

fn key(name: &str, ctrl: bool, alt: bool, shift: bool) -> InputEvent {
    InputEvent::Key(KeyEvent { name: name.into(), char: None, ctrl, alt, shift })
}

fn typed(c: &str, alt: bool) -> InputEvent {
    InputEvent::Key(KeyEvent { name: c.into(), char: Some(c.into()), ctrl: false, alt, shift: false })
}

#[test]
fn text_is_typed_character_by_character() {
    assert_eq!(
        parse_input("aé漢".as_bytes()),
        [typed("a", false), typed("é", false), typed("漢", false)]
    );
    assert_eq!(parse_input(&[b'x', 0xff]), [typed("x", false), typed("\u{fffd}", false)]);
}

#[test]
fn control_characters_are_keys() {
    assert_eq!(
        parse_input(b"\r\t\x7f\x1c\x03\x1b"),
        [
            key("return", false, false, false),
            key("tab", false, false, false),
            key("backspace", false, false, false),
            key("\\", true, false, false),
            key("c", true, false, false),
            key("escape", false, false, false),
        ]
    );
    assert!(parse_input(&[0x00, 0x1d, 0x1e, 0x1f]).is_empty());
}

#[test]
fn escape_sequences_are_keys() {
    assert_eq!(
        parse_input(b"\x1b[A\x1b[1;5D\x1b[Z\x1b[3~\x1b[97;5u\x1b[13u\x1bx"),
        [
            key("up", false, false, false),
            key("left", true, false, false),
            key("backtab", false, false, true),
            key("delete", false, false, false),
            InputEvent::Key(KeyEvent {
                name: "a".into(),
                char: Some("a".into()),
                ctrl: true,
                alt: false,
                shift: false,
            }),
            key("return", false, false, false),
            typed("x", true),
        ]
    );
    assert_eq!(parse_input(b"\x1b[?25hz"), [typed("z", false)]);
}

#[test]
fn mouse_reports_are_decoded() {
    let events = parse_input(b"\x1b[<0;3;4M\x1b[<0;3;4m\x1b[<64;1;1M\x1b[<35;2;2M\x1b[<48;1;1M");
    let expected = |action, button, x, y, ctrl| {
        InputEvent::Mouse(MouseEvent { action, button, x, y, ctrl, alt: false, shift: false })
    };
    assert_eq!(
        events,
        [
            expected(MouseAction::Press, MouseButton::Left, 2, 3, false),
            expected(MouseAction::Release, MouseButton::Left, 2, 3, false),
            expected(MouseAction::ScrollUp, MouseButton::NoButton, 0, 0, false),
            expected(MouseAction::Move, MouseButton::NoButton, 1, 1, false),
            expected(MouseAction::Drag, MouseButton::Left, 0, 0, true),
        ]
    );
    assert!(events.iter().all(is_mouse_event));
    assert!(parse_key(b"\x1b[<0;3;4M").is_empty());
    assert_eq!(parse_key(b"a").len(), 1);
}

#[test]
fn what_a_key_sends_is_read_back_as_that_key() {
    let names = ["up", "down", "left", "right", "home", "end", "return", "escape", "backspace"];
    for name in names {
        for bits in 0..8 {
            let (ctrl, alt, shift) = (bits & 4 != 0, bits & 2 != 0, bits & 1 != 0);
            let mut spec = String::new();
            for (held, word) in [(ctrl, "ctrl+"), (alt, "alt+"), (shift, "shift+")] {
                if held {
                    spec.push_str(word);
                }
            }
            spec.push_str(name);
            let sent = resolve_key(&spec).unwrap();
            let want = KeyEvent { name: name.into(), char: None, ctrl, alt, shift };
            assert_eq!(parse_input(sent.as_bytes()), [InputEvent::Key(want)], "{spec}");
        }
    }
}

#[test]
fn modifiers_are_a_set() {
    let spellings = [
        ["ctrl+alt+x", "alt-ctrl_X", "ALT+alt-Ctrl_x"],
        ["shift+ctrl+up", "CTRL-SHIFT-UP", "ctrl_shift+ctrl-Up"],
        ["shift+tab", "Shift-tab", "shift_SHIFT+TAB"],
    ];
    for row in spellings {
        for spec in row {
            assert_eq!(resolve_key(spec), resolve_key(row[0]), "{spec}");
        }
    }
    assert_eq!(resolve_key("alt-ctrl_X"), Ok("\x1b\x18".to_string()));
    assert_eq!(resolve_key("CTRL-SHIFT-UP"), Ok("\x1b[1;6A".to_string()));
    assert_eq!(resolve_key("shift_SHIFT+TAB"), Ok("\x1b[Z".to_string()));
}

#[test]
fn text_and_what_follows_decode_one_after_the_other() {
    for rest in ["\x1b[1;5A", "\x1b[<0;3;4M", "\x1b[13;2u", "\x1bq", "\x1b", "\x1b[99", "\r", ""] {
        let mut both = parse_input("12;h\u{e9}".as_bytes());
        both.extend(parse_input(rest.as_bytes()));
        assert_eq!(parse_input(format!("12;h\u{e9}{rest}").as_bytes()), both, "{rest:?}");
    }
}

#[test]
fn key_names_are_read_in_any_case() {
    assert_eq!(parse_seq_value("key:RETURN").as_deref(), Ok("\r"));
    assert_eq!(parse_seq_value("key:PageUp").as_deref(), Ok("\x1b[5~"));
}
