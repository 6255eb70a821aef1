//! Pads and the tools that drive them.

use mds_mcp::emulator::input::{Button, InputState, PortState};
use mds_mcp::tools::{
    mega_input_get_state, mega_input_press, mega_input_release, mega_input_set_state,
    InputButtonArgs, InputButtons, InputGetStateArgs, InputSetStateArgs, ToolReply,
};

#[test]
fn press_release_round_trip() {
    let mut st = InputState::new();
    st.press(0, Button::Start);
    assert_eq!(st.read_libretro(0, 3), 1);
    st.release(0, Button::Start);
    assert_eq!(st.read_libretro(0, 3), 0);
}

#[test]
fn libretro_id_mapping() {
    // libretro B (0) is MD A; libretro A (8) is MD C
    assert_eq!(Button::from_libretro_id(0), Some(Button::A));
    assert_eq!(Button::from_libretro_id(8), Some(Button::C));
    assert_eq!(Button::from_libretro_id(2), Some(Button::Mode));
}

#[test]
fn partial_apply_does_not_clear_others() {
    let mut st = InputState::new();
    st.press(0, Button::Up);
    st.press(0, Button::A);
    st.apply_partial(0, &[(Button::Up, false)]);
    assert_eq!(st.read_libretro(0, 4), 0); // up cleared
    assert_eq!(st.read_libretro(0, 0), 1); // A still set (libretro B id)
}

#[test]
fn parse_button_names() {
    assert_eq!(Button::parse("Start"), Some(Button::Start));
    assert_eq!(Button::parse("MODE"), Some(Button::Mode));
    assert_eq!(Button::parse("foo"), None);
}

#[test]
fn unknown_port_ignored() {
    let mut st = InputState::new();
    st.press(7, Button::A); // out-of-range
    assert_eq!(st.read_libretro(7, 0), 0);
}

#[test]
fn every_button_has_a_bit_and_a_name_of_its_own() {
    let mut seen: u16 = 0;
    for (i, b) in Button::ALL.iter().enumerate() {
        assert_eq!(b.bit().count_ones(), 1);
        assert_eq!(seen & b.bit(), 0);
        seen |= b.bit();
        assert_eq!(Button::parse(b.name()), Some(*b));
        assert_eq!(Button::nth(i), *b);
    }
    assert_eq!(seen.count_ones(), 12);
}

#[test]
fn setting_one_button_keeps_the_others() {
    for held in [0u16, 0xFFFF, 0x0AAA] {
        for b in Button::ALL {
            for pressed in [false, true] {
                let mut p = PortState { buttons: held };
                p.set(b, pressed);
                assert_eq!(p.is_pressed(b), pressed);
                assert_eq!(p.snapshot() & !b.bit(), held & !b.bit());
            }
        }
    }
}

#[test]
fn the_last_mention_of_a_button_wins() {
    let mut st = InputState::default();
    st.apply_partial(1, &[(Button::C, true), (Button::X, true), (Button::C, false)]);
    let port = st.port(1).unwrap();
    assert!(!port.is_pressed(Button::C));
    assert!(port.is_pressed(Button::X));
    assert_eq!(st.port(0).unwrap().snapshot(), 0);
    assert!(st.port(2).is_none());
}

#[test]
fn ids_without_a_button_read_as_released() {
    let mut st = InputState::new();
    for b in Button::ALL {
        st.press(0, b);
    }
    assert_eq!((0..12).map(|id| st.read_libretro(0, id) as i32).sum::<i32>(), 12);
    assert_eq!(st.read_libretro(0, 12), 0);
    assert!(Button::from_libretro_id(12).is_none());
}

#[test]
fn snapshots_list_twelve_buttons() {
    let mut st = InputState::new();
    st.press(1, Button::Z);
    let buttons = st.snapshot_buttons(1);
    assert_eq!(buttons.len(), 12);
    assert_eq!(buttons.iter().filter(|b| b.1).map(|b| b.0).collect::<Vec<&str>>(), vec!["z"]);
    assert!(st.snapshot_buttons(2).is_empty());
}

#[test]
fn set_state_tool_is_partial() {
    let mut st = InputState::new();
    st.press(0, Button::Left);
    let buttons = InputButtons { up: Some(true), a: Some(false), ..InputButtons::default() };
    assert_eq!(buttons.into_pairs(), vec![(Button::Up, true), (Button::A, false)]);
    match mega_input_set_state(&mut st, InputSetStateArgs { port: None, buttons }) {
        ToolReply::InputApplied { port, applied } => assert_eq!((port, applied), (0, 2)),
        _ => panic!("wrong reply"),
    }
    let p = st.port(0).unwrap();
    assert!(p.is_pressed(Button::Left) && p.is_pressed(Button::Up) && !p.is_pressed(Button::A));
}

#[test]
fn press_and_release_tools() {
    let mut st = InputState::new();
    let args = InputButtonArgs { port: Some(1), button: "START".to_string() };
    match mega_input_press(&mut st, &args) {
        ToolReply::InputButton { port, button } => assert_eq!((port, button), (1, "start")),
        _ => panic!("wrong reply"),
    }
    assert!(st.port(1).unwrap().is_pressed(Button::Start));
    assert!(matches!(mega_input_release(&mut st, &args), ToolReply::InputButton { .. }));
    assert_eq!(st.port(1).unwrap().snapshot(), 0);
    let bad = InputButtonArgs { port: None, button: "fire\n".to_string() };
    match mega_input_press(&mut st, &bad) {
        ToolReply::Error(m) => assert_eq!(m, "unknown button: \"fire\\n\""),
        _ => panic!("fire is no button"),
    }
    assert!(matches!(mega_input_release(&mut st, &bad), ToolReply::Error(_)));
}

#[test]
fn get_state_tool_lists_the_port() {
    let mut st = InputState::new();
    st.press(0, Button::Mode);
    match mega_input_get_state(&st, InputGetStateArgs { port: None }) {
        ToolReply::InputState { port, buttons } => {
            assert_eq!(port, 0);
            assert_eq!(buttons[11], ("mode", true));
            assert_eq!(buttons[0], ("up", false));
        }
        _ => panic!("wrong reply"),
    }
    match mega_input_get_state(&st, InputGetStateArgs { port: Some(9) }) {
        ToolReply::InputState { port, buttons } => assert_eq!((port, buttons.len()), (9, 0)),
        _ => panic!("wrong reply"),
    }
}
