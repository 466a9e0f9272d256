use keysynth::controls::{Command, ControlKey, Controls, InputEvent};
use keysynth::instrument::{remove_oscillators, removals_in_range};
use keysynth::DataBufferTest;

#[test]
fn second_quit_request_exits() {
    let mut c = Controls::new();
    assert!(!c.quit_shown);
    assert_eq!(c.handle_event(InputEvent::Quit), Command::Nothing);
    assert!(c.quit_shown);
    assert_eq!(c.handle_event(InputEvent::KeyDown(Some(ControlKey::Escape))), Command::Exit);
}

#[test]
fn answering_no_asks_again() {
    let mut c = Controls::new();
    c.handle_event(InputEvent::KeyDown(Some(ControlKey::Escape)));
    assert_eq!(c.answer_quit(false), Command::Nothing);
    assert!(!c.quit_shown);
    assert_eq!(c.handle_event(InputEvent::Quit), Command::Nothing);
    assert!(c.quit_shown);
    assert_eq!(c.answer_quit(true), Command::Exit);
}

#[test]
fn keys_map_to_commands() {
    let mut c = Controls::new();
    let cases = [
        (ControlKey::F1, Command::ToggleAudio),
        (ControlKey::F2, Command::RebuildLibrary),
        (ControlKey::F3, Command::ReloadInstrument),
        (ControlKey::F4, Command::CallLibrary),
        (ControlKey::KpEnter, Command::ReportVolume),
        (ControlKey::KpMinus, Command::VolumeDown),
        (ControlKey::KpPlus, Command::VolumeUp),
        (ControlKey::Left, Command::Nothing),
        (ControlKey::Right, Command::Nothing),
        (ControlKey::Up, Command::Nothing),
        (ControlKey::Down, Command::Nothing),
        (ControlKey::Other, Command::Nothing),
    ];
    for (k, cmd) in cases {
        assert_eq!(c.handle_event(InputEvent::KeyDown(Some(k))), cmd);
        assert!(!c.quit_shown);
    }
    assert_eq!(c.handle_event(InputEvent::KeyDown(None)), Command::Nothing);
    assert_eq!(c.handle_event(InputEvent::Other), Command::Nothing);
    assert!(!c.quit_shown);
}

#[test]
fn oscillators_are_swap_removed_in_turn() {
    let mut v = vec!['a', 'b', 'c', 'd'];
    remove_oscillators(&mut v, &vec![1]);
    assert_eq!(v, vec!['a', 'd', 'c']);

    let mut v = vec!['a', 'b', 'c', 'd'];
    remove_oscillators(&mut v, &vec![0, 1]);
    assert_eq!(v, vec!['d', 'c']);

    let mut v = vec!['a', 'b'];
    remove_oscillators(&mut v, &vec![]);
    assert_eq!(v, vec!['a', 'b']);
}

#[test]
fn removal_range_check() {
    assert!(removals_in_range(3, &vec![0, 1]));
    assert!(!removals_in_range(2, &vec![0, 1]));
    assert!(!removals_in_range(2, &vec![2]));
    assert!(removals_in_range(0, &vec![]));
    assert!(removals_in_range(4, &vec![3, 2, 1, 0]));
    assert!(!removals_in_range(4, &vec![3, 3]));
}

#[test]
fn data_buffer_holds_its_value() {
    let d = DataBufferTest { x: -4 };
    assert_eq!(d.x, -4);
}

use keysynth::controls::{demo_move_in_range, demo_step};

#[test]
fn demo_moves_the_sprite_and_quits_at_once() {
    let pos = (10, 10);
    assert_eq!(demo_step(pos, InputEvent::KeyDown(Some(ControlKey::Left))), ((0, 10), Command::Nothing));
    assert_eq!(demo_step(pos, InputEvent::KeyDown(Some(ControlKey::Right))), ((20, 10), Command::Nothing));
    assert_eq!(demo_step(pos, InputEvent::KeyDown(Some(ControlKey::Up))), ((10, 0), Command::Nothing));
    assert_eq!(demo_step(pos, InputEvent::KeyDown(Some(ControlKey::Down))), ((10, 20), Command::Nothing));
    assert_eq!(demo_step(pos, InputEvent::Quit), (pos, Command::Exit));
    assert_eq!(demo_step(pos, InputEvent::KeyDown(Some(ControlKey::Escape))), (pos, Command::Exit));
    assert_eq!(demo_step(pos, InputEvent::KeyDown(Some(ControlKey::F1))), (pos, Command::ToggleAudio));
    assert_eq!(demo_step(pos, InputEvent::KeyDown(Some(ControlKey::KpMinus))), (pos, Command::VolumeDown));
    assert_eq!(demo_step(pos, InputEvent::KeyDown(Some(ControlKey::KpPlus))), (pos, Command::VolumeUp));
    assert_eq!(demo_step(pos, InputEvent::KeyDown(Some(ControlKey::KpEnter))), (pos, Command::ReportVolume));
    assert_eq!(demo_step(pos, InputEvent::KeyDown(Some(ControlKey::F2))), (pos, Command::Nothing));
}

#[test]
fn demo_move_range_check() {
    assert!(demo_move_in_range((i32::MIN + 10, 0), InputEvent::KeyDown(Some(ControlKey::Left))));
    assert!(!demo_move_in_range((i32::MIN + 9, 0), InputEvent::KeyDown(Some(ControlKey::Left))));
    assert!(!demo_move_in_range((i32::MAX - 9, 0), InputEvent::KeyDown(Some(ControlKey::Right))));
    assert!(!demo_move_in_range((0, i32::MIN), InputEvent::KeyDown(Some(ControlKey::Up))));
    assert!(!demo_move_in_range((0, i32::MAX), InputEvent::KeyDown(Some(ControlKey::Down))));
    assert!(demo_move_in_range((i32::MAX, i32::MAX), InputEvent::Quit));
}
