//! The decisions of the main loop: what each input event asks for, and the
//! quit confirmation.

use vstd::prelude::*;

verus! {

/// The keys that the main loop reacts to.
#[derive(Clone, Copy, Debug, PartialEq, Eq, Structural)]
pub enum ControlKey {
    Escape,
    Left,
    Right,
    Up,
    Down,
    F1,
    F2,
    F3,
    F4,
    KpEnter,
    KpMinus,
    KpPlus,
    Other,
}

/// An input event, as far as the main loop looks at it.
#[derive(Clone, Copy, Debug, PartialEq, Eq, Structural)]
pub enum InputEvent {
    /// The window is being closed.
    Quit,
    /// A key went down; `None` when it has no key code.
    KeyDown(Option<ControlKey>),
    /// Anything else.
    Other,
}

/// What the main loop is to do after an event.
#[derive(Clone, Copy, Debug, PartialEq, Eq, Structural)]
pub enum Command {
    /// Nothing.
    Nothing,
    /// Leave the application.
    Exit,
    /// Switch the audio output on or off.
    ToggleAudio,
    /// Call the function of the loaded library.
    CallLibrary,
    /// Rebuild the library and load it again.
    RebuildLibrary,
    /// Load the instrument from its file again and play it.
    ReloadInstrument,
    /// Report the master volume.
    ReportVolume,
    /// Call the synthesizer's `set_volume` with -0.1.
    VolumeDown,
    /// Call the synthesizer's `set_volume` with 0.1.
    VolumeUp,
}

/// The command that an event asks for and whether the quit confirmation is
/// shown after it, given whether it was shown before: a request to quit
/// while the confirmation is shown leaves; otherwise it shows the
/// confirmation.
pub open spec fn control_step(quit_shown: bool, ev: InputEvent) -> (bool, Command) {
    match ev {
        InputEvent::Quit | InputEvent::KeyDown(Some(ControlKey::Escape)) => (
            true,
            if quit_shown {
                Command::Exit
            } else {
                Command::Nothing
            },
        ),
        InputEvent::KeyDown(Some(ControlKey::F1)) => (quit_shown, Command::ToggleAudio),
        InputEvent::KeyDown(Some(ControlKey::F4)) => (quit_shown, Command::CallLibrary),
        InputEvent::KeyDown(Some(ControlKey::F2)) => (quit_shown, Command::RebuildLibrary),
        InputEvent::KeyDown(Some(ControlKey::F3)) => (quit_shown, Command::ReloadInstrument),
        InputEvent::KeyDown(Some(ControlKey::KpEnter)) => (quit_shown, Command::ReportVolume),
        InputEvent::KeyDown(Some(ControlKey::KpMinus)) => (quit_shown, Command::VolumeDown),
        InputEvent::KeyDown(Some(ControlKey::KpPlus)) => (quit_shown, Command::VolumeUp),
        _ => (quit_shown, Command::Nothing),
    }
}

/// The answer to the quit confirmation: "yes" leaves, "no" hides it.
pub open spec fn answer_step(yes: bool) -> (bool, Command) {
    if yes {
        (true, Command::Exit)
    } else {
        (false, Command::Nothing)
    }
}

/// The state of the main loop's controls.
pub struct Controls {
    /// Whether the quit confirmation is shown.
    pub quit_shown: bool,
}

impl Controls {
    /// Controls at start-up: no confirmation shown.
    pub fn new() -> (c: Self)
        ensures
            !c.quit_shown,
    {
        Controls { quit_shown: false }
    }

    /// Takes one input event and says what to do.
    pub fn handle_event(&mut self, ev: InputEvent) -> (cmd: Command)
        ensures
            (final(self).quit_shown, cmd) == control_step(old(self).quit_shown, ev),
    {
        match ev {
            InputEvent::Quit | InputEvent::KeyDown(Some(ControlKey::Escape)) => {
                let leave = self.quit_shown;
                self.quit_shown = true;
                if leave {
                    Command::Exit
                } else {
                    Command::Nothing
                }
            },
            InputEvent::KeyDown(Some(ControlKey::F1)) => Command::ToggleAudio,
            InputEvent::KeyDown(Some(ControlKey::F4)) => Command::CallLibrary,
            InputEvent::KeyDown(Some(ControlKey::F2)) => Command::RebuildLibrary,
            InputEvent::KeyDown(Some(ControlKey::F3)) => Command::ReloadInstrument,
            InputEvent::KeyDown(Some(ControlKey::KpEnter)) => Command::ReportVolume,
            InputEvent::KeyDown(Some(ControlKey::KpMinus)) => Command::VolumeDown,
            InputEvent::KeyDown(Some(ControlKey::KpPlus)) => Command::VolumeUp,
            _ => Command::Nothing,
        }
    }

    /// Takes the answer to the quit confirmation.
    pub fn answer_quit(&mut self, yes: bool) -> (cmd: Command)
        ensures
            (final(self).quit_shown, cmd) == answer_step(yes),
    {
        if yes {
            self.quit_shown = true;
            Command::Exit
        } else {
            self.quit_shown = false;
            Command::Nothing
        }
    }
}

/// Whether an event asks to quit.
pub open spec fn is_quit_request(ev: InputEvent) -> bool {
    ev == InputEvent::Quit || ev == InputEvent::KeyDown(Some(ControlKey::Escape))
}

/// Quit law: whatever the state, a request to quit shows the confirmation,
/// and a second request leaves; the first leaves only where the
/// confirmation was already shown.
pub proof fn lemma_second_quit_request_exits(quit_shown: bool, first: InputEvent, second: InputEvent)
    requires
        is_quit_request(first),
        is_quit_request(second),
    ensures
        control_step(quit_shown, first).0,
        control_step(quit_shown, first).1 == (if quit_shown {
            Command::Exit
        } else {
            Command::Nothing
        }),
        control_step(control_step(quit_shown, first).0, second).1 == Command::Exit,
{
}

/// Quit law: after the confirmation is answered "no", a request to quit
/// only shows it again.
pub proof fn lemma_no_then_quit_asks_again(ev: InputEvent)
    requires
        is_quit_request(ev),
    ensures
        control_step(answer_step(false).0, ev) == (true, Command::Nothing),
{
}

/// Command law: an event that is no request to quit asks for the same
/// command whether the quit confirmation is shown or not, and leaves it as
/// it was.
pub proof fn lemma_commands_ignore_confirmation(ev: InputEvent)
    requires
        !is_quit_request(ev),
    ensures
        control_step(true, ev).1 == control_step(false, ev).1,
        control_step(true, ev).0,
        !control_step(false, ev).0,
{
}

/// Only a request to quit, or a "yes", ever leaves the application.
pub proof fn lemma_exit_only_on_quit(quit_shown: bool, ev: InputEvent)
    ensures
        control_step(quit_shown, ev).1 == Command::Exit ==> is_quit_request(ev) && quit_shown,
        !is_quit_request(ev) ==> control_step(quit_shown, ev).0 == quit_shown,
{
}

/// How far one arrow key moves the sprite of the demo.
pub const SPRITE_STEP: i32 = 10;

/// Whether the demo's sprite at `pos` can take the move that `ev` asks for
/// without leaving the range of `i32`.
pub open spec fn demo_move_fits(pos: (i32, i32), ev: InputEvent) -> bool {
    match ev {
        InputEvent::KeyDown(Some(ControlKey::Left)) => pos.0 - SPRITE_STEP >= i32::MIN,
        InputEvent::KeyDown(Some(ControlKey::Right)) => pos.0 + SPRITE_STEP <= i32::MAX,
        InputEvent::KeyDown(Some(ControlKey::Up)) => pos.1 - SPRITE_STEP >= i32::MIN,
        InputEvent::KeyDown(Some(ControlKey::Down)) => pos.1 + SPRITE_STEP <= i32::MAX,
        _ => true,
    }
}

/// The decisions of the sprite demo: a request to quit leaves at once, the
/// arrow keys move the sprite by `SPRITE_STEP` (up is towards smaller `y`),
/// and F1 and the keypad keys drive the audio as in the main program.
pub open spec fn demo_control_step(pos: (i32, i32), ev: InputEvent) -> ((i32, i32), Command) {
    match ev {
        InputEvent::Quit | InputEvent::KeyDown(Some(ControlKey::Escape)) => (pos, Command::Exit),
        InputEvent::KeyDown(Some(ControlKey::Left)) => (
            ((pos.0 - SPRITE_STEP) as i32, pos.1),
            Command::Nothing,
        ),
        InputEvent::KeyDown(Some(ControlKey::Right)) => (
            ((pos.0 + SPRITE_STEP) as i32, pos.1),
            Command::Nothing,
        ),
        InputEvent::KeyDown(Some(ControlKey::Up)) => (
            (pos.0, (pos.1 - SPRITE_STEP) as i32),
            Command::Nothing,
        ),
        InputEvent::KeyDown(Some(ControlKey::Down)) => (
            (pos.0, (pos.1 + SPRITE_STEP) as i32),
            Command::Nothing,
        ),
        InputEvent::KeyDown(Some(ControlKey::F1)) => (pos, Command::ToggleAudio),
        InputEvent::KeyDown(Some(ControlKey::KpEnter)) => (pos, Command::ReportVolume),
        InputEvent::KeyDown(Some(ControlKey::KpMinus)) => (pos, Command::VolumeDown),
        InputEvent::KeyDown(Some(ControlKey::KpPlus)) => (pos, Command::VolumeUp),
        _ => (pos, Command::Nothing),
    }
}

/// Demo law: an arrow key moves the sprite one step along one axis and asks
/// for nothing else; any other event leaves the sprite where it is.
pub proof fn lemma_demo_arrows_move(pos: (i32, i32), ev: InputEvent)
    requires
        demo_move_fits(pos, ev),
    ensures
        ev == InputEvent::KeyDown(Some(ControlKey::Left)) ==> demo_control_step(pos, ev) == (
            ((pos.0 - 10) as i32, pos.1),
            Command::Nothing,
        ),
        ev == InputEvent::KeyDown(Some(ControlKey::Right)) ==> demo_control_step(pos, ev) == (
            ((pos.0 + 10) as i32, pos.1),
            Command::Nothing,
        ),
        ev == InputEvent::KeyDown(Some(ControlKey::Up)) ==> demo_control_step(pos, ev) == (
            (pos.0, (pos.1 - 10) as i32),
            Command::Nothing,
        ),
        ev == InputEvent::KeyDown(Some(ControlKey::Down)) ==> demo_control_step(pos, ev) == (
            (pos.0, (pos.1 + 10) as i32),
            Command::Nothing,
        ),
        !(ev is KeyDown && (ev->KeyDown_0 == Some(ControlKey::Left) || ev->KeyDown_0 == Some(
            ControlKey::Right,
        ) || ev->KeyDown_0 == Some(ControlKey::Up) || ev->KeyDown_0 == Some(ControlKey::Down)))
            ==> demo_control_step(pos, ev).0 == pos,
        is_quit_request(ev) ==> demo_control_step(pos, ev).1 == Command::Exit,
{
}

/// Whether the demo's sprite at `pos` can take the move that `ev` asks for.
pub fn demo_move_in_range(pos: (i32, i32), ev: InputEvent) -> (b: bool)
    ensures
        b == demo_move_fits(pos, ev),
{
    match ev {
        InputEvent::KeyDown(Some(ControlKey::Left)) => pos.0 >= i32::MIN + SPRITE_STEP,
        InputEvent::KeyDown(Some(ControlKey::Right)) => pos.0 <= i32::MAX - SPRITE_STEP,
        InputEvent::KeyDown(Some(ControlKey::Up)) => pos.1 >= i32::MIN + SPRITE_STEP,
        InputEvent::KeyDown(Some(ControlKey::Down)) => pos.1 <= i32::MAX - SPRITE_STEP,
        _ => true,
    }
}

/// Takes one input event of the sprite demo: the sprite's new position and
/// what to do.
pub fn demo_step(pos: (i32, i32), ev: InputEvent) -> (r: ((i32, i32), Command))
    requires
        demo_move_fits(pos, ev),
    ensures
        r == demo_control_step(pos, ev),
{
    match ev {
        InputEvent::Quit | InputEvent::KeyDown(Some(ControlKey::Escape)) => (pos, Command::Exit),
        InputEvent::KeyDown(Some(ControlKey::Left)) => ((pos.0 - SPRITE_STEP, pos.1), Command::Nothing),
        InputEvent::KeyDown(Some(ControlKey::Right)) => ((pos.0 + SPRITE_STEP, pos.1), Command::Nothing),
        InputEvent::KeyDown(Some(ControlKey::Up)) => ((pos.0, pos.1 - SPRITE_STEP), Command::Nothing),
        InputEvent::KeyDown(Some(ControlKey::Down)) => ((pos.0, pos.1 + SPRITE_STEP), Command::Nothing),
        InputEvent::KeyDown(Some(ControlKey::F1)) => (pos, Command::ToggleAudio),
        InputEvent::KeyDown(Some(ControlKey::KpEnter)) => (pos, Command::ReportVolume),
        InputEvent::KeyDown(Some(ControlKey::KpMinus)) => (pos, Command::VolumeDown),
        InputEvent::KeyDown(Some(ControlKey::KpPlus)) => (pos, Command::VolumeUp),
        _ => (pos, Command::Nothing),
    }
}

} // verus!
