//! The key bindings of the interactive view: which command each key press
//! issues.

use vstd::prelude::*;

verus! {

/// A key press, as far as the bindings distinguish keys.
#[derive(Clone, Copy, PartialEq, Eq, Debug, Structural)]
pub enum Key {
    Char(char),
    Esc,
    Left,
    Right,
    Up,
    Down,
    PageUp,
    PageDown,
    Home,
    End,
    Other,
}

/// What a key press asks the view to do.
#[derive(Clone, Copy, PartialEq, Eq, Debug, Structural)]
pub enum Command {
    /// Leave the program.
    Quit,
    /// Play or pause.
    TogglePlay,
    /// Pause and move `delta` frames.
    Step(i64),
    /// Pause and jump to the next (`true`) or previous event.
    Jump(bool),
    /// Play faster.
    Faster,
    /// Play slower.
    Slower,
    /// Back to the first frame, playing at normal speed.
    Restart,
    /// Pause on the first frame.
    First,
    /// Pause on the last frame.
    Last,
    /// Zoom the ground-track map in.
    ZoomIn,
    /// Zoom the ground-track map out.
    ZoomOut,
    /// Show or hide the capital labels.
    ToggleLabels,
    /// Show or hide the analysis tables.
    ToggleTable,
    /// Finer whole-pass table step (more rows).
    FinerPassStep,
    /// Coarser whole-pass table step (fewer rows).
    CoarserPassStep,
    /// Scroll the whole-pass table by this many rows.
    Scroll(isize),
    /// Pause and scrub to this many tenths of the timeline.
    Seek(u8),
}

/// The binding table.
pub open spec fn bound_command(key: Key, ctrl: bool) -> Option<Command> {
    match key {
        Key::Esc => Some(Command::Quit),
        Key::Left => Some(Command::Step(-1i64)),
        Key::Right => Some(Command::Step(1i64)),
        Key::Home => Some(Command::First),
        Key::End => Some(Command::Last),
        Key::Up => Some(Command::Scroll(-1isize)),
        Key::Down => Some(Command::Scroll(1isize)),
        Key::PageUp => Some(Command::Scroll(-10isize)),
        Key::PageDown => Some(Command::Scroll(10isize)),
        Key::Other => None,
        Key::Char(c) => if c == 'q' || (c == 'c' && ctrl) {
            Some(Command::Quit)
        } else if c == ' ' {
            Some(Command::TogglePlay)
        } else if c == ',' {
            Some(Command::Jump(false))
        } else if c == '.' {
            Some(Command::Jump(true))
        } else if c == '+' || c == '=' {
            Some(Command::Faster)
        } else if c == '-' || c == '_' {
            Some(Command::Slower)
        } else if c == 'r' {
            Some(Command::Restart)
        } else if c == 'z' {
            Some(Command::ZoomIn)
        } else if c == 'Z' {
            Some(Command::ZoomOut)
        } else if c == 'l' {
            Some(Command::ToggleLabels)
        } else if c == 't' {
            Some(Command::ToggleTable)
        } else if c == ']' {
            Some(Command::FinerPassStep)
        } else if c == '[' {
            Some(Command::CoarserPassStep)
        } else if '0' <= c <= '9' {
            Some(Command::Seek((c as u32 - '0' as u32) as u8))
        } else {
            None
        },
    }
}

/// The key table, key by key: `q` and Esc quit, and so does Control-`c`;
/// Space plays or pauses; Left and Right step one frame back and forth; `,`
/// and `.` jump to the previous and next event; `+` and `=` play faster and `-`
/// and `_` slower; `r` restarts; Home and End go to the first and last frame;
/// `z` and `Z` zoom the map in and out; `l` and `t` toggle the labels and the
/// tables; `]` and `[` make the whole-pass table finer and coarser; Up, Down,
/// PageUp and PageDown scroll it by 1 and 10 rows; a digit `d` seeks to `d`
/// tenths of the timeline; `c` without Control and any other key do nothing.
pub proof fn law_key_table(ctrl: bool)
    ensures
        bound_command(Key::Char('q'), ctrl) == Some(Command::Quit),
        bound_command(Key::Esc, ctrl) == Some(Command::Quit),
        bound_command(Key::Char('c'), true) == Some(Command::Quit),
        bound_command(Key::Char('c'), false) == None::<Command>,
        bound_command(Key::Char(' '), ctrl) == Some(Command::TogglePlay),
        bound_command(Key::Left, ctrl) == Some(Command::Step(-1i64)),
        bound_command(Key::Right, ctrl) == Some(Command::Step(1i64)),
        bound_command(Key::Char(','), ctrl) == Some(Command::Jump(false)),
        bound_command(Key::Char('.'), ctrl) == Some(Command::Jump(true)),
        bound_command(Key::Char('+'), ctrl) == Some(Command::Faster),
        bound_command(Key::Char('='), ctrl) == Some(Command::Faster),
        bound_command(Key::Char('-'), ctrl) == Some(Command::Slower),
        bound_command(Key::Char('_'), ctrl) == Some(Command::Slower),
        bound_command(Key::Char('r'), ctrl) == Some(Command::Restart),
        bound_command(Key::Home, ctrl) == Some(Command::First),
        bound_command(Key::End, ctrl) == Some(Command::Last),
        bound_command(Key::Char('z'), ctrl) == Some(Command::ZoomIn),
        bound_command(Key::Char('Z'), ctrl) == Some(Command::ZoomOut),
        bound_command(Key::Char('l'), ctrl) == Some(Command::ToggleLabels),
        bound_command(Key::Char('t'), ctrl) == Some(Command::ToggleTable),
        bound_command(Key::Char(']'), ctrl) == Some(Command::FinerPassStep),
        bound_command(Key::Char('['), ctrl) == Some(Command::CoarserPassStep),
        bound_command(Key::Up, ctrl) == Some(Command::Scroll(-1isize)),
        bound_command(Key::Down, ctrl) == Some(Command::Scroll(1isize)),
        bound_command(Key::PageUp, ctrl) == Some(Command::Scroll(-10isize)),
        bound_command(Key::PageDown, ctrl) == Some(Command::Scroll(10isize)),
        bound_command(Key::Other, ctrl) == None::<Command>,
        forall|c: char|
            '0' <= c <= '9' ==> exists|d: u8|
                d as u32 + 48 == c as u32 && #[trigger] bound_command(Key::Char(c), ctrl) == Some(
                    Command::Seek(d),
                ),
{
    assert forall|c: char| '0' <= c <= '9' implies exists|d: u8|
        d as u32 + 48 == c as u32 && #[trigger] bound_command(Key::Char(c), ctrl) == Some(
            Command::Seek(d),
        ) by {
        let d = (c as u32 - 48) as u8;
        assert(d as u32 + 48 == c as u32);
        assert(bound_command(Key::Char(c), ctrl) == Some(Command::Seek(d)));
    }
}

/// The keys that change the playing speed: `+` and `=` speed it up, `-` and `_`
/// slow it down, and no other key does either.
pub proof fn law_speed_keys(key: Key, ctrl: bool)
    ensures
        bound_command(key, ctrl) == Some(Command::Faster) <==> (key == Key::Char('+') || key
            == Key::Char('=')),
        bound_command(key, ctrl) == Some(Command::Slower) <==> (key == Key::Char('-') || key
            == Key::Char('_')),
{
}

/// The command a key press issues; `ctrl` tells whether Control was held.
pub fn command_for_key(key: Key, ctrl: bool) -> (cmd: Option<Command>)
    ensures
        cmd == bound_command(key, ctrl),
{
    match key {
        Key::Esc => Some(Command::Quit),
        Key::Left => Some(Command::Step(-1i64)),
        Key::Right => Some(Command::Step(1i64)),
        Key::Home => Some(Command::First),
        Key::End => Some(Command::Last),
        Key::Up => Some(Command::Scroll(-1isize)),
        Key::Down => Some(Command::Scroll(1isize)),
        Key::PageUp => Some(Command::Scroll(-10isize)),
        Key::PageDown => Some(Command::Scroll(10isize)),
        Key::Other => None,
        Key::Char(c) => {
            if c == 'q' || (c == 'c' && ctrl) {
                Some(Command::Quit)
            } else if c == ' ' {
                Some(Command::TogglePlay)
            } else if c == ',' {
                Some(Command::Jump(false))
            } else if c == '.' {
                Some(Command::Jump(true))
            } else if c == '+' || c == '=' {
                Some(Command::Faster)
            } else if c == '-' || c == '_' {
                Some(Command::Slower)
            } else if c == 'r' {
                Some(Command::Restart)
            } else if c == 'z' {
                Some(Command::ZoomIn)
            } else if c == 'Z' {
                Some(Command::ZoomOut)
            } else if c == 'l' {
                Some(Command::ToggleLabels)
            } else if c == 't' {
                Some(Command::ToggleTable)
            } else if c == ']' {
                Some(Command::FinerPassStep)
            } else if c == '[' {
                Some(Command::CoarserPassStep)
            } else if '0' <= c && c <= '9' {
                Some(Command::Seek((c as u32 - '0' as u32) as u8))
            } else {
                None
            }
        },
    }
}

} // verus!
