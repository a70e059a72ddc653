use boresight::keys::{command_for_key, Command, Key};

#[test]
fn key_bindings() {
    assert_eq!(command_for_key(Key::Char('q'), false), Some(Command::Quit));
    assert_eq!(command_for_key(Key::Esc, false), Some(Command::Quit));
    assert_eq!(command_for_key(Key::Char('c'), true), Some(Command::Quit));
    assert_eq!(command_for_key(Key::Char('c'), false), None);
    assert_eq!(command_for_key(Key::Char(' '), false), Some(Command::TogglePlay));
    assert_eq!(command_for_key(Key::Left, false), Some(Command::Step(-1)));
    assert_eq!(command_for_key(Key::Right, false), Some(Command::Step(1)));
    assert_eq!(command_for_key(Key::Char(','), false), Some(Command::Jump(false)));
    assert_eq!(command_for_key(Key::Char('.'), false), Some(Command::Jump(true)));
    assert_eq!(command_for_key(Key::Char('='), false), Some(Command::Faster));
    assert_eq!(command_for_key(Key::Char('_'), false), Some(Command::Slower));
    assert_eq!(command_for_key(Key::Char('r'), false), Some(Command::Restart));
    assert_eq!(command_for_key(Key::Home, false), Some(Command::First));
    assert_eq!(command_for_key(Key::End, false), Some(Command::Last));
    assert_eq!(command_for_key(Key::Char('z'), false), Some(Command::ZoomIn));
    assert_eq!(command_for_key(Key::Char('Z'), false), Some(Command::ZoomOut));
    assert_eq!(command_for_key(Key::Char('l'), false), Some(Command::ToggleLabels));
    assert_eq!(command_for_key(Key::Char('t'), false), Some(Command::ToggleTable));
    assert_eq!(command_for_key(Key::Char(']'), false), Some(Command::FinerPassStep));
    assert_eq!(command_for_key(Key::Char('['), false), Some(Command::CoarserPassStep));
    assert_eq!(command_for_key(Key::PageUp, false), Some(Command::Scroll(-10)));
    assert_eq!(command_for_key(Key::Down, false), Some(Command::Scroll(1)));
    assert_eq!(command_for_key(Key::Char('0'), false), Some(Command::Seek(0)));
    assert_eq!(command_for_key(Key::Char('7'), false), Some(Command::Seek(7)));
    assert_eq!(command_for_key(Key::Char('x'), false), None);
    assert_eq!(command_for_key(Key::Other, true), None);
}
