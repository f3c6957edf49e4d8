use fract::input::{Command, Event, Key, Mouse};

fn key(c: char) -> Command {
    Command::from_event(Event::KeyEvent(Key::Char(c)))
}

#[test]
fn arrows_push_the_position() {
    assert_eq!(Command::from_event(Event::KeyEvent(Key::Left)), Command::PositionVelocity(-1, 0));
    assert_eq!(Command::from_event(Event::KeyEvent(Key::Right)), Command::PositionVelocity(1, 0));
    assert_eq!(Command::from_event(Event::KeyEvent(Key::Up)), Command::PositionVelocity(0, -1));
    assert_eq!(Command::from_event(Event::KeyEvent(Key::Down)), Command::PositionVelocity(0, 1));
}

#[test]
fn letters_zoom_rotate_and_toggle() {
    assert_eq!(key('a'), Command::Zoom(-10));
    assert_eq!(key('='), Command::Zoom(-10));
    assert_eq!(key('A'), Command::ZoomContinuous(-5));
    assert_eq!(key('+'), Command::ZoomContinuous(-5));
    assert_eq!(key('z'), Command::Zoom(10));
    assert_eq!(key('-'), Command::Zoom(10));
    assert_eq!(key('Z'), Command::ZoomContinuous(5));
    assert_eq!(key('_'), Command::ZoomContinuous(5));
    assert_eq!(key('['), Command::RotationVelocity(1));
    assert_eq!(key('{'), Command::RotationVelocity(1));
    assert_eq!(key(']'), Command::RotationVelocity(-1));
    assert_eq!(key('}'), Command::RotationVelocity(-1));
    for c in ['/', '?', 'h', 'H'] {
        assert_eq!(key(c), Command::Help);
    }
    assert_eq!(key('e'), Command::AutoExposure);
    assert_eq!(key('E'), Command::AutoExposure);
    assert_eq!(key(' '), Command::Stop);
    assert_eq!(key('r'), Command::Reset);
    assert_eq!(key('R'), Command::Nop);
    assert_eq!(key('q'), Command::Nop);
}

#[test]
fn digits_tour_to_points_of_interest() {
    let digits = ['1', '2', '3', '4', '5', '6', '7', '8', '9', '0'];
    for (i, c) in digits.iter().enumerate() {
        assert_eq!(key(*c), Command::Poi(i));
    }
}

#[test]
fn escape_and_ctrl_c_quit() {
    assert_eq!(Command::from_event(Event::KeyEvent(Key::Esc)), Command::Quit);
    assert_eq!(Command::from_event(Event::KeyEvent(Key::Ctrl('c'))), Command::Quit);
    assert_eq!(Command::from_event(Event::KeyEvent(Key::Ctrl('d'))), Command::Nop);
    assert_eq!(Command::from_event(Event::KeyEvent(Key::Other)), Command::Nop);
    assert_eq!(Command::from_event(Event::NoEvent), Command::Nop);
}

#[test]
fn mouse_zooms_and_points() {
    assert_eq!(Command::from_event(Event::MouseEvent(Mouse::WheelUp, 3, 4)), Command::Zoom(-3));
    assert_eq!(Command::from_event(Event::MouseEvent(Mouse::WheelDown, 3, 4)), Command::Zoom(3));
    assert_eq!(Command::from_event(Event::MouseEvent(Mouse::Left, 3, 4)), Command::PositionTween(3, 4));
    assert_eq!(Command::from_event(Event::MouseEvent(Mouse::Other, 3, 4)), Command::Nop);
}

#[test]
fn resize_gives_the_new_size() {
    assert_eq!(Command::from_event(Event::ResizeEvent(80, 24)), Command::Size(80, 24));
    assert_eq!(Command::from_event(Event::ResizeEvent(0, 0)), Command::Size(0, 0));
    assert_eq!(Command::from_event(Event::ResizeEvent(-1, 24)), Command::Nop);
    assert_eq!(Command::from_event(Event::ResizeEvent(80, -24)), Command::Nop);
}

#[test]
fn tours_end_on_moves_in_mandelbrot_and_on_stops_in_julia() {
    let all = vec![
        (Command::PositionVelocity(1, 0), true, false),
        (Command::PositionTween(1, 2), true, false),
        (Command::Zoom(3), true, false),
        (Command::ZoomContinuous(5), true, false),
        (Command::RotationVelocity(1), false, false),
        (Command::Size(80, 24), false, false),
        (Command::Poi(2), false, false),
        (Command::AutoExposure, false, false),
        (Command::Help, false, false),
        (Command::Stop, true, true),
        (Command::Reset, true, true),
        (Command::Quit, false, false),
        (Command::Nop, false, false),
    ];
    for (command, mandelbrot, julia) in all {
        assert_eq!(command.ends_tour(true), mandelbrot);
        assert_eq!(command.ends_tour(false), julia);
    }
}
