use vstd::prelude::*;

verus! {

/// A key of the keyboard, as far as the commands tell keys apart.
#[derive(Clone, Copy, Debug, PartialEq, Eq)]
pub enum Key {
    Left,
    Right,
    Up,
    Down,
    Esc,
    Char(char),
    Ctrl(char),
    /// Any other key.
    Other,
}

/// What the mouse did, as far as the commands tell it apart.
#[derive(Clone, Copy, Debug, PartialEq, Eq)]
pub enum Mouse {
    Left,
    WheelUp,
    WheelDown,
    /// Any other button, or a release.
    Other,
}

/// What the terminal reports.
#[derive(Clone, Copy, Debug, PartialEq, Eq)]
pub enum Event {
    KeyEvent(Key),
    /// A mouse event at a column and a row of the terminal.
    MouseEvent(Mouse, i32, i32),
    /// The terminal now has this many columns and rows.
    ResizeEvent(i32, i32),
    /// Anything else.
    NoEvent,
}

/// What the user asks for.
#[derive(Clone, Copy, Debug, PartialEq, Eq)]
pub enum Command {
    /// Push the position: each part is -1, 0 or 1 steps along its axis.
    PositionVelocity(i8, i8),
    /// Move the position to the point under this column and row.
    PositionTween(i32, i32),
    /// Push the zoom by this many tenths of a step; negative zooms in.
    Zoom(i8),
    /// Zoom without end at this many tenths of a step per tick.
    ZoomContinuous(i8),
    /// Push the rotation by this many steps.
    RotationVelocity(i8),
    /// The view has this many columns and rows.
    Size(usize, usize),
    /// Tour to the point of interest with this index.
    Poi(usize),
    AutoExposure,
    Help,
    Stop,
    Reset,
    Quit,
    /// Nothing.
    Nop,
}

/// The index of the point of interest that the digit key `c` stands for:
/// the keys 1 to 9 stand for the first nine points, the key 0 for the tenth.
pub open spec fn poi_of_digit(c: char) -> Option<usize> {
    if c == '1' {
        Some(0usize)
    } else if c == '2' {
        Some(1usize)
    } else if c == '3' {
        Some(2usize)
    } else if c == '4' {
        Some(3usize)
    } else if c == '5' {
        Some(4usize)
    } else if c == '6' {
        Some(5usize)
    } else if c == '7' {
        Some(6usize)
    } else if c == '8' {
        Some(7usize)
    } else if c == '9' {
        Some(8usize)
    } else if c == '0' {
        Some(9usize)
    } else {
        None
    }
}

/// The command that the character key `c` stands for.
pub open spec fn command_of_char(c: char) -> Command {
    if c == 'a' || c == '=' {
        Command::Zoom(-10i8)
    } else if c == 'A' || c == '+' {
        Command::ZoomContinuous(-5i8)
    } else if c == 'z' || c == '-' {
        Command::Zoom(10)
    } else if c == 'Z' || c == '_' {
        Command::ZoomContinuous(5)
    } else if c == '[' || c == '{' {
        Command::RotationVelocity(1)
    } else if c == ']' || c == '}' {
        Command::RotationVelocity(-1i8)
    } else if c == '/' || c == '?' || c == 'h' || c == 'H' {
        Command::Help
    } else if c == 'e' || c == 'E' {
        Command::AutoExposure
    } else if c == ' ' {
        Command::Stop
    } else if c == 'r' {
        Command::Reset
    } else {
        match poi_of_digit(c) {
            Some(index) => Command::Poi(index),
            None => Command::Nop,
        }
    }
}

/// The command that `event` stands for.
pub open spec fn command_of(event: Event) -> Command {
    match event {
        Event::KeyEvent(key) => match key {
            Key::Left => Command::PositionVelocity(-1i8, 0),
            Key::Right => Command::PositionVelocity(1, 0),
            Key::Up => Command::PositionVelocity(0, -1i8),
            Key::Down => Command::PositionVelocity(0, 1),
            Key::Esc => Command::Quit,
            Key::Ctrl(c) => if c == 'c' {
                Command::Quit
            } else {
                Command::Nop
            },
            Key::Char(c) => command_of_char(c),
            Key::Other => Command::Nop,
        },
        Event::MouseEvent(mouse, x, y) => match mouse {
            Mouse::WheelUp => Command::Zoom(-3i8),
            Mouse::WheelDown => Command::Zoom(3),
            Mouse::Left => Command::PositionTween(x, y),
            Mouse::Other => Command::Nop,
        },
        Event::ResizeEvent(w, h) => if w >= 0 && h >= 0 {
            Command::Size(w as usize, h as usize)
        } else {
            Command::Nop
        },
        Event::NoEvent => Command::Nop,
    }
}

impl Command {
    /// The command that the character key `c` stands for.
    fn from_char(c: char) -> (command: Command)
        ensures
            command == command_of_char(c),
    {
        match c {
            'a' | '=' => Command::Zoom(-10),
            'A' | '+' => Command::ZoomContinuous(-5),
            'z' | '-' => Command::Zoom(10),
            'Z' | '_' => Command::ZoomContinuous(5),
            '[' | '{' => Command::RotationVelocity(1),
            ']' | '}' => Command::RotationVelocity(-1),
            '/' | '?' | 'h' | 'H' => Command::Help,
            '1' => Command::Poi(0),
            '2' => Command::Poi(1),
            '3' => Command::Poi(2),
            '4' => Command::Poi(3),
            '5' => Command::Poi(4),
            '6' => Command::Poi(5),
            '7' => Command::Poi(6),
            '8' => Command::Poi(7),
            '9' => Command::Poi(8),
            '0' => Command::Poi(9),
            'e' | 'E' => Command::AutoExposure,
            ' ' => Command::Stop,
            'r' => Command::Reset,
            _ => Command::Nop,
        }
    }

    /// The command that `event` stands for. A resize to a negative size
    /// stands for nothing.
    pub fn from_event(event: Event) -> (command: Command)
        ensures
            command == command_of(event),
    {
        match event {
            Event::KeyEvent(key) => match key {
                Key::Left => Command::PositionVelocity(-1, 0),
                Key::Right => Command::PositionVelocity(1, 0),
                Key::Up => Command::PositionVelocity(0, -1),
                Key::Down => Command::PositionVelocity(0, 1),
                Key::Esc => Command::Quit,
                Key::Ctrl(c) => if c == 'c' {
                    Command::Quit
                } else {
                    Command::Nop
                },
                Key::Char(c) => Self::from_char(c),
                Key::Other => Command::Nop,
            },
            Event::MouseEvent(mouse, x, y) => match mouse {
                Mouse::WheelUp => Command::Zoom(-3),
                Mouse::WheelDown => Command::Zoom(3),
                Mouse::Left => Command::PositionTween(x, y),
                Mouse::Other => Command::Nop,
            },
            Event::ResizeEvent(w, h) => if w >= 0 && h >= 0 {
                Command::Size(w as usize, h as usize)
            } else {
                Command::Nop
            },
            Event::NoEvent => Command::Nop,
        }
    }

    /// Whether this command calls off a tour to a point of interest. In a
    /// Mandelbrot view every command does that moves or stops the view; a
    /// rotation, a change of exposure, the help, a resize and the start of
    /// another tour do not. In a Julia view, where a tour moves the seed
    /// only, nothing but a stop or a reset does.
    pub fn ends_tour(&self, mandelbrot: bool) -> (ends: bool)
        ensures
            ends == if mandelbrot {
                !(*self is Poi || *self is RotationVelocity || *self is AutoExposure || *self is Help
                    || *self is Size || *self is Nop || *self is Quit)
            } else {
                *self is Reset || *self is Stop
            },
    {
        if mandelbrot {
            match self {
                Command::Poi(_) => false,
                Command::RotationVelocity(_) => false,
                Command::AutoExposure => false,
                Command::Help => false,
                Command::Size(_, _) => false,
                Command::Nop => false,
                Command::Quit => false,
                _ => true,
            }
        } else {
            match self {
                Command::Reset => true,
                Command::Stop => true,
                _ => false,
            }
        }
    }
}

} // verus!
