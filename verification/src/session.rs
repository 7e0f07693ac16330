//! The screens of an interactive session and what a key does on each.

use vstd::prelude::*;

verus! {

/// What the session shows.
#[derive(Debug, Clone, Copy, PartialEq, Eq, Structural)]
pub enum Screen {
    /// Nothing has been analysed yet.
    Ready,
    /// The analysis runs.
    Analyzing,
    /// The analysis has given its groups.
    Complete,
    /// The files are being moved.
    Moving,
    /// The files have been moved.
    Moved,
}

/// A key that was pressed.
#[derive(Debug, Clone, Copy, PartialEq, Eq, Structural)]
pub enum Key {
    Char(char),
    Esc,
    Other,
}

/// What the session is to do.
#[derive(Debug, Clone, Copy, PartialEq, Eq, Structural)]
pub enum Command {
    /// Leave the session.
    Quit,
    /// Analyse the directory.
    Analyze,
    /// Move the files into their groups.
    MoveFiles,
    /// Show what moving the files would do.
    Preview,
    /// Nothing.
    Ignore,
}

/// What a key does on a screen: `q` and escape leave on every screen; `s`
/// starts the analysis where nothing has been analysed; `m` moves the files and
/// `d` previews the moves once the groups are there; every other key, and
/// these on other screens, do nothing.
pub open spec fn command_for(screen: Screen, key: Key) -> Command {
    match key {
        Key::Esc => Command::Quit,
        Key::Char(c) => if c == 'q' {
            Command::Quit
        } else if c == 's' && screen == Screen::Ready {
            Command::Analyze
        } else if c == 'm' && screen == Screen::Complete {
            Command::MoveFiles
        } else if c == 'd' && screen == Screen::Complete {
            Command::Preview
        } else {
            Command::Ignore
        },
        Key::Other => Command::Ignore,
    }
}

/// What a key does on a screen.
pub fn on_key(screen: Screen, key: Key) -> (command: Command)
    ensures
        command == command_for(screen, key),
{
    match key {
        Key::Esc => Command::Quit,
        Key::Char(c) => {
            if c == 'q' {
                Command::Quit
            } else if c == 's' && screen == Screen::Ready {
                Command::Analyze
            } else if c == 'm' && screen == Screen::Complete {
                Command::MoveFiles
            } else if c == 'd' && screen == Screen::Complete {
                Command::Preview
            } else {
                Command::Ignore
            }
        },
        Key::Other => Command::Ignore,
    }
}

/// The screen after an analysis: the groups where it succeeded, the start
/// where it failed.
pub fn after_analysis(succeeded: bool) -> (screen: Screen)
    ensures
        screen == (if succeeded {
            Screen::Complete
        } else {
            Screen::Ready
        }),
{
    if succeeded {
        Screen::Complete
    } else {
        Screen::Ready
    }
}

/// The screen after the files were moved: the report where it succeeded, the
/// groups again where it failed.
pub fn after_move(succeeded: bool) -> (screen: Screen)
    ensures
        screen == (if succeeded {
            Screen::Moved
        } else {
            Screen::Complete
        }),
{
    if succeeded {
        Screen::Moved
    } else {
        Screen::Complete
    }
}

/// The line that names the keys of a screen.
pub open spec fn controls_text(screen: Screen) -> Seq<char> {
    match screen {
        Screen::Ready => " 's' Start Analysis | 'q' Quit"@,
        Screen::Analyzing => " Analyzing... Please wait"@,
        Screen::Complete => " 'm' Move Files | 'd' Dry Run | 'q' Quit"@,
        Screen::Moving => " Moving files... Please wait"@,
        Screen::Moved => " 'q' Quit"@,
    }
}

/// The line that names the keys of a screen.
pub fn controls(screen: Screen) -> (text: &'static str)
    ensures
        text@ == controls_text(screen),
{
    match screen {
        Screen::Ready => " 's' Start Analysis | 'q' Quit",
        Screen::Analyzing => " Analyzing... Please wait",
        Screen::Complete => " 'm' Move Files | 'd' Dry Run | 'q' Quit",
        Screen::Moving => " Moving files... Please wait",
        Screen::Moved => " 'q' Quit",
    }
}

} // verus!
