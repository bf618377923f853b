//! What the keyboard and the mouse report, as far as the rules read it.
use vstd::prelude::*;

verus! {

/// The keys that mean something to the game; every other key is `Other`,
/// and no key at all is `NoKey`.
#[derive(Clone, Copy, Debug, PartialEq, Eq, Structural)]
pub enum KeyCode {
    NoKey,
    Escape,
    Enter,
    Up,
    Down,
    Left,
    Right,
    NumPad1,
    NumPad2,
    NumPad3,
    NumPad4,
    NumPad5,
    NumPad6,
    NumPad7,
    NumPad8,
    NumPad9,
    Text,
    Other,
}

/// A key press: the key, the character it prints, whether Alt was held, and
/// the text it types.
#[derive(Debug)]
pub struct Key {
    pub code: KeyCode,
    pub printable: char,
    pub alt: bool,
    pub text: String,
}

impl Key {
    /// No key pressed.
    pub fn none() -> (key: Key)
        ensures
            key.code == KeyCode::NoKey,
            key.printable == '\0',
            !key.alt,
            key.text@ == Seq::<char>::empty(),
    {
        Key { code: KeyCode::NoKey, printable: '\0', alt: false, text: String::new() }
    }
}

/// The mouse: the tile under the cursor and which buttons have been pressed.
#[derive(Clone, Copy, Debug, PartialEq, Eq, Structural)]
pub struct Mouse {
    pub cx: i32,
    pub cy: i32,
    pub lbutton_pressed: bool,
    pub rbutton_pressed: bool,
}

} // verus!
