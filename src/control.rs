//! The decision of the input loop.
use vstd::prelude::*;

verus! {

/// The character that ends the program.
pub const QUIT_KEY: char = 'q';

/// Whether an input event ends the program: a key press (not a release or a
/// repeat) of the quit character. `key` is the character of the key, where it
/// has one.
pub fn should_quit(is_press: bool, key: Option<char>) -> (r: bool)
    ensures
        r == (is_press && key == Some(QUIT_KEY)),
{
    match key {
        Some(c) => is_press && c == QUIT_KEY,
        None => false,
    }
}

} // verus!
