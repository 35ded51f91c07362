//! Key presses, and the lines of text that they edit.
use vstd::prelude::*;
use vstd::string::*;

verus! {

/// A key.
#[derive(Debug, Clone, Copy, PartialEq, Eq, Structural)]
pub enum KeyCode {
    Char(char),
    Enter,
    Esc,
    Backspace,
    Tab,
    BackTab,
    Up,
    Down,
    Left,
    Right,
    PageUp,
    PageDown,
    Home,
    Other,
}

/// The keys held down together with another one.
#[derive(Debug, Clone, Copy, PartialEq, Eq, Structural)]
pub struct KeyModifiers {
    pub control: bool,
    pub alt: bool,
}

/// `String::pop`: removes the last character, if there is one.
pub assume_specification[ String::pop ](s: &mut String) -> (r: Option<char>)
    ensures
        old(s)@.len() == 0 ==> final(s)@ == old(s)@ && r is None,
        old(s)@.len() > 0 ==> final(s)@ == old(s)@.drop_last() && r == Some(old(s)@.last()),
;

/// `String::clear`: leaves the string empty.
pub assume_specification[ String::clear ](s: &mut String)
    ensures
        final(s)@ == Seq::<char>::empty(),
;

/// A line after its last character was deleted.
pub open spec fn shortened(s: Seq<char>) -> Seq<char> {
    if s.len() == 0 {
        s
    } else {
        s.drop_last()
    }
}

/// Deletes the last character of a line.
pub fn delete_last(s: &mut String)
    ensures
        final(s)@ == shortened(old(s)@),
{
    let _ = s.pop();
}

/// Whether a character is one of `0` to `9`.
pub fn is_digit(c: char) -> (b: bool)
    ensures
        b == crate::strength::ascii_digit(c),
{
    let n: u32 = crate::text::code(c);
    48 <= n && n <= 57
}

} // verus!
