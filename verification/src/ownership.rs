//! Handing owned strings around: giving one away, taking one and giving it
//! back, measuring one through a borrow, and changing one in place.
//!
//! A `String` is viewed as its sequence of characters; its length is counted
//! in the bytes of its UTF-8 encoding.

use vstd::prelude::*;
use vstd::utf8::encode_utf8;

verus! {

/// The two values that are handed on to be shown: a fresh string `"hello"`,
/// which its receiver then owns, and the integer 5, which is copied.
pub fn function_call() -> (handed: (String, i32))
    ensures
        handed.0@ == "hello"@,
        handed.1 == 5,
{
    let s = "hello".to_owned();
    let x: i32 = 5;
    (s, x)
}

/// Makes the string `"hello"` and gives it to the caller.
pub fn gives_ownership() -> (s: String)
    ensures
        s@ == "hello"@,
{
    let some_string = "hello".to_owned();
    return some_string;
}

/// Takes a string and gives the same string back.
pub fn takes_and_gives_back(a_string: String) -> (s: String)
    ensures
        s == a_string,
{
    a_string
}

/// Measures `s` in bytes and gives it back together with the length.
pub fn calculate_length_move(s: String) -> (measured: (String, usize))
    ensures
        measured.0 == s,
        measured.1 == encode_utf8(s@).len(),
{
    let length = s.as_str().as_bytes().len();
    (s, length)
}

/// The length of `s` in bytes.
pub fn calculate_length_borrow(s: &String) -> (length: usize)
    ensures
        length == encode_utf8(s@).len(),
{
    s.as_str().as_bytes().len()
}

/// Puts `", world"` at the end of `s`.
pub fn change(s: &mut String)
    ensures
        final(s)@ == old(s)@ + ", world"@,
{
    s.append(", world");
}

/// Gets a string from `no_dangle` and lets it go: the string is dropped here,
/// and no reference to it is left behind.
pub fn dangling_ref() {
    let _s = no_dangle();
}

/// Makes the string `"hello"` and moves it out to the caller, who owns it
/// from then on.
pub fn no_dangle() -> (s: String)
    ensures
        s@ == "hello"@,
{
    let s = "hello".to_owned();
    s
}

} // verus!
