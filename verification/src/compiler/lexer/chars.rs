//! Character classes used by the token grammar.
use vstd::prelude::*;

verus! {

/// What `char::is_alphabetic` returns for `c` (the Unicode `Alphabetic` property).
pub uninterp spec fn char_is_alphabetic(c: char) -> bool;

/// What `char::is_numeric` returns for `c` (the Unicode general categories `Nd`, `Nl`, `No`).
pub uninterp spec fn char_is_numeric(c: char) -> bool;

/// Calls `char::is_alphabetic`; the contract only names its result.
#[verifier::external_body]
fn unicode_is_alphabetic(c: char) -> (res: bool)
    ensures
        res == char_is_alphabetic(c),
{
    c.is_alphabetic()
}

/// Calls `char::is_numeric`; the contract only names its result.
#[verifier::external_body]
fn unicode_is_numeric(c: char) -> (res: bool)
    ensures
        res == char_is_numeric(c),
{
    c.is_numeric()
}

pub open spec fn is_digit(c: char) -> bool {
    '0' <= c && c <= '9'
}

/// A decimal digit or the digit separator `_`.
pub open spec fn is_digit_or_sep(c: char) -> bool {
    is_digit(c) || c == '_'
}

pub open spec fn is_sign(c: char) -> bool {
    c == '+' || c == '-'
}

pub open spec fn is_bin_digit_or_sep(c: char) -> bool {
    c == '0' || c == '1' || c == '_'
}

pub open spec fn is_oct_digit_or_sep(c: char) -> bool {
    ('0' <= c && c <= '7') || c == '_'
}

pub open spec fn is_hex_digit_or_sep(c: char) -> bool {
    is_digit(c) || ('a' <= c && c <= 'f') || ('A' <= c && c <= 'F') || c == '_'
}

pub open spec fn is_ascii_letter(c: char) -> bool {
    ('a' <= c && c <= 'z') || ('A' <= c && c <= 'Z')
}

pub open spec fn is_lower_or_digit(c: char) -> bool {
    ('a' <= c && c <= 'z') || is_digit(c)
}

/// A letter: ASCII letters, and beyond ASCII the characters that `char::is_alphabetic` accepts.
pub open spec fn is_letter(c: char) -> bool {
    is_ascii_letter(c) || (c as u32 >= 128 && char_is_alphabetic(c))
}

/// A number character: ASCII digits, and beyond ASCII the characters that `char::is_numeric` accepts.
pub open spec fn is_number(c: char) -> bool {
    is_digit(c) || (c as u32 >= 128 && char_is_numeric(c))
}

pub open spec fn is_ident_start(c: char) -> bool {
    c == '_' || is_letter(c)
}

pub open spec fn is_ident_continue(c: char) -> bool {
    is_ident_start(c) || is_number(c)
}

pub open spec fn is_endpoint_char(c: char) -> bool {
    is_ascii_letter(c) || is_digit(c) || c == '_' || c == '-'
}

pub open spec fn is_slot_name_char(c: char) -> bool {
    is_ascii_letter(c) || c == '_'
}

pub open spec fn is_whitespace(c: char) -> bool {
    c == ' ' || c == '\t' || c == '\n' || c == '\x0C'
}

pub fn digit(c: char) -> (res: bool)
    ensures res == is_digit(c),
{
    '0' <= c && c <= '9'
}

pub fn digit_or_sep(c: char) -> (res: bool)
    ensures res == is_digit_or_sep(c),
{
    digit(c) || c == '_'
}

pub fn sign(c: char) -> (res: bool)
    ensures res == is_sign(c),
{
    c == '+' || c == '-'
}

pub fn bin_digit_or_sep(c: char) -> (res: bool)
    ensures res == is_bin_digit_or_sep(c),
{
    c == '0' || c == '1' || c == '_'
}

pub fn oct_digit_or_sep(c: char) -> (res: bool)
    ensures res == is_oct_digit_or_sep(c),
{
    ('0' <= c && c <= '7') || c == '_'
}

pub fn hex_digit_or_sep(c: char) -> (res: bool)
    ensures res == is_hex_digit_or_sep(c),
{
    digit(c) || ('a' <= c && c <= 'f') || ('A' <= c && c <= 'F') || c == '_'
}

pub fn ascii_letter(c: char) -> (res: bool)
    ensures res == is_ascii_letter(c),
{
    ('a' <= c && c <= 'z') || ('A' <= c && c <= 'Z')
}

pub fn lower_or_digit(c: char) -> (res: bool)
    ensures res == is_lower_or_digit(c),
{
    ('a' <= c && c <= 'z') || digit(c)
}

pub fn ident_start(c: char) -> (res: bool)
    ensures res == is_ident_start(c),
{
    c == '_' || ascii_letter(c) || ((c as u32) >= 128 && unicode_is_alphabetic(c))
}

pub fn ident_continue(c: char) -> (res: bool)
    ensures res == is_ident_continue(c),
{
    ident_start(c) || digit(c) || ((c as u32) >= 128 && unicode_is_numeric(c))
}

pub fn endpoint_char(c: char) -> (res: bool)
    ensures res == is_endpoint_char(c),
{
    ascii_letter(c) || digit(c) || c == '_' || c == '-'
}

pub fn slot_name_char(c: char) -> (res: bool)
    ensures res == is_slot_name_char(c),
{
    ascii_letter(c) || c == '_'
}

pub fn whitespace(c: char) -> (res: bool)
    ensures res == is_whitespace(c),
{
    c == ' ' || c == '\t' || c == '\n' || c == '\x0C'
}

} // verus!
