//! Identifier validation for dynamic parameter names.
//!
//! Path parameters (`<name>`, `<name..>`) and query parameters (`?<name>`)
//! share one set of naming rules: a name must be a non-empty identifier,
//! following the lexer's rules for identifier characters.

use vstd::prelude::*;

verus! {

/// Names what `unicode_xid::UnicodeXID::is_xid_start` returns for a character:
/// membership in the Unicode `XID_Start` class. The result is a function of the
/// character alone.
pub uninterp spec fn xid_start(c: char) -> bool;

/// Names what `unicode_xid::UnicodeXID::is_xid_continue` returns for a
/// character: membership in the Unicode `XID_Continue` class. The result is a
/// function of the character alone.
pub uninterp spec fn xid_continue(c: char) -> bool;

/// Relies on `unicode_xid::UnicodeXID::is_xid_start`: a pure table lookup
/// deciding whether `c` is in the Unicode `XID_Start` class.
#[verifier::external_body]
fn char_is_xid_start(c: char) -> (r: bool)
    ensures
        r == xid_start(c),
{
    unicode_xid::UnicodeXID::is_xid_start(c)
}

/// Relies on `unicode_xid::UnicodeXID::is_xid_continue`: a pure table lookup
/// deciding whether `c` is in the Unicode `XID_Continue` class.
#[verifier::external_body]
fn char_is_xid_continue(c: char) -> (r: bool)
    ensures
        r == xid_continue(c),
{
    unicode_xid::UnicodeXID::is_xid_continue(c)
}

/// A character that may start an identifier: an ASCII letter, an underscore,
/// or a non-ASCII character in `XID_Start`.
pub open spec fn spec_ident_start(c: char) -> bool {
    (97 <= c as u32 && c as u32 <= 122) || (65 <= c as u32 && c as u32 <= 90) || c == '_' || (
    c as u32 > 127 && xid_start(c))
}

/// A character that may continue an identifier: an ASCII letter or digit, an
/// underscore, or a non-ASCII character in `XID_Continue`.
pub open spec fn spec_ident_continue(c: char) -> bool {
    (97 <= c as u32 && c as u32 <= 122) || (65 <= c as u32 && c as u32 <= 90) || (48 <= c as u32
        && c as u32 <= 57) || c == '_' || (c as u32 > 127 && xid_continue(c))
}

/// A valid identifier: non-empty, starting with an identifier-start character,
/// continuing with identifier-continue characters.
pub open spec fn spec_valid_ident(s: Seq<char>) -> bool {
    &&& s.len() > 0
    &&& spec_ident_start(s[0])
    &&& forall|i: int| 1 <= i < s.len() ==> spec_ident_continue(#[trigger] s[i])
}

/// Whether `c` may start an identifier.
pub fn ident_start(c: char) -> (r: bool)
    ensures
        r == spec_ident_start(c),
{
    let u = c as u32;
    (97 <= u && u <= 122) || (65 <= u && u <= 90) || c == '_' || (u > 127 && char_is_xid_start(c))
}

/// Whether `c` may continue an identifier.
pub fn ident_continue(c: char) -> (r: bool)
    ensures
        r == spec_ident_continue(c),
{
    let u = c as u32;
    (97 <= u && u <= 122) || (65 <= u && u <= 90) || (48 <= u && u <= 57) || c == '_' || (u > 127
        && char_is_xid_continue(c))
}

/// Whether `s` is a valid identifier.
pub fn is_valid_ident(s: &str) -> (r: bool)
    ensures
        r == spec_valid_ident(s@),
{
    let len = s.unicode_len();
    if len == 0 {
        return false;
    }
    if !ident_start(s.get_char(0)) {
        return false;
    }
    let mut i: usize = 1;
    while i < len
        invariant
            1 <= i <= len,
            len == s@.len(),
            spec_ident_start(s@[0]),
            forall|j: int| 1 <= j < i ==> spec_ident_continue(#[trigger] s@[j]),
        decreases len - i,
    {
        if !ident_continue(s.get_char(i)) {
            return false;
        }
        i += 1;
    }
    true
}

} // verus!
