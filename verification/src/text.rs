//! Display names and join codes as they arrive from clients: trimming and
//! the length rules.

use crate::status::GameError;
use vstd::prelude::*;
use vstd::string::StrSliceExecFns;

verus! {

/// Longest display name, in characters, after trimming.
pub const MAX_NAME_CHARS: usize = 16;

/// Length of a join code, in characters.
pub const CODE_CHARS: usize = 6;

/// Whether two strings hold the same text.
pub fn same_text(a: &str, b: &str) -> (same: bool)
    ensures
        same == (a@ == b@),
{
    a.to_owned() == b.to_owned()
}

/// What `char::is_whitespace` answers for `c`: whether `c` has the Unicode
/// property `White_Space`.
pub uninterp spec fn char_is_whitespace(c: char) -> bool;

/// `char::is_whitespace`. The answer depends on the character alone and is
/// named rather than spelled out.
#[verifier::external_body]
pub(crate) fn is_whitespace(c: char) -> (blank: bool)
    ensures
        blank == char_is_whitespace(c),
{
    c.is_whitespace()
}

/// What `str::to_uppercase` makes of `text`: its upper-case form by the
/// Unicode case mapping.
pub uninterp spec fn uppercase_of(text: Seq<char>) -> Seq<char>;

/// `str::to_uppercase`. The result depends on the text alone and is named
/// rather than spelled out.
#[verifier::external_body]
pub(crate) fn to_uppercase(text: &str) -> (upper: String)
    ensures
        upper@ == uppercase_of(text@),
{
    text.to_uppercase()
}

/// `s` without the whitespace at its front.
pub open spec fn without_leading_blanks(s: Seq<char>) -> Seq<char>
    decreases s.len(),
{
    if s.len() > 0 && char_is_whitespace(s.first()) {
        without_leading_blanks(s.drop_first())
    } else {
        s
    }
}

/// `s` without the whitespace at its back.
pub open spec fn without_trailing_blanks(s: Seq<char>) -> Seq<char>
    decreases s.len(),
{
    if s.len() > 0 && char_is_whitespace(s.last()) {
        without_trailing_blanks(s.drop_last())
    } else {
        s
    }
}

/// `s` without the whitespace at either end.
pub open spec fn trimmed(s: Seq<char>) -> Seq<char> {
    without_trailing_blanks(without_leading_blanks(s))
}

/// The characters of `s`, in order.
fn chars_of(s: &str) -> (chars: Vec<char>)
    ensures
        chars@ == s@,
{
    broadcast use vstd::string::axiom_spec_iter;

    let mut chars: Vec<char> = Vec::new();
    for c in it: s.chars()
        invariant
            chars@ == it.seq().take(it.index() as int),
            it.seq() == s@,
    {
        chars.push(c);
    }
    chars
}

/// Removes the whitespace at both ends of `raw`.
pub fn trim(raw: &str) -> (out: String)
    ensures
        out@ == trimmed(raw@),
{
    let chars = chars_of(raw);
    let len = chars.len();
    let mut from: usize = 0;
    assert(chars@.skip(0) =~= chars@);
    while from < len && is_whitespace(chars[from])
        invariant
            from <= len == chars@.len(),
            without_leading_blanks(chars@) == without_leading_blanks(chars@.skip(from as int)),
        decreases len - from,
    {
        assert(chars@.skip(from as int).drop_first() =~= chars@.skip(from as int + 1));
        from = from + 1;
    }
    let ghost front = chars@.skip(from as int);
    let mut to: usize = len;
    while to > from && is_whitespace(chars[to - 1])
        invariant
            from <= to <= len == chars@.len(),
            without_trailing_blanks(front) == without_trailing_blanks(
                chars@.subrange(from as int, to as int),
            ),
        decreases to,
    {
        assert(chars@.subrange(from as int, to as int).drop_last() =~= chars@.subrange(
            from as int,
            to as int - 1,
        ));
        to = to - 1;
    }
    raw.substring_char(from, to).to_owned()
}

/// A display name is between 1 and 16 characters long.
pub open spec fn valid_name(name: Seq<char>) -> bool {
    1 <= name.len() <= MAX_NAME_CHARS
}

/// Trims a display name and holds it to the length rule.
pub fn checked_name(raw: &str) -> (checked: Result<String, GameError>)
    ensures
        match checked {
            Ok(name) => name@ == trimmed(raw@) && valid_name(name@),
            Err(e) => e == GameError::ValidationError && !valid_name(trimmed(raw@)),
        },
{
    let name = trim(raw);
    let len = name.as_str().unicode_len();
    if len == 0 || len > MAX_NAME_CHARS {
        Err(GameError::ValidationError)
    } else {
        Ok(name)
    }
}

/// A join code as typed by a player is between 1 and 6 characters long.
pub open spec fn plausible_code(code: Seq<char>) -> bool {
    1 <= code.len() <= CODE_CHARS
}

/// Trims a typed join code and holds it to the length rule.
pub fn checked_code(raw: &str) -> (checked: Result<String, GameError>)
    ensures
        match checked {
            Ok(code) => code@ == trimmed(raw@) && plausible_code(code@),
            Err(e) => e == GameError::ValidationError && !plausible_code(trimmed(raw@)),
        },
{
    let code = trim(raw);
    let len = code.as_str().unicode_len();
    if len == 0 || len > CODE_CHARS {
        Err(GameError::ValidationError)
    } else {
        Ok(code)
    }
}

/// The characters a join code is made of: capital letters and digits.
pub open spec fn is_code_char(c: char) -> bool {
    ('A' <= c && c <= 'Z') || ('0' <= c && c <= '9')
}

/// A join code of a room: six capital letters or digits.
pub open spec fn well_formed_code(code: Seq<char>) -> bool {
    &&& code.len() == CODE_CHARS
    &&& forall|i: int| 0 <= i < code.len() ==> is_code_char(#[trigger] code[i])
}

/// Whether `code` can serve as the join code of a room.
pub fn is_well_formed_code(code: &str) -> (ok: bool)
    ensures
        ok == well_formed_code(code@),
{
    let chars = chars_of(code);
    if chars.len() != CODE_CHARS {
        return false;
    }
    let mut i: usize = 0;
    while i < chars.len()
        invariant
            i <= chars@.len() == CODE_CHARS,
            chars@ == code@,
            forall|k: int| 0 <= k < i ==> is_code_char(#[trigger] chars@[k]),
        decreases chars@.len() - i,
    {
        let c = chars[i];
        if !(('A' <= c && c <= 'Z') || ('0' <= c && c <= '9')) {
            return false;
        }
        i = i + 1;
    }
    true
}

} // verus!
