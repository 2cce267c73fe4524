//! Letter case beyond ASCII, which the standard library knows.

use vstd::prelude::*;
use vstd::utf8::is_ascii_chars;

use crate::text::ascii_lower;

verus! {

/// The lower-case form of a text that is not all ASCII.
pub uninterp spec fn lowercase(s: Seq<char>) -> Seq<char>;

/// The lower-case form of a text: letter by letter where it is ASCII.
pub open spec fn lower_text(s: Seq<char>) -> Seq<char> {
    if is_ascii_chars(s) {
        ascii_lower(s)
    } else {
        lowercase(s)
    }
}

/// `str::to_lowercase` gives the lower-case form of a text. In an ASCII text it
/// maps `A` to `Z` onto `a` to `z` and keeps the rest; of other texts nothing is
/// claimed but that the form depends on the text alone.
#[verifier::external_body]
pub(crate) fn to_lowercase(s: &str) -> (r: String)
    ensures
        is_ascii_chars(s@) ==> r@ == ascii_lower(s@),
        !is_ascii_chars(s@) ==> r@ == lowercase(s@),
{
    s.to_lowercase()
}

/// Whether a character beyond ASCII is an upper-case letter.
pub uninterp spec fn uppercase_letter(c: char) -> bool;

/// Whether a character is an upper-case letter.
pub open spec fn is_upper(c: char) -> bool {
    if (c as int) < 128 {
        'A' <= c && c <= 'Z'
    } else {
        uppercase_letter(c)
    }
}

/// `char::is_uppercase` tells upper-case letters. Among ASCII characters those
/// are `A` to `Z`; of other characters nothing is claimed but that the answer
/// depends on the character alone.
#[verifier::external_body]
pub(crate) fn is_uppercase(c: char) -> (r: bool)
    ensures
        (c as int) < 128 ==> r == ('A' <= c && c <= 'Z'),
        (c as int) >= 128 ==> r == uppercase_letter(c),
{
    c.is_uppercase()
}

// ---------------------------------------------------------------------------
// Laws
// ---------------------------------------------------------------------------


/// Among ASCII characters the upper-case letters are the twenty-six capitals, and a text of
/// ASCII characters is put in lower case place by place.
pub proof fn law_ascii_case_is_known(c: char, s: Seq<char>)
    ensures
        (c as int) < 128 ==> (is_upper(c) <==> "ABCDEFGHIJKLMNOPQRSTUVWXYZ"@.contains(c)),
        is_ascii_chars(s) ==> lower_text(s) == ascii_lower(s),
{
    reveal_strlit("ABCDEFGHIJKLMNOPQRSTUVWXYZ");
    let all = "ABCDEFGHIJKLMNOPQRSTUVWXYZ"@;
    if 65 <= c as int <= 90 {
        assert(all[c as int - 65] == c);
    }
}

} // verus!
