use vstd::prelude::*;
use crate::slugify::{lowercase_of, position, to_lowercase, SUBS_I, SUBS_O};
use crate::text::{chars_of, first_index, string_of_chars};

verus! {

/// Whether a character is a letter or a digit, as `char::is_alphanumeric`
/// tells.
pub uninterp spec fn alphanumeric(c: char) -> bool;

/// Calls `char::is_alphanumeric`, which tells whether a character is a
/// letter or a digit of any script; the result is a function of the
/// character.
#[verifier::external_body]
fn is_alphanumeric(c: char) -> (b: bool)
    ensures
        b == alphanumeric(c),
{
    c.is_alphanumeric()
}

/// The plain letter of an accented letter of the table; any other
/// character as it is.
pub open spec fn conv_of(c: char) -> char {
    let k = first_index(SUBS_I@, c);
    if k < SUBS_I@.len() && k < SUBS_O@.len() {
        SUBS_O@[k]
    } else {
        c
    }
}

/// The slug of characters of which `keep` marks those to be kept, before
/// a hyphen at its end is cut: the kept characters as they are, and one
/// hyphen for every stretch of others.
pub open spec fn marked_body(chars: Seq<char>, keep: Seq<bool>) -> Seq<char>
    decreases chars.len(),
{
    if chars.len() == 0 {
        Seq::empty()
    } else {
        let r = marked_body(chars.drop_last(), keep.drop_last());
        if keep.last() {
            r.push(chars.last())
        } else if r.len() > 0 && r.last() == '-' {
            r
        } else {
            r.push('-')
        }
    }
}

/// The slug of marked characters that came from a text of `bytes` bytes:
/// nothing for an empty text; else `marked_body`, without the hyphen at
/// its end if the text had more than one byte.
pub open spec fn marked_slug(bytes: nat, chars: Seq<char>, keep: Seq<bool>) -> Seq<char> {
    let r = marked_body(chars, keep);
    if bytes == 0 {
        Seq::empty()
    } else if bytes > 1 && r.len() > 0 && r.last() == '-' {
        r.drop_last()
    } else {
        r
    }
}

/// How many bytes a text takes in UTF-8, as the machine counts them.
pub open spec fn byte_len(s: Seq<char>) -> nat {
    (vstd::utf8::encode_utf8(s).len() as usize) as nat
}

/// The characters of a lower-case text with the accented letters of the
/// table made plain.
pub open spec fn plain_of(lowered: Seq<char>) -> Seq<char> {
    lowered.map_values(|c: char| conv_of(c))
}

/// Which characters of a plain text are letters or digits.
pub open spec fn kept_of(plain: Seq<char>) -> Seq<bool> {
    plain.map_values(|c: char| alphanumeric(c))
}

/// The plain letter of an accented letter of the table; any other
/// character as it is.
pub fn conv(c: char) -> (r: char)
    ensures
        r == conv_of(c),
{
    let accented = chars_of(SUBS_I);
    let plain = chars_of(SUBS_O);
    let k = position(&accented, c);
    if k < accented.len() && k < plain.len() {
        plain[k]
    } else {
        c
    }
}

/// The slug of characters of which `keep` marks the letters and digits,
/// for a text of `bytes` bytes.
pub fn slugify_marked(bytes: usize, chars: &Vec<char>, keep: &Vec<bool>) -> (r: String)
    requires
        chars.len() == keep.len(),
    ensures
        r@ == marked_slug(bytes as nat, chars@, keep@),
{
    let mut result: Vec<char> = Vec::new();
    if bytes == 0 {
        return string_of_chars(&result);
    }
    let mut i: usize = 0;
    assert(chars@.take(0) =~= Seq::<char>::empty());
    while i < chars.len()
        invariant
            i <= chars.len(),
            chars.len() == keep.len(),
            result@ == marked_body(chars@.take(i as int), keep@.take(i as int)),
        decreases chars.len() - i,
    {
        assert(chars@.take(i + 1).drop_last() =~= chars@.take(i as int));
        assert(keep@.take(i + 1).drop_last() =~= keep@.take(i as int));
        if keep[i] {
            result.push(chars[i]);
        } else {
            let n: usize = result.len();
            if !(n > 0 && result[n - 1] == '-') {
                result.push('-');
            }
        }
        i += 1;
    }
    assert(chars@.take(i as int) =~= chars@);
    assert(keep@.take(i as int) =~= keep@);
    let n: usize = result.len();
    if bytes > 1 && n > 0 && result[n - 1] == '-' {
        result.pop();
        assert(result@ =~= marked_body(chars@, keep@).drop_last());
    }
    string_of_chars(&result)
}

/// The slug of a text: the text in lower case, its accented letters made
/// plain, its letters and digits kept, every stretch of other characters
/// made one hyphen; a hyphen at the end is cut if the text has more than
/// one byte.
pub fn slugify(s: &str) -> (r: String)
    ensures
        r@ == marked_slug(
            byte_len(s@),
            plain_of(lowercase_of(s@)),
            kept_of(plain_of(lowercase_of(s@))),
        ),
{
    let lowered = to_lowercase(s);
    let chars = chars_of(lowered.as_str());
    let mut plain: Vec<char> = Vec::new();
    let mut keep: Vec<bool> = Vec::new();
    let mut i: usize = 0;
    while i < chars.len()
        invariant
            i <= chars.len(),
            plain@ == plain_of(chars@.take(i as int)),
            keep@ == kept_of(plain@),
        decreases chars.len() - i,
    {
        let t = conv(chars[i]);
        plain.push(t);
        keep.push(is_alphanumeric(t));
        i += 1;
        assert(plain@ =~= plain_of(chars@.take(i as int)));
        assert(keep@ =~= kept_of(plain@));
    }
    assert(chars@.take(i as int) =~= chars@);
    slugify_marked(s.len(), &plain, &keep)
}

} // verus!
