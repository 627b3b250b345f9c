use vstd::prelude::*;
use crate::text::{chars_of, first_index, same_chars, string_of_chars};

verus! {

/// The accented letters that have a plain letter in their place.
pub const SUBS_I: &'static str = "\u{e0}\u{e1}\u{e2}\u{e4}\u{e6}\u{e3}\u{e5}\u{101}\u{103}\u{105}\u{e7}\u{107}\u{10d}\u{111}\u{10f}\
    \u{e8}\u{e9}\u{ea}\u{eb}\u{113}\u{117}\u{119}\u{11b}\u{11f}\u{1f5}\u{1e27}\u{ee}\u{ef}\u{ed}\u{12b}\
    \u{12f}\u{ec}\u{131}\u{130}\u{142}\u{1e3f}\u{f1}\u{144}\u{1f9}\u{148}\u{f4}\u{f6}\u{f2}\u{f3}\u{153}\
    \u{f8}\u{14d}\u{f5}\u{151}\u{1e55}\u{155}\u{159}\u{df}\u{15b}\u{161}\u{15f}\u{219}\u{165}\u{21b}\u{fb}\
    \u{fc}\u{f9}\u{fa}\u{16b}\u{1d8}\u{16f}\u{171}\u{173}\u{1e83}\u{1e8d}\u{ff}\u{fd}\u{17e}\u{17a}\u{17c}";

/// The plain letters, each at the place of its accented letter.
pub const SUBS_O: &'static str = "aaaaaaaaaacccddeeeeeeeegghiiiiiiiilmnnnnoooooooooprrsssssttuuuuuuuuuwxyyzzz";

/// A lower-case text as `str::to_lowercase` gives it for a text.
pub uninterp spec fn lowercase_of(s: Seq<char>) -> Seq<char>;

/// Calls `str::to_lowercase`, which gives the text with every character
/// replaced by its lower-case form; the result is a function of the text.
#[verifier::external_body]
pub(crate) fn to_lowercase(s: &str) -> (r: String)
    ensures
        r@ == lowercase_of(s@),
{
    s.to_lowercase()
}

/// Whether a character is an ASCII letter or digit.
pub open spec fn is_ascii_alnum(c: char) -> bool {
    ('0' <= c <= '9') || ('a' <= c <= 'z') || ('A' <= c <= 'Z')
}

/// The plain character for a character of a text: the plain letter of an
/// accented letter of the table, a hyphen for any other character.
pub open spec fn conv_of(c: char) -> char {
    let k = first_index(SUBS_I@, c);
    if k < SUBS_I@.len() && k < SUBS_O@.len() {
        SUBS_O@[k]
    } else {
        '-'
    }
}

/// The slug of a lower-case text before a hyphen at its end is cut: every
/// ASCII letter and digit as it is, every other character as `conv_of`
/// gives it, and of hyphens in a row only the first.
pub open spec fn slug_body(s: Seq<char>) -> Seq<char>
    decreases s.len(),
{
    if s.len() == 0 {
        Seq::empty()
    } else {
        let r = slug_body(s.drop_last());
        let c = s.last();
        if is_ascii_alnum(c) {
            r.push(c)
        } else if conv_of(c) == '-' {
            if r.len() > 0 && r.last() == '-' {
                r
            } else {
                r.push('-')
            }
        } else {
            r.push(conv_of(c))
        }
    }
}

/// The slug of a lower-case text: `slug_body` without the hyphen at its
/// end, unless the hyphen is all there is.
pub open spec fn slug_of(s: Seq<char>) -> Seq<char> {
    let r = slug_body(s);
    if r.len() > 1 && r.last() == '-' {
        r.drop_last()
    } else {
        r
    }
}

/// The place of a character in a table, or the table's length.
pub fn position(table: &Vec<char>, c: char) -> (k: usize)
    ensures
        k == first_index(table@, c),
        k <= table@.len(),
{
    let mut i: usize = 0;
    while i < table.len()
        invariant
            i <= table.len(),
            forall|j: int| 0 <= j < i ==> table@[j] != c,
        decreases table.len() - i,
    {
        if table[i] == c {
            proof {
                crate::text::lemma_first_index(table@, c, i as int);
            }
            return i;
        }
        i += 1;
    }
    proof {
        crate::text::lemma_first_index(table@, c, i as int);
    }
    i
}

/// The plain character for a character of a text.
pub fn conv(c: char) -> (r: char)
    ensures
        r == conv_of(c),
{
    let accented = chars_of(SUBS_I);
    let plain = chars_of(SUBS_O);
    let k = position(&accented, c);
    if k < accented.len() && k < plain.len() {
        plain[k]
    } else {
        '-'
    }
}

fn ascii_alnum(c: char) -> (b: bool)
    ensures
        b == is_ascii_alnum(c),
{
    (c >= '0' && c <= '9') || (c >= 'a' && c <= 'z') || (c >= 'A' && c <= 'Z')
}

/// The slug of a text that is in lower case already.
pub fn slugify_lowered(lowered: &str) -> (r: String)
    ensures
        r@ == slug_of(lowered@),
{
    let chars = chars_of(lowered);
    let mut result: Vec<char> = Vec::new();
    let mut i: usize = 0;
    assert(chars@.take(0) =~= Seq::<char>::empty());
    while i < chars.len()
        invariant
            i <= chars.len(),
            result@ == slug_body(chars@.take(i as int)),
        decreases chars.len() - i,
    {
        let c: char = chars[i];
        assert(chars@.take(i + 1).drop_last() =~= chars@.take(i as int));
        if ascii_alnum(c) {
            result.push(c);
        } else {
            let cc = conv(c);
            if cc == '-' {
                let n: usize = result.len();
                if !(n > 0 && result[n - 1] == '-') {
                    result.push(cc);
                }
            } else {
                result.push(cc);
            }
        }
        i += 1;
    }
    assert(chars@.take(i as int) =~= chars@);
    let n: usize = result.len();
    if n > 1 && result[n - 1] == '-' {
        result.pop();
        assert(result@ =~= slug_body(chars@).drop_last());
    }
    string_of_chars(&result)
}

/// The slug of a text: the text in lower case, its accented letters made
/// plain, every stretch of other characters made one hyphen, and no hyphen
/// at the end.
pub fn slugify(s: &str) -> (r: String)
    ensures
        r@ == slug_of(lowercase_of(s@)),
{
    let lowered = to_lowercase(s);
    slugify_lowered(lowered.as_str())
}

/// Texts that have a slug.
pub trait MySlug {
    /// The text that the value stands for.
    spec fn text(&self) -> Seq<char>;

    /// Whether the text is its own slug.
    fn is_slug(&self) -> (b: bool)
        ensures
            b == (self.text() == slug_of(lowercase_of(self.text()))),
    ;

    /// The slug of the text.
    fn to_slug(&self) -> (r: String)
        ensures
            r@ == slug_of(lowercase_of(self.text())),
    ;
}

impl MySlug for String {
    open spec fn text(&self) -> Seq<char> {
        self@
    }

    fn is_slug(&self) -> (b: bool) {
        let slug = slugify(self.as_str());
        same_chars(&chars_of(self.as_str()), &chars_of(slug.as_str()))
    }

    fn to_slug(&self) -> (r: String) {
        slugify(self.as_str())
    }
}

impl MySlug for &str {
    open spec fn text(&self) -> Seq<char> {
        self@
    }

    fn is_slug(&self) -> (b: bool) {
        let slug = slugify(self);
        same_chars(&chars_of(self), &chars_of(slug.as_str()))
    }

    fn to_slug(&self) -> (r: String) {
        slugify(self)
    }
}

} // verus!
