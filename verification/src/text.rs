use vstd::prelude::*;

verus! {

/// The characters of a string slice, in order.
pub fn chars_of(s: &str) -> (v: Vec<char>)
    ensures
        v@ == s@,
{
    let mut v: Vec<char> = Vec::new();
    for c in it: s.chars()
        invariant
            v@ == it.seq().take(it.index() as int),
            it.seq() == s@,
    {
        v.push(c);
        assert(v@ =~= it.seq().take(it.index() + 1));
    }
    assert(v@ =~= s@);
    v
}

/// Collects characters into a `String` with `String::from_iter`: the string
/// holds exactly the characters of the vector, in order.
#[verifier::external_body]
pub(crate) fn string_of_chars(v: &Vec<char>) -> (s: String)
    ensures
        s@ == v@,
{
    String::from_iter(v.iter())
}

/// The character that stands `d` places behind `0`: for `d` up to nine the
/// decimal digit, for `d` up to 207 one of the characters behind the
/// digits.
pub open spec fn digit_char(d: int) -> char {
    ((48 + d) as u8) as char
}

/// The character that stands `d` places behind `0`.
pub fn digit(d: u8) -> (c: char)
    requires
        d <= 207,
    ensures
        c == digit_char(d as int),
{
    (48u8 + d) as char
}

/// A number in decimal, without sign or leading zeros.
pub open spec fn decimal_text(n: nat) -> Seq<char>
    decreases n,
{
    if n < 10 {
        seq![digit_char(n as int)]
    } else {
        decimal_text(n / 10).push(digit_char((n % 10) as int))
    }
}

/// Writes a number in decimal.
pub fn decimal(n: u64) -> (v: Vec<char>)
    ensures
        v@ == decimal_text(n as nat),
    decreases n,
{
    if n < 10 {
        let mut v: Vec<char> = Vec::new();
        v.push(digit(n as u8));
        assert(v@ =~= decimal_text(n as nat));
        v
    } else {
        let mut v = decimal(n / 10);
        v.push(digit((n % 10) as u8));
        v
    }
}

/// Appends the items of `tail` to `v`.
pub fn append_chars(v: &mut Vec<char>, tail: &Vec<char>)
    ensures
        final(v)@ == old(v)@ + tail@,
{
    let mut i: usize = 0;
    while i < tail.len()
        invariant
            i <= tail.len(),
            v@ == old(v)@ + tail@.take(i as int),
        decreases tail.len() - i,
    {
        v.push(tail[i]);
        i += 1;
        assert(v@ =~= old(v)@ + tail@.take(i as int));
    }
    assert(tail@.take(i as int) =~= tail@);
}

pub open spec fn is_digit(c: char) -> bool {
    '0' <= c <= '9'
}

pub open spec fn all_digits(s: Seq<char>) -> bool {
    forall|i: int| 0 <= i < s.len() ==> is_digit(#[trigger] s[i])
}

/// The number that a sequence of decimal digits writes.
pub open spec fn digits_value(s: Seq<char>) -> nat
    decreases s.len(),
{
    if s.len() == 0 {
        0
    } else {
        digits_value(s.drop_last()) * 10 + (s.last() as nat - 48) as nat
    }
}

/// What a text means as an unsigned number of at most `max`: an optional
/// plus sign, then one decimal digit or more, nothing else; `None` for any
/// other text and for a number above `max`.
pub open spec fn parse_unsigned(s: Seq<char>, max: nat) -> Option<nat> {
    let body = if s.len() > 0 && s[0] == '+' {
        s.skip(1)
    } else {
        s
    };
    if body.len() == 0 || !all_digits(body) || digits_value(body) > max {
        None
    } else {
        Some(digits_value(body))
    }
}

proof fn lemma_prefix_value(s: Seq<char>, k: int)
    requires
        0 <= k <= s.len(),
    ensures
        digits_value(s.take(k)) <= digits_value(s),
    decreases s.len() - k,
{
    if k == s.len() {
        assert(s.take(k) =~= s);
    } else {
        lemma_prefix_value(s, k + 1);
        assert(s.take(k + 1).drop_last() =~= s.take(k));
    }
}

/// Reads the text `s[from..]` as an unsigned number of at most `max`.
pub fn parse_number(s: &Vec<char>, from: usize, max: u64) -> (r: Option<u64>)
    requires
        from <= s.len(),
    ensures
        match parse_unsigned(s@.skip(from as int), max as nat) {
            Some(n) => r == Some(n as u64),
            None => r is None,
        },
{
    let ghost text = s@.skip(from as int);
    let mut i: usize = from;
    if i < s.len() && s[i] == '+' {
        i += 1;
    }
    let start: usize = i;
    let ghost body = s@.skip(start as int);
    assert(body =~= if text.len() > 0 && text[0] == '+' {
        text.skip(1)
    } else {
        text
    });
    if i == s.len() {
        return None;
    }
    let mut acc: u64 = 0;
    while i < s.len()
        invariant
            start <= i <= s.len(),
            body == s@.skip(start as int),
            text == s@.skip(from as int),
            body == (if text.len() > 0 && text[0] == '+' {
                text.skip(1)
            } else {
                text
            }),
            all_digits(body.take(i - start)),
            acc == digits_value(body.take(i - start)),
            acc <= max,
        decreases s.len() - i,
    {
        let c: char = s[i];
        assert(c == body[i - start]);
        if !(c >= '0' && c <= '9') {
            assert(!is_digit(body[i - start]));
            return None;
        }
        let d: u64 = (c as u32 - 48) as u64;
        let ghost next = body.take(i - start + 1);
        assert(next.drop_last() =~= body.take(i - start));
        assert(next.last() == c);
        assert(all_digits(next)) by {
            assert forall|k: int| 0 <= k < next.len() implies is_digit(#[trigger] next[k]) by {
                if k < i - start {
                    assert(next[k] == body.take(i - start)[k]);
                }
            }
        }
        if (acc as u128) * 10 + (d as u128) > (max as u128) {
            proof {
                lemma_prefix_value(body, i - start + 1);
            }
            return None;
        }
        acc = acc * 10 + d;
        i += 1;
    }
    assert(body.take(i - start) =~= body);
    Some(acc)
}

/// Where `c` first stands in `s`; the length of `s` if it stands nowhere.
pub open spec fn first_index(s: Seq<char>, c: char) -> int
    decreases s.len(),
{
    if s.len() == 0 {
        0
    } else if s[0] == c {
        0
    } else {
        1 + first_index(s.drop_first(), c)
    }
}

/// The pieces of `s` between the occurrences of `sep`: one piece more than
/// there are occurrences, empty pieces included.
pub open spec fn split_on(s: Seq<char>, sep: char) -> Seq<Seq<char>>
    decreases s.len(),
{
    let k = first_index(s, sep);
    if 0 <= k < s.len() {
        seq![s.take(k)] + split_on(s.skip(k + 1), sep)
    } else {
        seq![s]
    }
}

/// The pieces that a vector of owned pieces holds.
pub open spec fn pieces_of(tokens: Seq<Vec<char>>) -> Seq<Seq<char>> {
    tokens.map_values(|t: Vec<char>| t@)
}

pub proof fn lemma_first_index(s: Seq<char>, c: char, k: int)
    requires
        0 <= k <= s.len(),
        forall|i: int| 0 <= i < k ==> s[i] != c,
        k < s.len() ==> s[k] == c,
    ensures
        first_index(s, c) == k,
    decreases k,
{
    if k > 0 {
        let t = s.drop_first();
        assert forall|i: int| 0 <= i < k - 1 implies t[i] != c by {
            assert(t[i] == s[i + 1]);
        }
        lemma_first_index(t, c, k - 1);
    }
}

/// Cuts `s` at every occurrence of `sep`.
pub fn split_chars(s: &Vec<char>, sep: char) -> (tokens: Vec<Vec<char>>)
    ensures
        pieces_of(tokens@) == split_on(s@, sep),
        tokens@.len() >= 1,
{
    let mut tokens: Vec<Vec<char>> = Vec::new();
    let mut cur: Vec<char> = Vec::new();
    let mut start: usize = 0;
    let mut i: usize = 0;
    assert(s@.skip(0) =~= s@);
    assert(pieces_of(tokens@) =~= Seq::<Seq<char>>::empty());
    assert(Seq::<Seq<char>>::empty() + split_on(s@, sep) =~= split_on(s@, sep));
    while i < s.len()
        invariant
            start <= i <= s.len(),
            cur@ == s@.subrange(start as int, i as int),
            forall|k: int| start <= k < i ==> s@[k] != sep,
            split_on(s@, sep) == pieces_of(tokens@) + split_on(s@.skip(start as int), sep),
        decreases s.len() - i,
    {
        let c: char = s[i];
        if c == sep {
            let ghost tail = s@.skip(start as int);
            let ghost before = pieces_of(tokens@);
            let ghost piece = cur@;
            proof {
                assert forall|k: int| 0 <= k < i - start implies tail[k] != sep by {
                    assert(tail[k] == s@[start + k]);
                }
                lemma_first_index(tail, sep, i - start);
                assert(tail.take(i - start) =~= cur@);
                assert(tail.skip(i - start + 1) =~= s@.skip(i + 1));
            }
            tokens.push(cur);
            cur = Vec::new();
            start = i + 1;
            assert(pieces_of(tokens@) =~= before + seq![piece]) by {
                assert(pieces_of(tokens@) =~= before.push(piece));
            }
            assert(split_on(s@, sep) =~= pieces_of(tokens@) + split_on(s@.skip(start as int), sep));
            assert(cur@ =~= s@.subrange(start as int, i + 1));
        } else {
            cur.push(c);
            assert(cur@ =~= s@.subrange(start as int, i + 1));
        }
        i += 1;
    }
    let ghost tail = s@.skip(start as int);
    let ghost before = pieces_of(tokens@);
    proof {
        assert forall|k: int| 0 <= k < tail.len() implies tail[k] != sep by {
            assert(tail[k] == s@[start + k]);
        }
        lemma_first_index(tail, sep, tail.len() as int);
        assert(cur@ =~= tail);
    }
    tokens.push(cur);
    assert(pieces_of(tokens@) =~= before + seq![tail]) by {
        assert(pieces_of(tokens@) =~= before.push(tail));
    }
    tokens
}

/// Whether two vectors hold the same characters.
pub fn same_chars(a: &Vec<char>, b: &Vec<char>) -> (r: bool)
    ensures
        r == (a@ == b@),
{
    if a.len() != b.len() {
        return false;
    }
    let mut i: usize = 0;
    while i < a.len()
        invariant
            i <= a.len(),
            a.len() == b.len(),
            forall|k: int| 0 <= k < i ==> a@[k] == b@[k],
        decreases a.len() - i,
    {
        if a[i] != b[i] {
            return false;
        }
        i += 1;
    }
    assert(a@ =~= b@);
    true
}

/// Whether two texts are the same.
pub fn same_text(a: &str, b: &str) -> (r: bool)
    ensures
        r == (a@ == b@),
{
    same_chars(&chars_of(a), &chars_of(b))
}

/// A line without the carriage return at its end.
pub open spec fn strip_cr(l: Seq<char>) -> Seq<char> {
    if l.len() > 0 && l.last() == '\r' {
        l.drop_last()
    } else {
        l
    }
}

/// The lines of a text: the pieces that end in a line feed, each without
/// the line feed and without a carriage return before it, and what follows
/// the last line feed if anything does.
pub open spec fn lines_of(s: Seq<char>) -> Seq<Seq<char>> {
    let pieces = split_on(s, '\n');
    let closed = pieces.drop_last().map_values(|l: Seq<char>| strip_cr(l));
    if pieces.last().len() > 0 {
        closed.push(pieces.last())
    } else {
        closed
    }
}

/// Cuts a text into its lines.
pub fn split_lines(s: &Vec<char>) -> (lines: Vec<Vec<char>>)
    ensures
        pieces_of(lines@) == lines_of(s@),
{
    let mut pieces = split_chars(s, '\n');
    let ghost all = pieces_of(pieces@);
    let last = pieces.pop();
    let mut lines: Vec<Vec<char>> = Vec::new();
    let mut i: usize = 0;
    assert(pieces_of(lines@) =~= all.drop_last().take(0).map_values(|l: Seq<char>| strip_cr(l)));
    while i < pieces.len()
        invariant
            i <= pieces.len(),
            pieces_of(pieces@) == all.drop_last(),
            pieces_of(lines@) == all.drop_last().take(i as int).map_values(|l: Seq<char>| strip_cr(l)),
        decreases pieces.len() - i,
    {
        let ghost done = pieces_of(lines@);
        let piece = &pieces[i];
        assert(all.drop_last()[i as int] == piece@);
        let n: usize = piece.len();
        let keep: usize = if n > 0 && piece[n - 1] == '\r' {
            n - 1
        } else {
            n
        };
        let mut line: Vec<char> = Vec::new();
        let mut k: usize = 0;
        while k < keep
            invariant
                k <= keep <= piece.len(),
                line@ == piece@.take(k as int),
            decreases keep - k,
        {
            line.push(piece[k]);
            k += 1;
            assert(line@ =~= piece@.take(k as int));
        }
        assert(line@ =~= strip_cr(piece@));
        lines.push(line);
        i += 1;
        assert(pieces_of(lines@) =~= done.push(strip_cr(piece@)));
        assert(pieces_of(lines@) =~= all.drop_last().take(i as int).map_values(
            |l: Seq<char>| strip_cr(l),
        ));
    }
    assert(all.drop_last().take(i as int) =~= all.drop_last());
    match last {
        Some(rest) => {
            assert(rest@ == all.last());
            if rest.len() > 0 {
                let ghost done = pieces_of(lines@);
                lines.push(rest);
                assert(pieces_of(lines@) =~= done.push(all.last()));
            }
        },
        None => {},
    }
    lines
}

/// The words of marked characters: the longest stretches of characters
/// that `blank` does not mark.
pub open spec fn marked_words(s: Seq<char>, blank: Seq<bool>) -> Seq<Seq<char>>
    decreases s.len(),
{
    if s.len() == 0 {
        Seq::empty()
    } else {
        let before = marked_words(s.drop_last(), blank.drop_last());
        if blank.last() {
            before
        } else if s.len() >= 2 && !blank[s.len() - 2] && before.len() > 0 {
            before.drop_last().push(before.last().push(s.last()))
        } else {
            before.push(seq![s.last()])
        }
    }
}

/// Cuts marked characters into words.
pub fn split_marked(s: &Vec<char>, blank: &Vec<bool>) -> (words: Vec<Vec<char>>)
    requires
        s.len() == blank.len(),
    ensures
        pieces_of(words@) == marked_words(s@, blank@),
{
    let mut words: Vec<Vec<char>> = Vec::new();
    let mut cur: Vec<char> = Vec::new();
    let mut i: usize = 0;
    assert(s@.take(0) =~= Seq::<char>::empty());
    assert(pieces_of(words@) =~= Seq::<Seq<char>>::empty());
    while i < s.len()
        invariant
            i <= s.len(),
            s.len() == blank.len(),
            i == 0 ==> cur@.len() == 0,
            i > 0 && blank@[i - 1] ==> cur@.len() == 0 && pieces_of(words@) == marked_words(
                s@.take(i as int),
                blank@.take(i as int),
            ),
            i > 0 && !blank@[i - 1] ==> cur@.len() > 0 && pieces_of(words@).push(cur@)
                == marked_words(s@.take(i as int), blank@.take(i as int)),
            i == 0 ==> pieces_of(words@) == marked_words(s@.take(0), blank@.take(0)),
        decreases s.len() - i,
    {
        let ghost done = pieces_of(words@);
        let ghost upto = s@.take(i + 1);
        let ghost marks = blank@.take(i + 1);
        assert(upto.drop_last() =~= s@.take(i as int));
        assert(marks.drop_last() =~= blank@.take(i as int));
        if blank[i] {
            if cur.len() > 0 {
                let ghost word = cur@;
                words.push(cur);
                cur = Vec::new();
                assert(pieces_of(words@) =~= done.push(word));
            }
        } else {
            let ghost word = cur@;
            cur.push(s[i]);
            proof {
                if i > 0 && !blank@[i - 1] {
                    let before = marked_words(s@.take(i as int), blank@.take(i as int));
                    assert(before =~= done.push(word));
                    assert(before.drop_last() =~= done);
                    assert(done.push(cur@) =~= before.drop_last().push(before.last().push(s@[i as int])));
                } else {
                    assert(cur@ =~= seq![s@[i as int]]);
                }
            }
        }
        i += 1;
    }
    assert(s@.take(i as int) =~= s@);
    assert(blank@.take(i as int) =~= blank@);
    if cur.len() > 0 {
        let ghost done = pieces_of(words@);
        let ghost word = cur@;
        words.push(cur);
        assert(pieces_of(words@) =~= done.push(word));
    }
    words
}

/// Whether `part` stands in `s` at place `k`.
pub open spec fn part_at(s: Seq<char>, part: Seq<char>, k: int) -> bool {
    0 <= k && k + part.len() <= s.len() && s.subrange(k, k + part.len()) == part
}

/// Whether `part` stands somewhere in `s`.
pub open spec fn has_part(s: Seq<char>, part: Seq<char>) -> bool {
    exists|k: int| part_at(s, part, k)
}

fn stands_at(s: &Vec<char>, part: &Vec<char>, k: usize) -> (b: bool)
    requires
        k + part.len() <= s.len(),
    ensures
        b == part_at(s@, part@, k as int),
{
    let mut j: usize = 0;
    while j < part.len()
        invariant
            j <= part.len(),
            k + part.len() <= s.len(),
            forall|i: int| 0 <= i < j ==> s@[k + i] == part@[i],
        decreases part.len() - j,
    {
        if s[k + j] != part[j] {
            assert(s@.subrange(k as int, k + part@.len())[j as int] != part@[j as int]);
            return false;
        }
        j += 1;
    }
    assert(s@.subrange(k as int, k + part@.len()) =~= part@);
    true
}

/// Whether `part` stands somewhere in `s`.
pub fn contains_chars(s: &Vec<char>, part: &Vec<char>) -> (b: bool)
    ensures
        b == has_part(s@, part@),
{
    if part.len() > s.len() {
        assert(forall|k: int| !part_at(s@, part@, k));
        return false;
    }
    let last: usize = s.len() - part.len();
    let mut k: usize = 0;
    loop
        invariant
            k <= last,
            last == s.len() - part.len(),
            forall|i: int| 0 <= i < k ==> !part_at(s@, part@, i),
        ensures
            forall|i: int| !part_at(s@, part@, i),
        decreases last - k,
    {
        if stands_at(s, part, k) {
            return true;
        }
        if k == last {
            break;
        }
        k += 1;
    }
    false
}

/// Whether a character is white space, as `char::is_whitespace` tells.
pub uninterp spec fn whitespace(c: char) -> bool;

/// Calls `char::is_whitespace`, which tells whether a character is white
/// space of any script; the result is a function of the character.
#[verifier::external_body]
fn is_whitespace(c: char) -> (b: bool)
    ensures
        b == whitespace(c),
{
    c.is_whitespace()
}

/// Which characters of a line are white space.
pub open spec fn blanks_of(line: Seq<char>) -> Seq<bool> {
    line.map_values(|c: char| whitespace(c))
}

/// Which characters of a line are white space.
pub fn mark_blanks(line: &Vec<char>) -> (blank: Vec<bool>)
    ensures
        blank@ == blanks_of(line@),
{
    let mut blank: Vec<bool> = Vec::new();
    let mut i: usize = 0;
    while i < line.len()
        invariant
            i <= line.len(),
            blank@ == blanks_of(line@.take(i as int)),
        decreases line.len() - i,
    {
        blank.push(is_whitespace(line[i]));
        i += 1;
        assert(blank@ =~= blanks_of(line@.take(i as int)));
    }
    assert(line@.take(i as int) =~= line@);
    blank
}

/// The words of a line: its longest stretches without white space.
pub open spec fn words_of(line: Seq<char>) -> Seq<Seq<char>> {
    marked_words(line, blanks_of(line))
}

} // verus!
