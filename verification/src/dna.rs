use vstd::prelude::*;
use vstd::string::*;
use crate::text::{chars_of, parse_number, parse_unsigned, pieces_of, split_chars, split_on};

verus! {

/// One step of a pattern: a base and how often it may stand in a row, from
/// the second field to the third.
#[derive(Debug, Clone, Copy, PartialEq, Eq, Structural)]
pub struct SearchToken(pub char, pub usize, pub usize);

/// A stretch of equal characters that no equal character borders: the
/// character and how many there are.
pub type Run = (char, int);

/// The token that a piece of a pattern writes: a base, then the least and
/// the greatest count with a hyphen between them.
pub open spec fn token_of(piece: Seq<char>) -> Option<SearchToken> {
    if piece.len() == 0 {
        None
    } else {
        let range = split_on(piece.skip(1), '-');
        if range.len() < 2 {
            None
        } else {
            match (
                parse_unsigned(range[0], usize::MAX as nat),
                parse_unsigned(range[1], usize::MAX as nat),
            ) {
                (Some(min), Some(max)) => Some(SearchToken(piece[0], min as usize, max as usize)),
                _ => None,
            }
        }
    }
}

/// Whether every piece writes a token.
pub open spec fn all_tokens(pieces: Seq<Seq<char>>) -> bool {
    forall|i: int| 0 <= i < pieces.len() ==> (#[trigger] token_of(pieces[i])) is Some
}

/// The tokens that a pattern writes, with commas between them; `None`
/// where a piece between two commas writes none.
pub open spec fn tokens_of(pattern: Seq<char>) -> Option<Seq<SearchToken>> {
    let pieces = split_on(pattern, ',');
    if all_tokens(pieces) {
        Some(Seq::new(pieces.len(), |i: int| token_of(pieces[i])->Some_0))
    } else {
        None
    }
}

impl SearchToken {
    fn parse_piece(piece: &Vec<char>) -> (r: Option<SearchToken>)
        ensures
            r == token_of(piece@),
    {
        if piece.len() == 0 {
            return None;
        }
        let mut rest: Vec<char> = Vec::new();
        let mut i: usize = 1;
        while i < piece.len()
            invariant
                1 <= i <= piece.len(),
                rest@ == piece@.subrange(1, i as int),
            decreases piece.len() - i,
        {
            rest.push(piece[i]);
            i += 1;
            assert(rest@ =~= piece@.subrange(1, i as int));
        }
        assert(rest@ =~= piece@.skip(1));
        let range = split_chars(&rest, '-');
        if range.len() < 2 {
            return None;
        }
        assert(pieces_of(range@)[0] == range@[0]@);
        assert(pieces_of(range@)[1] == range@[1]@);
        assert(range@[0]@.skip(0) =~= range@[0]@);
        assert(range@[1]@.skip(0) =~= range@[1]@);
        let min = parse_number(&range[0], 0, usize::MAX as u64);
        let max = parse_number(&range[1], 0, usize::MAX as u64);
        match (min, max) {
            (Some(lo), Some(hi)) => Some(SearchToken(piece[0], lo as usize, hi as usize)),
            _ => None,
        }
    }

    /// Reads a pattern; `None` where it is not well formed.
    pub fn try_parse_str(seq: &str) -> (r: Option<Vec<SearchToken>>)
        ensures
            match tokens_of(seq@) {
                Some(toks) => r is Some && r->Some_0@ == toks,
                None => r is None,
            },
    {
        let chars = chars_of(seq);
        let pieces = split_chars(&chars, ',');
        let ghost all = pieces_of(pieces@);
        let mut toks: Vec<SearchToken> = Vec::new();
        let mut i: usize = 0;
        while i < pieces.len()
            invariant
                i <= pieces.len(),
                all == pieces_of(pieces@),
                all == split_on(seq@, ','),
                toks@.len() == i,
                forall|k: int| 0 <= k < i ==> token_of(all[k]) == Some(#[trigger] toks@[k]),
            decreases pieces.len() - i,
        {
            assert(all[i as int] == pieces@[i as int]@);
            match SearchToken::parse_piece(&pieces[i]) {
                Some(t) => {
                    toks.push(t);
                },
                None => {
                    assert(!all_tokens(all));
                    return None;
                },
            }
            i += 1;
        }
        assert forall|k: int| 0 <= k < all.len() implies (#[trigger] token_of(all[k])) is Some by {
            assert(token_of(all[k]) == Some(toks@[k]));
        }
        assert(toks@ =~= tokens_of(seq@)->Some_0);
        Some(toks)
    }

    /// Reads a well-formed pattern.
    pub fn parse_str(seq: &str) -> (toks: Vec<SearchToken>)
        requires
            tokens_of(seq@) is Some,
        ensures
            Some(toks@) == tokens_of(seq@),
    {
        match SearchToken::try_parse_str(seq) {
            Some(toks) => toks,
            None => Vec::new(),
        }
    }
}

/// The runs of a text, from its first character to its last.
pub open spec fn runs_of(s: Seq<char>) -> Seq<Run>
    decreases s.len(),
{
    if s.len() == 0 {
        Seq::empty()
    } else {
        let before = runs_of(s.drop_last());
        let c = s.last();
        if before.len() > 0 && before.last().0 == c {
            before.drop_last().push((c, before.last().1 + 1))
        } else {
            before.push((c, 1int))
        }
    }
}

/// How many characters stand before run `i`.
pub open spec fn offset(runs: Seq<Run>, i: int) -> int
    decreases i,
{
    if i <= 0 {
        0
    } else {
        offset(runs, i - 1) + runs[i - 1].1
    }
}

/// Whether a run is a token's base, as often as the token allows.
pub open spec fn fits(run: Run, t: SearchToken) -> bool {
    run.0 == t.0 && t.1 <= run.1 <= t.2
}

/// Whether the run `j` places behind run `i` fits token `j`.
pub open spec fn fits_at(runs: Seq<Run>, toks: Seq<SearchToken>, i: int, j: int) -> bool {
    fits(runs[i + j], toks[j])
}

/// Whether the runs from run `i` on fit the tokens, one run for each token.
pub open spec fn matches_at(runs: Seq<Run>, toks: Seq<SearchToken>, i: int) -> bool {
    &&& 0 <= i
    &&& i + toks.len() <= runs.len()
    &&& forall|j: int| 0 <= j < toks.len() ==> #[trigger] fits_at(runs, toks, i, j)
}

/// Whether run `i` is the first from which the runs fit the tokens.
pub open spec fn first_match(runs: Seq<Run>, toks: Seq<SearchToken>, i: int) -> bool {
    &&& matches_at(runs, toks, i)
    &&& forall|k: int| 0 <= k < i ==> !#[trigger] matches_at(runs, toks, k)
}

/// The runs that a vector of runs with machine counts holds.
pub open spec fn runs_view(v: Seq<(char, usize)>) -> Seq<Run> {
    v.map_values(|r: (char, usize)| (r.0, r.1 as int))
}

proof fn lemma_offset_prefix(a: Seq<Run>, b: Seq<Run>, i: int)
    requires
        0 <= i <= a.len(),
        i <= b.len(),
        forall|k: int| 0 <= k < i ==> a[k] == b[k],
    ensures
        offset(a, i) == offset(b, i),
    decreases i,
{
    if i > 0 {
        lemma_offset_prefix(a, b, i - 1);
    }
}

proof fn lemma_offset_grows(runs: Seq<Run>, i: int, j: int)
    requires
        0 <= i <= j <= runs.len(),
        forall|k: int| 0 <= k < runs.len() ==> (#[trigger] runs[k]).1 >= 1,
    ensures
        offset(runs, i) + (j - i) <= offset(runs, j),
    decreases j - i,
{
    if i < j {
        lemma_offset_grows(runs, i, j - 1);
    }
}

/// Every run of a text holds a character or more, and together the runs
/// hold the text's characters.
pub proof fn lemma_runs_cover(s: Seq<char>)
    ensures
        forall|k: int| 0 <= k < runs_of(s).len() ==> (#[trigger] runs_of(s)[k]).1 >= 1,
        offset(runs_of(s), runs_of(s).len() as int) == s.len(),
    decreases s.len(),
{
    if s.len() > 0 {
        let before = runs_of(s.drop_last());
        let now = runs_of(s);
        lemma_runs_cover(s.drop_last());
        if before.len() > 0 && before.last().0 == s.last() {
            lemma_offset_prefix(before, now, before.len() - 1);
        } else {
            lemma_offset_prefix(before, now, before.len() as int);
        }
    }
}

/// The runs of the text from place `from` on.
fn runs_in(chars: &Vec<char>, from: usize) -> (runs: Vec<(char, usize)>)
    requires
        from <= chars.len(),
    ensures
        runs_view(runs@) == runs_of(chars@.skip(from as int)),
{
    let ghost text = chars@.skip(from as int);
    let mut runs: Vec<(char, usize)> = Vec::new();
    let mut i: usize = from;
    assert(text.take(0) =~= Seq::<char>::empty());
    assert(runs_view(runs@) =~= Seq::<Run>::empty());
    while i < chars.len()
        invariant
            from <= i <= chars.len(),
            text == chars@.skip(from as int),
            runs_view(runs@) == runs_of(text.take(i - from)),
        decreases chars.len() - i,
    {
        let c: char = chars[i];
        let ghost before = runs_view(runs@);
        let ghost upto = text.take(i - from + 1);
        proof {
            assert(upto.drop_last() =~= text.take(i - from));
            assert(upto.last() == c);
            lemma_runs_cover(text.take(i - from));
            if before.len() > 0 {
                lemma_offset_grows(before, before.len() - 1, before.len() as int);
                lemma_offset_grows(before, 0, before.len() - 1);
                assert(before.last().1 <= i - from);
            }
        }
        let n: usize = runs.len();
        if n > 0 && runs[n - 1].0 == c {
            assert(before.last() == (runs@[n - 1].0, runs@[n - 1].1 as int));
            let count: usize = runs[n - 1].1;
            runs.set(n - 1, (c, count + 1));
            assert(runs_view(runs@) =~= before.drop_last().push((c, before.last().1 + 1)));
        } else {
            proof {
                if n > 0 {
                    assert(before.last() == (runs@[n - 1].0, runs@[n - 1].1 as int));
                }
            }
            runs.push((c, 1));
            assert(runs_view(runs@) =~= before.push((c, 1int)));
        }
        i += 1;
    }
    assert(text.take(i - from) =~= text);
    runs
}

/// What a search in a text finds: where the first stretch of runs that fit
/// the tokens begins, and where it ends; `None` where no stretch fits or
/// there is no token.
pub open spec fn found(text: Seq<char>, toks: Seq<SearchToken>, r: Option<(int, int)>) -> bool {
    let runs = runs_of(text);
    match r {
        Some((start, end)) => toks.len() > 0 && exists|i: int|
            #[trigger] first_match(runs, toks, i) && start == offset(runs, i) && end == offset(
                runs,
                i + toks.len(),
            ),
        None => toks.len() == 0 || forall|i: int| !#[trigger] matches_at(runs, toks, i),
    }
}

/// Whether the runs from run `i` on fit the tokens.
fn window_fits(runs: &Vec<(char, usize)>, toks: &Vec<SearchToken>, i: usize) -> (b: bool)
    requires
        i + toks.len() <= runs.len(),
    ensures
        b == matches_at(runs_view(runs@), toks@, i as int),
{
    let ghost rs = runs_view(runs@);
    let mut j: usize = 0;
    while j < toks.len()
        invariant
            j <= toks.len(),
            i + toks.len() <= runs.len(),
            rs == runs_view(runs@),
            forall|k: int| 0 <= k < j ==> #[trigger] fits_at(rs, toks@, i as int, k),
        decreases toks.len() - j,
    {
        let run: (char, usize) = runs[i + j];
        let t: SearchToken = toks[j];
        assert(rs[i + j] == (run.0, run.1 as int));
        if run.0 != t.0 || run.1 < t.1 || run.1 > t.2 {
            assert(!fits_at(rs, toks@, i as int, j as int));
            return false;
        }
        j += 1;
    }
    true
}

/// Searches the text from place `from` on; places in the result count
/// from `from`.
fn find_in(chars: &Vec<char>, from: usize, toks: &Vec<SearchToken>) -> (r: Option<(usize, usize)>)
    requires
        from <= chars.len(),
    ensures
        found(
            chars@.skip(from as int),
            toks@,
            match r {
                Some((a, b)) => Some((a as int, b as int)),
                None => None,
            },
        ),
        r is Some ==> r->Some_0.0 <= r->Some_0.1 <= chars.len() - from,
{
    let ghost text = chars@.skip(from as int);
    let runs = runs_in(chars, from);
    let ghost rs = runs_view(runs@);
    proof {
        lemma_runs_cover(text);
    }
    if toks.len() == 0 || toks.len() > runs.len() {
        return None;
    }
    let last: usize = runs.len() - toks.len();
    let mut i: usize = 0;
    let mut start: usize = 0;
    while i <= last
        invariant
            i <= last + 1,
            last == runs.len() - toks.len(),
            toks.len() > 0,
            rs == runs_view(runs@),
            rs == runs_of(text),
            text == chars@.skip(from as int),
            from <= chars.len(),
            forall|k: int| 0 <= k < rs.len() ==> (#[trigger] rs[k]).1 >= 1,
            offset(rs, rs.len() as int) == text.len(),
            start == offset(rs, i as int),
            forall|k: int| 0 <= k < i ==> !#[trigger] matches_at(rs, toks@, k),
        decreases last + 1 - i,
    {
        proof {
            lemma_offset_grows(rs, i as int, i + toks.len());
            lemma_offset_grows(rs, i + toks.len(), rs.len() as int);
            lemma_offset_grows(rs, i as int, i + 1);
            lemma_offset_grows(rs, i + 1, rs.len() as int);
        }
        if window_fits(&runs, toks, i) {
            let mut end: usize = start;
            let mut j: usize = 0;
            while j < toks.len()
                invariant
                    j <= toks.len(),
                    i + toks.len() <= runs.len(),
                    rs == runs_view(runs@),
                    forall|k: int| 0 <= k < rs.len() ==> (#[trigger] rs[k]).1 >= 1,
                    offset(rs, rs.len() as int) == chars.len() - from,
                    end == offset(rs, i + j),
                decreases toks.len() - j,
            {
                proof {
                    lemma_offset_grows(rs, i + j + 1, rs.len() as int);
                    assert(rs[i + j] == (runs@[i + j].0, runs@[i + j].1 as int));
                }
                end = end + runs[i + j].1;
                j += 1;
            }
            assert(first_match(rs, toks@, i as int));
            return Some((start, end));
        }
        assert(rs[i as int] == (runs@[i as int].0, runs@[i as int].1 as int));
        start = start + runs[i].1;
        i += 1;
    }
    assert forall|k: int| !#[trigger] matches_at(rs, toks@, k) by {
        if matches_at(rs, toks@, k) {
            assert(k <= last);
        }
    }
    None
}

/// Finds the first stretch of a text that fits a pattern: as many runs in
/// a row as the pattern has tokens, each run a token's base and of a
/// length that the token allows. Gives the place of its first character,
/// counted in characters, and the stretch itself.
pub fn find_sub<'a>(s: &'a str, seq: &Vec<SearchToken>) -> (r: Option<(usize, &'a str)>)
    ensures
        found(
            s@,
            seq@,
            match r {
                Some((pos, text)) => Some((pos as int, pos + text@.len())),
                None => None,
            },
        ),
        r is Some ==> r->Some_0.0 + r->Some_0.1@.len() <= s@.len() && r->Some_0.1@ == s@.subrange(
            r->Some_0.0 as int,
            r->Some_0.0 + r->Some_0.1@.len(),
        ),
{
    let chars = chars_of(s);
    assert(chars@.skip(0) =~= s@);
    match find_in(&chars, 0, seq) {
        Some((start, end)) => {
            let text = s.substring_char(start, end);
            Some((start, text))
        },
        None => None,
    }
}

/// What one step of a walk over the matches of a text does. The search
/// goes over the text from place `pos` on; a match is given with its place
/// in the whole text, and the walk goes on behind it.
pub open spec fn walk_step(
    text: Seq<char>,
    toks: Seq<SearchToken>,
    pos: int,
    r: Option<(int, Seq<char>)>,
    next_pos: int,
) -> bool {
    match r {
        Some((at, stretch)) => {
            &&& pos <= at
            &&& found(text.skip(pos), toks, Some((at - pos, at - pos + stretch.len())))
            &&& at + stretch.len() <= text.len()
            &&& stretch == text.subrange(at, at + stretch.len())
            &&& next_pos == at + stretch.len()
        },
        None => found(text.skip(pos), toks, None) && next_pos == pos,
    }
}

/// A walk over the stretches of a text that fit a pattern, one after the
/// other, none overlapping the one before.
pub struct SimpleDNAIter<'a> {
    s: &'a str,
    chars: Vec<char>,
    pos: usize,
    search_tokens: Vec<SearchToken>,
}

impl<'a> SimpleDNAIter<'a> {
    /// The text that is searched.
    pub closed spec fn text(&self) -> Seq<char> {
        self.s@
    }

    /// The pattern's tokens.
    pub closed spec fn tokens(&self) -> Seq<SearchToken> {
        self.search_tokens@
    }

    /// The place from which the next search goes.
    pub closed spec fn pos(&self) -> int {
        self.pos as int
    }

    pub closed spec fn wf(&self) -> bool {
        self.chars@ == self.s@ && self.pos <= self.chars@.len()
    }

    pub fn new(s: &'a str, seq: &'a str) -> (it: Self)
        requires
            tokens_of(seq@) is Some,
        ensures
            it.wf(),
            it.text() == s@,
            Some(it.tokens()) == tokens_of(seq@),
            it.pos() == 0,
    {
        SimpleDNAIter { s, chars: chars_of(s), pos: 0, search_tokens: SearchToken::parse_str(seq) }
    }

    /// The next match, if there is one.
    pub fn next(&mut self) -> (r: Option<(usize, &'a str)>)
        requires
            old(self).wf(),
        ensures
            final(self).wf(),
            final(self).text() == old(self).text(),
            final(self).tokens() == old(self).tokens(),
            walk_step(
                old(self).text(),
                old(self).tokens(),
                old(self).pos(),
                match r {
                    Some((at, stretch)) => Some((at as int, stretch@)),
                    None => None,
                },
                final(self).pos(),
            ),
    {
        match find_in(&self.chars, self.pos, &self.search_tokens) {
            Some((start, end)) => {
                let at: usize = self.pos + start;
                let stop: usize = self.pos + end;
                let stretch = self.s.substring_char(at, stop);
                self.pos = stop;
                Some((at, stretch))
            },
            None => None,
        }
    }
}

/// A walk over the stretches of a text that fit a pattern, as
/// `SimpleDNAIter`.
pub struct DNAIter<'a> {
    inner: SimpleDNAIter<'a>,
}

impl<'a> DNAIter<'a> {
    pub closed spec fn text(&self) -> Seq<char> {
        self.inner.text()
    }

    pub closed spec fn tokens(&self) -> Seq<SearchToken> {
        self.inner.tokens()
    }

    pub closed spec fn pos(&self) -> int {
        self.inner.pos()
    }

    pub closed spec fn wf(&self) -> bool {
        self.inner.wf()
    }

    pub fn new(s: &'a str, seq: &'a str) -> (it: Self)
        requires
            tokens_of(seq@) is Some,
        ensures
            it.wf(),
            it.text() == s@,
            Some(it.tokens()) == tokens_of(seq@),
            it.pos() == 0,
    {
        DNAIter { inner: SimpleDNAIter::new(s, seq) }
    }

    /// The next match, if there is one.
    pub fn next(&mut self) -> (r: Option<(usize, &'a str)>)
        requires
            old(self).wf(),
        ensures
            final(self).wf(),
            final(self).text() == old(self).text(),
            final(self).tokens() == old(self).tokens(),
            walk_step(
                old(self).text(),
                old(self).tokens(),
                old(self).pos(),
                match r {
                    Some((at, stretch)) => Some((at as int, stretch@)),
                    None => None,
                },
                final(self).pos(),
            ),
    {
        self.inner.next()
    }
}

/// A match holds a character or more.
pub proof fn lemma_match_not_empty(text: Seq<char>, toks: Seq<SearchToken>, start: int, end: int)
    requires
        found(text, toks, Some((start, end))),
    ensures
        start < end,
{
    let runs = runs_of(text);
    lemma_runs_cover(text);
    let i = choose|i: int|
        #[trigger] first_match(runs, toks, i) && start == offset(runs, i) && end == offset(
            runs,
            i + toks.len(),
        );
    lemma_offset_grows(runs, i, i + toks.len());
}

} // verus!
