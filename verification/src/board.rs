use vstd::prelude::*;
use crate::naval_battle::{Boat, Error, BOAT, BSIZE, SEA};
use crate::text::{
    append_chars, blanks_of, chars_of, decimal, decimal_text, lines_of, mark_blanks,
    marked_words, parse_number, parse_unsigned, pieces_of, split_lines, split_marked,
    string_of_chars,
};

verus! {

/// Whether a position lies on the board; positions count from one.
pub open spec fn in_grid(x: int, y: int) -> bool {
    1 <= x <= 20 && 1 <= y <= 20
}

/// The counts of the boats still to place, each followed by a space.
pub open spec fn counts_text(boats: Seq<u8>) -> Seq<char>
    decreases boats.len(),
{
    if boats.len() == 0 {
        Seq::empty()
    } else {
        counts_text(boats.drop_last()) + decimal_text(boats.last() as nat) + seq![' ']
    }
}

/// A board of twenty by twenty squares with the boats placed on it, and for
/// each length from one to four the number of boats still to place.
#[derive(Debug)]
pub struct Board {
    boats: Vec<u8>,
    data: Vec<u8>,
}

impl Board {
    /// How many boats of each length are still to place: four counts, for
    /// the lengths one to four.
    pub closed spec fn spec_boats(&self) -> Seq<u8> {
        self.boats@
    }

    /// The byte on the square in row `r` and column `c`, both counted from
    /// zero.
    pub closed spec fn cell(&self, r: int, c: int) -> u8 {
        self.data@[r * 20 + c]
    }

    pub closed spec fn wf(&self) -> bool {
        self.boats@.len() == 4 && self.data@.len() == 400
    }

    /// Whether the position lies on the board and on a boat.
    pub open spec fn hit(&self, x: int, y: int) -> bool {
        in_grid(x, y) && self.cell(x - 1, y - 1) == BOAT
    }

    /// Whether the position or one of the eight around it is a boat's.
    pub open spec fn touches(&self, x: int, y: int) -> bool {
        exists|dx: int, dy: int|
            -1 <= dx <= 1 && -1 <= dy <= 1 && #[trigger] self.hit(x + dx, y + dy)
    }

    /// Whether a boat's square may be placed on the position.
    pub open spec fn free(&self, p: (int, int)) -> bool {
        in_grid(p.0, p.1) && !self.touches(p.0, p.1)
    }

    /// The text of row `r` up to column `upto`.
    pub open spec fn row_text(&self, r: int, upto: int) -> Seq<char>
        decreases upto,
    {
        if upto <= 0 {
            Seq::empty()
        } else {
            self.row_text(r, upto - 1).push(self.cell(r, upto - 1) as char)
        }
    }

    /// The text of the rows up to row `upto`, each closed by a line feed.
    pub open spec fn rows_text(&self, upto: int) -> Seq<char>
        decreases upto,
    {
        if upto <= 0 {
            Seq::empty()
        } else {
            self.rows_text(upto - 1) + self.row_text(upto - 1, 20) + seq!['\n']
        }
    }

    /// The board as text: the line of the counts, then the twenty rows.
    pub open spec fn text(&self) -> Seq<char> {
        counts_text(self.spec_boats()) + seq!['\n'] + self.rows_text(20)
    }

    /// An empty board with the first four numbers of `boats` as the counts
    /// of the boats to place.
    pub fn new(boats: &[u8]) -> (b: Board)
        requires
            boats@.len() >= 4,
        ensures
            b.wf(),
            b.spec_boats() == boats@.take(4),
            forall|r: int, c: int| 0 <= r < 20 && 0 <= c < 20 ==> b.cell(r, c) == SEA,
    {
        let mut counts: Vec<u8> = Vec::new();
        let mut i: usize = 0;
        while i < 4
            invariant
                i <= 4,
                boats@.len() >= 4,
                counts@ == boats@.take(i as int),
            decreases 4 - i,
        {
            counts.push(boats[i]);
            i += 1;
            assert(counts@ =~= boats@.take(i as int));
        }
        let mut data: Vec<u8> = Vec::new();
        let mut k: usize = 0;
        while k < BSIZE * BSIZE
            invariant
                k <= 400,
                data@.len() == k,
                forall|j: int| 0 <= j < k ==> data@[j] == SEA,
            decreases 400 - k,
        {
            data.push(SEA);
            k += 1;
        }
        let b = Board { boats: counts, data };
        assert forall|r: int, c: int| 0 <= r < 20 && 0 <= c < 20 implies b.cell(r, c) == SEA by {
            assert(0 <= r * 20 + c < 400);
        }
        b
    }

    /// Whether the position lies on the board.
    pub fn in_bounds(&self, pos: (usize, usize)) -> (b: bool)
        ensures
            b == in_grid(pos.0 as int, pos.1 as int),
    {
        pos.0 >= 1 && pos.0 <= BSIZE && pos.1 >= 1 && pos.1 <= BSIZE
    }

    fn is_boat(&self, x: usize, y: usize) -> (b: bool)
        requires
            self.wf(),
        ensures
            b == self.hit(x as int, y as int),
    {
        if x >= 1 && x <= BSIZE && y >= 1 && y <= BSIZE {
            let idx: usize = (x - 1) * 20 + (y - 1);
            self.data[idx] == BOAT
        } else {
            false
        }
    }

    /// Whether the position is a square of a boat on the board or a
    /// neighbour of one, corners included.
    pub fn cross(&self, pos: (usize, usize)) -> (b: bool)
        requires
            self.wf(),
        ensures
            b == self.touches(pos.0 as int, pos.1 as int),
    {
        if pos.0 > BSIZE + 1 || pos.1 > BSIZE + 1 {
            assert(!self.touches(pos.0 as int, pos.1 as int));
            return false;
        }
        let mut i: usize = 0;
        while i < 3
            invariant
                i <= 3,
                self.wf(),
                pos.0 <= 21,
                pos.1 <= 21,
                forall|dx: int, dy: int|
                    -1 <= dx < i - 1 && -1 <= dy <= 1 ==> !#[trigger] self.hit(pos.0 + dx, pos.1 + dy),
            decreases 3 - i,
        {
            let mut j: usize = 0;
            while j < 3
                invariant
                    i < 3,
                    j <= 3,
                    self.wf(),
                    pos.0 <= 21,
                    pos.1 <= 21,
                    forall|dx: int, dy: int|
                        -1 <= dx < i - 1 && -1 <= dy <= 1 ==> !#[trigger] self.hit(
                            pos.0 + dx,
                            pos.1 + dy,
                        ),
                    forall|dy: int| -1 <= dy < j - 1 ==> !#[trigger] self.hit(pos.0 + i - 1, pos.1 + dy),
                decreases 3 - j,
            {
                if pos.0 + i >= 1 && pos.1 + j >= 1 {
                    if self.is_boat(pos.0 + i - 1, pos.1 + j - 1) {
                        assert(self.hit(pos.0 + (i - 1), pos.1 + (j - 1)));
                        return true;
                    }
                }
                j += 1;
            }
            assert forall|dx: int, dy: int| -1 <= dx < i && -1 <= dy <= 1 implies !#[trigger] self.hit(
                pos.0 + dx,
                pos.1 + dy,
            ) by {
                if dx == i - 1 {
                    assert(!self.hit(pos.0 + i - 1, pos.1 + dy));
                }
            }
            i += 1;
        }
        false
    }
}

impl Board {
    /// Whether square `k` of the boat is the first that may not be placed.
    pub open spec fn first_blocked(&self, boat: Boat, start: (int, int), k: int) -> bool {
        &&& 0 <= k < boat.len()
        &&& !self.free(boat.square(start, k))
        &&& forall|j: int| 0 <= j < k ==> self.free(#[trigger] boat.square(start, j))
    }

    /// Places a boat whose first square is `start`. The boat is refused if
    /// none of its length is left; else if one of its squares lies off the
    /// board or on or beside a boat already placed: the first such square
    /// decides which of the two is reported, off the board before beside a
    /// boat. Else the boat's squares are marked and one boat less of its
    /// length is left to place.
    pub fn add_boat(self, boat: Boat, start: (usize, usize)) -> (r: Result<Board, Error>)
        requires
            self.wf(),
            1 <= boat.len() <= 4,
        ensures
            match r {
                Err(Error::BoatCount) => self.spec_boats()[boat.len() - 1] == 0,
                Err(Error::OutOfBounds) => self.spec_boats()[boat.len() - 1] != 0 && exists|k: int|
                    #[trigger] self.first_blocked(boat, (start.0 as int, start.1 as int), k) && {
                        let p = boat.square((start.0 as int, start.1 as int), k);
                        !in_grid(p.0, p.1)
                    },
                Err(Error::Overlap) => self.spec_boats()[boat.len() - 1] != 0 && exists|k: int|
                    #[trigger] self.first_blocked(boat, (start.0 as int, start.1 as int), k) && {
                        let p = boat.square((start.0 as int, start.1 as int), k);
                        in_grid(p.0, p.1)
                    },
                Ok(b) => {
                    &&& self.spec_boats()[boat.len() - 1] != 0
                    &&& forall|k: int|
                        0 <= k < boat.len() ==> self.free(
                            #[trigger] boat.square((start.0 as int, start.1 as int), k),
                        )
                    &&& b.wf()
                    &&& b.spec_boats() == self.spec_boats().update(
                        boat.len() - 1,
                        (self.spec_boats()[boat.len() - 1] - 1) as u8,
                    )
                    &&& forall|r: int, c: int|
                        0 <= r < 20 && 0 <= c < 20 ==> #[trigger] b.cell(r, c) == if boat.covers(
                            (start.0 as int, start.1 as int),
                            r + 1,
                            c + 1,
                        ) {
                            BOAT
                        } else {
                            self.cell(r, c)
                        }
                },
            },
    {
        let ghost origin = (start.0 as int, start.1 as int);
        let (len, vertical): (usize, bool) = match boat {
            Boat::V(n) => (n, true),
            Boat::H(n) => (n, false),
        };
        let left: u8 = self.boats[len - 1];
        if left == 0 {
            return Err(Error::BoatCount);
        }
        let mut k: usize = 0;
        while k < len
            invariant
                k <= len,
                len == boat.len(),
                1 <= len <= 4,
                vertical == (boat is V),
                origin == (start.0 as int, start.1 as int),
                self.wf(),
                self.spec_boats()[boat.len() - 1] != 0,
                forall|j: int| 0 <= j < k ==> self.free(#[trigger] boat.square(origin, j)),
            decreases len - k,
        {
            if start.0 > BSIZE || start.1 > BSIZE {
                assert(self.first_blocked(boat, origin, k as int));
                return Err(Error::OutOfBounds);
            }
            let pos: (usize, usize) = if vertical {
                (start.0 + k, start.1)
            } else {
                (start.0, start.1 + k)
            };
            assert(boat.square(origin, k as int) == (pos.0 as int, pos.1 as int));
            if !self.in_bounds(pos) {
                assert(self.first_blocked(boat, origin, k as int));
                return Err(Error::OutOfBounds);
            }
            if self.cross(pos) {
                assert(self.first_blocked(boat, origin, k as int));
                return Err(Error::Overlap);
            }
            k += 1;
        }
        assert(self.free(boat.square(origin, 0)));
        assert(self.free(boat.square(origin, len - 1)));
        let mut data: Vec<u8> = Vec::new();
        let mut idx: usize = 0;
        while idx < 400
            invariant
                idx <= 400,
                data@.len() == idx,
                self.wf(),
                len == boat.len(),
                1 <= len <= 4,
                vertical == (boat is V),
                origin == (start.0 as int, start.1 as int),
                1 <= start.0 <= 20,
                1 <= start.1 <= 20,
                forall|i: int|
                    0 <= i < idx ==> #[trigger] data@[i] == if boat.covers(origin, i / 20 + 1, i % 20 + 1) {
                        BOAT
                    } else {
                        self.data@[i]
                    },
            decreases 400 - idx,
        {
            let r: usize = idx / 20;
            let c: usize = idx % 20;
            let on: bool = if vertical {
                c + 1 == start.1 && start.0 <= r + 1 && r + 1 - start.0 < len
            } else {
                r + 1 == start.0 && start.1 <= c + 1 && c + 1 - start.1 < len
            };
            proof {
                if on {
                    let w: int = if vertical {
                        r + 1 - start.0
                    } else {
                        c + 1 - start.1
                    };
                    assert(boat.square(origin, w) == (r + 1, c + 1));
                }
            }
            if on {
                data.push(BOAT);
            } else {
                data.push(self.data[idx]);
            }
            idx += 1;
        }
        let mut boats = self.boats;
        boats.set(len - 1, left - 1);
        let b = Board { boats, data };
        assert forall|r: int, c: int| 0 <= r < 20 && 0 <= c < 20 implies #[trigger] b.cell(r, c)
            == if boat.covers(origin, r + 1, c + 1) {
            BOAT
        } else {
            self.cell(r, c)
        } by {
            let i = r * 20 + c;
            assert(0 <= i < 400);
            assert(i / 20 == r && i % 20 == c);
            assert(b.cell(r, c) == b.data@[i]);
        }
        Ok(b)
    }

    /// The board as text: the counts of the boats to place, each followed
    /// by a space, and a line feed; then each row's twenty bytes as
    /// characters and a line feed.
    pub fn to_string(&self) -> (s: String)
        requires
            self.wf(),
        ensures
            s@ == self.text(),
    {
        let mut text: Vec<char> = Vec::new();
        let mut i: usize = 0;
        assert(self.boats@.take(0) =~= Seq::<u8>::empty());
        while i < self.boats.len()
            invariant
                i <= self.boats.len(),
                text@ == counts_text(self.boats@.take(i as int)),
            decreases self.boats.len() - i,
        {
            assert(self.boats@.take(i + 1).drop_last() =~= self.boats@.take(i as int));
            append_chars(&mut text, &decimal(self.boats[i] as u64));
            text.push(' ');
            i += 1;
            assert(text@ =~= counts_text(self.boats@.take(i as int)));
        }
        assert(self.boats@.take(i as int) =~= self.boats@);
        text.push('\n');
        let ghost head = text@;
        let mut r: usize = 0;
        assert(head + self.rows_text(0) =~= head);
        while r < BSIZE
            invariant
                r <= 20,
                self.wf(),
                head == counts_text(self.spec_boats()) + seq!['\n'],
                text@ == head + self.rows_text(r as int),
            decreases 20 - r,
        {
            let ghost before = text@;
            let mut c: usize = 0;
            assert(before + self.row_text(r as int, 0) =~= before);
            while c < BSIZE
                invariant
                    r < 20,
                    c <= 20,
                    self.wf(),
                    text@ == before + self.row_text(r as int, c as int),
                decreases 20 - c,
            {
                text.push(self.data[r * 20 + c] as char);
                c += 1;
                assert(text@ =~= before + self.row_text(r as int, c as int));
            }
            text.push('\n');
            r += 1;
            assert(text@ =~= head + self.rows_text(r as int));
        }
        string_of_chars(&text)
    }
}

/// The byte that a character leaves when all but its lowest eight bits
/// are cut.
pub open spec fn low_byte(c: char) -> u8 {
    ((c as u32) % 256) as u8
}

/// Whether the words of a line are counts of boats: four at most, each a
/// number of at most 255.
pub open spec fn counts_ok(words: Seq<Seq<char>>) -> bool {
    &&& words.len() <= 4
    &&& forall|j: int| 0 <= j < words.len() ==> (#[trigger] parse_unsigned(words[j], 255)) is Some
}

/// Whether lines are the text of a board: a line of counts, then twenty
/// rows at most of twenty characters at most.
pub open spec fn board_lines_ok(lines: Seq<Seq<char>>, words: Seq<Seq<char>>) -> bool {
    &&& lines.len() <= 21
    &&& lines.len() > 0 ==> counts_ok(words)
    &&& forall|i: int| 1 <= i < lines.len() ==> (#[trigger] lines[i]).len() <= 20
}

impl Board {
    /// Whether the board is the one that lines write, `words` being the
    /// words of the first line: each word a count, in the order of the
    /// words; each later line a row, a byte for each character; every
    /// count and every byte that is not written is zero.
    pub open spec fn written_by(&self, lines: Seq<Seq<char>>, words: Seq<Seq<char>>) -> bool {
        &&& self.wf()
        &&& forall|j: int|
            0 <= j < 4 ==> #[trigger] self.spec_boats()[j] == if lines.len() > 0 && j < words.len() {
                parse_unsigned(words[j], 255)->Some_0 as u8
            } else {
                0u8
            }
        &&& forall|r: int, c: int|
            0 <= r < 20 && 0 <= c < 20 ==> #[trigger] self.cell(r, c) == if r + 1 < lines.len() && c
                < lines[r + 1].len() {
                low_byte(lines[r + 1][c])
            } else {
                0u8
            }
    }

    /// Reads a board from lines and from the words of the first line;
    /// `None` where they are not the text of a board.
    pub fn from_lines(lines: &Vec<Vec<char>>, words: &Vec<Vec<char>>) -> (r: Option<Board>)
        ensures
            match r {
                Some(b) => board_lines_ok(pieces_of(lines@), pieces_of(words@)) && b.written_by(
                    pieces_of(lines@),
                    pieces_of(words@),
                ),
                None => !board_lines_ok(pieces_of(lines@), pieces_of(words@)),
            },
    {
        let ghost ls = pieces_of(lines@);
        let ghost ws = pieces_of(words@);
        if lines.len() > 21 {
            return None;
        }
        let mut boats: Vec<u8> = Vec::new();
        let mut j: usize = 0;
        if lines.len() > 0 && words.len() > 4 {
            return None;
        }
        while j < 4
            invariant
                j <= 4,
                ls == pieces_of(lines@),
                ws == pieces_of(words@),
                lines.len() > 0 ==> words.len() <= 4,
                boats@.len() == j,
                forall|k: int|
                    0 <= k < j ==> #[trigger] boats@[k] == if lines.len() > 0 && k < ws.len() {
                        parse_unsigned(ws[k], 255)->Some_0 as u8
                    } else {
                        0u8
                    },
                forall|k: int|
                    0 <= k < j && k < ws.len() && lines.len() > 0 ==> (#[trigger] parse_unsigned(
                        ws[k],
                        255,
                    )) is Some,
            decreases 4 - j,
        {
            if lines.len() > 0 && j < words.len() {
                assert(ws[j as int] == words@[j as int]@);
                assert(words@[j as int]@.skip(0) =~= words@[j as int]@);
                match parse_number(&words[j], 0, 255) {
                    Some(n) => {
                        boats.push(n as u8);
                    },
                    None => {
                        assert(!counts_ok(ws));
                        return None;
                    },
                }
            } else {
                boats.push(0);
            }
            j += 1;
        }
        let mut data: Vec<u8> = Vec::new();
        let mut idx: usize = 0;
        while idx < 400
            invariant
                idx <= 400,
                data@.len() == idx,
                lines.len() <= 21,
                ls == pieces_of(lines@),
                forall|i: int| 1 <= i < ls.len() && i <= idx / 20 ==> (#[trigger] ls[i]).len() <= 20,
                forall|k: int|
                    0 <= k < idx ==> #[trigger] data@[k] == if k / 20 + 1 < ls.len() && k % 20
                        < ls[k / 20 + 1].len() {
                        low_byte(ls[k / 20 + 1][k % 20])
                    } else {
                        0u8
                    },
            decreases 400 - idx,
        {
            let r: usize = idx / 20;
            let c: usize = idx % 20;
            if r + 1 < lines.len() {
                let line = &lines[r + 1];
                assert(ls[r + 1] == line@);
                if line.len() > 20 {
                    return None;
                }
                if c < line.len() {
                    data.push((line[c] as u32 % 256) as u8);
                } else {
                    data.push(0);
                }
            } else {
                data.push(0);
            }
            idx += 1;
        }
        let b = Board { boats, data };
        proof {
            assert forall|i: int| 1 <= i < ls.len() implies (#[trigger] ls[i]).len() <= 20 by {
                assert(i <= 20);
            }
            assert forall|r: int, c: int| 0 <= r < 20 && 0 <= c < 20 implies #[trigger] b.cell(r, c)
                == if r + 1 < ls.len() && c < ls[r + 1].len() {
                low_byte(ls[r + 1][c])
            } else {
                0u8
            } by {
                let k = r * 20 + c;
                assert(0 <= k < 400 && k / 20 == r && k % 20 == c);
                assert(b.cell(r, c) == b.data@[k]);
            }
            assert(counts_ok(ws) || lines.len() == 0);
        }
        Some(b)
    }

    /// Reads a board from its text; `None` where the text is not one of a
    /// board. The first line holds the counts with white space between
    /// them; each line after it is a row.
    pub fn from(s: String) -> (r: Option<Board>)
        ensures
            match r {
                Some(b) => board_text_ok(s@) && b.written_by(lines_of(s@), first_words(s@)),
                None => !board_text_ok(s@),
            },
    {
        let chars = chars_of(s.as_str());
        let lines = split_lines(&chars);
        let mut words: Vec<Vec<char>> = Vec::new();
        if lines.len() > 0 {
            let first = &lines[0];
            assert(pieces_of(lines@)[0] == first@);
            let blank = mark_blanks(first);
            words = split_marked(first, &blank);
        } else {
            assert(pieces_of(words@) =~= Seq::<Seq<char>>::empty());
        }
        Board::from_lines(&lines, &words)
    }
}

/// The words of the first line of a text; none for a text without lines.
pub open spec fn first_words(s: Seq<char>) -> Seq<Seq<char>> {
    if lines_of(s).len() > 0 {
        marked_words(lines_of(s)[0], blanks_of(lines_of(s)[0]))
    } else {
        Seq::empty()
    }
}

/// Whether a text is the text of a board.
pub open spec fn board_text_ok(s: Seq<char>) -> bool {
    board_lines_ok(lines_of(s), first_words(s))
}

} // verus!
