use vstd::prelude::*;
use crate::text::{
    append_chars, chars_of, decimal, decimal_text, parse_number, parse_unsigned, pieces_of,
    split_chars, split_on, string_of_chars,
};

verus! {

/// Why a product of two numbers could not be given.
#[derive(Debug, PartialEq, Eq, Clone, Copy, Structural)]
pub enum MulError {
    NegativeNumber,
    Overflow,
}

/// The product of two numbers that are not negative, if it fits in 32 bits.
pub fn checked_mul(a: i32, b: i32) -> (r: Result<u32, MulError>)
    ensures
        a < 0 || b < 0 ==> r == Err::<u32, MulError>(MulError::NegativeNumber),
        a >= 0 && b >= 0 && a * b <= u32::MAX ==> r == Ok::<u32, MulError>((a * b) as u32),
        a >= 0 && b >= 0 && a * b > u32::MAX ==> r == Err::<u32, MulError>(MulError::Overflow),
{
    if a < 0 || b < 0 {
        return Err(MulError::NegativeNumber);
    }
    match (a as u32).checked_mul(b as u32) {
        Some(c) => Ok(c),
        None => Err(MulError::Overflow),
    }
}

/// A named record of a size and a count.
pub struct Node {
    name: String,
    size: u32,
    count: u32,
}

/// How a node reads: its name, size and count between braces.
pub open spec fn node_text(name: Seq<char>, size: nat, count: nat) -> Seq<char> {
    seq!['{', ' '] + name + seq![' '] + decimal_text(size) + seq![' '] + decimal_text(count)
        + seq![' ', '}']
}

impl Node {
    pub closed spec fn spec_name(&self) -> Seq<char> {
        self.name@
    }

    pub closed spec fn spec_size(&self) -> nat {
        self.size as nat
    }

    pub closed spec fn spec_count(&self) -> nat {
        self.count as nat
    }

    pub fn new(name: &str) -> (n: Node)
        ensures
            n.spec_name() == name@,
            n.spec_size() == 0,
            n.spec_count() == 0,
    {
        Node { name: string_of_chars(&chars_of(name)), size: 0, count: 0 }
    }

    /// The node with its size replaced.
    pub fn size(self, size: u32) -> (n: Self)
        ensures
            n.spec_name() == self.spec_name(),
            n.spec_size() == size,
            n.spec_count() == self.spec_count(),
    {
        Node { size, name: self.name, count: self.count }
    }

    /// The node with its count replaced.
    pub fn count(self, count: u32) -> (n: Self)
        ensures
            n.spec_name() == self.spec_name(),
            n.spec_size() == self.spec_size(),
            n.spec_count() == count,
    {
        Node { count, name: self.name, size: self.size }
    }

    pub fn to_string(&self) -> (s: String)
        ensures
            s@ == node_text(self.spec_name(), self.spec_size(), self.spec_count()),
    {
        let mut text: Vec<char> = Vec::new();
        text.push('{');
        text.push(' ');
        assert(text@ =~= seq!['{', ' ']);
        append_chars(&mut text, &chars_of(self.name.as_str()));
        text.push(' ');
        append_chars(&mut text, &decimal(self.size as u64));
        text.push(' ');
        append_chars(&mut text, &decimal(self.count as u64));
        text.push(' ');
        text.push('}');
        assert(text@ =~= node_text(self.spec_name(), self.spec_size(), self.spec_count()));
        string_of_chars(&text)
    }

    /// Makes the node one larger.
    pub fn grow(&mut self)
        requires
            old(self).spec_size() < u32::MAX,
        ensures
            final(self).spec_size() == old(self).spec_size() + 1,
            final(self).spec_name() == old(self).spec_name(),
            final(self).spec_count() == old(self).spec_count(),
    {
        self.size += 1;
    }
}

/// The side of the square board.
pub const BSIZE: usize = 20;

/// The byte that marks a square of a boat.
pub const BOAT: u8 = 66;

/// The byte of an empty square.
pub const SEA: u8 = 32;

/// The numbers that a text holds between its commas, each at most 255.
pub open spec fn nums_of(pieces: Seq<Seq<char>>) -> Option<Seq<u8>>
    decreases pieces.len(),
{
    if pieces.len() == 0 {
        Some(Seq::empty())
    } else {
        match (nums_of(pieces.drop_last()), parse_unsigned(pieces.last(), 255)) {
            (Some(head), Some(n)) => Some(head.push(n as u8)),
            _ => None,
        }
    }
}

/// Reads numbers of at most 255 that commas separate; fails if a piece
/// between two commas is not such a number.
pub fn split_nums(s: &str) -> (r: Result<Vec<u8>, ()>)
    ensures
        match nums_of(split_on(s@, ',')) {
            Some(nums) => r is Ok && r->Ok_0@ == nums,
            None => r is Err,
        },
{
    let chars = chars_of(s);
    let pieces = split_chars(&chars, ',');
    let ghost all = pieces_of(pieces@);
    let mut tokens: Vec<u8> = Vec::new();
    let mut i: usize = 0;
    assert(all.take(0) =~= Seq::<Seq<char>>::empty());
    while i < pieces.len()
        invariant
            i <= pieces.len(),
            all == pieces_of(pieces@),
            all == split_on(s@, ','),
            nums_of(all.take(i as int)) == Some(tokens@),
        decreases pieces.len() - i,
    {
        let ghost upto = all.take(i + 1);
        assert(upto.drop_last() =~= all.take(i as int));
        assert(upto.last() == pieces@[i as int]@);
        assert(pieces@[i as int]@.skip(0) =~= pieces@[i as int]@);
        match parse_number(&pieces[i], 0, 255) {
            Some(x) => tokens.push(x as u8),
            None => {
                proof {
                    assert(nums_of(upto) is None);
                    lemma_nums_prefix(all, i + 1);
                }
                return Err(());
            },
        }
        i += 1;
    }
    assert(all.take(i as int) =~= all);
    Ok(tokens)
}

proof fn lemma_nums_prefix(pieces: Seq<Seq<char>>, k: int)
    requires
        0 <= k <= pieces.len(),
        nums_of(pieces.take(k)) is None,
    ensures
        nums_of(pieces) is None,
    decreases pieces.len() - k,
{
    if k == pieces.len() {
        assert(pieces.take(k) =~= pieces);
    } else {
        assert(pieces.take(k + 1).drop_last() =~= pieces.take(k));
        lemma_nums_prefix(pieces, k + 1);
    }
}

/// What can keep a boat off the board.
#[derive(Debug, PartialEq, Eq, Clone, Copy, Structural)]
pub enum Error {
    /// A square of the boat is a boat's square already, or touches one.
    Overlap,
    /// A square of the boat lies off the board.
    OutOfBounds,
    /// No boat of this length is left to place.
    BoatCount,
}

/// A boat of some length, vertical or horizontal.
#[derive(Debug, PartialEq, Eq, Clone, Copy, Structural)]
pub enum Boat {
    V(usize),
    H(usize),
}

impl Boat {
    /// The boat's length.
    pub open spec fn len(self) -> int {
        match self {
            Boat::V(n) => n as int,
            Boat::H(n) => n as int,
        }
    }

    /// The boat's square number `k`, for a boat that starts at `start`:
    /// a vertical boat grows along the first coordinate, a horizontal one
    /// along the second.
    pub open spec fn square(self, start: (int, int), k: int) -> (int, int) {
        match self {
            Boat::V(_) => (start.0 + k, start.1),
            Boat::H(_) => (start.0, start.1 + k),
        }
    }

    /// Whether the boat, starting at `start`, lies on a square.
    pub open spec fn covers(self, start: (int, int), x: int, y: int) -> bool {
        exists|k: int| 0 <= k < self.len() && #[trigger] self.square(start, k) == (x, y)
    }

    /// Reads a boat from `H` or `V` followed by its length in decimal.
    pub fn from_string(s: &str) -> (r: Result<Boat, String>)
        ensures
            s@.len() == 0 ==> r is Err && r->Err_0@ == "Boat: no char found"@,
            s@.len() > 0 && s@[0] != 'H' && s@[0] != 'V' ==> r is Err && r->Err_0@
                == "Boat: invalid boat direction"@,
            s@.len() > 0 && (s@[0] == 'H' || s@[0] == 'V') ==> match parse_unsigned(
                s@.skip(1),
                usize::MAX as nat,
            ) {
                Some(n) => r == Ok::<Boat, String>(
                    if s@[0] == 'H' {
                        Boat::H(n as usize)
                    } else {
                        Boat::V(n as usize)
                    },
                ),
                None => r is Err && r->Err_0@ == "Boat: can't parse boat length"@,
            },
    {
        let chars = chars_of(s);
        if chars.len() == 0 {
            return Err("Boat: no char found".to_owned());
        }
        let c: char = chars[0];
        if c != 'H' && c != 'V' {
            return Err("Boat: invalid boat direction".to_owned());
        }
        match parse_number(&chars, 1, usize::MAX as u64) {
            Some(n) => if c == 'H' {
                Ok(Boat::H(n as usize))
            } else {
                Ok(Boat::V(n as usize))
            },
            None => Err("Boat: can't parse boat length".to_owned()),
        }
    }
}

} // verus!
