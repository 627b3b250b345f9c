use vstd::prelude::*;
use crate::text::{chars_of, digit, digit_char, is_digit, string_of_chars};

verus! {

/// Numbers and the operators to put between them.
pub type Combination = (Vec<i32>, Vec<char>);

/// A `Combination` as a mathematical value.
pub type Line = (Seq<i32>, Seq<char>);

/// The arrangements of `k` of the items, as `Itertools::permutations`
/// gives them.
pub uninterp spec fn permutations_of(items: Seq<i32>, k: nat) -> Seq<Seq<i32>>;

/// The rows that take one item from each pool, as
/// `Itertools::multi_cartesian_product` gives them.
pub uninterp spec fn product_of(pools: Seq<Seq<char>>) -> Seq<Seq<char>>;

/// The rows that a vector of vectors holds.
pub open spec fn rows_of<T>(v: Seq<Vec<T>>) -> Seq<Seq<T>> {
    v.map_values(|r: Vec<T>| r@)
}

/// The lines that a vector of combinations holds.
pub open spec fn lines_of(v: Seq<Combination>) -> Seq<Line> {
    v.map_values(|c: Combination| (c.0@, c.1@))
}

/// Calls `Itertools::permutations` on the items and collects what it
/// yields: the arrangements of `k` of the items, a function of the items
/// and of `k`.
#[verifier::external_body]
fn permutations(items: &Vec<i32>, k: usize) -> (r: Vec<Vec<i32>>)
    ensures
        rows_of(r@) == permutations_of(items@, k as nat),
{
    itertools::Itertools::permutations(items.iter().cloned(), k).collect()
}

/// Calls `itertools::repeat_n` and collects what it yields: `n` times the
/// element.
#[verifier::external_body]
fn repeat_n(element: &Vec<char>, n: usize) -> (r: Vec<Vec<char>>)
    ensures
        r@.len() == n,
        forall|i: int| 0 <= i < n ==> (#[trigger] r@[i])@ == element@,
{
    itertools::repeat_n(element.clone(), n).collect()
}

/// Calls `Itertools::multi_cartesian_product` on the pools and collects
/// what it yields: the rows that take one item from each pool, a function
/// of the pools.
#[verifier::external_body]
fn multi_cartesian_product(pools: &Vec<Vec<char>>) -> (r: Vec<Vec<char>>)
    ensures
        rows_of(r@) == product_of(rows_of(pools@)),
{
    itertools::Itertools::multi_cartesian_product(pools.iter().cloned()).collect()
}

/// The four operators.
pub open spec fn operators() -> Seq<char> {
    seq!['+', '-', '*', '/']
}

/// Every way to put four of the four operators in a row.
pub fn mk_ops() -> (r: Vec<Vec<char>>)
    ensures
        rows_of(r@) == product_of(Seq::new(4, |i: int| operators())),
{
    let mut ops: Vec<char> = Vec::new();
    ops.push('+');
    ops.push('-');
    ops.push('*');
    ops.push('/');
    assert(ops@ =~= operators());
    let pools = repeat_n(&ops, 4);
    assert(rows_of(pools@) =~= Seq::new(4, |i: int| operators()));
    multi_cartesian_product(&pools)
}

/// Each row of numbers with each row of operators: the first row of
/// numbers with every row of operators in their order, then the second,
/// and so on.
pub open spec fn pairs_of(nums: Seq<Seq<i32>>, ops: Seq<Seq<char>>) -> Seq<Line>
    decreases nums.len(),
{
    if nums.len() == 0 {
        Seq::empty()
    } else {
        pairs_of(nums.drop_last(), ops) + ops.map_values(|o: Seq<char>| (nums.last(), o))
    }
}

/// The numbers that the digits of a text write, one for each digit.
pub open spec fn digits_of(s: Seq<char>) -> Seq<i32> {
    s.map_values(|c: char| (c as u32 - 48) as i32)
}

fn copy_of<T: Copy>(v: &Vec<T>) -> (r: Vec<T>)
    ensures
        r@ == v@,
{
    let mut r: Vec<T> = Vec::new();
    let mut i: usize = 0;
    while i < v.len()
        invariant
            i <= v.len(),
            r@ == v@.take(i as int),
        decreases v.len() - i,
    {
        r.push(v[i]);
        i += 1;
        assert(r@ =~= v@.take(i as int));
    }
    assert(v@.take(i as int) =~= v@);
    r
}

/// Each row of numbers with each row of operators.
pub fn combine(nums: &Vec<Vec<i32>>, ops: &Vec<Vec<char>>) -> (r: Vec<Combination>)
    ensures
        lines_of(r@) == pairs_of(rows_of(nums@), rows_of(ops@)),
{
    let mut result: Vec<Combination> = Vec::new();
    let ghost all = rows_of(nums@);
    let ghost opss = rows_of(ops@);
    let mut i: usize = 0;
    assert(all.take(0) =~= Seq::<Seq<i32>>::empty());
    assert(lines_of(result@) =~= Seq::<Line>::empty());
    while i < nums.len()
        invariant
            i <= nums.len(),
            all == rows_of(nums@),
            opss == rows_of(ops@),
            lines_of(result@) == pairs_of(all.take(i as int), opss),
        decreases nums.len() - i,
    {
        let ghost before = lines_of(result@);
        let ghost row = nums@[i as int]@;
        assert(all.take(i + 1).drop_last() =~= all.take(i as int));
        assert(all.take(i + 1).last() == row);
        let mut j: usize = 0;
        assert(opss.take(0).map_values(|o: Seq<char>| (row, o)) =~= Seq::<Line>::empty());
        assert(before + Seq::<Line>::empty() =~= before);
        while j < ops.len()
            invariant
                j <= ops.len(),
                i < nums.len(),
                row == nums@[i as int]@,
                opss == rows_of(ops@),
                lines_of(result@) == before + opss.take(j as int).map_values(
                    |o: Seq<char>| (row, o),
                ),
            decreases ops.len() - j,
        {
            let ghost done = lines_of(result@);
            result.push((copy_of(&nums[i]), copy_of(&ops[j])));
            assert(lines_of(result@) =~= done.push((row, opss[j as int])));
            j += 1;
            assert(lines_of(result@) =~= before + opss.take(j as int).map_values(
                |o: Seq<char>| (row, o),
            ));
        }
        assert(opss.take(j as int) =~= opss);
        i += 1;
    }
    assert(all.take(i as int) =~= all);
    result
}

/// Every arrangement of five of the digits of a text with every row of
/// four operators.
pub fn prepare(input: &str) -> (r: Vec<Combination>)
    requires
        crate::text::all_digits(input@),
    ensures
        lines_of(r@) == pairs_of(
            permutations_of(digits_of(input@), 5),
            product_of(Seq::new(4, |i: int| operators())),
        ),
{
    let chars = chars_of(input);
    let mut digits: Vec<i32> = Vec::new();
    let mut i: usize = 0;
    while i < chars.len()
        invariant
            i <= chars.len(),
            chars@ == input@,
            crate::text::all_digits(input@),
            digits@ == digits_of(chars@.take(i as int)),
        decreases chars.len() - i,
    {
        let c: char = chars[i];
        assert(is_digit(chars@[i as int]));
        digits.push((c as u32 - 48) as i32);
        i += 1;
        assert(digits@ =~= digits_of(chars@.take(i as int)));
    }
    assert(chars@.take(i as int) =~= chars@);
    let perms = permutations(&digits, 5);
    let ops = mk_ops();
    combine(&perms, &ops)
}

/// Whether a number fits in 32 bits.
pub open spec fn in_i32(x: int) -> bool {
    i32::MIN <= x <= i32::MAX
}

/// The quotient of two numbers without its fraction.
pub open spec fn quotient(a: int, b: int) -> int {
    let q = (if a >= 0 { a } else { -a }) / (if b >= 0 { b } else { -b });
    if (a >= 0) == (b >= 0) {
        q
    } else {
        -q
    }
}

pub open spec fn is_operator(c: char) -> bool {
    c == '+' || c == '-' || c == '*' || c == '/'
}

/// What an operator makes of two numbers; nothing for a character that is
/// no operator, for a division by zero and for a result that does not fit
/// in 32 bits.
pub open spec fn apply(op: char, a: int, b: int) -> Option<int> {
    let r = if op == '+' {
        Some(a + b)
    } else if op == '-' {
        Some(a - b)
    } else if op == '*' {
        Some(a * b)
    } else if op == '/' && b != 0 {
        Some(quotient(a, b))
    } else {
        None
    };
    match r {
        Some(x) => if in_i32(x) {
            Some(x)
        } else {
            None
        },
        None => None,
    }
}

/// The value of the first `upto` numbers of a line with the operators
/// between them, worked out from the left without regard to precedence.
pub open spec fn eval(nums: Seq<i32>, ops: Seq<char>, upto: int) -> Option<int>
    decreases upto,
{
    if upto <= 1 {
        Some(nums[0] as int)
    } else {
        match eval(nums, ops, upto - 1) {
            Some(a) => apply(ops[upto - 2], a, nums[upto - 1] as int),
            None => None,
        }
    }
}

/// How the first `upto` numbers of a line read: each number as the
/// character that stands that many places behind `0`, a digit for a number
/// up to nine, followed by the operator of its place if there is one.
pub open spec fn line_text(nums: Seq<i32>, ops: Seq<char>, upto: int) -> Seq<char>
    decreases upto,
{
    if upto <= 0 {
        Seq::empty()
    } else {
        let t = line_text(nums, ops, upto - 1).push(digit_char(nums[upto - 1] as int));
        if upto - 1 < ops.len() {
            t.push(ops[upto - 1])
        } else {
            t
        }
    }
}

/// Whether a line can be worked out and written: it has a number, an
/// operator between any two numbers, and each of its numbers has a
/// character of one byte that stands that many places behind `0`.
pub open spec fn wf_line(l: Line) -> bool {
    &&& l.0.len() >= 1
    &&& l.1.len() + 1 >= l.0.len()
    &&& forall|i: int| 0 <= i < l.0.len() ==> 0 <= #[trigger] l.0[i] <= 207
    &&& forall|i: int| 0 <= i < l.0.len() - 1 ==> is_operator(#[trigger] l.1[i])
}

pub open spec fn wf_lines(lines: Seq<Line>) -> bool {
    forall|i: int| 0 <= i < lines.len() ==> wf_line(#[trigger] lines[i])
}

/// The texts of the lines whose value is ten, in the order of the lines.
pub open spec fn solutions(lines: Seq<Line>) -> Seq<Seq<char>>
    decreases lines.len(),
{
    if lines.len() == 0 {
        Seq::empty()
    } else {
        let rest = solutions(lines.drop_last());
        let l = lines.last();
        if eval(l.0, l.1, l.0.len() as int) == Some(10int) {
            rest.push(line_text(l.0, l.1, l.0.len() as int))
        } else {
            rest
        }
    }
}

/// The texts that a vector of strings holds.
pub open spec fn texts_of(v: Seq<String>) -> Seq<Seq<char>> {
    v.map_values(|s: String| s@)
}

fn apply_op(op: char, a: i32, b: i32) -> (r: Option<i32>)
    ensures
        match apply(op, a as int, b as int) {
            Some(x) => r == Some(x as i32),
            None => r is None,
        },
{
    let wide: i64 = if op == '+' {
        a as i64 + b as i64
    } else if op == '-' {
        a as i64 - b as i64
    } else if op == '*' {
        assert(-0x8000_0000 * 0x8000_0000 <= (a as int) * (b as int) <= 0x8000_0000 * 0x8000_0000)
            by (nonlinear_arith)
            requires
                -0x8000_0000 <= a <= 0x8000_0000,
                -0x8000_0000 <= b <= 0x8000_0000,
        ;
        (a as i64) * (b as i64)
    } else if op == '/' && b != 0 {
        let x: i64 = if a >= 0 {
            a as i64
        } else {
            -(a as i64)
        };
        let y: i64 = if b >= 0 {
            b as i64
        } else {
            -(b as i64)
        };
        let q: i64 = x / y;
        assert(0 <= q <= x) by (nonlinear_arith)
            requires
                q == x / y,
                0 <= x,
                0 < y,
        ;
        if (a >= 0) == (b >= 0) {
            q
        } else {
            -q
        }
    } else {
        return None;
    };
    if wide < i32::MIN as i64 || wide > i32::MAX as i64 {
        None
    } else {
        Some(wide as i32)
    }
}

/// The value of a line, if it has one.
pub fn evaluate(nums: &Vec<i32>, ops: &Vec<char>) -> (r: Option<i32>)
    requires
        nums@.len() >= 1,
        ops@.len() + 1 >= nums@.len(),
    ensures
        match eval(nums@, ops@, nums@.len() as int) {
            Some(x) => r == Some(x as i32),
            None => r is None,
        },
{
    let mut res: i32 = nums[0];
    let mut i: usize = 1;
    while i < nums.len()
        invariant
            1 <= i <= nums.len(),
            ops@.len() + 1 >= nums@.len(),
            eval(nums@, ops@, i as int) == Some(res as int),
        decreases nums.len() - i,
    {
        match apply_op(ops[i - 1], res, nums[i]) {
            Some(x) => {
                res = x;
            },
            None => {
                proof {
                    lemma_eval_stays_none(nums@, ops@, i + 1, nums@.len() as int);
                }
                return None;
            },
        }
        i += 1;
    }
    Some(res)
}

proof fn lemma_eval_stays_none(nums: Seq<i32>, ops: Seq<char>, k: int, n: int)
    requires
        1 <= k <= n,
        eval(nums, ops, k) is None,
    ensures
        eval(nums, ops, n) is None,
    decreases n - k,
{
    if k < n {
        lemma_eval_stays_none(nums, ops, k + 1, n);
    }
}

/// The text of a line.
pub fn write_line(nums: &Vec<i32>, ops: &Vec<char>) -> (s: String)
    requires
        forall|i: int| 0 <= i < nums@.len() ==> 0 <= #[trigger] nums@[i] <= 207,
    ensures
        s@ == line_text(nums@, ops@, nums@.len() as int),
{
    let mut text: Vec<char> = Vec::new();
    let mut i: usize = 0;
    while i < nums.len()
        invariant
            i <= nums.len(),
            forall|k: int| 0 <= k < nums@.len() ==> 0 <= #[trigger] nums@[k] <= 207,
            text@ == line_text(nums@, ops@, i as int),
        decreases nums.len() - i,
    {
        assert(0 <= nums@[i as int] <= 207);
        text.push(digit(nums[i] as u8));
        if i < ops.len() {
            text.push(ops[i]);
        }
        i += 1;
    }
    string_of_chars(&text)
}

/// The lines whose value is ten, as texts.
pub fn verify(v: &Vec<Combination>) -> (r: Vec<String>)
    requires
        wf_lines(lines_of(v@)),
    ensures
        texts_of(r@) == solutions(lines_of(v@)),
{
    let mut result: Vec<String> = Vec::new();
    let ghost lines = lines_of(v@);
    let mut i: usize = 0;
    assert(lines.take(0) =~= Seq::<Line>::empty());
    assert(texts_of(result@) =~= Seq::<Seq<char>>::empty());
    while i < v.len()
        invariant
            i <= v.len(),
            lines == lines_of(v@),
            wf_lines(lines),
            texts_of(result@) == solutions(lines.take(i as int)),
        decreases v.len() - i,
    {
        let ghost done = texts_of(result@);
        assert(lines.take(i + 1).drop_last() =~= lines.take(i as int));
        assert(lines.take(i + 1).last() == lines[i as int]);
        assert(wf_line(lines[i as int]));
        assert(lines[i as int] == (v@[i as int].0@, v@[i as int].1@));
        match evaluate(&v[i].0, &v[i].1) {
            Some(res) => {
                if res == 10 {
                    let s = write_line(&v[i].0, &v[i].1);
                    result.push(s);
                    assert(texts_of(result@) =~= done.push(s@));
                }
            },
            None => {},
        }
        i += 1;
    }
    assert(lines.take(i as int) =~= lines);
    result
}

/// Whether a line has one operator less than numbers and the value ten.
pub fn check_tuple(tuple: Combination) -> (b: bool)
    requires
        tuple.0@.len() >= 1,
    ensures
        b == (tuple.0@.len() - 1 == tuple.1@.len() && eval(
            tuple.0@,
            tuple.1@,
            tuple.0@.len() as int,
        ) == Some(10int)),
{
    if tuple.0.len() - 1 != tuple.1.len() {
        return false;
    }
    match evaluate(&tuple.0, &tuple.1) {
        Some(num) => num == 10,
        None => false,
    }
}

/// Whether every line can be worked out and written.
pub fn well_formed(v: &Vec<Combination>) -> (b: bool)
    ensures
        b == wf_lines(lines_of(v@)),
{
    let ghost lines = lines_of(v@);
    let mut i: usize = 0;
    while i < v.len()
        invariant
            i <= v.len(),
            lines == lines_of(v@),
            forall|k: int| 0 <= k < i ==> wf_line(#[trigger] lines[k]),
        decreases v.len() - i,
    {
        let nums = &v[i].0;
        let ops = &v[i].1;
        assert(lines[i as int] == (nums@, ops@));
        if nums.len() < 1 || ops.len() < nums.len() - 1 {
            assert(!wf_line(lines[i as int]));
            return false;
        }
        let mut j: usize = 0;
        while j < nums.len()
            invariant
                j <= nums.len(),
                nums@.len() >= 1,
                ops@.len() + 1 >= nums@.len(),
                i < v.len(),
                lines == lines_of(v@),
                lines[i as int] == (nums@, ops@),
                forall|k: int| 0 <= k < j ==> 0 <= #[trigger] nums@[k] <= 207,
                forall|k: int| 0 <= k < j && k < nums@.len() - 1 ==> is_operator(#[trigger] ops@[k]),
            decreases nums.len() - j,
        {
            if nums[j] < 0 || nums[j] > 207 {
                assert(!(0 <= lines[i as int].0[j as int] <= 207));
                return false;
            }
            if j < nums.len() - 1 {
                let c: char = ops[j];
                if !(c == '+' || c == '-' || c == '*' || c == '/') {
                    assert(!is_operator(lines[i as int].1[j as int]));
                    return false;
                }
            }
            j += 1;
        }
        i += 1;
    }
    true
}

/// The ways to reach ten with five of the digits of a text and four
/// operators between them; `None` for a text that holds anything but
/// digits.
pub fn solve(input: &str) -> (r: Option<Vec<String>>)
    ensures
        match r {
            Some(texts) => {
                let lines = pairs_of(
                    permutations_of(digits_of(input@), 5),
                    product_of(Seq::new(4, |i: int| operators())),
                );
                crate::text::all_digits(input@) && wf_lines(lines) && texts_of(texts@) == solutions(
                    lines,
                )
            },
            None => !crate::text::all_digits(input@) || !wf_lines(
                pairs_of(
                    permutations_of(digits_of(input@), 5),
                    product_of(Seq::new(4, |i: int| operators())),
                ),
            ),
        },
{
    let chars = chars_of(input);
    let mut i: usize = 0;
    while i < chars.len()
        invariant
            i <= chars.len(),
            chars@ == input@,
            forall|k: int| 0 <= k < i ==> is_digit(#[trigger] chars@[k]),
        decreases chars.len() - i,
    {
        let c: char = chars[i];
        if !(c >= '0' && c <= '9') {
            assert(!is_digit(input@[i as int]));
            return None;
        }
        i += 1;
    }
    let lines = prepare(input);
    if well_formed(&lines) {
        Some(verify(&lines))
    } else {
        None
    }
}

} // verus!
