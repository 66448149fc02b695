//! 5x5 shapes, their 25-bit encodings, and the library of glider patterns.

use vstd::prelude::*;

verus! {

/// The side of a shape, in cells.
pub const SIDE: u32 = 5;

/// The number of cells of a shape.
pub const SHAPE_CELLS: usize = 25;

/// The number of quarter turns that bring a shape back to itself.
pub const TURNS: usize = 4;

/// One more than the largest pattern: 2 to the power 25.
pub const PATTERN_LIMIT: u32 = 0x200_0000;

/// 1 for a live cell, 0 for a dead one.
pub open spec fn bit_value(cell: bool) -> nat {
    if cell {
        1
    } else {
        0
    }
}

/// The number whose binary digits are the first `n` cells, the first cell
/// being the most significant.
pub open spec fn encode_prefix(cells: Seq<bool>, n: nat) -> nat
    decreases n,
{
    if n == 0 {
        0
    } else {
        2 * encode_prefix(cells, (n - 1) as nat) + bit_value(cells[n - 1])
    }
}

/// The pattern of a shape: its cells, row by row, as the digits of a binary
/// number, the first cell being the most significant.
pub open spec fn encode_spec(cells: Seq<bool>) -> nat {
    encode_prefix(cells, cells.len())
}

/// Whether binary digit `k` of `pattern` is 1, digit 0 being the least
/// significant.
pub open spec fn bit(pattern: nat, k: nat) -> bool
    decreases k,
{
    if k == 0 {
        pattern % 2 == 1
    } else {
        bit(pattern / 2, (k - 1) as nat)
    }
}

/// The shape of a pattern: cell `i` is digit `24 - i`.
pub open spec fn decode_spec(pattern: nat) -> Seq<bool> {
    Seq::new(SHAPE_CELLS as nat, |i: int| bit(pattern, (SHAPE_CELLS - 1 - i) as nat))
}

/// The position, in the shape before a quarter turn, of the cell that the
/// turn brings to position `k`: the cell at column `x`, row `y` comes from
/// column `4 - y`, row `x`.
pub open spec fn turn_source(k: int) -> int {
    (k % 5) * 5 + (4 - k / 5)
}

/// The shape after one quarter turn.
pub open spec fn rotate_spec(cells: Seq<bool>) -> Seq<bool> {
    Seq::new(SHAPE_CELLS as nat, |k: int| cells[turn_source(k)])
}

/// The shape after `turns` quarter turns.
pub open spec fn rotated(cells: Seq<bool>, turns: nat) -> Seq<bool>
    decreases turns,
{
    if turns == 0 {
        cells
    } else {
        rotate_spec(rotated(cells, (turns - 1) as nat))
    }
}

/// The glider with three cells in a row.
pub open spec fn straight_glider_spec() -> Seq<bool> {
    seq![
        false, false, false, false, false,
        false, false, true, false, false,
        false, false, false, true, false,
        false, true, true, true, false,
        false, false, false, false, false,
    ]
}

/// The glider one generation before [`straight_glider_spec`].
pub open spec fn bent_glider_spec() -> Seq<bool> {
    seq![
        false, false, false, false, false,
        false, true, false, false, false,
        false, false, true, true, false,
        false, true, true, false, false,
        false, false, false, false, false,
    ]
}

/// The patterns of the four rotations of a shape.
pub open spec fn rotation_patterns(cells: Seq<bool>) -> Set<nat> {
    Set::new(
        |p: nat| exists|turns: nat| turns < TURNS && p == encode_spec(#[trigger] rotated(cells, turns)),
    )
}

/// The patterns of the four rotations of each of two shapes.
pub open spec fn library_spec(first: Seq<bool>, second: Seq<bool>) -> Set<nat> {
    rotation_patterns(first).union(rotation_patterns(second))
}

/// A prefix of `n` cells encodes to a number below 2 to the power `n`.
pub proof fn lemma_encode_bound(cells: Seq<bool>, n: nat)
    ensures
        encode_prefix(cells, n) < vstd::arithmetic::power2::pow2(n),
    decreases n,
{
    if n == 0 {
        vstd::arithmetic::power2::lemma2_to64();
    } else {
        lemma_encode_bound(cells, (n - 1) as nat);
        vstd::arithmetic::power2::lemma_pow2_unfold(n);
    }
}

/// Digit `k` of the encoding of `n` cells is cell `n - 1 - k`.
pub proof fn lemma_encoded_bit(cells: Seq<bool>, n: nat, k: nat)
    requires
        k < n,
    ensures
        bit(encode_prefix(cells, n), k) == cells[n - 1 - k],
    decreases n,
{
    let rest: nat = encode_prefix(cells, (n - 1) as nat);
    let last: nat = bit_value(cells[n - 1]);
    assert((2 * rest + last) % 2 == last && (2 * rest + last) / 2 == rest) by {
        vstd::arithmetic::div_mod::lemma_fundamental_div_mod_converse(
            (2 * rest + last) as int,
            2,
            rest as int,
            last as int,
        );
    }
    if k > 0 {
        lemma_encoded_bit(cells, (n - 1) as nat, (k - 1) as nat);
    }
}

/// Decoding the pattern of a shape gives the shape back.
pub proof fn lemma_decode_encode(cells: Seq<bool>)
    requires
        cells.len() == SHAPE_CELLS,
    ensures
        decode_spec(encode_spec(cells)) == cells,
{
    assert forall|i: int| 0 <= i < SHAPE_CELLS implies decode_spec(encode_spec(cells))[i]
        == cells[i] by {
        lemma_encoded_bit(cells, SHAPE_CELLS as nat, (SHAPE_CELLS - 1 - i) as nat);
    }
}

/// Two shapes with the same pattern are the same shape.
pub proof fn lemma_encode_injective(first: Seq<bool>, second: Seq<bool>)
    requires
        first.len() == SHAPE_CELLS,
        second.len() == SHAPE_CELLS,
        encode_spec(first) == encode_spec(second),
    ensures
        first == second,
{
    lemma_decode_encode(first);
    lemma_decode_encode(second);
}

/// `pattern` without its `k` lowest binary digits.
pub open spec fn without_low_digits(pattern: nat, k: nat) -> nat
    decreases k,
{
    if k == 0 {
        pattern
    } else {
        without_low_digits(pattern / 2, (k - 1) as nat)
    }
}

/// Digit `k` is the lowest digit of what is left without the `k` digits
/// below it, and one digit more is dropped by halving.
proof fn lemma_low_digits(pattern: nat, k: nat)
    ensures
        bit(pattern, k) == (without_low_digits(pattern, k) % 2 == 1),
        without_low_digits(pattern, k + 1) == without_low_digits(pattern, k) / 2,
        pattern < vstd::arithmetic::power2::pow2(k) ==> without_low_digits(pattern, k) == 0,
    decreases k,
{
    if k == 0 {
        vstd::arithmetic::power2::lemma2_to64();
        assert(without_low_digits(pattern, 1) == without_low_digits(pattern / 2, 0));
    } else {
        lemma_low_digits(pattern / 2, (k - 1) as nat);
        vstd::arithmetic::power2::lemma_pow2_unfold(k);
    }
}

/// The first `n` cells of the shape of a pattern encode to the pattern
/// without its `25 - n` lowest digits.
proof fn lemma_encode_decoded_prefix(pattern: nat, n: nat)
    requires
        pattern < PATTERN_LIMIT,
        n <= SHAPE_CELLS,
    ensures
        encode_prefix(decode_spec(pattern), n) == without_low_digits(
            pattern,
            (SHAPE_CELLS - n) as nat,
        ),
    decreases n,
{
    if n == 0 {
        vstd::arithmetic::power2::lemma2_to64();
        lemma_low_digits(pattern, SHAPE_CELLS as nat);
    } else {
        lemma_encode_decoded_prefix(pattern, (n - 1) as nat);
        lemma_low_digits(pattern, (SHAPE_CELLS - n) as nat);
        let left: nat = without_low_digits(pattern, (SHAPE_CELLS - n) as nat);
        assert(left == 2 * (left / 2) + left % 2) by {
            vstd::arithmetic::div_mod::lemma_fundamental_div_mod(left as int, 2);
        }
    }
}

/// Encoding the shape of a pattern gives the pattern back.
pub proof fn lemma_encode_decode(pattern: nat)
    requires
        pattern < PATTERN_LIMIT,
    ensures
        encode_spec(decode_spec(pattern)) == pattern,
{
    lemma_encode_decoded_prefix(pattern, SHAPE_CELLS as nat);
}

/// A quarter turn moves every cell of a shape to a cell of the shape, and
/// four of them bring it back.
pub proof fn lemma_turn_source(k: int)
    requires
        0 <= k < SHAPE_CELLS,
    ensures
        0 <= turn_source(k) < SHAPE_CELLS,
        turn_source(turn_source(turn_source(turn_source(k)))) == k,
{
}

/// Every rotation of a shape is a shape.
pub proof fn lemma_rotated_len(cells: Seq<bool>, turns: nat)
    requires
        cells.len() == SHAPE_CELLS,
    ensures
        rotated(cells, turns).len() == SHAPE_CELLS,
    decreases turns,
{
    if turns > 0 {
        lemma_rotated_len(cells, (turns - 1) as nat);
    }
}

/// Four quarter turns bring a shape back to itself.
pub proof fn lemma_four_turns(cells: Seq<bool>)
    requires
        cells.len() == SHAPE_CELLS,
    ensures
        rotated(cells, TURNS as nat) == cells,
{
    let once: Seq<bool> = rotate_spec(cells);
    let twice: Seq<bool> = rotate_spec(once);
    let thrice: Seq<bool> = rotate_spec(twice);
    let back: Seq<bool> = rotate_spec(thrice);
    assert(rotated(cells, 0) == cells);
    assert(rotated(cells, 1) == once);
    assert(rotated(cells, 2) == twice);
    assert(rotated(cells, 3) == thrice);
    assert forall|k: int| 0 <= k < SHAPE_CELLS implies back[k] == cells[k] by {
        let a: int = turn_source(k);
        let b: int = turn_source(a);
        let c: int = turn_source(b);
        lemma_turn_source(k);
        lemma_turn_source(a);
        lemma_turn_source(b);
        lemma_turn_source(c);
    }
}

/// The patterns of the rotations of a shape are closed under rotation:
/// with the pattern of a shape they hold the pattern of the shape turned by
/// a quarter.
pub proof fn lemma_rotation_closed(cells: Seq<bool>, pattern: nat)
    requires
        cells.len() == SHAPE_CELLS,
        rotation_patterns(cells).contains(pattern),
    ensures
        rotation_patterns(cells).contains(encode_spec(rotate_spec(decode_spec(pattern)))),
{
    let turns: nat = choose|turns: nat|
        turns < TURNS && pattern == encode_spec(#[trigger] rotated(cells, turns));
    lemma_rotated_len(cells, turns);
    lemma_decode_encode(rotated(cells, turns));
    assert(rotate_spec(rotated(cells, turns)) == rotated(cells, turns + 1));
    if turns + 1 == TURNS {
        lemma_four_turns(cells);
        assert(rotate_spec(decode_spec(pattern)) == rotated(cells, 0));
    }
}

/// The library is closed under rotation.
pub proof fn lemma_library_rotation(first: Seq<bool>, second: Seq<bool>, pattern: nat)
    requires
        first.len() == SHAPE_CELLS,
        second.len() == SHAPE_CELLS,
        library_spec(first, second).contains(pattern),
    ensures
        library_spec(first, second).contains(encode_spec(rotate_spec(decode_spec(pattern)))),
{
    if rotation_patterns(first).contains(pattern) {
        lemma_rotation_closed(first, pattern);
    } else {
        lemma_rotation_closed(second, pattern);
    }
}

/// Shifting a number below 2 to the power 31 left by one place and setting
/// the freed digit doubles it and adds the digit.
proof fn lemma_shift_or(acc: u32, digit: u32)
    requires
        acc < 0x8000_0000,
        digit <= 1,
    ensures
        (acc << 1) | digit == 2 * acc + digit,
{
    assert((acc << 1) | digit == 2 * acc + digit) by (bit_vector)
        requires
            acc < 0x8000_0000,
            digit <= 1,
    ;
}

/// Digit `k` of a 32-bit number, by shifting and masking.
proof fn lemma_bit_by_shift(pattern: u32, k: u32)
    requires
        k < 32,
    ensures
        bit(pattern as nat, k as nat) == ((pattern >> k) & 1 == 1),
    decreases k,
{
    if k == 0 {
        assert((pattern >> 0u32) & 1 == pattern % 2) by (bit_vector);
    } else {
        let half: u32 = pattern / 2;
        let below: u32 = (k - 1) as u32;
        lemma_bit_by_shift(half, below);
        assert((half >> below) & 1 == (pattern >> k) & 1) by (bit_vector)
            requires
                half == pattern / 2,
                1 <= k < 32,
                below == k - 1,
        ;
    }
}

/// The pattern of a shape.
pub fn encode(shape: &[bool; 25]) -> (pattern: u32)
    ensures
        pattern == encode_spec(shape@),
        pattern < PATTERN_LIMIT,
{
    let mut pattern: u32 = 0;
    let mut i: usize = 0;
    while i < SHAPE_CELLS
        invariant
            i <= SHAPE_CELLS,
            pattern == encode_prefix(shape@, i as nat),
        decreases SHAPE_CELLS - i,
    {
        let digit: u32 = if shape[i] {
            1
        } else {
            0
        };
        proof {
            lemma_encode_bound(shape@, i as nat);
            vstd::arithmetic::power2::lemma_pow2_strictly_increases(i as nat, 31);
            vstd::arithmetic::power2::lemma2_to64();
            lemma_shift_or(pattern, digit);
        }
        pattern = (pattern << 1) | digit;
        i += 1;
    }
    proof {
        lemma_encode_bound(shape@, SHAPE_CELLS as nat);
        vstd::arithmetic::power2::lemma2_to64();
    }
    pattern
}

/// The shape of a pattern, read from its 25 lowest digits.
pub fn decode(pattern: u32) -> (shape: [bool; 25])
    ensures
        shape@ == decode_spec(pattern as nat),
{
    let mut shape: [bool; 25] = [false; 25];
    let mut i: usize = 0;
    while i < SHAPE_CELLS
        invariant
            i <= SHAPE_CELLS,
            forall|j: int| 0 <= j < i ==> shape@[j] == bit(pattern as nat, (24 - j) as nat),
        decreases SHAPE_CELLS - i,
    {
        let k: u32 = (SHAPE_CELLS - 1 - i) as u32;
        proof {
            lemma_bit_by_shift(pattern, k);
        }
        shape[i] = (pattern >> k) & 1 == 1;
        i += 1;
    }
    shape
}

/// The shape after one quarter turn: the cell at column `x`, row `y` is the
/// one that stood at column `4 - y`, row `x`.
pub fn rotate(shape: &[bool; 25]) -> (turned: [bool; 25])
    ensures
        turned@ == rotate_spec(shape@),
{
    let mut turned: [bool; 25] = [false; 25];
    let mut k: usize = 0;
    while k < SHAPE_CELLS
        invariant
            k <= SHAPE_CELLS,
            forall|j: int| 0 <= j < k ==> turned@[j] == shape@[turn_source(j)],
        decreases SHAPE_CELLS - k,
    {
        turned[k] = shape[(k % 5) * 5 + (4 - k / 5)];
        k += 1;
    }
    turned
}

/// The glider with three cells in a row.
pub fn straight_glider() -> (shape: [bool; 25])
    ensures
        shape@ == straight_glider_spec(),
{
    let shape: [bool; 25] = [
        false, false, false, false, false,
        false, false, true, false, false,
        false, false, false, true, false,
        false, true, true, true, false,
        false, false, false, false, false,
    ];
    shape
}

/// The glider one generation before [`straight_glider`].
pub fn bent_glider() -> (shape: [bool; 25])
    ensures
        shape@ == bent_glider_spec(),
{
    let shape: [bool; 25] = [
        false, false, false, false, false,
        false, true, false, false, false,
        false, false, true, true, false,
        false, true, true, false, false,
        false, false, false, false, false,
    ];
    shape
}

/// The patterns that the detector looks for.
#[derive(Debug)]
pub struct PatternLibrary {
    patterns: Vec<u32>,
}

impl View for PatternLibrary {
    type V = Set<nat>;

    closed spec fn view(&self) -> Set<nat> {
        Set::new(
            |p: nat|
                exists|i: int| 0 <= i < self.patterns@.len() && #[trigger] self.patterns@[i] == p,
        )
    }
}

impl PatternLibrary {
    /// The library of the four rotations of each of two shapes.
    pub fn from_seeds(first: &[bool; 25], second: &[bool; 25]) -> (library: PatternLibrary)
        ensures
            library@ == library_spec(first@, second@),
    {
        let mut patterns: Vec<u32> = Vec::new();
        let mut shape: [bool; 25] = *first;
        let mut turns: usize = 0;
        while turns < TURNS
            invariant
                turns <= TURNS,
                shape@ == rotated(first@, turns as nat),
                patterns@.len() == turns,
                forall|t: int|
                    0 <= t < turns ==> patterns@[t] == encode_spec(
                        #[trigger] rotated(first@, t as nat),
                    ),
            decreases TURNS - turns,
        {
            patterns.push(encode(&shape));
            shape = rotate(&shape);
            turns += 1;
        }
        shape = *second;
        turns = 0;
        while turns < TURNS
            invariant
                turns <= TURNS,
                shape@ == rotated(second@, turns as nat),
                patterns@.len() == TURNS + turns,
                forall|t: int|
                    0 <= t < TURNS ==> patterns@[t] == encode_spec(
                        #[trigger] rotated(first@, t as nat),
                    ),
                forall|t: int|
                    0 <= t < turns ==> patterns@[TURNS + t] == encode_spec(
                        #[trigger] rotated(second@, t as nat),
                    ),
            decreases TURNS - turns,
        {
            patterns.push(encode(&shape));
            shape = rotate(&shape);
            turns += 1;
        }
        let ghost entries: Seq<u32> = patterns@;
        let library: PatternLibrary = PatternLibrary { patterns };
        proof {
            let wanted: Set<nat> = library_spec(first@, second@);
            assert forall|p: nat| library@.contains(p) implies wanted.contains(p) by {
                let i: int = choose|i: int| 0 <= i < entries.len() && #[trigger] entries[i] == p;
                if i < TURNS {
                    assert(p == encode_spec(rotated(first@, i as nat)));
                } else {
                    let t: int = i - TURNS;
                    assert(entries[TURNS + t] == encode_spec(rotated(second@, t as nat)));
                }
            }
            assert forall|p: nat| wanted.contains(p) implies library@.contains(p) by {
                if rotation_patterns(first@).contains(p) {
                    let t: nat = choose|t: nat|
                        t < TURNS && p == encode_spec(#[trigger] rotated(first@, t));
                    let i: int = t as int;
                    assert(entries[i] == encode_spec(rotated(first@, i as nat)));
                } else {
                    let t: nat = choose|t: nat|
                        t < TURNS && p == encode_spec(#[trigger] rotated(second@, t));
                    let i: int = t as int;
                    assert(entries[TURNS + i] == encode_spec(rotated(second@, i as nat)));
                }
            }
        }
        library
    }

    /// The library of the two gliders and their rotations.
    pub fn gliders() -> (library: PatternLibrary)
        ensures
            library@ == library_spec(straight_glider_spec(), bent_glider_spec()),
    {
        let first: [bool; 25] = straight_glider();
        let second: [bool; 25] = bent_glider();
        PatternLibrary::from_seeds(&first, &second)
    }

    /// Whether `pattern` is in the library.
    pub fn contains(&self, pattern: u32) -> (found: bool)
        ensures
            found == self@.contains(pattern as nat),
    {
        let mut i: usize = 0;
        while i < self.patterns.len()
            invariant
                i <= self.patterns.len(),
                forall|j: int| 0 <= j < i ==> self.patterns@[j] != pattern,
            decreases self.patterns.len() - i,
        {
            if self.patterns[i] == pattern {
                return true;
            }
            i += 1;
        }
        false
    }
}

} // verus!
