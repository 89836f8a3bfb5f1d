//! Lossy radix decoding of die rolls into a dictionary index.
//!
//! The digit at position `k` (counted from 1) is worth `dict_size / 6^k`
//! index steps per pip above one. The scale comes from the dictionary size,
//! not from a power of the radix, so a dictionary whose size is no power of
//! six is still covered, by a roughly evenly spaced subset of its indices.

use crate::error::DecodeError;
use vstd::arithmetic::div_mod::{lemma_basic_div, lemma_div_denominator, lemma_small_div_converse};
use vstd::arithmetic::power::{lemma_pow_positive, pow};
use vstd::prelude::*;

verus! {

/// Number of faces of the die that the decoder reads.
pub const DIE_SIDES: usize = 6;

/// How many index steps one pip of the digit at `position` (counted from 1)
/// is worth: the dictionary size divided, truncating, by `sides^position`.
pub open spec fn scale(dict_size: nat, sides: nat, position: nat) -> nat {
    (dict_size as int / pow(sides as int, position)) as nat
}

/// The number of leading digit positions whose scale is not zero: how often
/// `dict_size` can be divided by `sides` before the quotient is zero.
pub open spec fn entropy_floor_of(dict_size: nat, sides: nat) -> nat
    decreases dict_size,
    via entropy_floor_of_decreases
{
    if sides < 2 || dict_size / sides == 0 {
        0
    } else {
        1 + entropy_floor_of(dict_size / sides, sides)
    }
}

#[via_fn]
proof fn entropy_floor_of_decreases(dict_size: nat, sides: nat) {
    if sides >= 2 && dict_size / sides != 0 {
        assert(dict_size / sides < dict_size) by (nonlinear_arith)
            requires
                sides >= 2,
                dict_size / sides != 0,
        ;
    }
}

/// The scale of the next position is the scale of this one divided by the
/// radix.
pub proof fn lemma_scale_step(dict_size: nat, sides: nat, position: nat)
    requires
        sides >= 1,
    ensures
        scale(dict_size, sides, 0) == dict_size,
        scale(dict_size, sides, position + 1) == scale(dict_size, sides, position) / sides,
{
    let p = pow(sides as int, position);
    lemma_pow_positive(sides as int, position);
    reveal(pow);
    assert(pow(sides as int, position + 1) == sides as int * p);
    assert(sides as int * p == p * sides as int) by (nonlinear_arith);
    lemma_div_denominator(dict_size as int, p, sides as int);
}

/// The least number of rolls that uses up the dictionary: the digit
/// positions from 1 to the result have a scale above zero, and every later
/// one has scale zero.
pub fn entropy_floor(dict_size: usize, die_sides: usize) -> (rolls: usize)
    requires
        die_sides >= 2,
    ensures
        rolls == entropy_floor_of(dict_size as nat, die_sides as nat),
{
    let mut rest: usize = dict_size;
    let mut rolls: usize = 0;
    while rest / die_sides > 0
        invariant
            die_sides >= 2,
            rolls + rest <= dict_size,
            rolls + entropy_floor_of(rest as nat, die_sides as nat) == entropy_floor_of(
                dict_size as nat,
                die_sides as nat,
            ),
        decreases rest,
    {
        assert(rest / die_sides < rest) by (nonlinear_arith)
            requires
                rest / die_sides > 0,
                die_sides >= 2,
        ;
        rest = rest / die_sides;
        rolls = rolls + 1;
    }
    rolls
}

/// Whether `roll` is a face of the die.
pub open spec fn is_die_face(roll: usize) -> bool {
    1 <= roll <= DIE_SIDES
}

/// How many of `len` supplied rolls the decoder reads when the scheme uses
/// `num_rolls` of them: the smaller of the two.
pub open spec fn rolls_read(len: nat, num_rolls: nat) -> nat {
    if len < num_rolls {
        len
    } else {
        num_rolls
    }
}

/// The position of the first of the leading `count` rolls that is no die
/// face, or `count` if each of them is one.
pub open spec fn first_invalid(rolls: Seq<usize>, count: nat) -> nat
    decreases count,
{
    if count == 0 {
        0
    } else {
        let before = first_invalid(rolls, (count - 1) as nat);
        if before < count - 1 || !is_die_face(rolls[count - 1]) {
            before
        } else {
            count
        }
    }
}

/// The index that the leading `count` rolls stand for, before any offset:
/// the sum over the positions `k` from 1 to `count` of the pips above one
/// of the `k`-th roll times the scale of position `k`.
pub open spec fn raw_index(rolls: Seq<usize>, dict_size: nat, count: nat) -> int
    decreases count,
{
    if count == 0 {
        0
    } else {
        raw_index(rolls, dict_size, (count - 1) as nat) + (rolls[count - 1] - 1) * scale(
            dict_size,
            DIE_SIDES as nat,
            count,
        )
    }
}

/// What decoding yields. The rolls are taken in order, and only the leading
/// `num_rolls` of them: the first that is no die face is reported; failing
/// that, a shortage of rolls; failing that, the index with the offset added
/// is returned if it names a dictionary word, and reported if not.
pub open spec fn decode_outcome(
    rolls: Seq<usize>,
    dict_size: nat,
    num_rolls: nat,
    offset: nat,
) -> Result<usize, DecodeError> {
    let read = rolls_read(rolls.len(), num_rolls);
    let bad = first_invalid(rolls, read);
    let index = raw_index(rolls, dict_size, num_rolls) + offset;
    if bad < read {
        Err(DecodeError::InvalidRoll(rolls[bad as int]))
    } else if rolls.len() < num_rolls {
        Err(DecodeError::InsufficientRolls(rolls.len() as usize, num_rolls as usize))
    } else if index < dict_size {
        Ok(index as usize)
    } else {
        Err(DecodeError::DictionaryOverflow(index as usize, dict_size as usize))
    }
}

/// What `first_invalid` names: every roll before it is a die face, and the
/// roll at it, if there is one among the leading `count`, is none.
pub proof fn lemma_first_invalid(rolls: Seq<usize>, count: nat)
    ensures
        first_invalid(rolls, count) <= count,
        forall|i: int| 0 <= i < first_invalid(rolls, count) ==> is_die_face(#[trigger] rolls[i]),
        first_invalid(rolls, count) < count ==> !is_die_face(
            rolls[first_invalid(rolls, count) as int],
        ),
    decreases count,
{
    if count > 0 {
        lemma_first_invalid(rolls, (count - 1) as nat);
    }
}

/// Where each of the leading `count` rolls is a die face, none is reported.
pub proof fn lemma_first_invalid_none(rolls: Seq<usize>, count: nat)
    requires
        forall|i: int| 0 <= i < count ==> is_die_face(#[trigger] rolls[i]),
    ensures
        first_invalid(rolls, count) == count,
{
    lemma_first_invalid(rolls, count);
}

/// Once a roll that is no die face has been met, reading further rolls does
/// not change which one is reported.
pub proof fn lemma_first_invalid_stays(rolls: Seq<usize>, count: nat, more: nat)
    requires
        first_invalid(rolls, count) < count,
        count <= more,
    ensures
        first_invalid(rolls, more) == first_invalid(rolls, count),
    decreases more,
{
    if count < more {
        lemma_first_invalid_stays(rolls, count, (more - 1) as nat);
    }
}

/// Die faces leave room for the digits still to come: the index of the
/// leading `count` rolls and one scale step of position `count` together do
/// not exceed the dictionary size.
pub proof fn lemma_raw_index_room(rolls: Seq<usize>, dict_size: nat, count: nat)
    requires
        first_invalid(rolls, count) == count,
    ensures
        0 <= raw_index(rolls, dict_size, count),
        raw_index(rolls, dict_size, count) + scale(dict_size, DIE_SIDES as nat, count)
            <= dict_size,
    decreases count,
{
    lemma_scale_step(dict_size, DIE_SIDES as nat, count);
    if count > 0 {
        let before = (count - 1) as nat;
        lemma_first_invalid(rolls, before);
        lemma_raw_index_room(rolls, dict_size, before);
        lemma_scale_step(dict_size, DIE_SIDES as nat, before);
        let pips = rolls[count - 1] - 1;
        let step = scale(dict_size, DIE_SIDES as nat, count);
        assert(0 <= pips * step <= 5 * step) by (nonlinear_arith)
            requires
                0 <= pips <= 5,
                0 <= step,
        ;
    }
}

/// Decodes the leading `num_rolls` die rolls of `rolls` into the index of a
/// word in a dictionary of `dict_size` words, shifted by `offset`.
///
/// Rolls after the leading `num_rolls` are not looked at. The dictionary
/// size and the offset together must fit a machine word, so that an index
/// beyond the dictionary can still be reported.
pub fn decode(rolls: &[usize], dict_size: usize, num_rolls: usize, offset: usize) -> (result:
    Result<usize, DecodeError>)
    requires
        dict_size + offset <= usize::MAX,
    ensures
        result == decode_outcome(rolls@, dict_size as nat, num_rolls as nat, offset as nat),
        result matches Ok(index) ==> offset <= index < dict_size,
{
    let ghost read = rolls_read(rolls@.len(), num_rolls as nat);
    let mut index: usize = 0;
    let mut step: usize = dict_size;
    let mut count: usize = 0;
    proof {
        lemma_scale_step(dict_size as nat, DIE_SIDES as nat, 0);
    }
    while count < num_rolls && count < rolls.len()
        invariant
            count <= read,
            read == rolls_read(rolls@.len(), num_rolls as nat),
            first_invalid(rolls@, count as nat) == count,
            step == scale(dict_size as nat, DIE_SIDES as nat, count as nat),
            index == raw_index(rolls@, dict_size as nat, count as nat),
            index + step <= dict_size,
        decreases num_rolls - count,
    {
        let roll: usize = rolls[count];
        if roll < 1 || roll > DIE_SIDES {
            proof {
                lemma_first_invalid_stays(rolls@, (count + 1) as nat, read);
            }
            return Err(DecodeError::InvalidRoll(roll));
        }
        proof {
            lemma_scale_step(dict_size as nat, DIE_SIDES as nat, count as nat);
            lemma_raw_index_room(rolls@, dict_size as nat, (count + 1) as nat);
        }
        step = step / DIE_SIDES;
        assert((roll - 1) * step <= 5 * step) by (nonlinear_arith)
            requires
                1 <= roll <= 6,
        ;
        index = index + (roll - 1) * step;
        count = count + 1;
    }
    if count < num_rolls {
        return Err(DecodeError::InsufficientRolls(rolls.len(), num_rolls));
    }
    let shifted: usize = index + offset;
    if shifted < dict_size {
        Ok(shifted)
    } else {
        Err(DecodeError::DictionaryOverflow(shifted, dict_size))
    }
}

/// The scale of a position in a dictionary is the scale of the position
/// before it in a dictionary of a `sides`-th of the size.
pub proof fn lemma_scale_shift(dict_size: nat, sides: nat, position: nat)
    requires
        sides >= 1,
    ensures
        scale(dict_size, sides, position + 1) == scale(dict_size / sides, sides, position),
{
    let p = pow(sides as int, position);
    lemma_pow_positive(sides as int, position);
    reveal(pow);
    assert(pow(sides as int, position + 1) == sides as int * p);
    lemma_div_denominator(dict_size as int, sides as int, p);
}

/// The entropy floor counts the digits that matter: a position from 1 on
/// has a scale above zero exactly if it is not beyond the floor.
pub proof fn lemma_entropy_floor_contributing(dict_size: nat, sides: nat, position: nat)
    requires
        sides >= 2,
        position >= 1,
    ensures
        scale(dict_size, sides, position) > 0 <==> position <= entropy_floor_of(dict_size, sides),
    decreases position,
{
    let before = (position - 1) as nat;
    lemma_scale_shift(dict_size, sides, before);
    if before == 0 {
        lemma_scale_step(dict_size / sides, sides, 0);
    } else {
        lemma_entropy_floor_contributing(dict_size / sides, sides, before);
        if dict_size / sides == 0 {
            lemma_pow_positive(sides as int, before);
            lemma_basic_div(0, pow(sides as int, before));
        }
    }
}

/// The entropy floor of a dictionary that is not empty is the whole part of
/// the logarithm of its size to the base `sides`.
pub proof fn lemma_entropy_floor_brackets(dict_size: nat, sides: nat)
    requires
        sides >= 2,
        dict_size >= 1,
    ensures
        pow(sides as int, entropy_floor_of(dict_size, sides)) <= dict_size < pow(
            sides as int,
            entropy_floor_of(dict_size, sides) + 1,
        ),
{
    let floor = entropy_floor_of(dict_size, sides);
    let low = pow(sides as int, floor);
    let high = pow(sides as int, floor + 1);
    lemma_pow_positive(sides as int, floor);
    lemma_pow_positive(sides as int, floor + 1);
    if floor == 0 {
        reveal(pow);
    } else {
        lemma_entropy_floor_contributing(dict_size, sides, floor);
        if dict_size < low {
            lemma_basic_div(dict_size as int, low);
        }
    }
    lemma_entropy_floor_contributing(dict_size, sides, floor + 1);
    lemma_small_div_converse(dict_size as int, high);
}

/// A digit beyond the entropy floor adds nothing: reading more rolls than
/// the floor gives the index that the floor's worth of rolls gives.
pub proof fn lemma_rolls_beyond_floor_add_nothing(rolls: Seq<usize>, dict_size: nat, count: nat)
    requires
        count >= entropy_floor_of(dict_size, DIE_SIDES as nat),
    ensures
        raw_index(rolls, dict_size, count) == raw_index(
            rolls,
            dict_size,
            entropy_floor_of(dict_size, DIE_SIDES as nat),
        ),
    decreases count,
{
    if count > entropy_floor_of(dict_size, DIE_SIDES as nat) {
        lemma_entropy_floor_contributing(dict_size, DIE_SIDES as nat, count);
        lemma_rolls_beyond_floor_add_nothing(rolls, dict_size, (count - 1) as nat);
        let pips = rolls[count - 1] - 1;
        assert(pips * 0 == 0);
    }
}

/// Rolls after the leading `count` have no part in what those decode to.
pub proof fn lemma_leading_rolls_decide(
    rolls: Seq<usize>,
    others: Seq<usize>,
    dict_size: nat,
    count: nat,
)
    requires
        count <= rolls.len(),
        count <= others.len(),
        forall|i: int| 0 <= i < count ==> rolls[i] == others[i],
    ensures
        first_invalid(rolls, count) == first_invalid(others, count),
        raw_index(rolls, dict_size, count) == raw_index(others, dict_size, count),
    decreases count,
{
    if count > 0 {
        lemma_leading_rolls_decide(rolls, others, dict_size, (count - 1) as nat);
    }
}

/// Die faces always stand for a word of a dictionary that is not empty:
/// without an offset the index stays below the dictionary size.
pub proof fn lemma_raw_index_below_dict_size(rolls: Seq<usize>, dict_size: nat, count: nat)
    requires
        first_invalid(rolls, count) == count,
        dict_size >= 1,
    ensures
        0 <= raw_index(rolls, dict_size, count) < dict_size,
    decreases count,
{
    lemma_raw_index_room(rolls, dict_size, count);
    if count > 0 {
        let before = (count - 1) as nat;
        lemma_first_invalid(rolls, before);
        lemma_raw_index_below_dict_size(rolls, dict_size, before);
        let pips = rolls[count - 1] - 1;
        assert(pips * 0 == 0);
    }
}

/// More pips never give a smaller index: if each of the leading `count`
/// rolls of `lower` is at most the roll of `upper` at its place, the index
/// of `lower` is at most that of `upper`.
pub proof fn lemma_raw_index_monotone(
    lower: Seq<usize>,
    upper: Seq<usize>,
    dict_size: nat,
    count: nat,
)
    requires
        count <= lower.len(),
        count <= upper.len(),
        forall|i: int| 0 <= i < count ==> lower[i] <= upper[i],
    ensures
        raw_index(lower, dict_size, count) <= raw_index(upper, dict_size, count),
    decreases count,
{
    if count > 0 {
        lemma_raw_index_monotone(lower, upper, dict_size, (count - 1) as nat);
        let step = scale(dict_size, DIE_SIDES as nat, count);
        let less = lower[count - 1] - 1;
        let more = upper[count - 1] - 1;
        assert(less * step <= more * step) by (nonlinear_arith)
            requires
                less <= more,
                0 <= step,
        ;
    }
}

/// Rolls that all show one pip stand for index zero.
pub proof fn lemma_ones_give_zero(rolls: Seq<usize>, dict_size: nat, count: nat)
    requires
        count <= rolls.len(),
        forall|i: int| 0 <= i < count ==> rolls[i] == 1,
    ensures
        first_invalid(rolls, count) == count,
        raw_index(rolls, dict_size, count) == 0,
    decreases count,
{
    if count > 0 {
        lemma_ones_give_zero(rolls, dict_size, (count - 1) as nat);
    }
}

/// A decoded index names a word: whatever the rolls, success means an index
/// from `offset` up to, and not including, the dictionary size.
pub proof fn lemma_decode_in_range(rolls: Seq<usize>, dict_size: nat, num_rolls: nat, offset: nat)
    requires
        dict_size + offset <= usize::MAX,
    ensures
        decode_outcome(rolls, dict_size, num_rolls, offset) matches Ok(index) ==> offset <= index
            < dict_size,
{
    let read = rolls_read(rolls.len(), num_rolls);
    lemma_first_invalid(rolls, read);
    if first_invalid(rolls, read) == read && rolls.len() >= num_rolls {
        lemma_raw_index_room(rolls, dict_size, num_rolls);
    }
}

/// When success is owed: enough rolls, each of those read a die face, give
/// an index if, and only if, the index with the offset added names a word;
/// without an offset that is so for every dictionary that is not empty.
pub proof fn lemma_decode_succeeds(rolls: Seq<usize>, dict_size: nat, num_rolls: nat, offset: nat)
    requires
        dict_size + offset <= usize::MAX,
        num_rolls <= rolls.len(),
        forall|i: int| 0 <= i < num_rolls ==> is_die_face(#[trigger] rolls[i]),
    ensures
        raw_index(rolls, dict_size, num_rolls) + offset < dict_size ==> decode_outcome(
            rolls,
            dict_size,
            num_rolls,
            offset,
        ) == Ok::<usize, DecodeError>((raw_index(rolls, dict_size, num_rolls) + offset) as usize),
        raw_index(rolls, dict_size, num_rolls) + offset >= dict_size ==> decode_outcome(
            rolls,
            dict_size,
            num_rolls,
            offset,
        ) == Err::<usize, DecodeError>(
            DecodeError::DictionaryOverflow(
                (raw_index(rolls, dict_size, num_rolls) + offset) as usize,
                dict_size as usize,
            ),
        ),
        offset == 0 && dict_size >= 1 ==> decode_outcome(rolls, dict_size, num_rolls, offset)
            is Ok,
{
    lemma_first_invalid(rolls, num_rolls);
    if dict_size >= 1 {
        lemma_raw_index_below_dict_size(rolls, dict_size, num_rolls);
    }
}

/// A roll that is no die face, among those read, is never passed over: the
/// outcome reports the first such roll.
pub proof fn lemma_invalid_roll_rejected(
    rolls: Seq<usize>,
    dict_size: nat,
    num_rolls: nat,
    offset: nat,
    position: int,
)
    requires
        0 <= position < rolls_read(rolls.len(), num_rolls),
        !is_die_face(rolls[position]),
    ensures
        decode_outcome(rolls, dict_size, num_rolls, offset) matches Err(
            DecodeError::InvalidRoll(roll),
        ) && !is_die_face(roll) && first_invalid(rolls, rolls_read(rolls.len(), num_rolls))
            <= position,
{
    lemma_first_invalid(rolls, rolls_read(rolls.len(), num_rolls));
}

/// Too few rolls, all of them die faces, are reported as a shortage, with
/// the number that came and the number needed.
pub proof fn lemma_short_rolls_rejected(
    rolls: Seq<usize>,
    dict_size: nat,
    num_rolls: nat,
    offset: nat,
)
    requires
        rolls.len() < num_rolls <= usize::MAX,
        forall|i: int| 0 <= i < rolls.len() ==> is_die_face(#[trigger] rolls[i]),
    ensures
        decode_outcome(rolls, dict_size, num_rolls, offset) == Err::<usize, DecodeError>(
            DecodeError::InsufficientRolls(rolls.len() as usize, num_rolls as usize),
        ),
{
    lemma_first_invalid(rolls, rolls.len());
}

/// Rolls beyond the leading `num_rolls` are ignored.
pub proof fn lemma_trailing_rolls_ignored(
    rolls: Seq<usize>,
    dict_size: nat,
    num_rolls: nat,
    offset: nat,
)
    requires
        num_rolls <= rolls.len(),
    ensures
        decode_outcome(rolls, dict_size, num_rolls, offset) == decode_outcome(
            rolls.take(num_rolls as int),
            dict_size,
            num_rolls,
            offset,
        ),
{
    lemma_leading_rolls_decide(rolls, rolls.take(num_rolls as int), dict_size, num_rolls);
    lemma_first_invalid(rolls, num_rolls);
}

/// Six pips on every die give the highest index that die faces can reach,
/// and it still names a word of a dictionary that is not empty.
pub proof fn lemma_sixes_give_highest(
    rolls: Seq<usize>,
    sixes: Seq<usize>,
    dict_size: nat,
    count: nat,
)
    requires
        count <= rolls.len(),
        count <= sixes.len(),
        forall|i: int| 0 <= i < count ==> is_die_face(#[trigger] rolls[i]),
        forall|i: int| 0 <= i < count ==> sixes[i] == DIE_SIDES,
        dict_size >= 1,
    ensures
        0 <= raw_index(rolls, dict_size, count) <= raw_index(sixes, dict_size, count) < dict_size,
{
    lemma_raw_index_monotone(rolls, sixes, dict_size, count);
    lemma_first_invalid_none(rolls, count);
    lemma_first_invalid_none(sixes, count);
    lemma_raw_index_below_dict_size(rolls, dict_size, count);
    lemma_raw_index_below_dict_size(sixes, dict_size, count);
}

/// One pip on every die that is read gives the first word that the scheme
/// can give: the one at the offset.
pub proof fn lemma_ones_decode_to_offset(
    rolls: Seq<usize>,
    dict_size: nat,
    num_rolls: nat,
    offset: nat,
)
    requires
        num_rolls <= rolls.len(),
        forall|i: int| 0 <= i < num_rolls ==> rolls[i] == 1,
        offset < dict_size <= usize::MAX,
    ensures
        decode_outcome(rolls, dict_size, num_rolls, offset) == Ok::<usize, DecodeError>(
            offset as usize,
        ),
{
    lemma_ones_give_zero(rolls, dict_size, num_rolls);
}

/// Decoding is repeatable: rolls that agree in the leading `num_rolls`
/// places, under one scheme, have one outcome.
pub proof fn lemma_decode_repeatable(
    rolls: Seq<usize>,
    again: Seq<usize>,
    dict_size: nat,
    num_rolls: nat,
    offset: nat,
)
    requires
        rolls.len() == again.len() || (rolls.len() >= num_rolls && again.len() >= num_rolls),
        forall|i: int|
            0 <= i < rolls_read(rolls.len(), num_rolls) ==> rolls[i] == again[i],
    ensures
        decode_outcome(rolls, dict_size, num_rolls, offset) == decode_outcome(
            again,
            dict_size,
            num_rolls,
            offset,
        ),
{
    let read = rolls_read(rolls.len(), num_rolls);
    lemma_leading_rolls_decide(rolls, again, dict_size, read);
    lemma_first_invalid(rolls, read);
}

} // verus!
