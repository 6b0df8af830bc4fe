//! Dice: the kinds of die, the faces of the narrative dice, and rolling.
//!
//! A roll is made in two steps. First the die draws at random as often as it
//! needs: a narrative die once, for the place of a face in its table; a
//! numeric die once for each of its dice, for the number that the die shows.
//! Then the outcome is computed from the draws, and is fixed by them.

use crate::number::{decimal, decimal_string, lemma_decimal_reads_back, number_of};
use rand::Rng;
use vstd::prelude::*;

verus! {

/// The faces of the boost die.
pub const BOOST: [&'static str; 6] = ["▢", "▢", "✶", "✶℧", "℧℧", "℧"];

/// The faces of the setback die.
pub const SETBACK: [&'static str; 6] = ["▢", "▢", "▼", "▼", "⎔", "⎔"];

/// The faces of the difficulty die.
pub const DIFFICULTY: [&'static str; 8] = ["▢", "▼", "▼▼", "⎔", "⎔", "⎔", "⎔⎔", "▼⎔"];

/// The faces of the proficiency die.
pub const PROFICIENCY: [&'static str; 12] = [
    "▢",
    "✶",
    "✶",
    "✶✶",
    "✶✶",
    "℧",
    "⎈",
    "℧℧",
    "℧℧",
    "✶℧",
    "✶℧",
    "✶℧",
];

/// The faces of the challenge die.
pub const CHALLENGE: [&'static str; 12] = [
    "▼",
    "▼",
    "▼▼",
    "▼▼",
    "⎔",
    "⎔",
    "▼⎔",
    "▼⎔",
    "⎔⎔",
    "⎔⎔",
    "⎊",
    "▢",
];

/// The faces of the force die.
pub const FORCE: [&'static str; 12] = [
    "●",
    "●",
    "●",
    "●",
    "●",
    "●",
    "●●",
    "○",
    "○",
    "○○",
    "○○",
    "○○",
];

/// A die. The six narrative dice have a table of faces each; a numeric die is
/// `num` dice of `dtype` sides each, whose roll is the sum of what they show.
#[derive(Clone, Copy, Debug, PartialEq, Eq, Structural)]
pub enum DieDescriptor {
    Boost,
    Setback,
    Difficulty,
    Proficiency,
    Challenge,
    Force,
    Numeric { num: u16, dtype: u16 },
}

/// What the faces of a table show, each as its characters.
pub open spec fn glyphs(table: Seq<&'static str>) -> Seq<Seq<char>> {
    table.map_values(|face: &'static str| face@)
}

/// A die of `dtype` sides can show `v`: a number from 1 to `dtype`. A die
/// without sides shows 0 and nothing else.
pub open spec fn shows(dtype: u16, v: u16) -> bool {
    if dtype == 0 {
        v == 0
    } else {
        1 <= v <= dtype
    }
}

/// The sum of the draws.
pub open spec fn total(draws: Seq<u16>) -> nat
    decreases draws.len(),
{
    if draws.len() == 0 {
        0
    } else {
        total(draws.drop_last()) + draws.last() as nat
    }
}

impl DieDescriptor {
    /// The table of a narrative die: its faces in their order, a face as often
    /// as the die has it. A numeric die has no table.
    pub open spec fn faces(self) -> Seq<Seq<char>> {
        match self {
            DieDescriptor::Boost => glyphs(BOOST@),
            DieDescriptor::Setback => glyphs(SETBACK@),
            DieDescriptor::Difficulty => glyphs(DIFFICULTY@),
            DieDescriptor::Proficiency => glyphs(PROFICIENCY@),
            DieDescriptor::Challenge => glyphs(CHALLENGE@),
            DieDescriptor::Force => glyphs(FORCE@),
            DieDescriptor::Numeric { .. } => Seq::empty(),
        }
    }

    /// The least sum that a numeric die can roll.
    pub open spec fn least_total(self) -> nat {
        match self {
            DieDescriptor::Numeric { num, dtype } => if dtype == 0 {
                0
            } else {
                num as nat
            },
            _ => 0,
        }
    }

    /// The greatest sum that a numeric die can roll.
    pub open spec fn greatest_total(self) -> nat {
        match self {
            DieDescriptor::Numeric { num, dtype } => num as nat * dtype as nat,
            _ => 0,
        }
    }

    /// The draws that one roll of the die can make: for a narrative die one
    /// draw, a place in its table, counted from 0; for a numeric die one draw
    /// for each of its `num` dice, a number that a die of `dtype` sides shows.
    pub open spec fn valid_draws(self, draws: Seq<u16>) -> bool {
        match self {
            DieDescriptor::Numeric { num, dtype } => {
                &&& draws.len() == num
                &&& forall|k: int| 0 <= k < draws.len() ==> shows(dtype, #[trigger] draws[k])
            },
            _ => draws.len() == 1 && draws[0] < self.faces().len(),
        }
    }

    /// What a roll gives whose draws were `draws`: of a narrative die the face
    /// at the place drawn, of a numeric die the sum of the draws in decimal.
    pub open spec fn outcome_of(self, draws: Seq<u16>) -> Seq<char>
        recommends
            self.valid_draws(draws),
    {
        match self {
            DieDescriptor::Numeric { .. } => decimal(total(draws)),
            _ => self.faces()[draws[0] as int],
        }
    }

    /// A roll of the die can give `out`: for a narrative die a face of its
    /// table, for a numeric die a sum from the least to the greatest, written
    /// in decimal.
    pub open spec fn can_roll(self, out: Seq<char>) -> bool {
        match self {
            DieDescriptor::Numeric { .. } => exists|sum: nat|
                self.least_total() <= sum <= self.greatest_total() && out == #[trigger] decimal(
                    sum,
                ),
            _ => self.faces().contains(out),
        }
    }

    /// The sum of the draws of a numeric die lies between the number of dice,
    /// where the dice have sides, and that number times the sides.
    pub proof fn lemma_total_in_range(self, draws: Seq<u16>)
        requires
            self is Numeric,
            self.valid_draws(draws),
        ensures
            self.least_total() <= total(draws) <= self.greatest_total(),
        decreases draws.len(),
    {
        if draws.len() > 0 {
            let rest = DieDescriptor::Numeric {
                num: (self->num - 1) as u16,
                dtype: self->dtype,
            };
            rest.lemma_total_in_range(draws.drop_last());
            assert(self->num as nat * self->dtype as nat == (self->num - 1) as nat
                * self->dtype as nat + self->dtype as nat) by (nonlinear_arith)
                requires
                    self->num >= 1,
            ;
        }
    }

    /// Whatever the die draws, the outcome is one that a roll can give.
    pub proof fn lemma_outcome_can_be_rolled(self, draws: Seq<u16>)
        requires
            self.valid_draws(draws),
        ensures
            self.can_roll(self.outcome_of(draws)),
    {
        if self is Numeric {
            self.lemma_total_in_range(draws);
        }
    }

    /// Whatever a roll can give has draws that give it: every face of a
    /// table, and every sum from the least to the greatest, can come up.
    pub proof fn lemma_can_roll_has_draws(self, out: Seq<char>)
        requires
            self.can_roll(out),
        ensures
            exists|draws: Seq<u16>| #[trigger]
                self.valid_draws(draws) && out == self.outcome_of(draws),
    {
        match self {
            DieDescriptor::Numeric { num, dtype } => {
                let sum = choose|sum: nat|
                    self.least_total() <= sum <= self.greatest_total() && out == #[trigger] decimal(
                        sum,
                    );
                let draws = draws_for(num, dtype, sum);
                lemma_draws_for(num, dtype, sum);
                assert(self.valid_draws(draws) && out == self.outcome_of(draws));
            },
            _ => {
                let place = choose|i: int| 0 <= i < self.faces().len() && self.faces()[i] == out;
                let draws = seq![place as u16];
                assert(self.valid_draws(draws) && out == self.outcome_of(draws));
            },
        }
    }

    /// What a numeric die can roll reads as a number from the least sum to
    /// the greatest: with at least one side, from the number of dice to that
    /// number times the sides.
    pub proof fn lemma_numeric_roll_in_range(self, out: Seq<char>)
        requires
            self is Numeric,
            self.can_roll(out),
        ensures
            number_of(out) matches Some(sum) && self.least_total() <= sum <= self.greatest_total(),
    {
        let sum = choose|sum: nat|
            self.least_total() <= sum <= self.greatest_total() && out == #[trigger] decimal(sum);
        lemma_decimal_reads_back(sum);
    }

    /// The table of the die; for a numeric die the empty table.
    pub fn table(&self) -> (table: &'static [&'static str])
        ensures
            glyphs(table@) == self.faces(),
    {
        match self {
            DieDescriptor::Boost => &BOOST,
            DieDescriptor::Setback => &SETBACK,
            DieDescriptor::Difficulty => &DIFFICULTY,
            DieDescriptor::Proficiency => &PROFICIENCY,
            DieDescriptor::Challenge => &CHALLENGE,
            DieDescriptor::Force => &FORCE,
            DieDescriptor::Numeric { .. } => &[],
        }
    }

    /// The number of faces in the table of the die; 0 for a numeric die.
    pub fn face_count(&self) -> (n: usize)
        ensures
            n == self.faces().len(),
    {
        self.table().len()
    }

    /// The face at the place `index` of the table, counted from 0; none where
    /// the table has no such place.
    pub fn face(&self, index: usize) -> (face: Option<&'static str>)
        ensures
            face is Some <==> index < self.faces().len(),
            face matches Some(glyph) ==> glyph@ == self.faces()[index as int],
    {
        let table = self.table();
        if index < table.len() {
            Some(table[index])
        } else {
            None
        }
    }

    /// The outcome of a roll whose draws were `draws`; none where the die
    /// cannot make these draws.
    pub fn outcome(&self, draws: &[u16]) -> (out: Option<String>)
        ensures
            out is Some <==> self.valid_draws(draws@),
            out matches Some(text) ==> text@ == self.outcome_of(draws@),
    {
        match self {
            DieDescriptor::Numeric { num, dtype } => {
                if draws.len() != *num as usize {
                    return None;
                }
                let mut sum: u32 = 0;
                let mut i: usize = 0;
                while i < draws.len()
                    invariant
                        *self == (DieDescriptor::Numeric { num: *num, dtype: *dtype }),
                        i <= draws@.len() == *num,
                        sum == total(draws@.take(i as int)),
                        sum <= i * *dtype,
                        forall|k: int| 0 <= k < i ==> shows(*dtype, #[trigger] draws@[k]),
                    decreases draws@.len() - i,
                {
                    let v: u16 = draws[i];
                    if v > *dtype || (v == 0 && *dtype != 0) {
                        assert(!shows(*dtype, draws@[i as int]));
                        return None;
                    }
                    assert(draws@.take(i + 1).drop_last() =~= draws@.take(i as int));
                    assert((i + 1) * *dtype <= 65535 * 65535 && (i + 1) * *dtype == i * *dtype
                        + *dtype) by (nonlinear_arith)
                        requires
                            i < 65535,
                            *dtype <= 65535,
                    ;
                    sum = sum + v as u32;
                    i += 1;
                }
                assert(draws@.take(i as int) =~= draws@);
                Some(decimal_string(sum))
            },
            _ => {
                if draws.len() != 1 {
                    return None;
                }
                match self.face(draws[0] as usize) {
                    Some(glyph) => Some(glyph.to_owned()),
                    None => None,
                }
            },
        }
    }

    /// Draws at random what one roll of the die needs. A die without sides
    /// shows 0 without a draw being made for it.
    pub fn draw(&self) -> (draws: Vec<u16>)
        ensures
            self.valid_draws(draws@),
    {
        let mut draws: Vec<u16> = Vec::new();
        match self {
            DieDescriptor::Numeric { num, dtype } => {
                let mut i: u16 = 0;
                while i < *num
                    invariant
                        i <= *num,
                        draws@.len() == i,
                        forall|k: int| 0 <= k < i ==> shows(*dtype, #[trigger] draws@[k]),
                    decreases *num - i,
                {
                    let v: u16 = if *dtype == 0 {
                        0
                    } else {
                        uniform(1, *dtype)
                    };
                    draws.push(v);
                    i += 1;
                }
            },
            _ => {
                let last: usize = self.face_count() - 1;
                draws.push(uniform(0, last as u16));
            },
        }
        draws
    }

    /// Rolls the die: a face of its table for a narrative die, the sum of
    /// what its dice show, written in decimal, for a numeric die.
    pub fn roll(&self) -> (out: String)
        ensures
            self.can_roll(out@),
            self is Numeric ==> (number_of(out@) matches Some(sum) && self.least_total() <= sum
                <= self.greatest_total()),
    {
        let draws = self.draw();
        proof {
            self.lemma_outcome_can_be_rolled(draws@);
            if self is Numeric {
                self.lemma_numeric_roll_in_range(self.outcome_of(draws@));
            }
        }
        let out = self.outcome(draws.as_slice());
        out.unwrap()
    }
}

/// Draws of `num` dice of `dtype` sides that sum to `sum`: as many dice as
/// it takes show all their sides, one shows what is left, the others show 1.
pub open spec fn draws_for(num: u16, dtype: u16, sum: nat) -> Seq<u16>
    decreases num,
{
    if num == 0 {
        Seq::<u16>::empty()
    } else {
        let rest = (num - 1) as u16;
        let last = if dtype == 0 {
            0u16
        } else if sum - rest >= dtype {
            dtype
        } else {
            (sum - rest) as u16
        };
        draws_for(rest, dtype, (sum - last) as nat).push(last)
    }
}

/// `draws_for` gives draws that the dice can make, with the sum asked for,
/// where the dice can roll that sum.
pub proof fn lemma_draws_for(num: u16, dtype: u16, sum: nat)
    requires
        (DieDescriptor::Numeric { num, dtype }).least_total() <= sum <= (DieDescriptor::Numeric {
            num,
            dtype,
        }).greatest_total(),
    ensures
        (DieDescriptor::Numeric { num, dtype }).valid_draws(draws_for(num, dtype, sum)),
        total(draws_for(num, dtype, sum)) == sum,
    decreases num,
{
    if num > 0 {
        let rest = (num - 1) as u16;
        let last = draws_for(num, dtype, sum).last();
        let before = draws_for(rest, dtype, (sum - last) as nat);
        assert(num as nat * dtype as nat == rest as nat * dtype as nat + dtype as nat)
            by (nonlinear_arith)
            requires
                num == rest + 1,
        ;
        assert(dtype >= 1 ==> rest as nat * dtype as nat >= rest) by (nonlinear_arith);
        assert(dtype == 0 ==> rest as nat * dtype as nat == 0 && num as nat * dtype as nat == 0)
            by (nonlinear_arith);
        lemma_draws_for(rest, dtype, (sum - last) as nat);
        assert(draws_for(num, dtype, sum).drop_last() =~= before);
    }
}

/// A number drawn at random from `lo` to `hi`, both included.
///
/// The draw is made by `gen_range` of `rand::Rng`, called with the range
/// `lo..=hi` on the generator that `rand::thread_rng` gives to the running
/// thread. This function is trusted, not proved: it claims of `gen_range`
/// that the number it returns lies in the range it was given. `gen_range`
/// panics on an empty range, so `lo` may not be above `hi`. Nothing is
/// claimed of how the draws are spread over the range.
#[verifier::external_body]
fn uniform(lo: u16, hi: u16) -> (v: u16)
    requires
        lo <= hi,
    ensures
        lo <= v <= hi,
{
    rand::thread_rng().gen_range(lo..=hi)
}

} // verus!
