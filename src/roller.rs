use vstd::prelude::*;

use crate::batch::{batch, eval_batch};
use crate::rng::DiceRng;

verus! {

/// The log of a dice-rolling session and the generator its rolls come from.
pub struct DiceRoller {
    pub dice_roll_results: Vec<String>,
    pub rng: DiceRng,
}

/// The texts of a list of strings.
pub open spec fn texts(v: Seq<String>) -> Seq<Seq<char>> {
    v.map_values(|s: String| s@)
}

impl DiceRoller {
    /// The logged lines, oldest first.
    pub open spec fn results(&self) -> Seq<Seq<char>> {
        texts(self.dice_roll_results@)
    }

    /// An empty log whose rolls are drawn from a generator seeded with `seed`.
    pub fn new(seed: u64) -> (r: DiceRoller)
        ensures
            r.results().len() == 0,
            r.rng.state == seed,
    {
        DiceRoller { dice_roll_results: Vec::new(), rng: DiceRng::new(seed) }
    }

    /// Evaluates a comma-separated line of expressions and logs the joined
    /// results as one line.
    pub fn eval_dice_roll(&mut self, command: String)
        ensures
            final(self).results() == old(self).results().push(
                batch(command@, old(self).rng.state).0,
            ),
            final(self).rng.state == batch(command@, old(self).rng.state).1,
    {
        let output = eval_batch(command.as_str(), &mut self.rng);
        let ghost before = self.dice_roll_results@;
        self.dice_roll_results.push(output);
        assert(texts(self.dice_roll_results@) == texts(before).push(output@));
    }

    /// Empties the log.
    pub fn clear_results(&mut self)
        ensures
            final(self).results().len() == 0,
            final(self).rng == old(self).rng,
    {
        self.dice_roll_results.clear();
    }

    /// A copy of the log, oldest line first.
    pub fn get_results(&mut self) -> (r: Vec<String>)
        ensures
            texts(r@) == old(self).results(),
            *final(self) == *old(self),
    {
        let mut r: Vec<String> = Vec::new();
        let mut i: usize = 0;
        while i < self.dice_roll_results.len()
            invariant
                i <= self.dice_roll_results@.len(),
                texts(r@) == self.results().subrange(0, i as int),
            decreases self.dice_roll_results@.len() - i,
        {
            let ghost before = r@;
            r.push(self.dice_roll_results[i].clone());
            i = i + 1;
            assert(texts(r@) == texts(before).push(self.dice_roll_results@[i - 1]@));
            assert(self.results().subrange(0, i as int) == self.results().subrange(
                0,
                i - 1,
            ).push(self.results()[i - 1]));
        }
        assert(self.results().subrange(0, i as int) == self.results());
        r
    }
}

impl Default for DiceRoller {
    fn default() -> (r: DiceRoller)
        ensures
            r.results().len() == 0,
            r.rng.state == 0,
    {
        DiceRoller::new(0)
    }
}

} // verus!
