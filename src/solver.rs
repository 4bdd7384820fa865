use vstd::prelude::*;
use crate::word::Word;
use crate::constraint::{
    Letter, letters_wf, satisfies, candidates_of, candidates, lemma_satisfies_concat,
};
use crate::feedback::{result_of, lemma_wrong_guess_ruled_out};
use crate::scorer::{next_guess, proposes};

verus! {

/// What one round of the solver arrives at when candidates remain.
#[derive(Clone, Copy, Debug)]
pub enum Step {
    /// Exactly one candidate is left: the answer.
    Solved(Word),
    /// Several candidates are left: the word to guess next.
    Guess(Word),
}

/// Why a session cannot go on.
#[derive(Clone, Copy, Debug, PartialEq, Eq, Structural)]
pub enum SolveError {
    /// No dictionary word satisfies the feedback recorded so far.
    NoCandidates,
}

/// One round of the solver: the candidates are recomputed from the dictionary and the
/// constraints; none is an error, one is the answer, and otherwise the next guess is
/// proposed.
pub fn solver_step(dic: &Vec<Word>, result: &Vec<Letter>) -> (r: Result<Step, SolveError>)
    requires
        letters_wf(result@),
        dic@.len() * dic@.len() <= u64::MAX,
    ensures
        ({
            let c = candidates_of(dic@, result@);
            &&& c.len() == 0 <==> r == Err::<Step, SolveError>(SolveError::NoCandidates)
            &&& c.len() == 1 <==> r == Ok::<Step, SolveError>(Step::Solved(c[0]))
            &&& c.len() >= 2 ==> (r matches Ok(Step::Guess(g)) && proposes(dic@, result@, Some(g)))
        }),
{
    let c = candidates(dic, result);
    if c.len() == 0 {
        Err(SolveError::NoCandidates)
    } else if c.len() == 1 {
        Ok(Step::Solved(c[0]))
    } else {
        match next_guess(dic, result) {
            Some(g) => Ok(Step::Guess(g)),
            None => Err(SolveError::NoCandidates),
        }
    }
}

proof fn lemma_fewer_candidates(dic: Seq<Word>, cs: Seq<Letter>, batch: Seq<Letter>, g: Word)
    requires
        dic.contains(g),
        satisfies(g@, cs),
        !satisfies(g@, batch),
    ensures
        candidates_of(dic, cs + batch).len() < candidates_of(dic, cs).len(),
    decreases dic.len(),
{
    let init = dic.drop_last();
    let k = choose|k: int| 0 <= k < dic.len() && dic[k] == g;
    lemma_satisfies_concat(g@, cs, batch);
    lemma_satisfies_concat(dic.last()@, cs, batch);
    if k < dic.len() - 1 {
        assert(init[k] == g);
        lemma_fewer_candidates(init, cs, batch, g);
    } else {
        lemma_no_more_candidates(init, cs, batch);
    }
}

proof fn lemma_no_more_candidates(dic: Seq<Word>, cs: Seq<Letter>, batch: Seq<Letter>)
    ensures
        candidates_of(dic, cs + batch).len() <= candidates_of(dic, cs).len(),
    decreases dic.len(),
{
    if dic.len() > 0 {
        lemma_no_more_candidates(dic.drop_last(), cs, batch);
        lemma_satisfies_concat(dic.last()@, cs, batch);
    }
}

/// Progress of a round: when the guess is itself a candidate and not the answer, the
/// constraints from the answer's feedback on it leave strictly fewer candidates.
pub proof fn lemma_wrong_candidate_guess_shrinks(
    dic: Seq<Word>,
    cs: Seq<Letter>,
    guess: Word,
    answer: Word,
)
    requires
        dic.contains(guess),
        satisfies(guess@, cs),
        guess@ != answer@,
    ensures
        candidates_of(dic, cs + result_of(guess@, answer@)).len() < candidates_of(dic, cs).len(),
{
    lemma_wrong_guess_ruled_out(guess, answer);
    lemma_fewer_candidates(dic, cs, result_of(guess@, answer@), guess);
}

} // verus!
