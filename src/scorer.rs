use vstd::prelude::*;
use crate::word::Word;
use crate::constraint::{
    Letter, letters_wf, satisfies, candidates_of, candidates, word_valid, lemma_candidates_len,
};
use crate::feedback::{result_of, get_result};

verus! {

/// Among the first `n` words of `ws`, those that do not satisfy `cs`.
pub open spec fn eliminated_upto(cs: Seq<Letter>, ws: Seq<Word>, n: int) -> int
    decreases n,
{
    if n <= 0 {
        0
    } else {
        eliminated_upto(cs, ws, n - 1) + if satisfies(ws[n - 1]@, cs) { 0int } else { 1int }
    }
}

/// The words of `ws` that the constraints `cs` rule out.
pub open spec fn eliminated(cs: Seq<Letter>, ws: Seq<Word>) -> int {
    eliminated_upto(cs, ws, ws.len() as int)
}

/// For each of the first `n` possible answers in `ws`, the candidates that its
/// feedback on `g` would rule out, summed.
pub open spec fn score_upto(g: Word, ws: Seq<Word>, n: int) -> int
    decreases n,
{
    if n <= 0 {
        0
    } else {
        score_upto(g, ws, n - 1) + eliminated(result_of(g@, ws[n - 1]@), ws)
    }
}

/// How useful guess `g` is against the candidates `ws`: over every candidate taken
/// as the answer, the number of candidates its feedback would rule out.
pub open spec fn score_of(g: Word, ws: Seq<Word>) -> int {
    score_upto(g, ws, ws.len() as int)
}

/// `dic[k]` is the guess of highest score against `ws`, the earliest among equals.
pub open spec fn is_best_guess(dic: Seq<Word>, ws: Seq<Word>, k: int) -> bool {
    &&& 0 <= k < dic.len()
    &&& forall|j: int| 0 <= j < dic.len() ==> score_of(#[trigger] dic[j], ws) <= score_of(dic[k], ws)
    &&& forall|j: int| 0 <= j < k ==> score_of(#[trigger] dic[j], ws) < score_of(dic[k], ws)
}

/// The fixed first guess, used before any feedback is known.
pub open spec fn opening() -> Seq<char> {
    Seq::empty().push('t').push('a').push('r').push('e').push('s')
}

/// Whether `r` is the guess to make next from dictionary `dic` under constraints `cs`:
/// none without candidates; the first candidate when fewer than three remain; the
/// opening word before any feedback; otherwise the best-scoring dictionary word.
pub open spec fn proposes(dic: Seq<Word>, cs: Seq<Letter>, r: Option<Word>) -> bool {
    let c = candidates_of(dic, cs);
    &&& c.len() == 0 ==> r is None
    &&& 0 < c.len() < 3 ==> r == Some(c[0])
    &&& c.len() >= 3 && cs.len() == 0 ==> (r is Some && r->0@ == opening())
    &&& c.len() >= 3 && cs.len() > 0 ==> (r is Some && exists|k: int|
        is_best_guess(dic, c, k) && r->0 == dic[k])
}

proof fn lemma_eliminated_bounds(cs: Seq<Letter>, ws: Seq<Word>, n: int)
    ensures
        n >= 0 ==> 0 <= eliminated_upto(cs, ws, n) <= n,
    decreases n,
{
    if n > 0 {
        lemma_eliminated_bounds(cs, ws, n - 1);
    }
}

proof fn lemma_score_bounds(g: Word, ws: Seq<Word>, n: int)
    ensures
        n >= 0 ==> 0 <= score_upto(g, ws, n) <= n * ws.len(),
    decreases n,
{
    if n > 0 {
        lemma_score_bounds(g, ws, n - 1);
        lemma_eliminated_bounds(result_of(g@, ws[n - 1]@), ws, ws.len() as int);
        assert(n * ws.len() == (n - 1) * ws.len() + ws.len()) by (nonlinear_arith);
    }
}

/// The candidates of `ws` that the constraints `cs` rule out.
pub fn count_eliminated(cs: &Vec<Letter>, ws: &Vec<Word>) -> (r: u64)
    requires
        letters_wf(cs@),
        ws@.len() <= u64::MAX,
    ensures
        r == eliminated(cs@, ws@),
{
    let mut r: u64 = 0;
    let mut k: usize = 0;
    while k < ws.len()
        invariant
            k <= ws@.len() <= u64::MAX,
            letters_wf(cs@),
            r == eliminated_upto(cs@, ws@, k as int),
        decreases ws@.len() - k,
    {
        proof {
            lemma_eliminated_bounds(cs@, ws@, k as int);
        }
        if !word_valid(&ws[k], cs) {
            r = r + 1;
        }
        k = k + 1;
    }
    r
}

/// The score of `guess` against the candidates `ws`: for each candidate taken as the
/// answer, the number of candidates that the feedback it gives would rule out.
pub fn score(guess: &Word, ws: &Vec<Word>) -> (r: u64)
    requires
        ws@.len() * ws@.len() <= u64::MAX,
    ensures
        r == score_of(*guess, ws@),
{
    let mut r: u64 = 0;
    let mut k: usize = 0;
    proof {
        if ws@.len() > 0 {
            assert(ws@.len() <= ws@.len() * ws@.len()) by (nonlinear_arith)
                requires ws@.len() > 0;
        }
    }
    while k < ws.len()
        invariant
            k <= ws@.len(),
            ws@.len() <= u64::MAX,
            ws@.len() * ws@.len() <= u64::MAX,
            r == score_upto(*guess, ws@, k as int),
        decreases ws@.len() - k,
    {
        let cs = get_result(guess, &ws[k]);
        let e = count_eliminated(&cs, ws);
        proof {
            lemma_score_bounds(*guess, ws@, k + 1);
            assert((k + 1) * ws@.len() <= ws@.len() * ws@.len()) by (nonlinear_arith)
                requires k + 1 <= ws@.len();
        }
        r = r + e;
        k = k + 1;
    }
    r
}

/// The next word to guess given the dictionary and the constraints recorded so far;
/// `None` when no dictionary word satisfies them. With fewer than three candidates the
/// first of them is proposed; before any feedback the fixed opening word; otherwise
/// the dictionary word of highest score against the candidates, the earliest among equals.
pub fn next_guess(dic: &Vec<Word>, result: &Vec<Letter>) -> (r: Option<Word>)
    requires
        letters_wf(result@),
        dic@.len() * dic@.len() <= u64::MAX,
    ensures
        proposes(dic@, result@, r),
{
    let c = candidates(dic, result);
    if c.len() == 0 {
        return None;
    }
    if c.len() < 3 {
        return Some(c[0]);
    }
    if result.len() == 0 {
        let w: Word = ['t', 'a', 'r', 'e', 's'];
        assert(w@ =~= opening());
        return Some(w);
    }
    proof {
        lemma_candidates_len(dic@, result@);
        assert(c@.len() * c@.len() <= dic@.len() * dic@.len()) by (nonlinear_arith)
            requires c@.len() <= dic@.len();
    }
    let mut best: usize = 0;
    let mut best_score: u64 = score(&dic[0], &c);
    let mut k: usize = 1;
    while k < dic.len()
        invariant
            1 <= k <= dic@.len(),
            best < k,
            c@.len() * c@.len() <= u64::MAX,
            best_score == score_of(dic@[best as int], c@),
            forall|j: int| 0 <= j < k ==> score_of(#[trigger] dic@[j], c@) <= best_score,
            forall|j: int| 0 <= j < best ==> score_of(#[trigger] dic@[j], c@) < best_score,
        decreases dic@.len() - k,
    {
        let s = score(&dic[k], &c);
        if s > best_score {
            best = k;
            best_score = s;
        }
        k = k + 1;
    }
    assert(is_best_guess(dic@, c@, best as int));
    Some(dic[best])
}

} // verus!
