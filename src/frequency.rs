use vstd::prelude::*;
use crate::word::{Word, WORD_LEN};
use crate::constraint::{Letter, letters_wf, candidates_of, candidates, lemma_candidates_len};

verus! {

/// Position `p` is known once some constraint fixes the letter there.
pub open spec fn is_known(cs: Seq<Letter>, p: int) -> bool {
    exists|k: int| 0 <= k < cs.len() && (#[trigger] cs[k] matches Letter::YesAt(_, i) && i == p)
}

/// The known-position mask of the constraints `cs`.
pub open spec fn known_mask(cs: Seq<Letter>) -> Seq<bool> {
    Seq::new(5, |p: int| is_known(cs, p))
}

/// Among the first `n` positions of `w`, the open ones (not set in `mask`) that hold `c`.
pub open spec fn open_hits_upto(w: Seq<char>, mask: Seq<bool>, c: char, n: int) -> int
    decreases n,
{
    if n <= 0 {
        0
    } else {
        open_hits_upto(w, mask, c, n - 1) + if !mask[n - 1] && w[n - 1] == c { 1int } else { 0int }
    }
}

/// How often the letter `c` stands at an open position, over the first `n` words of
/// `ws`: the sum, over open positions, of the per-position letter counts.
pub open spec fn letter_weight_upto(ws: Seq<Word>, mask: Seq<bool>, c: char, n: int) -> int
    decreases n,
{
    if n <= 0 {
        0
    } else {
        letter_weight_upto(ws, mask, c, n - 1) + open_hits_upto(ws[n - 1]@, mask, c, 5)
    }
}

pub open spec fn letter_weight(ws: Seq<Word>, mask: Seq<bool>, c: char) -> int {
    letter_weight_upto(ws, mask, c, ws.len() as int)
}

/// The weights of the distinct letters among the first `n` of guess `g`; a repeated
/// letter counts at its first occurrence only.
pub open spec fn coverage_upto(g: Seq<char>, ws: Seq<Word>, mask: Seq<bool>, n: int) -> int
    decreases n,
{
    if n <= 0 {
        0
    } else {
        coverage_upto(g, ws, mask, n - 1) + if g.take(n - 1).contains(g[n - 1]) {
            0
        } else {
            letter_weight(ws, mask, g[n - 1])
        }
    }
}

/// The positional-frequency score of guess `g` against candidates `ws`.
pub open spec fn coverage(g: Seq<char>, ws: Seq<Word>, mask: Seq<bool>) -> int {
    coverage_upto(g, ws, mask, 5)
}

/// `dic[k]` has the highest coverage, the earliest among equals.
pub open spec fn is_best_coverage(dic: Seq<Word>, ws: Seq<Word>, mask: Seq<bool>, k: int) -> bool {
    &&& 0 <= k < dic.len()
    &&& forall|j: int|
        0 <= j < dic.len() ==> coverage((#[trigger] dic[j])@, ws, mask) <= coverage(dic[k]@, ws, mask)
    &&& forall|j: int|
        0 <= j < k ==> coverage((#[trigger] dic[j])@, ws, mask) < coverage(dic[k]@, ws, mask)
}

/// The known-position mask: position `p` is set once a constraint fixes its letter.
pub fn known_positions(result: &Vec<Letter>) -> (r: [bool; 5])
    requires
        letters_wf(result@),
    ensures
        r@ == known_mask(result@),
{
    let mut r: [bool; 5] = [false; 5];
    let mut k: usize = 0;
    while k < result.len()
        invariant
            k <= result@.len(),
            letters_wf(result@),
            forall|p: int|
                0 <= p < 5 ==> (r@[p] <==> exists|j: int|
                    0 <= j < k && (#[trigger] result@[j] matches Letter::YesAt(_, i) && i == p)),
        decreases result@.len() - k,
    {
        if let Letter::YesAt(_, i) = result[k] {
            assert(crate::constraint::letter_wf(result@[k as int]));
            r[i] = true;
        }
        k = k + 1;
    }
    assert(r@ =~= known_mask(result@));
    r
}

fn open_hits(w: &Word, mask: &[bool; 5], c: char) -> (r: u64)
    ensures
        r == open_hits_upto(w@, mask@, c, 5),
        r <= 5,
{
    let mut r: u64 = 0;
    let mut p: usize = 0;
    while p < WORD_LEN
        invariant
            p <= 5,
            r == open_hits_upto(w@, mask@, c, p as int),
            r <= p,
        decreases 5 - p,
    {
        if !mask[p] && w[p] == c {
            r = r + 1;
        }
        p = p + 1;
    }
    r
}

fn weight(ws: &Vec<Word>, mask: &[bool; 5], c: char) -> (r: u64)
    requires
        ws@.len() * 25 <= u64::MAX,
    ensures
        r == letter_weight(ws@, mask@, c),
        r <= 5 * ws@.len(),
{
    let mut r: u64 = 0;
    let mut k: usize = 0;
    while k < ws.len()
        invariant
            k <= ws@.len(),
            ws@.len() * 25 <= u64::MAX,
            r == letter_weight_upto(ws@, mask@, c, k as int),
            r <= 5 * k,
        decreases ws@.len() - k,
    {
        let h = open_hits(&ws[k], mask, c);
        r = r + h;
        k = k + 1;
    }
    r
}

fn seen_before(g: &Word, n: usize) -> (r: bool)
    requires
        n < 5,
    ensures
        r == g@.take(n as int).contains(g@[n as int]),
{
    let mut k: usize = 0;
    while k < n
        invariant
            k <= n < 5,
            forall|j: int| 0 <= j < k ==> g@[j] != g@[n as int],
        decreases n - k,
    {
        if g[k] == g[n] {
            assert(g@.take(n as int)[k as int] == g@[n as int]);
            return true;
        }
        k = k + 1;
    }
    assert(!g@.take(n as int).contains(g@[n as int]));
    false
}

/// The positional-frequency score of `guess` against the candidates `ws` with
/// known-position mask `mask`: over each distinct letter of the guess, how many
/// candidates hold it at each position not yet fixed, summed.
pub fn coverage_score(guess: &Word, ws: &Vec<Word>, mask: &[bool; 5]) -> (r: u64)
    requires
        ws@.len() * 25 <= u64::MAX,
    ensures
        r == coverage(guess@, ws@, mask@),
{
    let mut r: u64 = 0;
    let mut n: usize = 0;
    while n < WORD_LEN
        invariant
            n <= 5,
            ws@.len() * 25 <= u64::MAX,
            r == coverage_upto(guess@, ws@, mask@, n as int),
            r <= 5 * ws@.len() * n,
        decreases 5 - n,
    {
        if !seen_before(guess, n) {
            let w = weight(ws, mask, guess[n]);
            proof {
                assert(5 * ws@.len() * n + 5 * ws@.len() == 5 * ws@.len() * (n + 1))
                    by (nonlinear_arith);
                assert(5 * ws@.len() * (n + 1) <= 25 * ws@.len()) by (nonlinear_arith)
                    requires n + 1 <= 5;
            }
            r = r + w;
        } else {
            proof {
                assert(5 * ws@.len() * n <= 5 * ws@.len() * (n + 1)) by (nonlinear_arith);
            }
        }
        n = n + 1;
    }
    r
}

/// The next guess by positional frequency: `None` when no dictionary word satisfies
/// the constraints; otherwise the dictionary word of highest coverage against the
/// candidates, the earliest among equals.
pub fn frequency_guess(dic: &Vec<Word>, result: &Vec<Letter>) -> (r: Option<Word>)
    requires
        letters_wf(result@),
        dic@.len() * 25 <= u64::MAX,
    ensures
        candidates_of(dic@, result@).len() == 0 <==> r is None,
        r is Some ==> exists|k: int|
            is_best_coverage(dic@, candidates_of(dic@, result@), known_mask(result@), k)
                && r->0 == dic@[k],
{
    let c = candidates(dic, result);
    if c.len() == 0 {
        return None;
    }
    proof {
        lemma_candidates_len(dic@, result@);
    }
    let mask = known_positions(result);
    let mut best: usize = 0;
    let mut best_score: u64 = coverage_score(&dic[0], &c, &mask);
    let mut k: usize = 1;
    while k < dic.len()
        invariant
            1 <= k <= dic@.len(),
            best < k,
            c@.len() * 25 <= u64::MAX,
            best_score == coverage(dic@[best as int]@, c@, mask@),
            forall|j: int| 0 <= j < k ==> coverage((#[trigger] dic@[j])@, c@, mask@) <= best_score,
            forall|j: int| 0 <= j < best ==> coverage((#[trigger] dic@[j])@, c@, mask@) < best_score,
        decreases dic@.len() - k,
    {
        let s = coverage_score(&dic[k], &c, &mask);
        if s > best_score {
            best = k;
            best_score = s;
        }
        k = k + 1;
    }
    assert(is_best_coverage(dic@, c@, mask@, best as int));
    Some(dic[best])
}

} // verus!
