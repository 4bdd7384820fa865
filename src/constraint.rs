use vstd::prelude::*;
use crate::word::{Word, word_contains};

verus! {

/// One fact drawn from feedback about the hidden answer.
#[derive(Clone, Copy, Debug, PartialEq, Eq, Structural)]
pub enum Letter {
    /// The letter does not occur in the answer.
    Not(char),
    /// The letter is not at this position.
    NotAt(char, usize),
    /// The letter occurs somewhere in the answer.
    Yes(char),
    /// The answer has exactly this letter at this position.
    YesAt(char, usize),
}

/// Every position named by a constraint lies inside a word.
pub open spec fn letter_wf(l: Letter) -> bool {
    match l {
        Letter::NotAt(_, i) => i < 5,
        Letter::YesAt(_, i) => i < 5,
        _ => true,
    }
}

/// Every constraint of `cs` names a position inside a word.
pub open spec fn letters_wf(cs: Seq<Letter>) -> bool {
    forall|k: int| 0 <= k < cs.len() ==> letter_wf(#[trigger] cs[k])
}

/// Whether the word `w` is compatible with the single constraint `l`.
pub open spec fn letter_holds(w: Seq<char>, l: Letter) -> bool {
    match l {
        Letter::Not(c) => !w.contains(c),
        Letter::NotAt(c, i) => w[i as int] != c,
        Letter::Yes(c) => w.contains(c),
        Letter::YesAt(c, i) => w[i as int] == c,
    }
}

/// Whether the word `w` satisfies every constraint of `cs`.
pub open spec fn satisfies(w: Seq<char>, cs: Seq<Letter>) -> bool {
    forall|k: int| 0 <= k < cs.len() ==> letter_holds(w, #[trigger] cs[k])
}

/// The words of `dic` that satisfy `cs`, in dictionary order.
pub open spec fn candidates_of(dic: Seq<Word>, cs: Seq<Letter>) -> Seq<Word>
    decreases dic.len(),
{
    if dic.len() == 0 {
        Seq::empty()
    } else {
        let rest = candidates_of(dic.drop_last(), cs);
        if satisfies(dic.last()@, cs) {
            rest.push(dic.last())
        } else {
            rest
        }
    }
}

/// A word satisfies two batches of constraints together exactly when it satisfies each.
pub proof fn lemma_satisfies_concat(w: Seq<char>, a: Seq<Letter>, b: Seq<Letter>)
    ensures
        satisfies(w, a + b) <==> (satisfies(w, a) && satisfies(w, b)),
{
    if satisfies(w, a + b) {
        assert forall|k: int| 0 <= k < a.len() implies letter_holds(w, #[trigger] a[k]) by {
            assert((a + b)[k] == a[k]);
        }
        assert forall|k: int| 0 <= k < b.len() implies letter_holds(w, #[trigger] b[k]) by {
            assert((a + b)[a.len() + k] == b[k]);
        }
    }
    if satisfies(w, a) && satisfies(w, b) {
        assert forall|k: int| 0 <= k < (a + b).len() implies letter_holds(w, #[trigger] (a + b)[k]) by {
            if k < a.len() {
                assert((a + b)[k] == a[k]);
            } else {
                assert((a + b)[k] == b[k - a.len()]);
            }
        }
    }
}

/// A word is a candidate exactly when it is in the dictionary and satisfies the constraints.
pub proof fn lemma_candidate_iff(dic: Seq<Word>, cs: Seq<Letter>, w: Word)
    ensures
        candidates_of(dic, cs).contains(w) <==> (dic.contains(w) && satisfies(w@, cs)),
    decreases dic.len(),
{
    if dic.len() > 0 {
        let init = dic.drop_last();
        lemma_candidate_iff(init, cs, w);
        assert(dic =~= init.push(dic.last()));
        if dic.contains(w) && w != dic.last() {
            let k = choose|k: int| 0 <= k < dic.len() && dic[k] == w;
            assert(init[k] == w);
        }
        if init.contains(w) {
            let k = choose|k: int| 0 <= k < init.len() && init[k] == w;
            assert(dic[k] == w);
        }
        let rest = candidates_of(init, cs);
        if satisfies(dic.last()@, cs) {
            if rest.push(dic.last()).contains(w) && w != dic.last() {
                let k = choose|k: int| 0 <= k < rest.len() + 1 && rest.push(dic.last())[k] == w;
                assert(rest[k] == w);
            }
            if rest.contains(w) {
                let k = choose|k: int| 0 <= k < rest.len() && rest[k] == w;
                assert(rest.push(dic.last())[k] == w);
            }
            assert(rest.push(dic.last())[rest.len() as int] == dic.last());
        }
        assert(dic[dic.len() - 1] == dic.last());
    }
}

/// There are no more candidates than dictionary words.
pub proof fn lemma_candidates_len(dic: Seq<Word>, cs: Seq<Letter>)
    ensures
        candidates_of(dic, cs).len() <= dic.len(),
    decreases dic.len(),
{
    if dic.len() > 0 {
        lemma_candidates_len(dic.drop_last(), cs);
    }
}

/// Filtering the candidates again with the same constraints changes nothing.
pub proof fn lemma_refilter_idempotent(dic: Seq<Word>, cs: Seq<Letter>)
    ensures
        candidates_of(candidates_of(dic, cs), cs) == candidates_of(dic, cs),
    decreases dic.len(),
{
    if dic.len() > 0 {
        let init = dic.drop_last();
        lemma_refilter_idempotent(init, cs);
        let rest = candidates_of(init, cs);
        if satisfies(dic.last()@, cs) {
            assert(rest.push(dic.last()).drop_last() =~= rest);
        }
    }
}

/// Adding constraints only removes candidates: every word that is a candidate after a
/// batch is appended to the constraints was a candidate before.
pub proof fn lemma_filter_monotone(dic: Seq<Word>, cs: Seq<Letter>, batch: Seq<Letter>, w: Word)
    ensures
        candidates_of(dic, cs + batch).contains(w) ==> candidates_of(dic, cs).contains(w),
{
    lemma_candidate_iff(dic, cs + batch, w);
    lemma_candidate_iff(dic, cs, w);
    lemma_satisfies_concat(w@, cs, batch);
}

/// Whether `word` satisfies every constraint recorded in `result`.
pub fn word_valid(word: &Word, result: &Vec<Letter>) -> (r: bool)
    requires
        letters_wf(result@),
    ensures
        r == satisfies(word@, result@),
{
    let mut k: usize = 0;
    while k < result.len()
        invariant
            k <= result@.len(),
            letters_wf(result@),
            forall|j: int| 0 <= j < k ==> letter_holds(word@, #[trigger] result@[j]),
        decreases result@.len() - k,
    {
        let ok = match result[k] {
            Letter::YesAt(c, i) => word[i] == c,
            Letter::Yes(c) => word_contains(word, c),
            Letter::NotAt(c, i) => word[i] != c,
            Letter::Not(c) => !word_contains(word, c),
        };
        if !ok {
            assert(!letter_holds(word@, result@[k as int]));
            return false;
        }
        k = k + 1;
    }
    true
}

/// Records a batch of constraints after those already known.
pub fn apply(store: &mut Vec<Letter>, batch: &Vec<Letter>)
    ensures
        final(store)@ == old(store)@ + batch@,
{
    let mut k: usize = 0;
    while k < batch.len()
        invariant
            k <= batch@.len(),
            store@ == old(store)@ + batch@.take(k as int),
        decreases batch@.len() - k,
    {
        store.push(batch[k]);
        assert(batch@.take(k + 1) =~= batch@.take(k as int).push(batch@[k as int]));
        k = k + 1;
    }
    assert(batch@.take(batch@.len() as int) =~= batch@);
}

/// The dictionary words that satisfy every recorded constraint, in order.
pub fn candidates(dic: &Vec<Word>, result: &Vec<Letter>) -> (r: Vec<Word>)
    requires
        letters_wf(result@),
    ensures
        r@ == candidates_of(dic@, result@),
{
    let mut r: Vec<Word> = Vec::new();
    let mut k: usize = 0;
    while k < dic.len()
        invariant
            k <= dic@.len(),
            letters_wf(result@),
            r@ == candidates_of(dic@.take(k as int), result@),
        decreases dic@.len() - k,
    {
        assert(dic@.take(k + 1).drop_last() =~= dic@.take(k as int));
        if word_valid(&dic[k], result) {
            r.push(dic[k]);
        }
        k = k + 1;
    }
    assert(dic@.take(dic@.len() as int) =~= dic@);
    r
}

} // verus!
