use vstd::prelude::*;
use vstd::std_specs::iter::IteratorSpec;
use crate::word::{Word, WORD_LEN};
use crate::constraint::{
    Letter, letter_wf, letters_wf, letter_holds, satisfies, candidates_of, lemma_satisfies_concat,
    lemma_candidate_iff,
};

verus! {

/// Feedback symbol: the letter is at this position of the answer.
pub const CORRECT: char = 'c';

/// Feedback symbol: the letter occurs in the answer, elsewhere.
pub const MISPLACED: char = 'x';

/// Feedback symbol: the letter does not occur in the answer.
pub const ABSENT: char = 'w';

/// One for a position that is counted, zero for one that is not.
pub open spec fn ind(b: bool) -> int {
    if b { 1 } else { 0 }
}

/// Among the first `n` positions, those where `s` holds `c`.
pub open spec fn count_upto(s: Seq<char>, c: char, n: int) -> int
    decreases n,
{
    if n <= 0 { 0 } else { count_upto(s, c, n - 1) + ind(s[n - 1] == c) }
}

/// Among the first `n` positions, those where guess and answer agree on `c`.
pub open spec fn exact_upto(g: Seq<char>, a: Seq<char>, c: char, n: int) -> int
    decreases n,
{
    if n <= 0 { 0 } else { exact_upto(g, a, c, n - 1) + ind(g[n - 1] == c && a[n - 1] == c) }
}

/// Among the first `n` positions, those where the answer holds `c` and the guess differs.
pub open spec fn unmatched_upto(g: Seq<char>, a: Seq<char>, c: char, n: int) -> int
    decreases n,
{
    if n <= 0 { 0 } else { unmatched_upto(g, a, c, n - 1) + ind(a[n - 1] == c && g[n - 1] != c) }
}

/// Among the first `n` positions, those where the guess holds `c` and the answer differs.
pub open spec fn stray_upto(g: Seq<char>, a: Seq<char>, c: char, n: int) -> int
    decreases n,
{
    if n <= 0 { 0 } else { stray_upto(g, a, c, n - 1) + ind(g[n - 1] == c && a[n - 1] != c) }
}

/// The symbol that answer `a` gives at position `i` of guess `g`: exact matches
/// first; a misplaced letter is marked present only while the answer still has an
/// unmatched occurrence of it, counting earlier misplaced ones from the left.
pub open spec fn mark(g: Seq<char>, a: Seq<char>, i: int) -> char {
    if g[i] == a[i] {
        CORRECT
    } else if stray_upto(g, a, g[i], i) < unmatched_upto(g, a, g[i], 5) {
        MISPLACED
    } else {
        ABSENT
    }
}

/// The five feedback symbols that answer `a` gives for guess `g`.
pub open spec fn feedback_of(g: Seq<char>, a: Seq<char>) -> Seq<char> {
    Seq::new(5, |i: int| mark(g, a, i))
}

/// The constraints one feedback symbol yields for letter `c` at position `i`;
/// an unrecognised symbol yields none.
pub open spec fn symbol_letters(c: char, i: usize, s: char) -> Seq<Letter> {
    if s == CORRECT {
        Seq::empty().push(Letter::YesAt(c, i))
    } else if s == MISPLACED {
        Seq::empty().push(Letter::NotAt(c, i)).push(Letter::Yes(c))
    } else if s == ABSENT {
        Seq::empty().push(Letter::Not(c))
    } else {
        Seq::empty()
    }
}

/// The constraints from the first `n` feedback symbols, position by position.
pub open spec fn letters_upto(g: Seq<char>, f: Seq<char>, n: int) -> Seq<Letter>
    decreases n,
{
    if n <= 0 {
        Seq::empty()
    } else {
        letters_upto(g, f, n - 1) + symbol_letters(g[n - 1], (n - 1) as usize, f[n - 1])
    }
}

/// The constraints that feedback `f` on guess `g` yields: its first five symbols
/// are read, and a shorter feedback yields constraints for what it has.
pub open spec fn feedback_letters(g: Seq<char>, f: Seq<char>) -> Seq<Letter> {
    letters_upto(g, f, if f.len() < 5 { f.len() as int } else { 5 })
}

/// The constraints that honest feedback from answer `a` on guess `g` yields.
pub open spec fn result_of(g: Seq<char>, a: Seq<char>) -> Seq<Letter> {
    feedback_letters(g, feedback_of(g, a))
}

fn count_stray(guess: &Word, answer: &Word, c: char, n: usize) -> (r: usize)
    requires
        n <= 5,
    ensures
        r == stray_upto(guess@, answer@, c, n as int),
{
    let mut r: usize = 0;
    let mut k: usize = 0;
    while k < n
        invariant
            k <= n <= 5,
            r == stray_upto(guess@, answer@, c, k as int),
            r <= k,
        decreases n - k,
    {
        if guess[k] == c && answer[k] != c {
            r = r + 1;
        }
        k = k + 1;
    }
    r
}

fn count_unmatched(guess: &Word, answer: &Word, c: char) -> (r: usize)
    ensures
        r == unmatched_upto(guess@, answer@, c, 5),
{
    let mut r: usize = 0;
    let mut k: usize = 0;
    while k < WORD_LEN
        invariant
            k <= 5,
            r == unmatched_upto(guess@, answer@, c, k as int),
            r <= k,
        decreases 5 - k,
    {
        if answer[k] == c && guess[k] != c {
            r = r + 1;
        }
        k = k + 1;
    }
    r
}

/// The feedback that `answer` gives for `guess`, one symbol per position.
pub fn simulate_feedback(guess: &Word, answer: &Word) -> (r: Vec<char>)
    ensures
        r@ == feedback_of(guess@, answer@),
{
    let mut r: Vec<char> = Vec::new();
    let mut i: usize = 0;
    while i < WORD_LEN
        invariant
            i <= 5,
            r@.len() == i,
            forall|k: int| 0 <= k < i ==> r@[k] == mark(guess@, answer@, k),
        decreases 5 - i,
    {
        let g = guess[i];
        if g == answer[i] {
            r.push(CORRECT);
        } else if count_stray(guess, answer, g, i) < count_unmatched(guess, answer, g) {
            r.push(MISPLACED);
        } else {
            r.push(ABSENT);
        }
        i = i + 1;
    }
    assert(r@ =~= feedback_of(guess@, answer@));
    r
}

proof fn lemma_letters_upto_wf(g: Seq<char>, f: Seq<char>, n: int)
    requires
        n <= 5,
    ensures
        letters_wf(letters_upto(g, f, n)),
    decreases n,
{
    if n > 0 {
        lemma_letters_upto_wf(g, f, n - 1);
        let a = letters_upto(g, f, n - 1);
        let b = symbol_letters(g[n - 1], (n - 1) as usize, f[n - 1]);
        lemma_symbol_wf(g[n - 1], (n - 1) as usize, f[n - 1]);
        assert forall|k: int| 0 <= k < (a + b).len() implies letter_wf(
            #[trigger] (a + b)[k],
        ) by {
            if k >= a.len() {
                assert((a + b)[k] == b[k - a.len()]);
                assert(letter_wf(b[k - a.len()]));
            } else {
                assert((a + b)[k] == a[k]);
            }
        }
    }
}

fn push_symbol(r: &mut Vec<Letter>, c: char, i: usize, s: char)
    ensures
        final(r)@ == old(r)@ + symbol_letters(c, i, s),
{
    if s == CORRECT {
        r.push(Letter::YesAt(c, i));
    } else if s == MISPLACED {
        r.push(Letter::NotAt(c, i));
        r.push(Letter::Yes(c));
    } else if s == ABSENT {
        r.push(Letter::Not(c));
    }
    assert(final(r)@ =~= old(r)@ + symbol_letters(c, i, s));
}

proof fn lemma_symbol_wf(c: char, i: usize, s: char)
    requires
        i < 5,
    ensures
        letters_wf(symbol_letters(c, i, s)),
{
}

/// The constraints that `feedback` on `guess` yields: `'c'` fixes the letter at
/// its position, `'x'` excludes it there and asserts it elsewhere, `'w'` excludes
/// it everywhere, and any other symbol is skipped. Symbols past the fifth are not read.
pub fn feedback_constraints(guess: &Word, feedback: &Vec<char>) -> (r: Vec<Letter>)
    ensures
        r@ == feedback_letters(guess@, feedback@),
        letters_wf(r@),
{
    let n: usize = if feedback.len() < WORD_LEN { feedback.len() } else { WORD_LEN };
    let mut r: Vec<Letter> = Vec::new();
    let mut i: usize = 0;
    while i < n
        invariant
            i <= n <= 5,
            n <= feedback@.len(),
            r@ == letters_upto(guess@, feedback@, i as int),
        decreases n - i,
    {
        push_symbol(&mut r, guess[i], i, feedback[i]);
        i = i + 1;
    }
    proof {
        lemma_letters_upto_wf(guess@, feedback@, n as int);
    }
    r
}

/// The constraints that a line of feedback on `guess` yields, one symbol per letter
/// read from the start of the line: `'c'`, `'x'` and `'w'` as in `feedback_constraints`,
/// any other character skipped, a short line read as far as it goes.
pub fn parse_feedback(guess: &Word, line: &str) -> (r: Vec<Letter>)
    ensures
        r@ == feedback_letters(guess@, line@),
        letters_wf(r@),
{
    let mut symbols: Vec<char> = Vec::new();
    let mut chars = line.chars();
    proof {
        broadcast use vstd::string::axiom_spec_iter, vstd::string::next_postcondition;
    }
    loop
        invariant
            chars.obeys_prophetic_iter_laws(),
            symbols@.len() <= line@.len(),
            chars.remaining() == line@.skip(symbols@.len() as int),
            symbols@ == line@.take(symbols@.len() as int),
        ensures
            symbols@ == line@,
        decreases line@.len() - symbols@.len(),
    {
        match chars.next() {
            Some(c) => {
                assert(line@.take(symbols@.len() + 1int) =~= symbols@.push(c));
                symbols.push(c);
            },
            None => {
                assert(symbols@ =~= line@);
                break;
            },
        }
    }
    feedback_constraints(guess, &symbols)
}

/// The constraints that honest feedback from `word` on `guess` yields.
pub fn get_result(guess: &Word, word: &Word) -> (r: Vec<Letter>)
    ensures
        r@ == result_of(guess@, word@),
        letters_wf(r@),
{
    let feedback = simulate_feedback(guess, word);
    feedback_constraints(guess, &feedback)
}

/// Whether the guess holds no letter of the answer more often than the answer does.
/// Without this, duplicate-letter accounting marks a surplus copy absent although the
/// answer holds the letter.
pub open spec fn no_surplus(g: Seq<char>, a: Seq<char>) -> bool {
    forall|c: char| a.contains(c) ==> count_upto(g, c, 5) <= count_upto(a, c, 5)
}

proof fn lemma_counts_split(g: Seq<char>, a: Seq<char>, c: char, n: int)
    ensures
        stray_upto(g, a, c, n) >= 0,
        exact_upto(g, a, c, n) >= 0,
        count_upto(a, c, n) == exact_upto(g, a, c, n) + unmatched_upto(g, a, c, n),
        count_upto(g, c, n) == exact_upto(g, a, c, n) + stray_upto(g, a, c, n),
    decreases n,
{
    if n > 0 {
        lemma_counts_split(g, a, c, n - 1);
    }
}

proof fn lemma_stray_grows(g: Seq<char>, a: Seq<char>, c: char, i: int, n: int)
    requires
        0 <= i < n,
        g[i] == c,
        a[i] != c,
    ensures
        stray_upto(g, a, c, n) >= stray_upto(g, a, c, i) + 1,
    decreases n,
{
    if n > i + 1 {
        lemma_stray_grows(g, a, c, i, n - 1);
    }
}

proof fn lemma_unmatched_present(g: Seq<char>, a: Seq<char>, c: char, n: int)
    requires
        n <= a.len(),
        unmatched_upto(g, a, c, n) > 0,
    ensures
        a.contains(c),
    decreases n,
{
    if unmatched_upto(g, a, c, n - 1) > 0 {
        lemma_unmatched_present(g, a, c, n - 1);
    } else {
        assert(a[n - 1] == c);
    }
}

proof fn lemma_satisfies_letters_upto(w: Seq<char>, g: Seq<char>, f: Seq<char>, n: int)
    requires
        forall|i: int|
            0 <= i < n ==> satisfies(w, #[trigger] symbol_letters(g[i], i as usize, f[i])),
    ensures
        satisfies(w, letters_upto(g, f, n)),
    decreases n,
{
    if n > 0 {
        lemma_satisfies_letters_upto(w, g, f, n - 1);
        let b = symbol_letters(g[n - 1], (n - 1) as usize, f[n - 1]);
        lemma_satisfies_concat(w, letters_upto(g, f, n - 1), b);
    }
}

proof fn lemma_symbol_cases(c: char, u: usize)
    ensures
        symbol_letters(c, u, CORRECT).len() == 1,
        symbol_letters(c, u, CORRECT)[0] == Letter::YesAt(c, u),
        symbol_letters(c, u, MISPLACED).len() == 2,
        symbol_letters(c, u, MISPLACED)[0] == Letter::NotAt(c, u),
        symbol_letters(c, u, MISPLACED)[1] == Letter::Yes(c),
        symbol_letters(c, u, ABSENT).len() == 1,
        symbol_letters(c, u, ABSENT)[0] == Letter::Not(c),
{
}

proof fn lemma_mark_holds(g: Seq<char>, a: Seq<char>, i: int)
    requires
        g.len() == 5,
        a.len() == 5,
        0 <= i < 5,
        no_surplus(g, a),
    ensures
        satisfies(a, symbol_letters(g[i], i as usize, mark(g, a, i))),
{
    let c = g[i];
    let u = i as usize;
    let b = symbol_letters(c, u, mark(g, a, i));
    assert(u as int == i);
    if g[i] == a[i] {
        lemma_symbol_cases(c, u);
        assert(letter_holds(a, b[0]));
    } else {
        lemma_counts_split(g, a, c, i);
        if stray_upto(g, a, c, i) < unmatched_upto(g, a, c, 5) {
            lemma_unmatched_present(g, a, c, 5);
            lemma_symbol_cases(c, u);
            assert(letter_holds(a, b[0]));
            assert(letter_holds(a, b[1]));
        } else {
            if a.contains(c) {
                lemma_counts_split(g, a, c, 5);
                lemma_stray_grows(g, a, c, i, 5);
                assert(false);
            }
            lemma_symbol_cases(c, u);
            assert(letter_holds(a, b[0]));
        }
    }
}

/// Honest feedback never rules out the answer it came from: the answer satisfies the
/// constraints drawn from its own feedback on any guess that holds no surplus copy of
/// one of its letters.
pub proof fn lemma_answer_satisfies_own_feedback(guess: Word, answer: Word)
    requires
        no_surplus(guess@, answer@),
    ensures
        satisfies(answer@, result_of(guess@, answer@)),
{
    let g = guess@;
    let a = answer@;
    let f = feedback_of(g, a);
    assert forall|i: int| 0 <= i < 5 implies satisfies(
        a,
        #[trigger] symbol_letters(g[i], i as usize, f[i]),
    ) by {
        lemma_mark_holds(g, a, i);
    }
    lemma_satisfies_letters_upto(a, g, f, 5);
}

/// Across rounds of honest feedback the answer stays a candidate: if it satisfied the
/// constraints recorded so far, it is still a candidate once the constraints from its
/// feedback on the next guess are appended.
pub proof fn lemma_answer_stays_candidate(
    dic: Seq<Word>,
    cs: Seq<Letter>,
    guess: Word,
    answer: Word,
)
    requires
        dic.contains(answer),
        satisfies(answer@, cs),
        no_surplus(guess@, answer@),
    ensures
        candidates_of(dic, cs + result_of(guess@, answer@)).contains(answer),
{
    lemma_answer_satisfies_own_feedback(guess, answer);
    lemma_satisfies_concat(answer@, cs, result_of(guess@, answer@));
    lemma_candidate_iff(dic, cs + result_of(guess@, answer@), answer);
}

proof fn lemma_letters_upto_symbol(w: Seq<char>, g: Seq<char>, f: Seq<char>, n: int, i: int)
    requires
        0 <= i < n,
        satisfies(w, letters_upto(g, f, n)),
    ensures
        satisfies(w, symbol_letters(g[i], i as usize, f[i])),
    decreases n,
{
    let b = symbol_letters(g[n - 1], (n - 1) as usize, f[n - 1]);
    lemma_satisfies_concat(w, letters_upto(g, f, n - 1), b);
    if i < n - 1 {
        lemma_letters_upto_symbol(w, g, f, n - 1, i);
    }
}

/// A guess other than the answer is ruled out by the feedback the answer gives on it.
pub proof fn lemma_wrong_guess_ruled_out(guess: Word, answer: Word)
    requires
        guess@ != answer@,
    ensures
        !satisfies(guess@, result_of(guess@, answer@)),
{
    let g = guess@;
    let a = answer@;
    if !(forall|k: int| 0 <= k < 5 ==> g[k] == a[k]) {
        let i = choose|i: int| 0 <= i < 5 && g[i] != a[i];
        let u = i as usize;
        let f = feedback_of(g, a);
        lemma_symbol_cases(g[i], u);
        let b = symbol_letters(g[i], u, f[i]);
        assert(!letter_holds(g, b[0]));
        if satisfies(g, result_of(g, a)) {
            lemma_letters_upto_symbol(g, g, f, 5, i);
        }
    } else {
        assert(g =~= a);
    }
}

} // verus!
