//! The players of a game; the computer player keeps the pool of candidate
//! codes and answers with its secret code.
use vstd::prelude::*;
use crate::code::{code_universe, feedback, valid_digits, views, Answer, Guess, Info};
use crate::solver::{
    lemma_class_le_worst, lemma_filter_is_class, lemma_minimax_splits, minimax, minimax_choice,
    search_space,
};

verus! {

/// One side of a game: it guesses, answers the other side's guesses, and
/// learns from the feedback its own guesses received.
pub trait Player {
    /// The next guess, or `None` when there is none to make.
    fn ask(&mut self) -> Option<Guess>;

    /// The feedback to the opponent's `guess`.
    fn give_feedback(&self, guess: Guess) -> Answer;

    /// Takes in the feedback that an earlier guess received.
    fn receive_feedback(&mut self, ans: Answer);
}

/// The pool of the computer player that the minimax turn leaves: the first
/// member equal to the chosen guess is removed, if there is one.
#[verifier::opaque]
pub open spec fn without_choice(pool: Seq<Guess>, choice: Seq<u16>) -> Seq<Guess> {
    if exists|k: int| 0 <= k < pool.len() && pool[k]@ == choice {
        let k = choose|k: int|
            0 <= k < pool.len() && pool[k]@ == choice && forall|j: int|
                0 <= j < k ==> pool[j]@ != choice;
        pool.remove(k)
    } else {
        pool
    }
}

/// The pool that asking for `guess` leaves: over 500 candidates the last one
/// goes, otherwise the first candidate equal to the guess, if any.
pub open spec fn after_ask(pool: Seq<Guess>, guess: Guess) -> Seq<Guess> {
    if pool.len() > 500 {
        pool.drop_last()
    } else {
        without_choice(pool, guess@)
    }
}

/// A round in which the computer's guess (as `ask` makes it) misses the
/// secret, and the feedback is the secret's own, leaves fewer candidates
/// than before, the secret still among them.
pub proof fn lemma_truthful_round_shrinks(pool: Seq<Guess>, guess: Guess, secret: Guess)
    requires
        sound_pool(pool),
        pool.contains(secret),
        asked_from(pool, guess),
        guess@ != secret@,
    ensures
        next_pool(pool, guess, secret).len() < pool.len(),
        next_pool(pool, guess, secret).contains(secret),
{
    let f = feedback(secret, guess);
    let pred = |c: Guess| feedback(c, guess) == f;
    let mid = after_ask(pool, guess);
    let i = choose|i: int| 0 <= i < pool.len() && pool[i] == secret;
    let idx = lemma_ask_keeps(pool, guess, secret, i);
    if mid == pool {
        lemma_unlisted_guess_shrinks(pool, guess, secret, i);
    } else {
        mid.lemma_filter_len(pred);
    }
    assert(pred(mid[idx]));
    mid.lemma_filter_contains(pred, idx);
}

/// Where the secret stands after the guess is taken out of the pool; the pool
/// is left as it was only when the guess was no candidate.
proof fn lemma_ask_keeps(pool: Seq<Guess>, guess: Guess, secret: Guess, i: int) -> (idx: int)
    requires
        0 <= i < pool.len(),
        pool[i] == secret,
        guess@ != secret@,
        pool.len() > 500 ==> guess == pool.last(),
    ensures
        0 <= idx < after_ask(pool, guess).len(),
        after_ask(pool, guess)[idx] == secret,
        after_ask(pool, guess) == pool || after_ask(pool, guess).len() < pool.len(),
        after_ask(pool, guess) == pool ==> pool.len() <= 500 && forall|k: int|
            0 <= k < pool.len() ==> pool[k]@ != guess@,
{
    if pool.len() > 500 {
        assert(pool.last()@ != secret@);
        assert(i != pool.len() - 1);
        assert(after_ask(pool, guess) == pool.drop_last());
        i
    } else {
        lemma_without_choice_keeps(pool, guess@, secret, i)
    }
}

proof fn lemma_first_match(pool: Seq<Guess>, choice: Seq<u16>, k: int)
    requires
        0 <= k < pool.len(),
        pool[k]@ == choice,
    ensures
        exists|m: int|
            0 <= m <= k && pool[m]@ == choice && forall|j: int| 0 <= j < m ==> pool[j]@ != choice,
    decreases k,
{
    if exists|j: int| 0 <= j < k && pool[j]@ == choice {
        let j = choose|j: int| 0 <= j < k && pool[j]@ == choice;
        lemma_first_match(pool, choice, j);
    } else {
        assert(0 <= k <= k && pool[k]@ == choice && forall|j: int| 0 <= j < k ==> pool[j]@ != choice);
    }
}

proof fn lemma_without_choice_keeps(pool: Seq<Guess>, choice: Seq<u16>, secret: Guess, i: int) -> (idx: int)
    requires
        0 <= i < pool.len(),
        pool[i] == secret,
        choice != secret@,
    ensures
        0 <= idx < without_choice(pool, choice).len(),
        without_choice(pool, choice)[idx] == secret,
        without_choice(pool, choice) == pool || without_choice(pool, choice).len() < pool.len(),
        without_choice(pool, choice) == pool ==> forall|k: int|
            0 <= k < pool.len() ==> pool[k]@ != choice,
{
    reveal(without_choice);
    if exists|k: int| 0 <= k < pool.len() && pool[k]@ == choice {
        let w = choose|k: int| 0 <= k < pool.len() && pool[k]@ == choice;
        lemma_first_match(pool, choice, w);
        let k = choose|k: int|
            0 <= k < pool.len() && pool[k]@ == choice && forall|j: int|
                0 <= j < k ==> pool[j]@ != choice;
        assert(i != k);
        if i < k {
            i
        } else {
            i - 1
        }
    } else {
        i
    }
}

proof fn lemma_unlisted_guess_shrinks(pool: Seq<Guess>, guess: Guess, secret: Guess, i: int)
    requires
        forall|j: int| 0 <= j < pool.len() ==> valid_digits(#[trigger] pool[j]@),
        views(pool).no_duplicates(),
        0 <= i < pool.len(),
        pool[i] == secret,
        guess@ != secret@,
        pool.len() <= 500,
        guess@ == minimax_choice(views(pool)),
    ensures
        pool.filter(|c: Guess| feedback(c, guess) == feedback(secret, guess)).len() < pool.len(),
{
    let f = feedback(secret, guess);
    let vp = views(pool);
    assert(pool.len() >= 2) by {
        if pool.len() < 2 {
            assert(search_space(vp) == vp);
            assert(vp[0] == secret@);
        }
    }
    assert forall|j: int| 0 <= j < vp.len() implies valid_digits(#[trigger] vp[j]) by {
        assert(vp[j] == pool[j]@);
    }
    lemma_minimax_splits(vp);
    lemma_filter_is_class(pool, guess, f);
    crate::code::lemma_compare_symmetric(secret, guess);
    assert(vp[i] == secret@);
    lemma_class_le_worst(vp, guess@, i, vp.len() as int);
}

/// The candidates left after `guess` is asked and answered with the
/// feedback that `secret` gives to it.
pub open spec fn next_pool(pool: Seq<Guess>, guess: Guess, secret: Guess) -> Seq<Guess> {
    after_ask(pool, guess).filter(|c: Guess| feedback(c, guess) == feedback(secret, guess))
}

/// True when `guess` is the guess that `ask` makes from `pool`.
pub open spec fn asked_from(pool: Seq<Guess>, guess: Guess) -> bool {
    &&& pool.len() > 500 ==> guess == pool.last()
    &&& pool.len() <= 500 ==> guess@ == minimax_choice(views(pool))
}

/// True when every member of `pool` is a valid code, and no two are equal.
pub open spec fn sound_pool(pool: Seq<Guess>) -> bool {
    &&& forall|i: int| 0 <= i < pool.len() ==> valid_digits(#[trigger] pool[i]@)
    &&& views(pool).no_duplicates()
}

proof fn lemma_filter_sound(s: Seq<Guess>, p: spec_fn(Guess) -> bool)
    requires
        sound_pool(s),
    ensures
        sound_pool(s.filter(p)),
    decreases s.len(),
{
    reveal(Seq::filter);
    if s.len() > 0 {
        let t = s.drop_last();
        assert(views(t) =~= views(s).drop_last());
        lemma_filter_sound(t, p);
        let ft = t.filter(p);
        if p(s.last()) {
            let fs = s.filter(p);
            assert(fs == ft.push(s.last()));
            assert forall|a: int, b: int|
                0 <= a < fs.len() && 0 <= b < fs.len() && a != b implies views(fs)[a] != views(
                fs,
            )[b] by {
                if a == fs.len() - 1 || b == fs.len() - 1 {
                    let o = if a == fs.len() - 1 {
                        b
                    } else {
                        a
                    };
                    t.lemma_filter_contains_rev(p, ft[o]);
                    let m = choose|m: int| 0 <= m < t.len() && t[m] == ft[o];
                    assert(views(s)[m] != views(s)[s.len() - 1]);
                } else {
                    assert(views(fs)[a] == views(ft)[a]);
                    assert(views(fs)[b] == views(ft)[b]);
                }
            }
            assert forall|i: int| 0 <= i < fs.len() implies valid_digits(#[trigger] fs[i]@) by {
                if i < fs.len() - 1 {
                    assert(fs[i] == ft[i]);
                } else {
                    assert(views(s)[s.len() - 1] == s.last()@);
                }
            }
        }
    }
}

proof fn lemma_ask_sound(pool: Seq<Guess>, guess: Guess)
    requires
        sound_pool(pool),
    ensures
        sound_pool(after_ask(pool, guess)),
{
    let mid = after_ask(pool, guess);
    if pool.len() > 500 {
        assert(views(mid) =~= views(pool).drop_last());
        assert forall|i: int| 0 <= i < mid.len() implies valid_digits(#[trigger] mid[i]@) by {
            assert(mid[i] == pool[i]);
        }
    } else {
        reveal(without_choice);
        if exists|k: int| 0 <= k < pool.len() && pool[k]@ == guess@ {
            let w = choose|k: int| 0 <= k < pool.len() && pool[k]@ == guess@;
            lemma_first_match(pool, guess@, w);
            let k = choose|k: int|
                0 <= k < pool.len() && pool[k]@ == guess@ && forall|j: int|
                    0 <= j < k ==> pool[j]@ != guess@;
            assert(mid == pool.remove(k));
            assert(views(mid) =~= views(pool).remove(k));
            assert forall|a: int, b: int|
                0 <= a < mid.len() && 0 <= b < mid.len() && a != b implies views(mid)[a] != views(
                mid,
            )[b] by {
                let a2 = if a < k {
                    a
                } else {
                    a + 1
                };
                let b2 = if b < k {
                    b
                } else {
                    b + 1
                };
                assert(views(mid)[a] == views(pool)[a2]);
                assert(views(mid)[b] == views(pool)[b2]);
            }
            assert forall|i: int| 0 <= i < mid.len() implies valid_digits(#[trigger] mid[i]@) by {
                if i < k {
                    assert(mid[i] == pool[i]);
                } else {
                    assert(mid[i] == pool[i + 1]);
                }
            }
        }
    }
}

/// A game from a sound pool holding `secret`: `pools[r]` holds the
/// candidates before guess `guesses[r]`, which `ask` made; each guess but the
/// last misses the secret, and is answered with the secret's feedback.
pub open spec fn truthful_run(pools: Seq<Seq<Guess>>, guesses: Seq<Guess>, secret: Guess) -> bool {
    &&& pools.len() == guesses.len()
    &&& guesses.len() >= 1 ==> sound_pool(pools[0]) && pools[0].contains(secret)
    &&& forall|q: int| 0 <= q < guesses.len() ==> asked_from(#[trigger] pools[q], guesses[q])
    &&& forall|q: int|
        0 <= q < guesses.len() - 1 ==> guesses[q]@ != secret@ && #[trigger] pools[q + 1]
            == next_pool(pools[q], guesses[q], secret)
}

proof fn lemma_game_prefix(pools: Seq<Seq<Guess>>, guesses: Seq<Guess>, secret: Guess, r: int)
    requires
        truthful_run(pools, guesses, secret),
        0 <= r < guesses.len(),
    ensures
        sound_pool(pools[r]),
        pools[r].contains(secret),
        pools[r].len() + r <= pools[0].len(),
    decreases r,
{
    if r > 0 {
        let q = r - 1;
        lemma_game_prefix(pools, guesses, secret, q);
        assert(pools[q + 1] == next_pool(pools[q], guesses[q], secret));
        assert(asked_from(pools[q], guesses[q]));
        lemma_truthful_round_shrinks(pools[q], guesses[q], secret);
        lemma_ask_sound(pools[q], guesses[q]);
        lemma_filter_sound(
            after_ask(pools[q], guesses[q]),
            |c: Guess| feedback(c, guesses[q]) == feedback(secret, guesses[q]),
        );
    }
}

/// A game in which the computer guesses as `ask` does and every feedback is
/// the one the secret gives ends within as many guesses as there were
/// candidates at its start.
pub proof fn lemma_truthful_game_ends(pools: Seq<Seq<Guess>>, guesses: Seq<Guess>, secret: Guess)
    requires
        truthful_run(pools, guesses, secret),
        guesses.len() >= 1,
    ensures
        guesses.len() <= pools[0].len(),
{
    let last = guesses.len() - 1;
    lemma_game_prefix(pools, guesses, secret, last);
    assert(pools[last].len() >= 1);
}

/// Feedback that no candidate gives to the guess leaves no candidate: the
/// next `ask` then returns `None`.
pub proof fn lemma_inconsistent_feedback_empties(pool: Seq<Guess>, guess: Guess, f: (nat, nat))
    requires
        forall|i: int| 0 <= i < pool.len() ==> feedback(#[trigger] pool[i], guess) != f,
    ensures
        pool.filter(|c: Guess| feedback(c, guess) == f).len() == 0,
{
    let pred = |c: Guess| feedback(c, guess) == f;
    let kept = pool.filter(pred);
    if kept.len() > 0 {
        pool.lemma_filter_pred(pred, 0);
        pool.lemma_filter_contains_rev(pred, kept[0]);
        let i = choose|i: int| 0 <= i < pool.len() && pool[i] == kept[0];
        assert(feedback(pool[i], guess) != f);
    }
}

/// Relies on rand's `SliceRandom::shuffle` over `thread_rng()`: the slice is
/// permuted in place (swaps only), so the same codes stay.
#[verifier::external_body]
fn shuffle_codes(v: &mut Vec<Guess>)
    ensures
        final(v)@.to_multiset() == old(v)@.to_multiset(),
{
    rand::seq::SliceRandom::shuffle(v.as_mut_slice(), &mut rand::thread_rng())
}

/// How a code stands for the computer player.
#[derive(Clone, Copy, Debug, PartialEq, Eq, Structural)]
pub enum Mark {
    /// It may still be the opponent's secret.
    Candidate,
    /// It was guessed, and is no candidate.
    Asked,
    /// It was ruled out without being guessed.
    Eliminated,
}

/// The computer player.
pub struct AIPlayer {
    secret_number: Guess,
    collected_info: Vec<Answer>,
    remaining_guesses: Vec<Guess>,
}

impl AIPlayer {
    /// Its secret code.
    pub closed spec fn secret(&self) -> Guess {
        self.secret_number
    }

    /// The codes that may still be the opponent's secret, in the order in
    /// which they are tried.
    pub closed spec fn pool(&self) -> Seq<Guess> {
        self.remaining_guesses@
    }

    /// The guesses made so far, with their feedback.
    pub closed spec fn history(&self) -> Seq<Answer> {
        self.collected_info@
    }

    /// A player with a random secret and every code, in random order, as
    /// candidates.
    pub fn new() -> (r: AIPlayer)
        ensures
            r.pool().len() == code_universe().len(),
            forall|c: Seq<u16>| views(r.pool()).contains(c) <==> code_universe().contains(c),
            sound_pool(r.pool()),
            valid_digits(r.secret()@),
            r.history().len() == 0,
    {
        let mut guesses = Guess::all();
        let ghost before = guesses@;
        shuffle_codes(&mut guesses);
        proof {
            before.to_multiset_ensures();
            guesses@.to_multiset_ensures();
            assert(before.no_duplicates()) by {
                assert forall|a: int, b: int| 0 <= a < before.len() && 0 <= b < before.len() && a != b implies before[a] != before[b] by {
                    if a < b {
                        assert(before[a]@ != before[b]@);
                    } else {
                        assert(before[b]@ != before[a]@);
                    }
                }
            }
            before.lemma_multiset_has_no_duplicates();
            guesses@.lemma_multiset_has_no_duplicates_conv();
            assert forall|a: int, b: int| 0 <= a < guesses@.len() && 0 <= b < guesses@.len() && a != b implies views(guesses@)[a] != views(guesses@)[b] by {
                Guess::lemma_view_injective(guesses@[a], guesses@[b]);
            }
            assert forall|k: int| 0 <= k < guesses@.len() implies valid_digits(#[trigger] guesses@[k]@) by {
                let g = guesses@[k];
                assert(guesses@.contains(g));
                assert(guesses@.to_multiset().count(g) > 0);
                assert(before.to_multiset().count(g) > 0);
                assert(before.contains(g));
                let j = choose|j: int| 0 <= j < before.len() && before[j] == g;
                assert(valid_digits(before[j]@));
            }
            assert forall|c: Seq<u16>| views(guesses@).contains(c) <==> code_universe().contains(c) by {
                if views(guesses@).contains(c) {
                    let k = choose|k: int| 0 <= k < guesses@.len() && views(guesses@)[k] == c;
                    let g = guesses@[k];
                    assert(guesses@.contains(g));
                    assert(guesses@.to_multiset().count(g) > 0);
                    assert(before.to_multiset().count(g) > 0);
                    assert(before.contains(g));
                    let j = choose|j: int| 0 <= j < before.len() && before[j] == g;
                    assert(views(before)[j] == c);
                }
                if code_universe().contains(c) {
                    let j = choose|j: int| 0 <= j < before.len() && views(before)[j] == c;
                    let g = before[j];
                    assert(before.contains(g));
                    assert(before.to_multiset().count(g) > 0);
                    assert(guesses@.to_multiset().count(g) > 0);
                    assert(guesses@.contains(g));
                    let k = choose|k: int| 0 <= k < guesses@.len() && guesses@[k] == g;
                    assert(views(guesses@)[k] == c);
                }
            }
        }
        let secret_number = Guess::generate();
        AIPlayer {
            secret_number,
            collected_info: Vec::new(),
            remaining_guesses: guesses,
        }
    }

    /// A player with the given secret and candidates, and no history.
    pub fn with_pool(secret: Guess, pool: Vec<Guess>) -> (r: AIPlayer)
        ensures
            r.secret() == secret,
            r.pool() == pool@,
            r.history().len() == 0,
    {
        AIPlayer { secret_number: secret, collected_info: Vec::new(), remaining_guesses: pool }
    }

    /// How `code` stands for this player: still a candidate, already asked
    /// (and ruled out), or ruled out without being asked.
    pub fn mark(&self, code: &Guess) -> (r: Mark)
        ensures
            r == Mark::Candidate <==> views(self.pool()).contains(code@),
            r == Mark::Asked <==> !views(self.pool()).contains(code@) && exists|k: int|
                0 <= k < self.history().len() && (#[trigger] self.history()[k]).guess()@ == code@,
            r == Mark::Eliminated <==> !views(self.pool()).contains(code@) && forall|k: int|
                0 <= k < self.history().len() ==> (#[trigger] self.history()[k]).guess()@ != code@,
    {
        let mut k: usize = 0;
        while k < self.remaining_guesses.len()
            invariant
                k <= self.remaining_guesses.len(),
                forall|j: int| 0 <= j < k ==> self.remaining_guesses@[j]@ != code@,
            decreases self.remaining_guesses.len() - k,
        {
            if self.remaining_guesses[k] == *code {
                assert(views(self.pool())[k as int] == code@);
                return Mark::Candidate;
            }
            k += 1;
        }
        assert(!views(self.pool()).contains(code@));
        let mut k: usize = 0;
        while k < self.collected_info.len()
            invariant
                k <= self.collected_info.len(),
                !views(self.pool()).contains(code@),
                forall|j: int| 0 <= j < k ==> (#[trigger] self.collected_info@[j]).guess()@ != code@,
            decreases self.collected_info.len() - k,
        {
            if self.collected_info[k].get_guess() == *code {
                assert(self.history()[k as int].guess()@ == code@);
                return Mark::Asked;
            }
            k += 1;
        }
        Mark::Eliminated
    }

    /// The number of candidates left.
    pub fn remaining_guesses(&self) -> (r: usize)
        ensures
            r == self.pool().len(),
    {
        self.remaining_guesses.len()
    }
}

impl Default for AIPlayer {
    /// The same player as `AIPlayer::new`.
    fn default() -> (r: AIPlayer)
        ensures
            r.pool().len() == code_universe().len(),
            forall|c: Seq<u16>| views(r.pool()).contains(c) <==> code_universe().contains(c),
            sound_pool(r.pool()),
            valid_digits(r.secret()@),
            r.history().len() == 0,
    {
        AIPlayer::new()
    }
}

impl Player for AIPlayer {
    /// Over 500 candidates, the last candidate is taken out and guessed;
    /// otherwise the minimax guess is made, and taken out of the pool if it is
    /// a candidate. `None` only when no candidate is left.
    fn ask(&mut self) -> (r: Option<Guess>)
        ensures
            r is None <==> old(self).pool().len() == 0,
            r is None ==> final(self).pool() == old(self).pool(),
            r is Some ==> asked_from(old(self).pool(), r->0) && final(self).pool() == after_ask(
                old(self).pool(),
                r->0,
            ),
            final(self).secret() == old(self).secret(),
            final(self).history() == old(self).history(),
            old(self).pool().len() > 500 ==> r == Some(old(self).pool().last())
                && final(self).pool() == old(self).pool().drop_last(),
            old(self).pool().len() <= 500 && r is Some ==> r->0@ == minimax_choice(
                views(old(self).pool()),
            ) && final(self).pool() == without_choice(old(self).pool(), r->0@),
    {
        if self.remaining_guesses() > 500 {
            return self.remaining_guesses.pop();
        }
        let guess = minimax(&self.remaining_guesses);
        if let Some(g) = guess {
            let ghost pool = self.remaining_guesses@;
            let mut k: usize = 0;
            while k < self.remaining_guesses.len()
                invariant
                    self.remaining_guesses@ == pool,
                    self.secret_number == old(self).secret_number,
                    self.collected_info@ == old(self).collected_info@,
                    pool == old(self).remaining_guesses@,
                    guess == Some(g),
                    pool.len() <= 500,
                    g@ == minimax_choice(views(pool)),
                    k <= pool.len(),
                    forall|j: int| 0 <= j < k ==> pool[j]@ != g@,
                decreases pool.len() - k,
            {
                if self.remaining_guesses[k] == g {
                    assert(pool[k as int]@ == g@);
                    self.remaining_guesses.remove(k);
                    assert(without_choice(pool, g@) == pool.remove(k as int)) by {
                        reveal(without_choice);
                        let j = choose|j: int|
                            0 <= j < pool.len() && pool[j]@ == g@ && forall|i: int|
                                0 <= i < j ==> pool[i]@ != g@;
                        assert(j == k);
                    }
                    return guess;
                }
                k += 1;
            }
            proof {
                reveal(without_choice);
            }
        }
        guess
    }

    /// The feedback that the secret code gives to `guess`.
    fn give_feedback(&self, guess: Guess) -> (r: Answer)
        ensures
            r.guess() == guess,
            r.info()@ == feedback(self.secret(), guess),
    {
        let info = self.secret_number.compare(&guess);
        Answer::new(guess, info)
    }

    /// Keeps exactly the candidates `c` that give the received feedback when
    /// compared with the guess, in their order, and records the answer.
    fn receive_feedback(&mut self, ans: Answer)
        ensures
            final(self).pool() == old(self).pool().filter(
                |c: Guess| feedback(c, ans.guess()) == ans.info()@,
            ),
            forall|c: Guess| #[trigger]
                final(self).pool().contains(c) ==> old(self).pool().contains(c) && feedback(
                    c,
                    ans.guess(),
                ) == ans.info()@,
            forall|c: Guess|
                old(self).pool().contains(c) && feedback(c, ans.guess()) == ans.info()@
                    ==> #[trigger] final(self).pool().contains(c),
            final(self).secret() == old(self).secret(),
            final(self).history() == old(self).history().push(ans),
    {
        let guess = ans.get_guess();
        let info = ans.get_info();
        let ghost pred = |c: Guess| feedback(c, ans.guess()) == ans.info()@;
        let ghost pool = self.remaining_guesses@;
        let mut kept: Vec<Guess> = Vec::new();
        let mut t: usize = 0;
        while t < self.remaining_guesses.len()
            invariant
                self.remaining_guesses@ == pool,
                guess == ans.guess(),
                info == ans.info(),
                pred == (|c: Guess| feedback(c, ans.guess()) == ans.info()@),
                t <= pool.len(),
                kept@ == pool.subrange(0, t as int).filter(pred),
            decreases pool.len() - t,
        {
            let c = self.remaining_guesses[t];
            let fb = c.compare(&guess);
            proof {
                Info::lemma_view_eq(fb, info);
                reveal(Seq::filter);
                assert(pool.subrange(0, t + 1).drop_last() =~= pool.subrange(0, t as int));
                assert(pool.subrange(0, t + 1).last() == c);
                assert((fb == info) == pred(c));
            }
            if fb == info {
                kept.push(c);
            }
            t += 1;
        }
        proof {
            assert(pool.subrange(0, pool.len() as int) =~= pool);
            broadcast use vstd::seq_lib::group_filter_ensures;
            assert forall|c: Guess| #[trigger] kept@.contains(c) implies pool.contains(c) && pred(c) by {
                pool.lemma_filter_contains_rev(pred, c);
                let i = choose|i: int| 0 <= i < kept@.len() && kept@[i] == c;
                assert(pred(kept@[i]));
            }
            assert forall|c: Guess| pool.contains(c) && pred(c) implies #[trigger] kept@.contains(c) by {
                let i = choose|i: int| 0 <= i < pool.len() && pool[i] == c;
                assert(kept@.contains(pool[i]));
            }
        }
        self.remaining_guesses = kept;
        self.collected_info.push(ans);
    }
}

} // verus!
