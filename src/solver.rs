//! The guessing strategy: a minimax choice of the next guess over the pool
//! of codes still consistent with the feedback received.
use vstd::prelude::*;
use crate::code::{
    bulls, code_universe, codes_below, digits_of, feedback, grid_hits, is_code_number, number_of,
    lemma_score_symmetric, row_hits, score, valid_digits, views, Guess, Info,
};

verus! {

/// How many members `c` of `pool` give feedback `f` when compared with `g`.
pub open spec fn class_size(pool: Seq<Seq<u16>>, g: Seq<u16>, f: (nat, nat)) -> nat
    decreases pool.len(),
{
    if pool.len() == 0 {
        0
    } else {
        class_size(pool.drop_last(), g, f) + if score(pool.last(), g) == f {
            1nat
        } else {
            0nat
        }
    }
}

/// The largest class that guessing `g` leaves, over the first `n` possible
/// secrets of `pool`.
pub open spec fn worst_upto(pool: Seq<Seq<u16>>, g: Seq<u16>, n: int) -> nat
    decreases n,
{
    if n <= 0 {
        0
    } else {
        let size = class_size(pool, g, score(g, pool[n - 1]));
        let rest = worst_upto(pool, g, n - 1);
        if size > rest {
            size
        } else {
            rest
        }
    }
}

/// The worst case of guessing `g`: the most members of `pool` that one
/// feedback can leave undistinguished.
pub open spec fn worst_case(pool: Seq<Seq<u16>>, g: Seq<u16>) -> nat {
    worst_upto(pool, g, pool.len() as int)
}

/// Where the next guess is drawn from: the pool itself when it is small
/// (under 16) or large (over 400), otherwise every code.
pub open spec fn search_space(pool: Seq<Seq<u16>>) -> Seq<Seq<u16>> {
    if pool.len() < 16 || pool.len() > 400 {
        pool
    } else {
        code_universe()
    }
}

/// Index of the first guess of least worst case among the first `n` entries
/// of `space`.
pub open spec fn best_upto(pool: Seq<Seq<u16>>, space: Seq<Seq<u16>>, n: int) -> int
    decreases n,
{
    if n <= 1 {
        0
    } else {
        let b = best_upto(pool, space, n - 1);
        if worst_case(pool, space[n - 1]) < worst_case(pool, space[b]) {
            n - 1
        } else {
            b
        }
    }
}

/// The minimax guess for `pool`: the first entry of the search space whose
/// worst case is least.
pub open spec fn minimax_choice(pool: Seq<Seq<u16>>) -> Seq<u16> {
    let space = search_space(pool);
    space[best_upto(pool, space, space.len() as int)]
}

proof fn lemma_worst_monotone(pool: Seq<Seq<u16>>, g: Seq<u16>, m: int, n: int)
    requires
        m <= n,
    ensures
        worst_upto(pool, g, m) <= worst_upto(pool, g, n),
    decreases n - m,
{
    if m < n {
        lemma_worst_monotone(pool, g, m, n - 1);
    }
}

proof fn lemma_best_in_range(pool: Seq<Seq<u16>>, space: Seq<Seq<u16>>, n: int)
    requires
        n >= 1,
    ensures
        0 <= best_upto(pool, space, n) < n,
    decreases n,
{
    if n > 1 {
        lemma_best_in_range(pool, space, n - 1);
    }
}

/// Counts the members of `pool` that give feedback `info` against `guess`.
fn count_class(pool: &Vec<Guess>, guess: &Guess, info: &Info) -> (r: usize)
    ensures
        r == class_size(views(pool@), guess@, info@),
{
    let mut count: usize = 0;
    let mut t: usize = 0;
    while t < pool.len()
        invariant
            t <= pool.len(),
            count <= t,
            count == class_size(views(pool@.subrange(0, t as int)), guess@, info@),
        decreases pool.len() - t,
    {
        let c = pool[t];
        let fb = c.compare(guess);
        proof {
            Info::lemma_view_eq(fb, *info);
            assert(views(pool@.subrange(0, t + 1)).drop_last() =~= views(pool@.subrange(0, t as int)));
        }
        if fb == *info {
            count += 1;
        }
        t += 1;
    }
    assert(pool@.subrange(0, pool.len() as int) =~= pool@);
    count
}

/// The next guess for the candidates in `remaining`: `None` when there is
/// none left, else the first guess of the search space that minimises the
/// worst-case number of candidates left after its feedback.
pub fn minimax(remaining: &Vec<Guess>) -> (r: Option<Guess>)
    ensures
        r is None <==> remaining.len() == 0,
        r is Some ==> r->0@ == minimax_choice(views(remaining@)),
        remaining.len() == 1 ==> r is Some && r->0@ == remaining@[0]@,
{
    if remaining.len() == 0 {
        return None;
    }
    let ghost pool = views(remaining@);
    let all = Guess::all();
    let search: &Vec<Guess> = if remaining.len() < 16 || 400 < remaining.len() {
        remaining
    } else {
        &all
    };
    proof {
        assert(crate::code::is_code_number(1023));
    }
    let ghost space = views(search@);
    assert(space == search_space(pool));
    let mut best_guess: Guess = search[0];
    let mut best_guess_size: usize = 0;
    let mut k: usize = 0;
    while k < search.len()
        invariant
            space == views(search@),
            pool == views(remaining@),
            search.len() >= 1,
            k <= search.len(),
            k >= 1 ==> best_guess@ == space[best_upto(pool, space, k as int)],
            k >= 1 ==> best_guess_size == worst_case(pool, best_guess@),
        decreases search.len() - k,
    {
        let guess = search[k];
        let mut max: usize = 0;
        let mut t: usize = 0;
        while t < remaining.len()
            invariant
                space == views(search@),
                pool == views(remaining@),
                k < search.len(),
                guess@ == space[k as int],
                t <= remaining.len(),
                max == worst_upto(pool, guess@, t as int),
                max <= remaining.len(),
            ensures
                t <= remaining.len(),
                max == worst_upto(pool, guess@, t as int),
                t == remaining.len() || (k >= 1 && max > best_guess_size),
            decreases remaining.len() - t,
        {
            let info = guess.compare(&remaining[t]);
            let size = count_class(remaining, &guess, &info);
            proof {
                lemma_class_bound(pool, guess@, info@);
            }
            if size > max {
                max = size;
            }
            t += 1;
            if k >= 1 && max > best_guess_size {
                break;
            }
        }
        proof {
            lemma_worst_monotone(pool, guess@, t as int, remaining.len() as int);
            if k >= 1 {
                lemma_best_in_range(pool, space, k as int);
            }
        }
        if k == 0 || max < best_guess_size {
            best_guess_size = max;
            best_guess = guess;
        }
        k += 1;
    }
    Some(best_guess)
}

proof fn lemma_class_bound(pool: Seq<Seq<u16>>, g: Seq<u16>, f: (nat, nat))
    ensures
        class_size(pool, g, f) <= pool.len(),
    decreases pool.len(),
{
    if pool.len() > 0 {
        lemma_class_bound(pool.drop_last(), g, f);
    }
}

proof fn lemma_score_facts(a: Seq<u16>, b: Seq<u16>)
    requires
        valid_digits(a),
        valid_digits(b),
    ensures
        score(a, a) == (4nat, 0nat),
        score(a, b) == score(b, a),
        bulls(a, b) == 4 ==> a == b,
{
    lemma_score_symmetric(a, b);
    reveal_with_fuel(grid_hits, 5);
    reveal_with_fuel(row_hits, 5);
    if bulls(a, b) == 4 {
        assert(a =~= b);
    }
}

/// Filtering a pool by one feedback keeps one class of it.
pub(crate) proof fn lemma_filter_is_class(pool: Seq<Guess>, g: Guess, f: (nat, nat))
    ensures
        pool.filter(|c: Guess| feedback(c, g) == f).len() == class_size(views(pool), g@, f),
    decreases pool.len(),
{
    reveal(Seq::filter);
    if pool.len() > 0 {
        lemma_filter_is_class(pool.drop_last(), g, f);
        assert(views(pool).drop_last() =~= views(pool.drop_last()));
    }
}

proof fn lemma_class_misses_one(pool: Seq<Seq<u16>>, g: Seq<u16>, f: (nat, nat), k: int)
    requires
        0 <= k < pool.len(),
        score(pool[k], g) != f,
    ensures
        class_size(pool, g, f) <= pool.len() - 1,
    decreases pool.len(),
{
    if k == pool.len() - 1 {
        lemma_class_bound(pool.drop_last(), g, f);
    } else {
        lemma_class_misses_one(pool.drop_last(), g, f, k);
    }
}

pub(crate) proof fn lemma_class_le_worst(pool: Seq<Seq<u16>>, g: Seq<u16>, i: int, n: int)
    requires
        0 <= i < n,
    ensures
        class_size(pool, g, score(g, pool[i])) <= worst_upto(pool, g, n),
    decreases n,
{
    if i < n - 1 {
        lemma_class_le_worst(pool, g, i, n - 1);
    }
}

proof fn lemma_worst_of_member(pool: Seq<Seq<u16>>, j: int, n: int)
    requires
        forall|i: int| 0 <= i < pool.len() ==> valid_digits(#[trigger] pool[i]),
        pool.no_duplicates(),
        pool.len() >= 2,
        0 <= j < pool.len(),
        n <= pool.len(),
    ensures
        worst_upto(pool, pool[j], n) <= pool.len() - 1,
    decreases n,
{
    if n > 0 {
        lemma_worst_of_member(pool, j, n - 1);
        let p = pool[j];
        let s = pool[n - 1];
        let f = score(p, s);
        lemma_score_facts(p, s);
        lemma_score_facts(p, p);
        if f == (4nat, 0nat) {
            let k = if j == 0 {
                1int
            } else {
                0int
            };
            lemma_score_facts(pool[k], p);
            assert(pool[k] != p);
            lemma_class_misses_one(pool, p, f, k);
        } else {
            lemma_class_misses_one(pool, p, f, j);
        }
    }
}

proof fn lemma_best_is_least(pool: Seq<Seq<u16>>, space: Seq<Seq<u16>>, n: int, m: int)
    requires
        0 <= m < n,
    ensures
        worst_case(pool, space[best_upto(pool, space, n)]) <= worst_case(pool, space[m]),
    decreases n,
{
    if n > 1 && m < n - 1 {
        lemma_best_is_least(pool, space, n - 1, m);
    }
}

proof fn lemma_codes_below_contains(n: int, m: int)
    requires
        is_code_number(n),
        n < m,
    ensures
        codes_below(m).contains(digits_of(n)),
    decreases m,
{
    if m == n + 1 {
        assert(codes_below(m).last() == digits_of(n));
    } else {
        lemma_codes_below_contains(n, m - 1);
        let prev = codes_below(m - 1);
        let k = choose|k: int| 0 <= k < prev.len() && prev[k] == digits_of(n);
        if is_code_number(m - 1) {
            assert(codes_below(m)[k] == digits_of(n));
        }
    }
}

proof fn lemma_universe_has(d: Seq<u16>)
    requires
        valid_digits(d),
    ensures
        code_universe().contains(d),
{
    let n = number_of(d);
    let (a, b, c, e) = (d[0] as int, d[1] as int, d[2] as int, d[3] as int);
    assert(n == 1000 * a + 100 * b + 10 * c + e);
    assert(n / 1000 == a && (n / 100) % 10 == b && (n / 10) % 10 == c && n % 10 == e) by {
        assert(n / 10 == 100 * a + 10 * b + c);
        assert(n / 100 == 10 * a + b);
    }
    assert(digits_of(n) =~= d);
    lemma_codes_below_contains(n, 9999);
}

/// The minimax guess leaves no more candidates undistinguished than any
/// candidate of a pool of two or more distinct codes would: fewer than the
/// whole pool.
pub proof fn lemma_minimax_splits(pool: Seq<Seq<u16>>)
    requires
        forall|i: int| 0 <= i < pool.len() ==> valid_digits(#[trigger] pool[i]),
        pool.no_duplicates(),
        pool.len() >= 2,
    ensures
        worst_case(pool, minimax_choice(pool)) <= pool.len() - 1,
{
    let space = search_space(pool);
    let m = if space == pool {
        0int
    } else {
        lemma_universe_has(pool[0]);
        choose|m: int| 0 <= m < space.len() && space[m] == pool[0]
    };
    assert(space[m] == pool[0]);
    lemma_best_is_least(pool, space, space.len() as int, m);
    lemma_worst_of_member(pool, 0, pool.len() as int);
}

} // verus!
