//! Codes (four pairwise-distinct decimal digits) and the feedback that
//! comparing two codes produces.
use vstd::prelude::*;

verus! {

/// True when `d` is a sequence of four pairwise-distinct decimal digits, the
/// first of them not zero.
pub open spec fn valid_digits(d: Seq<u16>) -> bool {
    &&& d.len() == 4
    &&& d[0] != 0
    &&& forall|i: int| 0 <= i < 4 ==> d[i] < 10
    &&& forall|i: int, j: int| 0 <= i < 4 && 0 <= j < 4 && i != j ==> d[i] != d[j]
}

/// The decimal number written by the digits `d`.
pub open spec fn number_of(d: Seq<u16>) -> int {
    1000 * d[0] + 100 * d[1] + 10 * d[2] + d[3]
}

/// True when `n` is accepted as a code: strictly between 1000 and 9999,
/// with four pairwise-distinct digits.
pub open spec fn is_code_number(n: int) -> bool {
    &&& 1000 < n < 9999
    &&& valid_digits(digits_of(n))
}

/// The four decimal digits of `n`, most significant first.
pub open spec fn digits_of(n: int) -> Seq<u16> {
    seq![((n / 1000) % 10) as u16, ((n / 100) % 10) as u16, ((n / 10) % 10) as u16, (n % 10) as u16]
}

/// One match cell: 1 when digit `i` of `a` equals digit `j` of `b`, and the
/// cell is of the wanted kind (same position when `exact`, else different).
pub open spec fn cell(a: Seq<u16>, b: Seq<u16>, i: int, j: int, exact: bool) -> nat {
    if a[i] == b[j] && ((i == j) == exact) {
        1
    } else {
        0
    }
}

/// Matches of the wanted kind between digit `i` of `a` and the first `m`
/// digits of `b`.
pub open spec fn row_hits(a: Seq<u16>, b: Seq<u16>, i: int, m: int, exact: bool) -> nat
    decreases m,
{
    if m <= 0 {
        0
    } else {
        row_hits(a, b, i, m - 1, exact) + cell(a, b, i, m - 1, exact)
    }
}

/// Matches of the wanted kind between the first `n` digits of `a` and all
/// four digits of `b`.
pub open spec fn grid_hits(a: Seq<u16>, b: Seq<u16>, n: int, exact: bool) -> nat
    decreases n,
{
    if n <= 0 {
        0
    } else {
        grid_hits(a, b, n - 1, exact) + row_hits(a, b, n - 1, 4, exact)
    }
}

/// Bulls: digits equal in value and position.
pub open spec fn bulls(a: Seq<u16>, b: Seq<u16>) -> nat {
    grid_hits(a, b, 4, true)
}

/// Cows: a digit of `a` equal to a digit of `b` at another position.
pub open spec fn cows(a: Seq<u16>, b: Seq<u16>) -> nat {
    grid_hits(a, b, 4, false)
}

/// The feedback (bulls, cows) of comparing digit sequence `a` with `b`.
pub open spec fn score(a: Seq<u16>, b: Seq<u16>) -> (nat, nat) {
    (bulls(a, b), cows(a, b))
}

/// The feedback that comparing code `a` with code `b` produces.
pub open spec fn feedback(a: Guess, b: Guess) -> (nat, nat) {
    score(a@, b@)
}

/// Digits of `a`, among its first `n`, whose value also occurs in `b`.
pub open spec fn shared_upto(a: Seq<u16>, b: Seq<u16>, n: int) -> nat
    decreases n,
{
    if n <= 0 {
        0
    } else {
        shared_upto(a, b, n - 1) + if b.contains(a[n - 1]) {
            1nat
        } else {
            0nat
        }
    }
}

/// The number of digit values that `a` and `b` have in common (each digit of
/// a code occurs once in it).
pub open spec fn shared_digits(a: Seq<u16>, b: Seq<u16>) -> nat {
    shared_upto(a, b, 4)
}

/// A code compared with itself gives four bulls and no cow.
pub proof fn lemma_compare_self(a: Guess)
    requires
        valid_digits(a@),
    ensures
        feedback(a, a) == (4nat, 0nat),
{
    reveal_with_fuel(grid_hits, 5);
    reveal_with_fuel(row_hits, 5);
}

/// Bulls and cows together count the digit values that two codes share.
pub proof fn lemma_hits_are_shared_digits(a: Guess, b: Guess)
    requires
        valid_digits(a@),
        valid_digits(b@),
    ensures
        feedback(a, b).0 + feedback(a, b).1 == shared_digits(a@, b@),
{
    reveal_with_fuel(grid_hits, 5);
    reveal_with_fuel(row_hits, 5);
    reveal_with_fuel(shared_upto, 5);
    let (x, y) = (a@, b@);
    assert forall|i: int| 0 <= i < 4 implies row_hits(x, y, i, 4, true) + row_hits(x, y, i, 4, false)
        == (if y.contains(x[i]) {
        1nat
    } else {
        0nat
    }) by {
        if y.contains(x[i]) {
            let j = choose|j: int| 0 <= j < 4 && y[j] == x[i];
            assert(y[j] == x[i]);
        }
    }
}

/// Comparison is symmetric: the match condition `i == j` does not depend on
/// which code comes first.
pub proof fn lemma_compare_symmetric(a: Guess, b: Guess)
    ensures
        feedback(a, b) == feedback(b, a),
{
    lemma_score_symmetric(a@, b@);
}

/// Bulls and cows are symmetric in the two digit sequences.
pub proof fn lemma_score_symmetric(x: Seq<u16>, y: Seq<u16>)
    ensures
        score(x, y) == score(y, x),
{
    lemma_grid_cells(x, y, true);
    lemma_grid_cells(y, x, true);
    lemma_grid_cells(x, y, false);
    lemma_grid_cells(y, x, false);
    assert forall|i: int, j: int, e: bool| cell(x, y, i, j, e) == #[trigger] cell(y, x, j, i, e) by {}
}

/// All sixteen cells of the grid, summed.
proof fn lemma_grid_cells(x: Seq<u16>, y: Seq<u16>, exact: bool)
    ensures
        grid_hits(x, y, 4, exact) == cell(x, y, 0, 0, exact) + cell(x, y, 0, 1, exact) + cell(x, y, 0, 2, exact) + cell(x, y, 0, 3, exact) + cell(x, y, 1, 0, exact) + cell(x, y, 1, 1, exact) + cell(x, y, 1, 2, exact) + cell(x, y, 1, 3, exact) + cell(x, y, 2, 0, exact) + cell(x, y, 2, 1, exact) + cell(x, y, 2, 2, exact) + cell(x, y, 2, 3, exact) + cell(x, y, 3, 0, exact) + cell(x, y, 3, 1, exact) + cell(x, y, 3, 2, exact) + cell(x, y, 3, 3, exact),
{
    reveal_with_fuel(grid_hits, 5);
    reveal_with_fuel(row_hits, 5);
}

/// The digit sequences of the codes below `n`, in ascending numeric order.
pub open spec fn codes_below(n: int) -> Seq<Seq<u16>>
    decreases n,
{
    if n <= 1001 {
        Seq::empty()
    } else if is_code_number(n - 1) {
        codes_below(n - 1).push(digits_of(n - 1))
    } else {
        codes_below(n - 1)
    }
}

/// The digit sequences of every code, in ascending numeric order.
pub open spec fn code_universe() -> Seq<Seq<u16>> {
    codes_below(9999)
}

/// The digit sequences of a sequence of codes.
pub open spec fn views(s: Seq<Guess>) -> Seq<Seq<u16>> {
    s.map_values(|g: Guess| g@)
}

/// The digits of a four-digit number write that number again.
proof fn lemma_number_of_digits(n: int)
    requires
        1000 <= n < 10000,
    ensures
        number_of(digits_of(n)) == n,
{
    let d = digits_of(n);
    assert(d[0] == n / 1000 && d[1] == (n / 100) % 10 && d[2] == (n / 10) % 10 && d[3] == n % 10);
    assert(1000 * (n / 1000) + 100 * ((n / 100) % 10) + 10 * ((n / 10) % 10) + n % 10 == n)
        by (nonlinear_arith)
        requires
            1000 <= n < 10000,
    ;
}

/// The feedback of one comparison: bulls ("toros") and cows ("vacas").
#[derive(Clone, Copy, Debug, PartialEq, Eq, Structural)]
pub struct Info {
    toros: u16,
    vacas: u16,
}

impl View for Info {
    type V = (nat, nat);

    closed spec fn view(&self) -> (nat, nat) {
        (self.toros as nat, self.vacas as nat)
    }
}

impl Info {
    /// Feedback of `toros` bulls and `vacas` cows.
    pub fn new(toros: u16, vacas: u16) -> (r: Info)
        ensures
            r@ == (toros as nat, vacas as nat),
    {
        Info { toros, vacas }
    }

    /// The number of bulls.
    pub fn toros(&self) -> (r: u16)
        ensures
            r as nat == self@.0,
    {
        self.toros
    }

    /// The number of cows.
    pub fn vacas(&self) -> (r: u16)
        ensures
            r as nat == self@.1,
    {
        self.vacas
    }

    /// Two feedbacks are equal exactly when their counts are.
    pub proof fn lemma_view_eq(a: Info, b: Info)
        ensures
            (a@ == b@) <==> (a == b),
    {
    }
}

/// A guess together with the feedback it received.
pub struct Answer {
    guess: Guess,
    info: Info,
}

impl Answer {
    /// The record of `guess` having received `info`.
    pub fn new(guess: Guess, info: Info) -> (r: Answer)
        ensures
            r.guess() == guess,
            r.info() == info,
    {
        Answer { guess, info }
    }

    /// The guess that was made.
    pub closed spec fn guess(&self) -> Guess {
        self.guess
    }

    /// The feedback it received.
    pub closed spec fn info(&self) -> Info {
        self.info
    }

    /// The guess that was made.
    pub fn get_guess(&self) -> (r: Guess)
        ensures
            r == self.guess(),
    {
        self.guess
    }

    /// The feedback it received.
    pub fn get_info(&self) -> (r: Info)
        ensures
            r == self.info(),
    {
        self.info
    }
}

/// How many numbers `Guess::generate` draws at most.
pub const MAX_DRAWS: u32 = 1000000;

/// Relies on rand's `Rng::gen_range` over `thread_rng()`: a number drawn
/// from the half-open range `low..high`, which `low < high` keeps non-empty,
/// so the call does not panic.
#[verifier::external_body]
fn draw_number(low: u16, high: u16) -> (r: u16)
    requires
        low < high,
    ensures
        low <= r < high,
{
    rand::Rng::gen_range(&mut rand::thread_rng(), low..high)
}

/// A code: four pairwise-distinct decimal digits.
#[derive(Clone, Copy, Debug, Eq)]
pub struct Guess {
    val: [u16; 4],
}

impl View for Guess {
    type V = Seq<u16>;

    closed spec fn view(&self) -> Seq<u16> {
        self.val@
    }
}

impl PartialEq for Guess {
    fn eq(&self, other: &Guess) -> (r: bool) {
        let r = self.val[0] == other.val[0] && self.val[1] == other.val[1] && self.val[2]
            == other.val[2] && self.val[3] == other.val[3];
        proof {
            if r {
                assert(self.val@ =~= other.val@);
            }
        }
        r
    }
}

impl vstd::std_specs::cmp::PartialEqSpecImpl for Guess {
    open spec fn obeys_eq_spec() -> bool {
        true
    }

    open spec fn eq_spec(&self, other: &Guess) -> bool {
        self@ == other@
    }
}

impl Guess {
    #[verifier::type_invariant]
    spec fn inv(&self) -> bool {
        valid_digits(self.val@)
    }

    /// Two codes with the same digits are the same code.
    pub proof fn lemma_view_injective(a: Guess, b: Guess)
        ensures
            a@ == b@ ==> a == b,
    {
        if a@ == b@ {
            assert(a.val =~= b.val);
        }
    }

    /// The code for `n`, when `n` lies strictly between 1000 and 9999 and its
    /// four digits are pairwise distinct.
    pub fn from(n: u16) -> (r: Option<Guess>)
        ensures
            r is Some <==> is_code_number(n as int),
            r is Some ==> r->0@ == digits_of(n as int),
    {
        if 1000 < n && n < 9999 {
            let d = n % 10;
            let c = (n / 10) % 10;
            let b = (n / 100) % 10;
            let a = (n / 1000) % 10;
            if a != b && a != c && a != d && b != c && b != d && c != d {
                let g = Guess { val: [a, b, c, d] };
                assert(g.val@ =~= digits_of(n as int));
                return Some(g);
            }
            assert(!valid_digits(digits_of(n as int)));
        }
        None
    }

    /// The decimal number this code writes, e.g. 1234.
    pub fn number(&self) -> (r: u16)
        ensures
            r as int == number_of(self@),
    {
        proof {
            use_type_invariant(self);
        }
        1000 * self.val[0] + 100 * self.val[1] + 10 * self.val[2] + self.val[3]
    }

    /// A code drawn at random: numbers are drawn uniformly from 1000..9999
    /// until one is a code. A draw is a code with probability above one half,
    /// so the bound on the number of draws is never met in practice; it only
    /// makes the loop finite, and past it the smallest code is returned.
    pub fn generate() -> (r: Guess)
        ensures
            valid_digits(r@),
    {
        let mut draws: u32 = 0;
        while draws < MAX_DRAWS
            decreases MAX_DRAWS - draws,
        {
            let rand_int = draw_number(1000, 9999);
            if let Some(guess) = Guess::from(rand_int) {
                proof {
                    use_type_invariant(&guess);
                }
                return guess;
            }
            draws += 1;
        }
        let g = Guess { val: [1, 0, 2, 3] };
        proof {
            use_type_invariant(&g);
        }
        g
    }

    /// Compares this code with `guess`: for each digit of `self` at
    /// position `i` and each digit of `guess` at position `j` that are equal,
    /// a bull when `i == j`, a cow otherwise.
    pub fn compare(&self, guess: &Guess) -> (r: Info)
        ensures
            r@ == feedback(*self, *guess),
    {
        let mut toros: u16 = 0;
        let mut vacas: u16 = 0;
        let mut i: usize = 0;
        while i < 4
            invariant
                i <= 4,
                toros == grid_hits(self@, guess@, i as int, true),
                vacas == grid_hits(self@, guess@, i as int, false),
                toros + vacas <= 4 * i,
            decreases 4 - i,
        {
            let mut j: usize = 0;
            while j < 4
                invariant
                    i < 4,
                    j <= 4,
                    toros == grid_hits(self@, guess@, i as int, true) + row_hits(self@, guess@, i as int, j as int, true),
                    vacas == grid_hits(self@, guess@, i as int, false) + row_hits(self@, guess@, i as int, j as int, false),
                    toros + vacas <= 4 * i + j,
                decreases 4 - j,
            {
                if self.val[i] == guess.val[j] {
                    if i == j {
                        toros += 1;
                    } else {
                        vacas += 1;
                    }
                }
                j += 1;
            }
            i += 1;
        }
        Info::new(toros, vacas)
    }

    /// Every code, in ascending numeric order: each number strictly between
    /// 1000 and 9999 whose four digits are pairwise distinct.
    pub fn all() -> (r: Vec<Guess>)
        ensures
            views(r@) == code_universe(),
            forall|k: int| 0 <= k < r.len() ==> is_code_number(number_of(#[trigger] r@[k]@)),
            forall|k: int, l: int| 0 <= k < l < r.len() ==> number_of(r@[k]@) < number_of(r@[l]@),
            forall|n: int| is_code_number(n) ==> exists|k: int| 0 <= k < r.len() && number_of(#[trigger] r@[k]@) == n,
            forall|k: int, l: int| 0 <= k < l < r.len() ==> r@[k]@ != r@[l]@,
            forall|k: int| 0 <= k < r.len() ==> valid_digits(#[trigger] r@[k]@),
    {
        let mut all_guesses: Vec<Guess> = Vec::new();
        let mut n: u16 = 1000;
        while n < 9999
            invariant
                1000 <= n <= 9999,
                views(all_guesses@) == codes_below(n as int),
                forall|k: int| 0 <= k < all_guesses.len() ==> valid_digits(#[trigger] all_guesses@[k]@),
                forall|k: int| 0 <= k < all_guesses.len() ==> is_code_number(number_of(#[trigger] all_guesses@[k]@)),
                forall|k: int| 0 <= k < all_guesses.len() ==> number_of(#[trigger] all_guesses@[k]@) < n,
                forall|k: int, l: int| 0 <= k < l < all_guesses.len() ==> number_of(all_guesses@[k]@) < number_of(all_guesses@[l]@),
                forall|m: int| 1000 <= m < n && is_code_number(m) ==> exists|k: int| 0 <= k < all_guesses.len() && number_of(#[trigger] all_guesses@[k]@) == m,
            decreases 9999 - n,
        {
            if let Some(guess) = Guess::from(n) {
                proof {
                    lemma_number_of_digits(n as int);
                }
                let ghost prev = all_guesses@;
                all_guesses.push(guess);
                proof {
                    assert(views(all_guesses@) =~= views(prev).push(guess@));
                    assert(number_of(all_guesses@[all_guesses.len() - 1]@) == n);
                    assert forall|m: int| 1000 <= m < n + 1 && is_code_number(m) implies exists|k: int| 0 <= k < all_guesses.len() && number_of(#[trigger] all_guesses@[k]@) == m by {
                        if m < n {
                            let k = choose|k: int| 0 <= k < prev.len() && number_of(#[trigger] prev[k]@) == m;
                            assert(all_guesses@[k] == prev[k]);
                        } else {
                            assert(number_of(all_guesses@[all_guesses.len() - 1]@) == m);
                        }
                    }
                }
            }
            n += 1;
        }
        all_guesses
    }
}

} // verus!
