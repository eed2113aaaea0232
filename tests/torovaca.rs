use torovaca::code::{Guess, Info, Answer};
use torovaca::player::{AIPlayer, Mark, Player};
use torovaca::session::{is_solved, Game, Phase};
use torovaca::solver::minimax;
use torovaca::text::{mode, parse_feedback, Mode};

fn code(n: u16) -> Guess {
    Guess::from(n).unwrap()
}

#[test]
fn compare() {
    let info = Info::new(2, 1);
    let secret_number = Guess::from(1234).unwrap();
    let guess = Guess::from(2734).unwrap();
    assert_eq!(secret_number.compare(&guess), info);
}

#[test]
fn worked_example_gives_two_bulls_one_cow() {
    let r = code(1234).compare(&code(2734));
    assert_eq!(r.toros(), 2);
    assert_eq!(r.vacas(), 1);
}

#[test]
fn compare_with_itself_is_four_bulls() {
    for n in [1023u16, 1234, 5678, 9876, 4567] {
        assert_eq!(code(n).compare(&code(n)), Info::new(4, 0));
    }
}

#[test]
fn bulls_and_cows_count_shared_digits() {
    assert_eq!(code(1234).compare(&code(4321)), Info::new(0, 4));
    assert_eq!(code(1234).compare(&code(5678)), Info::new(0, 0));
    assert_eq!(code(1234).compare(&code(1289)), Info::new(2, 0));
    assert_eq!(code(1234).compare(&code(3190)), Info::new(0, 2));
    assert_eq!(code(1234).compare(&code(1324)), Info::new(2, 2));
}

#[test]
fn compare_is_symmetric() {
    let all = Guess::all();
    let a = code(1234);
    let b = code(2734);
    assert_eq!(a.compare(&b), b.compare(&a));
    for g in all.iter().step_by(37) {
        for h in all.iter().step_by(101) {
            assert_eq!(g.compare(h), h.compare(g));
        }
    }
}

#[test]
fn from_accepts_only_distinct_digit_numbers_in_range() {
    assert!(Guess::from(1000).is_none());
    assert!(Guess::from(9999).is_none());
    assert!(Guess::from(999).is_none());
    assert!(Guess::from(0).is_none());
    assert!(Guess::from(1123).is_none());
    assert!(Guess::from(1231).is_none());
    assert!(Guess::from(12345).is_none());
    assert_eq!(code(1023).number(), 1023);
    assert_eq!(code(9876).number(), 9876);
    assert_eq!(code(1234).number(), 1234);
}

#[test]
fn all_codes_are_distinct_valid_and_counted() {
    let all = Guess::all();
    assert_eq!(all.len(), 4536);
    for k in 1..all.len() {
        assert!(all[k - 1].number() < all[k].number());
    }
    for g in all.iter() {
        assert!(Guess::from(g.number()).is_some());
    }
    assert_eq!(all[0].number(), 1023);
    assert_eq!(all[all.len() - 1].number(), 9876);
}

#[test]
fn generate_gives_a_valid_code() {
    for _ in 0..20 {
        let g = Guess::generate();
        assert_eq!(Guess::from(g.number()), Some(g));
    }
}

#[test]
fn receive_feedback_keeps_exactly_the_consistent_codes() {
    let all = Guess::all();
    let mut ai = AIPlayer::with_pool(code(5678), all.clone());
    let guess = code(1234);
    let info = Info::new(2, 1);
    ai.receive_feedback(Answer::new(guess, info));
    let expected: Vec<Guess> = all.iter().copied().filter(|c| c.compare(&guess) == info).collect();
    assert!(ai.remaining_guesses() > 0);
    assert_eq!(ai.remaining_guesses(), expected.len());
    for c in all.iter() {
        let kept = ai.mark(c) == Mark::Candidate;
        assert_eq!(kept, c.compare(&guess) == info);
    }
}

#[test]
fn minimax_on_singleton_returns_it() {
    let pool = vec![code(4721)];
    assert_eq!(minimax(&pool), Some(code(4721)));
}

#[test]
fn minimax_on_empty_pool_is_none() {
    let pool: Vec<Guess> = Vec::new();
    assert_eq!(minimax(&pool), None);
}

#[test]
fn minimax_on_two_codes_takes_the_first() {
    let pool = vec![code(1234), code(1243)];
    assert_eq!(minimax(&pool), Some(code(1234)));
}

#[test]
fn minimax_may_pick_a_code_outside_a_medium_pool() {
    let all = Guess::all();
    let pool: Vec<Guess> = all
        .iter()
        .copied()
        .filter(|c| c.compare(&code(1234)) == Info::new(3, 0))
        .collect();
    assert!(pool.len() >= 16 && pool.len() <= 400);
    let g = minimax(&pool).unwrap();
    let worst = |g: &Guess| {
        pool.iter()
            .map(|s| pool.iter().filter(|c| c.compare(g) == g.compare(s)).count())
            .max()
            .unwrap()
    };
    let w = worst(&g);
    for h in all.iter().step_by(13) {
        assert!(worst(h) >= w);
    }
}

#[test]
fn ask_over_five_hundred_takes_the_last_candidate() {
    let all = Guess::all();
    let mut ai = AIPlayer::with_pool(code(1234), all);
    assert_eq!(ai.ask(), Some(code(9876)));
    assert_eq!(ai.remaining_guesses(), 4535);
    assert_eq!(ai.mark(&code(9876)), Mark::Eliminated);
}

#[test]
fn ask_removes_the_chosen_candidate() {
    let mut ai = AIPlayer::with_pool(code(1234), vec![code(1234), code(1243), code(2134)]);
    let g = ai.ask().unwrap();
    assert_eq!(ai.remaining_guesses(), 2);
    assert_ne!(ai.mark(&g), Mark::Candidate);
}

#[test]
fn give_feedback_uses_the_secret() {
    let ai = AIPlayer::with_pool(code(1234), Vec::new());
    let ans = ai.give_feedback(code(2734));
    assert_eq!(ans.get_guess(), code(2734));
    assert_eq!(ans.get_info(), Info::new(2, 1));
}

#[test]
fn new_player_holds_every_code() {
    let ai = AIPlayer::new();
    assert_eq!(ai.remaining_guesses(), 4536);
    assert_eq!(ai.mark(&code(1023)), Mark::Candidate);
}

#[test]
fn marks_distinguish_asked_and_eliminated() {
    let mut ai = AIPlayer::with_pool(code(1234), vec![code(1234), code(5678)]);
    ai.receive_feedback(Answer::new(code(1289), Info::new(2, 0)));
    assert_eq!(ai.mark(&code(1234)), Mark::Candidate);
    assert_eq!(ai.mark(&code(5678)), Mark::Eliminated);
    assert_eq!(ai.mark(&code(1289)), Mark::Asked);
}

#[test]
fn truthful_oracle_game_terminates() {
    let all = Guess::all();
    let limit = all.len();
    for secret in [1234u16, 9876, 5031] {
        let secret = code(secret);
        let mut game = Game::new(AIPlayer::with_pool(code(1023), all.clone()), true);
        let mut guesses = 0usize;
        loop {
            match game.phase() {
                Phase::ComputerTurn => {
                    let g = game.computer_guesses();
                    assert!(g.is_some());
                    guesses += 1;
                }
                Phase::AwaitingFeedback(g) => game.feedback_received(secret.compare(&g)),
                Phase::ComputerWon => break,
                other => panic!("unexpected phase {:?}", other),
            }
            assert!(guesses <= limit);
        }
        assert!(guesses <= limit);
    }
}

#[test]
fn contradictory_feedback_empties_the_pool() {
    let mut ai = AIPlayer::with_pool(code(1234), Guess::all());
    ai.receive_feedback(Answer::new(code(1234), Info::new(3, 1)));
    assert_eq!(ai.remaining_guesses(), 0);
    assert_eq!(ai.ask(), None);

    let mut game = Game::new(AIPlayer::with_pool(code(1234), vec![code(1234), code(5678)]), true);
    assert!(game.computer_guesses().is_some());
    game.feedback_received(Info::new(3, 1));
    assert!(matches!(game.phase(), Phase::ComputerTurn));
    assert_eq!(game.computer_guesses(), None);
    assert!(matches!(game.phase(), Phase::Contradiction));
}

#[test]
fn human_guess_turns() {
    let mut game = Game::new(AIPlayer::with_pool(code(1234), Guess::all()), false);
    assert!(matches!(game.phase(), Phase::HumanTurn));
    let ans = game.human_guesses(code(2734));
    assert_eq!(ans.get_info(), Info::new(2, 1));
    assert!(matches!(game.phase(), Phase::ComputerTurn));
    let g = game.computer_guesses().unwrap();
    assert!(matches!(game.phase(), Phase::AwaitingFeedback(h) if h == g));
    game.feedback_received(Info::new(0, 0));
    assert!(matches!(game.phase(), Phase::HumanTurn));
    let ans = game.human_guesses(code(1234));
    assert!(is_solved(&ans.get_info()));
    assert!(matches!(game.phase(), Phase::HumanWon));
}

#[test]
fn parse_feedback_reads_the_fixed_pattern() {
    assert_eq!(parse_feedback("2t1v"), Some(Info::new(2, 1)));
    assert_eq!(parse_feedback("2T1V"), Some(Info::new(2, 1)));
    assert_eq!(parse_feedback("0T4v"), Some(Info::new(0, 4)));
    assert_eq!(parse_feedback("2x1v"), None);
    assert_eq!(parse_feedback("21v"), None);
    assert_eq!(parse_feedback("2t1v "), None);
    assert_eq!(parse_feedback(""), None);
    assert_eq!(parse_feedback("at1v"), None);
}

#[test]
fn is_solved_only_for_four_bulls() {
    assert!(is_solved(&Info::new(4, 0)));
    assert!(!is_solved(&Info::new(3, 0)));
    assert!(!is_solved(&Info::new(0, 4)));
}

#[test]
fn mode_from_first_argument() {
    assert_eq!(mode(Some("--vguess")), Mode::VisualGuesser);
    assert_eq!(mode(Some("--guess")), Mode::Guesser);
    assert_eq!(mode(Some("--help")), Mode::Help);
    assert_eq!(mode(Some("--rules")), Mode::Rules);
    assert_eq!(mode(Some("--other")), Mode::Normal);
    assert_eq!(mode(None), Mode::Normal);
}

#[test]
fn default_player_holds_every_code() {
    let ai = AIPlayer::default();
    assert_eq!(ai.remaining_guesses(), 4536);
    let secret = ai.give_feedback(code(1234));
    assert_eq!(secret.get_guess(), code(1234));
}

#[test]
fn ask_on_empty_pool_leaves_it_empty() {
    let mut ai = AIPlayer::with_pool(code(1234), Vec::new());
    assert_eq!(ai.ask(), None);
    assert_eq!(ai.remaining_guesses(), 0);
}
