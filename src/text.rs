//! What the console hands the library as text: the feedback a person types
//! and the first command-line argument.
use vstd::prelude::*;
use vstd::string::StringSliceAdditionalSpecFns;
use crate::code::Info;

verus! {

/// True when `b` is the ASCII code of a decimal digit.
pub open spec fn is_digit_byte(b: u8) -> bool {
    48 <= b <= 57
}

/// The counts that feedback text written as bytes `b` stands for: a digit,
/// `t` or `T`, a digit, `v` or `V` (e.g. "2t1v"); `None` for anything else.
pub open spec fn feedback_text(b: Seq<u8>) -> Option<(nat, nat)> {
    if b.len() == 4 && is_digit_byte(b[0]) && (b[1] == 116 || b[1] == 84) && is_digit_byte(b[2])
        && (b[3] == 118 || b[3] == 86) {
        Some(((b[0] - 48) as nat, (b[2] - 48) as nat))
    } else {
        None
    }
}

/// Reads feedback such as "2T1V" or "2t1v": bulls, then cows. `None` when the
/// text is not in that form.
pub fn parse_feedback(text: &str) -> (r: Option<Info>)
    ensures
        r is Some <==> feedback_text(text.spec_bytes()) is Some,
        r is Some ==> r->0@ == feedback_text(text.spec_bytes())->0,
{
    let b = text.as_bytes();
    if b.len() != 4 {
        return None;
    }
    let (t0, t1, t2, t3) = (b[0], b[1], b[2], b[3]);
    if 48 <= t0 && t0 <= 57 && (t1 == 116 || t1 == 84) && 48 <= t2 && t2 <= 57 && (t3 == 118 || t3
        == 86) {
        Some(Info::new((t0 - 48) as u16, (t2 - 48) as u16))
    } else {
        None
    }
}

/// What the program does, as chosen by its first argument.
#[derive(Clone, Copy, Debug, PartialEq, Eq, Structural)]
pub enum Mode {
    /// The computer guesses, and shows its candidates after each round.
    VisualGuesser,
    /// The computer guesses.
    Guesser,
    /// Show the usage text.
    Help,
    /// Show the rules.
    Rules,
    /// A person and the computer guess each other's code in turn.
    Normal,
}

/// The mode that the first argument (if any) selects.
pub open spec fn mode_of(arg: Option<Seq<u8>>) -> Mode {
    match arg {
        None => Mode::Normal,
        Some(b) => if b == "--vguess".spec_bytes() {
            Mode::VisualGuesser
        } else if b == "--guess".spec_bytes() {
            Mode::Guesser
        } else if b == "--help".spec_bytes() {
            Mode::Help
        } else if b == "--rules".spec_bytes() {
            Mode::Rules
        } else {
            Mode::Normal
        },
    }
}

fn same_bytes(a: &[u8], b: &[u8]) -> (r: bool)
    ensures
        r == (a@ == b@),
{
    if a.len() != b.len() {
        return false;
    }
    let mut i: usize = 0;
    while i < a.len()
        invariant
            a.len() == b.len(),
            i <= a.len(),
            forall|j: int| 0 <= j < i ==> a@[j] == b@[j],
        decreases a.len() - i,
    {
        if a[i] != b[i] {
            return false;
        }
        i += 1;
    }
    assert(a@ =~= b@);
    true
}

/// The mode for the program's first argument `arg` (the one after the
/// program's name): `--vguess`, `--guess`, `--help`, `--rules`, and the
/// normal game for anything else or nothing.
pub fn mode(arg: Option<&str>) -> (r: Mode)
    ensures
        r == mode_of(
            match arg {
                Some(s) => Some(s.spec_bytes()),
                None => None,
            },
        ),
{
    match arg {
        Some(s) => {
            let b = s.as_bytes();
            if same_bytes(b, "--vguess".as_bytes()) {
                Mode::VisualGuesser
            } else if same_bytes(b, "--guess".as_bytes()) {
                Mode::Guesser
            } else if same_bytes(b, "--help".as_bytes()) {
                Mode::Help
            } else if same_bytes(b, "--rules".as_bytes()) {
                Mode::Rules
            } else {
                Mode::Normal
            }
        },
        None => Mode::Normal,
    }
}

} // verus!
