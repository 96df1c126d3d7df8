//! The three states a cell can be in, their trit values and their symbols.

use vstd::prelude::*;

verus! {

/// A ternary cell state.
#[derive(Debug, Clone, Copy, PartialEq, Eq, Structural, Hash)]
pub enum CellState {
    /// Fully dead (trit -1).
    Dead,
    /// Dormant, can be activated by neighbours (trit 0).
    Dormant,
    /// Alive and active (trit +1).
    Alive,
}

/// The trit value of a state: Dead is -1, Dormant is 0, Alive is +1.
pub open spec fn trit_of(s: CellState) -> int {
    match s {
        CellState::Dead => -1,
        CellState::Dormant => 0,
        CellState::Alive => 1,
    }
}

/// The state whose trit is `t`; meaningful for `t` in {-1, 0, 1}.
pub open spec fn state_of_trit(t: int) -> CellState
    recommends
        -1 <= t <= 1,
{
    if t < 0 {
        CellState::Dead
    } else if t == 0 {
        CellState::Dormant
    } else {
        CellState::Alive
    }
}

/// A trit is one of -1, 0, +1.
pub open spec fn is_trit(t: int) -> bool {
    -1 <= t <= 1
}

/// The symbol used to draw a state: `·` for Dead, `○` for Dormant, `●` for Alive.
pub open spec fn symbol_of(s: CellState) -> char {
    match s {
        CellState::Dead => '\u{B7}',
        CellState::Dormant => '\u{25CB}',
        CellState::Alive => '\u{25CF}',
    }
}

impl CellState {
    /// Convert to a trit integer.
    pub fn to_trit(self) -> (t: i8)
        ensures
            t == trit_of(self),
    {
        match self {
            CellState::Dead => -1,
            CellState::Dormant => 0,
            CellState::Alive => 1,
        }
    }

    /// Create from a trit integer; only -1, 0 and +1 are trits.
    pub fn from_trit(t: i8) -> (s: CellState)
        requires
            is_trit(t as int),
        ensures
            s == state_of_trit(t as int),
            trit_of(s) == t,
    {
        match t {
            -1 => CellState::Dead,
            0 => CellState::Dormant,
            _ => CellState::Alive,
        }
    }

    /// The symbol this state is drawn with, as a string slice.
    pub fn symbol_str(self) -> (r: &'static str)
        ensures
            r@ == seq![symbol_of(self)],
    {
        match self {
            CellState::Dead => {
                proof {
                    reveal_strlit("\u{B7}");
                }
                "\u{B7}"
            },
            CellState::Dormant => {
                proof {
                    reveal_strlit("\u{25CB}");
                }
                "\u{25CB}"
            },
            CellState::Alive => {
                proof {
                    reveal_strlit("\u{25CF}");
                }
                "\u{25CF}"
            },
        }
    }

    /// The symbol this state is drawn with, as a string.
    pub fn to_string(&self) -> (r: String)
        ensures
            r@ == seq![symbol_of(*self)],
    {
        String::from_str(self.symbol_str())
    }
}

/// Reading a state's trit back gives the same state, and every trit is the
/// trit of the state it names.
pub proof fn lemma_trit_roundtrip(s: CellState, t: int)
    ensures
        state_of_trit(trit_of(s)) == s,
        is_trit(trit_of(s)),
        is_trit(t) ==> trit_of(state_of_trit(t)) == t,
{
}

/// The trits run in the order Dead < Dormant < Alive, each one of -1, 0, +1.
pub proof fn lemma_trit_order()
    ensures
        trit_of(CellState::Dead) < trit_of(CellState::Dormant) < trit_of(CellState::Alive),
        is_trit(trit_of(CellState::Dead)),
        is_trit(trit_of(CellState::Alive)),
{
}

} // verus!
