//! The octave algebra of the Blocked Potentials Formula: 4+ 3+ 2+ 1+ 0= 1- 2- 3- 4-.
use vstd::prelude::*;
use vstd::string::*;

verus! {

/// Position in the Blocked Potentials Formula.
#[derive(Debug, Clone, Copy, PartialEq, Eq, Hash, Structural)]
pub enum OctavePosition {
    Generation4Plus,
    Generation3Plus,
    Generation2Plus,
    Generation1Plus,
    Inertia0,
    Radiation1Minus,
    Radiation2Minus,
    Radiation3Minus,
    Radiation4Minus,
}

/// The numeric index of a position, from +4 down to -4.
pub open spec fn position_index(p: OctavePosition) -> int {
    match p {
        OctavePosition::Generation4Plus => 4,
        OctavePosition::Generation3Plus => 3,
        OctavePosition::Generation2Plus => 2,
        OctavePosition::Generation1Plus => 1,
        OctavePosition::Inertia0 => 0,
        OctavePosition::Radiation1Minus => -1,
        OctavePosition::Radiation2Minus => -2,
        OctavePosition::Radiation3Minus => -3,
        OctavePosition::Radiation4Minus => -4,
    }
}

/// The position with a given index, if the index lies in -4..=4.
pub open spec fn position_at(i: int) -> Option<OctavePosition> {
    if i == 4 {
        Some(OctavePosition::Generation4Plus)
    } else if i == 3 {
        Some(OctavePosition::Generation3Plus)
    } else if i == 2 {
        Some(OctavePosition::Generation2Plus)
    } else if i == 1 {
        Some(OctavePosition::Generation1Plus)
    } else if i == 0 {
        Some(OctavePosition::Inertia0)
    } else if i == -1 {
        Some(OctavePosition::Radiation1Minus)
    } else if i == -2 {
        Some(OctavePosition::Radiation2Minus)
    } else if i == -3 {
        Some(OctavePosition::Radiation3Minus)
    } else if i == -4 {
        Some(OctavePosition::Radiation4Minus)
    } else {
        None
    }
}

/// One step along the cycle: down one octave, and from 4- back to 4+.
pub open spec fn spec_next(p: OctavePosition) -> OctavePosition {
    if position_index(p) == -4 {
        OctavePosition::Generation4Plus
    } else {
        position_at(position_index(p) - 1)->0
    }
}

/// `n` steps along the cycle.
pub open spec fn spec_advance(p: OctavePosition, n: nat) -> OctavePosition
    decreases n,
{
    if n == 0 {
        p
    } else {
        spec_advance(spec_next(p), (n - 1) as nat)
    }
}

/// The symbol of a position in the formula.
pub open spec fn position_symbol(p: OctavePosition) -> Seq<char> {
    match p {
        OctavePosition::Generation4Plus => seq!['4', '+'],
        OctavePosition::Generation3Plus => seq!['3', '+'],
        OctavePosition::Generation2Plus => seq!['2', '+'],
        OctavePosition::Generation1Plus => seq!['1', '+'],
        OctavePosition::Inertia0 => seq!['0', '='],
        OctavePosition::Radiation1Minus => seq!['1', '-'],
        OctavePosition::Radiation2Minus => seq!['2', '-'],
        OctavePosition::Radiation3Minus => seq!['3', '-'],
        OctavePosition::Radiation4Minus => seq!['4', '-'],
    }
}

impl OctavePosition {
    /// Returns the numeric index (-4 to +4).
    pub fn as_index(&self) -> (r: i8)
        ensures
            r as int == position_index(*self),
    {
        match self {
            OctavePosition::Generation4Plus => 4,
            OctavePosition::Generation3Plus => 3,
            OctavePosition::Generation2Plus => 2,
            OctavePosition::Generation1Plus => 1,
            OctavePosition::Inertia0 => 0,
            OctavePosition::Radiation1Minus => -1,
            OctavePosition::Radiation2Minus => -2,
            OctavePosition::Radiation3Minus => -3,
            OctavePosition::Radiation4Minus => -4,
        }
    }

    /// Creates from an index; `None` outside -4..=4.
    pub fn from_index(index: i8) -> (r: Option<Self>)
        ensures
            r == position_at(index as int),
    {
        match index {
            4 => Some(OctavePosition::Generation4Plus),
            3 => Some(OctavePosition::Generation3Plus),
            2 => Some(OctavePosition::Generation2Plus),
            1 => Some(OctavePosition::Generation1Plus),
            0 => Some(OctavePosition::Inertia0),
            -1 => Some(OctavePosition::Radiation1Minus),
            -2 => Some(OctavePosition::Radiation2Minus),
            -3 => Some(OctavePosition::Radiation3Minus),
            -4 => Some(OctavePosition::Radiation4Minus),
            _ => None,
        }
    }

    /// Whether it is in the Generation phase (index above 0).
    pub fn is_generation(&self) -> (r: bool)
        ensures
            r == (position_index(*self) > 0),
    {
        self.as_index() > 0
    }

    /// Whether it is in the Radiation phase (index below 0).
    pub fn is_radiation(&self) -> (r: bool)
        ensures
            r == (position_index(*self) < 0),
    {
        self.as_index() < 0
    }

    /// Whether it is at the Inertia point (index 0).
    pub fn is_inertia(&self) -> (r: bool)
        ensures
            r == (position_index(*self) == 0),
    {
        self.as_index() == 0
    }

    /// Transition to the next octave; from 4- the cycle restarts at 4+.
    pub fn next(&self) -> (r: Option<Self>)
        ensures
            r == Some(spec_next(*self)),
    {
        let current = self.as_index();
        if current == -4 {
            Some(OctavePosition::Generation4Plus)
        } else {
            OctavePosition::from_index(current - 1)
        }
    }

    /// Transition to the previous octave; `None` at the start of the cycle (4+).
    pub fn previous(&self) -> (r: Option<Self>)
        ensures
            r == position_at(position_index(*self) + 1),
            position_index(*self) == 4 <==> r is None,
    {
        let current = self.as_index();
        if current == 4 {
            None
        } else {
            OctavePosition::from_index(current + 1)
        }
    }

    /// The symbol of the position in the formula ("4+" ... "0=" ... "4-").
    pub fn to_string(&self) -> (r: String)
        ensures
            r@ == position_symbol(*self),
    {
        let s = match self {
            OctavePosition::Generation4Plus => "4+",
            OctavePosition::Generation3Plus => "3+",
            OctavePosition::Generation2Plus => "2+",
            OctavePosition::Generation1Plus => "1+",
            OctavePosition::Inertia0 => "0=",
            OctavePosition::Radiation1Minus => "1-",
            OctavePosition::Radiation2Minus => "2-",
            OctavePosition::Radiation3Minus => "3-",
            OctavePosition::Radiation4Minus => "4-",
        };
        proof {
            reveal_strlit("4+");
            reveal_strlit("3+");
            reveal_strlit("2+");
            reveal_strlit("1+");
            reveal_strlit("0=");
            reveal_strlit("1-");
            reveal_strlit("2-");
            reveal_strlit("3-");
            reveal_strlit("4-");
        }
        String::from_str(s)
    }
}

/// Full cycle of the octaves, in order from 4+ to 4-.
pub struct OctaveCycle {
    positions: [OctavePosition; 9],
}

/// The nine positions in the order of the formula.
pub open spec fn cycle_positions() -> Seq<OctavePosition> {
    seq![
        OctavePosition::Generation4Plus,
        OctavePosition::Generation3Plus,
        OctavePosition::Generation2Plus,
        OctavePosition::Generation1Plus,
        OctavePosition::Inertia0,
        OctavePosition::Radiation1Minus,
        OctavePosition::Radiation2Minus,
        OctavePosition::Radiation3Minus,
        OctavePosition::Radiation4Minus,
    ]
}

impl OctaveCycle {
    /// The positions of the cycle.
    pub closed spec fn view_positions(&self) -> Seq<OctavePosition> {
        self.positions@
    }

    pub fn new() -> (r: Self)
        ensures
            r.view_positions() == cycle_positions(),
    {
        let r = OctaveCycle {
            positions: [
                OctavePosition::Generation4Plus,
                OctavePosition::Generation3Plus,
                OctavePosition::Generation2Plus,
                OctavePosition::Generation1Plus,
                OctavePosition::Inertia0,
                OctavePosition::Radiation1Minus,
                OctavePosition::Radiation2Minus,
                OctavePosition::Radiation3Minus,
                OctavePosition::Radiation4Minus,
            ],
        };
        assert(r.positions@ =~= cycle_positions());
        r
    }

    /// Returns all positions in order.
    pub fn all_positions(&self) -> (r: &[OctavePosition])
        ensures
            r@ == self.view_positions(),
    {
        self.positions.as_slice()
    }
}

/// Potential difference between two octaves (index of `to` minus index of `from`).
pub fn octave_difference(from: OctavePosition, to: OctavePosition) -> (r: i8)
    ensures
        r as int == position_index(to) - position_index(from),
{
    to.as_index() - from.as_index()
}

/// Index and position are inverse to each other.
pub proof fn law_index_roundtrip(p: OctavePosition, i: int)
    ensures
        position_at(position_index(p)) == Some(p),
        position_at(i) matches Some(q) ==> position_index(q) == i,
        position_at(i) is Some <==> -4 <= i <= 4,
{
}

/// Every position is in exactly one phase: Generation, Inertia or Radiation.
pub proof fn law_phases_partition(p: OctavePosition)
    ensures
        (position_index(p) > 0) as int + (position_index(p) == 0) as int + (position_index(p) < 0) as int == 1,
{
}

/// Stepping forward then back returns to the start, except across the restart at 4-.
pub proof fn law_next_then_previous(p: OctavePosition)
    ensures
        position_index(p) != -4 ==> position_at(position_index(spec_next(p)) + 1) == Some(p),
        position_index(p) == -4 ==> spec_next(p) == OctavePosition::Generation4Plus,
{
}

/// An index brought back into -4..=4 around the cycle of nine positions.
pub open spec fn wrap_index(i: int) -> int {
    (i + 4) % 9 - 4
}

proof fn lemma_wrap_shift(x: int, y: int)
    ensures
        wrap_index(wrap_index(x) + y) == wrap_index(x + y),
{
    assert(((x + 4) % 9 + y) % 9 == (x + 4 + y) % 9) by (nonlinear_arith);
}

proof fn lemma_advance_index(p: OctavePosition, n: nat)
    ensures
        position_index(spec_advance(p, n)) == wrap_index(position_index(p) - n),
    decreases n,
{
    if n == 0 {
        assert(wrap_index(position_index(p)) == position_index(p));
    } else {
        lemma_advance_index(spec_next(p), (n - 1) as nat);
        assert(position_index(spec_next(p)) == wrap_index(position_index(p) - 1));
        lemma_wrap_shift(position_index(p) - 1, -(n - 1));
    }
}

/// The cycle has length nine: nine steps return to the starting position, fewer do not.
pub proof fn law_cycle_length(p: OctavePosition)
    ensures
        spec_advance(p, 9) == p,
        forall|n: nat| 0 < n < 9 ==> #[trigger] spec_advance(p, n) != p,
{
    lemma_advance_index(p, 9);
    assert(wrap_index(position_index(p) - 9) == position_index(p));
    law_index_roundtrip(spec_advance(p, 9), 0);
    law_index_roundtrip(p, 0);
    assert forall|n: nat| 0 < n < 9 implies #[trigger] spec_advance(p, n) != p by {
        lemma_advance_index(p, n);
    }
}

/// Octave differences are antisymmetric and add up along a chain of transitions.
pub proof fn law_difference_chain(a: OctavePosition, b: OctavePosition, c: OctavePosition)
    ensures
        position_index(b) - position_index(a) == -(position_index(a) - position_index(b)),
        (position_index(b) - position_index(a)) + (position_index(c) - position_index(b))
            == position_index(c) - position_index(a),
{
}

} // verus!
