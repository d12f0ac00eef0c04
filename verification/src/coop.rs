//! The pure parts of the cooperative-contract engine: grades and the
//! four-level completion classification. The numeric scoring law itself
//! works on floating-point snapshot fields and lives in the runtime shell;
//! every discrete decision it feeds is made here.

use vstd::prelude::*;

verus! {

/// A contract grade.
#[derive(Clone, Copy, PartialEq, Eq, Structural, Debug)]
pub enum PlayerGrade {
    GradeUnset,
    GradeC,
    GradeB,
    GradeA,
    GradeAa,
    GradeAaa,
}

impl PlayerGrade {
    /// The grade stored as a small integer (1 C through 5 AAA; anything
    /// else unset).
    pub fn from_index(grade: i64) -> (r: PlayerGrade)
        ensures
            r == (if grade == 1 {
                PlayerGrade::GradeC
            } else if grade == 2 {
                PlayerGrade::GradeB
            } else if grade == 3 {
                PlayerGrade::GradeA
            } else if grade == 4 {
                PlayerGrade::GradeAa
            } else if grade == 5 {
                PlayerGrade::GradeAaa
            } else {
                PlayerGrade::GradeUnset
            }),
    {
        if grade == 1 {
            PlayerGrade::GradeC
        } else if grade == 2 {
            PlayerGrade::GradeB
        } else if grade == 3 {
            PlayerGrade::GradeA
        } else if grade == 4 {
            PlayerGrade::GradeAa
        } else if grade == 5 {
            PlayerGrade::GradeAaa
        } else {
            PlayerGrade::GradeUnset
        }
    }

    /// The display label of a grade.
    pub fn grade_str(&self) -> (r: &'static str)
        ensures
            r@ == (match self {
                PlayerGrade::GradeUnset => "N/A"@,
                PlayerGrade::GradeC => "C"@,
                PlayerGrade::GradeB => "B"@,
                PlayerGrade::GradeA => "A"@,
                PlayerGrade::GradeAa => "AA"@,
                PlayerGrade::GradeAaa => "AAA"@,
            }),
    {
        match self {
            PlayerGrade::GradeUnset => "N/A",
            PlayerGrade::GradeC => "C",
            PlayerGrade::GradeB => "B",
            PlayerGrade::GradeA => "A",
            PlayerGrade::GradeAa => "AA",
            PlayerGrade::GradeAaa => "AAA",
        }
    }
}

/// The boolean progress flags of one remote room snapshot.
#[derive(Clone, Copy, PartialEq, Eq, Structural, Debug)]
pub struct CoopFlags {
    /// The room reported itself cleared for exit.
    pub cleared_for_exit: bool,
    /// Every member has reported in after completion.
    pub all_members_reporting: bool,
    /// Every goal tier is reached.
    pub all_goals_achieved: bool,
}

/// How far along a room is. The four states are ordered and terminal in
/// this progression: Cleared > Completed > OnTrack > NotTrack.
#[derive(Clone, Copy, PartialEq, Eq, Structural, Debug)]
pub enum CompletionLevel {
    NotTrack,
    OnTrack,
    Completed,
    Cleared,
}

/// The classification rule: cleared when the room says so or everyone has
/// reported; completed when all goals are reached; on track when the
/// projected completion fits the window; otherwise not on track.
pub open spec fn spec_completion_level(flags: CoopFlags, on_time: bool) -> CompletionLevel {
    if flags.cleared_for_exit || flags.all_members_reporting {
        CompletionLevel::Cleared
    } else if flags.all_goals_achieved {
        CompletionLevel::Completed
    } else if on_time {
        CompletionLevel::OnTrack
    } else {
        CompletionLevel::NotTrack
    }
}

impl CompletionLevel {
    /// Classify one snapshot; `on_time` says whether the projected
    /// completion time lies within the grade's contract window.
    pub fn from_status(flags: &CoopFlags, on_time: bool) -> (r: CompletionLevel)
        ensures
            r == spec_completion_level(*flags, on_time),
    {
        if flags.cleared_for_exit || flags.all_members_reporting {
            CompletionLevel::Cleared
        } else if flags.all_goals_achieved {
            CompletionLevel::Completed
        } else if on_time {
            CompletionLevel::OnTrack
        } else {
            CompletionLevel::NotTrack
        }
    }

    /// The traffic-light emoji of each level.
    pub fn emoji(&self) -> (r: &'static str)
        ensures
            r@ == (match self {
                CompletionLevel::NotTrack => "🔴"@,
                CompletionLevel::OnTrack => "🟡"@,
                CompletionLevel::Completed => "🟢"@,
                CompletionLevel::Cleared => "✅"@,
            }),
    {
        match self {
            CompletionLevel::NotTrack => "🔴",
            CompletionLevel::OnTrack => "🟡",
            CompletionLevel::Completed => "🟢",
            CompletionLevel::Cleared => "✅",
        }
    }

    /// Whether the contract is finished (completed or cleared).
    pub fn is_finished(&self) -> (r: bool)
        ensures
            r == (self is Completed || self is Cleared),
    {
        match self {
            CompletionLevel::Completed => true,
            CompletionLevel::Cleared => true,
            _ => false,
        }
    }

    /// Whether the room is cleared for exit.
    pub fn is_cleared(&self) -> (r: bool)
        ensures
            r == (self is Cleared),
    {
        match self {
            CompletionLevel::Cleared => true,
            _ => false,
        }
    }
}

} // verus!
