//! Days of the week, ordered from Sunday.
use vstd::prelude::*;

verus! {

/// A day of the week; `Sun` is day 0 and `Sat` is day 6.
#[derive(Clone, Copy, Debug, PartialEq, Eq, Structural)]
pub enum Day {
    Sun,
    Mon,
    Tue,
    Wed,
    Thu,
    Fri,
    Sat,
}

/// The day whose index is `i` (for `0 <= i < 7`).
pub open spec fn day_of(i: int) -> Day {
    if i == 0 {
        Day::Sun
    } else if i == 1 {
        Day::Mon
    } else if i == 2 {
        Day::Tue
    } else if i == 3 {
        Day::Wed
    } else if i == 4 {
        Day::Thu
    } else if i == 5 {
        Day::Fri
    } else {
        Day::Sat
    }
}

impl Day {
    /// Position of the day in the week, from 0 (Sunday) to 6 (Saturday).
    pub open spec fn idx(self) -> int {
        match self {
            Day::Sun => 0,
            Day::Mon => 1,
            Day::Tue => 2,
            Day::Wed => 3,
            Day::Thu => 4,
            Day::Fri => 5,
            Day::Sat => 6,
        }
    }

    /// The three-letter name of the day, as it is shown to users.
    pub open spec fn name_view(self) -> Seq<char> {
        match self {
            Day::Sun => seq!['S', 'u', 'n'],
            Day::Mon => seq!['M', 'o', 'n'],
            Day::Tue => seq!['T', 'u', 'e'],
            Day::Wed => seq!['W', 'e', 'd'],
            Day::Thu => seq!['T', 'h', 'u'],
            Day::Fri => seq!['F', 'r', 'i'],
            Day::Sat => seq!['S', 'a', 't'],
        }
    }

    /// Index of the day, from 0 (Sunday) to 6 (Saturday).
    pub fn num(self) -> (r: u32)
        ensures
            r == self.idx(),
            r < 7,
    {
        match self {
            Day::Sun => 0,
            Day::Mon => 1,
            Day::Tue => 2,
            Day::Wed => 3,
            Day::Thu => 4,
            Day::Fri => 5,
            Day::Sat => 6,
        }
    }

    /// The three-letter name of the day.
    pub fn to_string(&self) -> (r: String)
        ensures
            r@ == self.name_view(),
    {
        let s = match self {
            Day::Sun => "Sun",
            Day::Mon => "Mon",
            Day::Tue => "Tue",
            Day::Wed => "Wed",
            Day::Thu => "Thu",
            Day::Fri => "Fri",
            Day::Sat => "Sat",
        };
        proof {
            reveal_strlit("Sun");
            reveal_strlit("Mon");
            reveal_strlit("Tue");
            reveal_strlit("Wed");
            reveal_strlit("Thu");
            reveal_strlit("Fri");
            reveal_strlit("Sat");
        }
        let r = String::from_str(s);
        assert(r@ =~= self.name_view());
        r
    }
}

/// Converts an index from 0 (Sunday) to 6 (Saturday) into its day.
pub fn num_to_day(num: u32) -> (r: Option<Day>)
    ensures
        r is Some <==> num < 7,
        r matches Some(d) ==> d.idx() == num && d == day_of(num as int),
{
    match num {
        0 => Some(Day::Sun),
        1 => Some(Day::Mon),
        2 => Some(Day::Tue),
        3 => Some(Day::Wed),
        4 => Some(Day::Thu),
        5 => Some(Day::Fri),
        6 => Some(Day::Sat),
        _ => None,
    }
}

} // verus!
