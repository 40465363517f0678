use vstd::prelude::*;

verus! {

/// A month of the year, for grouping and display.
#[derive(Clone, Copy, Debug, PartialEq, Eq, Structural)]
pub enum Month {
    January,
    February,
    March,
    April,
    May,
    June,
    July,
    August,
    September,
    October,
    November,
    December,
}

/// The month a number names, counting January as 1; any other number reads
/// as January, as the display layer always has.
pub open spec fn spec_to_month(month: int) -> Month {
    if month == 1 {
        Month::January
    } else if month == 2 {
        Month::February
    } else if month == 3 {
        Month::March
    } else if month == 4 {
        Month::April
    } else if month == 5 {
        Month::May
    } else if month == 6 {
        Month::June
    } else if month == 7 {
        Month::July
    } else if month == 8 {
        Month::August
    } else if month == 9 {
        Month::September
    } else if month == 10 {
        Month::October
    } else if month == 11 {
        Month::November
    } else if month == 12 {
        Month::December
    } else {
        Month::January
    }
}

/// The month a number 1 to 12 names; any other number reads as January.
pub fn to_month(month: u32) -> (m: Month)
    ensures
        m == spec_to_month(month as int),
{
    match month {
        1 => Month::January,
        2 => Month::February,
        3 => Month::March,
        4 => Month::April,
        5 => Month::May,
        6 => Month::June,
        7 => Month::July,
        8 => Month::August,
        9 => Month::September,
        10 => Month::October,
        11 => Month::November,
        12 => Month::December,
        _ => Month::January,
    }
}

pub open spec fn spec_month_name(m: Month) -> Seq<char> {
    match m {
        Month::January => "January"@,
        Month::February => "February"@,
        Month::March => "March"@,
        Month::April => "April"@,
        Month::May => "May"@,
        Month::June => "June"@,
        Month::July => "July"@,
        Month::August => "August"@,
        Month::September => "September"@,
        Month::October => "October"@,
        Month::November => "November"@,
        Month::December => "December"@,
    }
}

impl Month {
    /// The English name of the month, as display headings use it.
    pub fn name(&self) -> (r: &'static str)
        ensures
            r@ == spec_month_name(*self),
    {
        match self {
            Month::January => "January",
            Month::February => "February",
            Month::March => "March",
            Month::April => "April",
            Month::May => "May",
            Month::June => "June",
            Month::July => "July",
            Month::August => "August",
            Month::September => "September",
            Month::October => "October",
            Month::November => "November",
            Month::December => "December",
        }
    }
}

} // verus!
