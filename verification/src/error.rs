use vstd::prelude::*;

verus! {

/// The failures a birthday operation can report.
///
/// `NotFound` comes from reading or editing a user that has no record,
/// `Conflict` from creating a record for a user that already has one, and
/// `InvalidDate` from a date string that does not name a real calendar date.
#[derive(Clone, Copy, Debug, PartialEq, Eq, Structural)]
pub enum BirthdayError {
    NotFound,
    Conflict,
    InvalidDate,
}

pub open spec fn spec_error_message(e: BirthdayError) -> Seq<char> {
    match e {
        BirthdayError::NotFound => "No birthday found for this user"@,
        BirthdayError::Conflict => "This user already has a birthday set"@,
        BirthdayError::InvalidDate => "The date is not a real calendar date written day-month-year"@,
    }
}

impl BirthdayError {
    /// A short description for the surrounding application to show.
    pub fn message(&self) -> (r: &'static str)
        ensures
            r@ == spec_error_message(*self),
    {
        match self {
            BirthdayError::NotFound => "No birthday found for this user",
            BirthdayError::Conflict => "This user already has a birthday set",
            BirthdayError::InvalidDate => "The date is not a real calendar date written day-month-year",
        }
    }
}

} // verus!
