use crate::date::{epoch_seconds, spec_div_toward_zero, spec_epoch_seconds, Date};
use vstd::prelude::*;

verus! {

/// One user's stored birthday entry.
pub struct Person {
    pub birthday: Date,
    pub name: String,
    pub user_id: u64,
}

impl Clone for Person {
    fn clone(&self) -> (r: Self)
        ensures
            r == *self,
    {
        Person { birthday: self.birthday, name: self.name.clone(), user_id: self.user_id }
    }
}

impl Person {
    pub fn new(birthday: Date, name: String, user_id: u64) -> (r: Self)
        ensures
            r == (Person { birthday, name, user_id }),
    {
        Person { birthday, name, user_id }
    }

    /// The stored form of the birthday: seconds since the epoch at midnight
    /// UTC of the calendar date.
    pub fn get_date_int(&self) -> (r: i64)
        requires
            self.birthday.wf(),
        ensures
            r as int == spec_epoch_seconds(self.birthday),
    {
        epoch_seconds(self.birthday)
    }

    /// Age in years at the given moment, as whole days since the birthday
    /// divided by 365 with both divisions rounding toward zero. The division
    /// by 365 ignores leap years; that is the accepted semantics.
    pub fn age(&self, now_seconds: i64) -> (r: i64)
        requires
            self.birthday.wf(),
            i64::MIN < now_seconds - spec_epoch_seconds(self.birthday) <= i64::MAX,
        ensures
            r as int == spec_div_toward_zero(
                spec_div_toward_zero(now_seconds - spec_epoch_seconds(self.birthday), 86400),
                365,
            ),
    {
        let birth = epoch_seconds(self.birthday);
        let diff = now_seconds - birth;
        let days: i64 = if diff >= 0 {
            ((diff as u64) / 86400u64) as i64
        } else {
            -((((-diff) as u64) / 86400u64) as i64)
        };
        if days >= 0 {
            ((days as u64) / 365u64) as i64
        } else {
            -((((-days) as u64) / 365u64) as i64)
        }
    }
}

} // verus!
