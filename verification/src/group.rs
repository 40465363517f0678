use crate::person::Person;
use vstd::prelude::*;

verus! {

/// The records whose birthday falls in the given month, in input order.
pub open spec fn spec_in_month(s: Seq<Person>, month: u32) -> Seq<Person> {
    s.filter(|p: Person| p.birthday.month == month)
}

/// One display group: a month and every record whose birthday falls in it.
pub struct MonthGroup {
    pub month: u32,
    pub members: Vec<Person>,
}

fn people_in_month(records: &Vec<Person>, month: u32) -> (r: Vec<Person>)
    ensures
        r@ == spec_in_month(records@, month),
{
    let n = records.len();
    let mut out: Vec<Person> = Vec::new();
    let mut i: usize = 0;
    while i < n
        invariant
            i <= n == records@.len(),
            out@ == spec_in_month(records@.take(i as int), month),
        decreases n - i,
    {
        if records[i].birthday.month == month {
            out.push(records[i].clone());
        }
        proof {
            reveal_with_fuel(Seq::<Person>::filter, 2);
            assert(records@.take(i + 1).drop_last() =~= records@.take(i as int));
            assert(records@.take(i + 1).last() == records@[i as int]);
            assert(out@ == spec_in_month(records@.take(i + 1), month));
        }
        i = i + 1;
    }
    proof {
        assert(records@.take(n as int) =~= records@);
    }
    out
}

/// Groups records by birthday month for display: one group for each month
/// that has records, months in ascending calendar order, and each group
/// holding exactly that month's records in input order.
pub fn group_by_month(records: &Vec<Person>) -> (r: Vec<MonthGroup>)
    ensures
        forall|k: int| 0 <= k < r@.len() ==> 1 <= (#[trigger] r@[k]).month <= 12,
        forall|k1: int, k2: int|
            #![trigger r@[k1], r@[k2]]
            0 <= k1 < k2 < r@.len() ==> r@[k1].month < r@[k2].month,
        forall|k: int|
            0 <= k < r@.len() ==> (#[trigger] r@[k]).members@ == spec_in_month(
                records@,
                r@[k].month,
            ) && r@[k].members@.len() > 0,
        forall|m: u32|
            1 <= m <= 12 && spec_in_month(records@, m).len() > 0 ==> exists|k: int|
                0 <= k < r@.len() && (#[trigger] r@[k]).month == m,
{
    let mut out: Vec<MonthGroup> = Vec::new();
    let mut m: u32 = 1;
    while m <= 12
        invariant
            1 <= m <= 13,
            forall|k: int| 0 <= k < out@.len() ==> 1 <= (#[trigger] out@[k]).month < m,
            forall|k1: int, k2: int|
                #![trigger out@[k1], out@[k2]]
                0 <= k1 < k2 < out@.len() ==> out@[k1].month < out@[k2].month,
            forall|k: int|
                0 <= k < out@.len() ==> (#[trigger] out@[k]).members@ == spec_in_month(
                    records@,
                    out@[k].month,
                ) && out@[k].members@.len() > 0,
            forall|mm: u32|
                1 <= mm < m && spec_in_month(records@, mm).len() > 0 ==> exists|k: int|
                    0 <= k < out@.len() && (#[trigger] out@[k]).month == mm,
        decreases 13 - m,
    {
        let members = people_in_month(records, m);
        if members.len() > 0 {
            let ghost pre = out@;
            out.push(MonthGroup { month: m, members });
            proof {
                assert forall|mm: u32|
                    1 <= mm < m + 1 && spec_in_month(records@, mm).len() > 0 implies exists|
                    k: int,
                |
                    0 <= k < out@.len() && (#[trigger] out@[k]).month == mm by {
                    if mm == m {
                        assert(out@[pre.len() as int].month == mm);
                    } else {
                        let k0 = choose|k: int|
                            0 <= k < pre.len() && (#[trigger] pre[k]).month == mm;
                        assert(out@[k0].month == mm);
                    }
                }
            }
        }
        m = m + 1;
    }
    out
}

} // verus!
