use crate::date::{epoch_seconds, spec_epoch_seconds, Date};
use crate::store::{spec_due, RecordStore};
use vstd::prelude::*;

verus! {

/// The daily notifier is either waiting for the timer or working through a
/// batch of announcements; it never stops of its own accord.
#[derive(Clone, Copy, Debug, PartialEq, Eq, Structural)]
pub enum NotifierState {
    WaitingForTick,
    Processing,
}

/// What the surrounding loop reports to the notifier.
#[derive(Clone, Copy, Debug, PartialEq, Eq, Structural)]
pub enum NotifierEvent {
    TimerFired,
    BatchDone,
}

/// What the notifier asks the surrounding loop to do next.
#[derive(Clone, Copy, Debug, PartialEq, Eq, Structural)]
pub enum NotifierAction {
    Announce,
    Wait,
}

pub open spec fn spec_notifier_step(state: NotifierState, event: NotifierEvent) -> (
    NotifierState,
    NotifierAction,
) {
    match (state, event) {
        (NotifierState::WaitingForTick, NotifierEvent::TimerFired) => (
            NotifierState::Processing,
            NotifierAction::Announce,
        ),
        (NotifierState::Processing, NotifierEvent::BatchDone) => (
            NotifierState::WaitingForTick,
            NotifierAction::Wait,
        ),
        _ => (state, NotifierAction::Wait),
    }
}

/// One transition of the daily loop: a timer tick starts a batch of
/// announcements, and a finished batch goes back to waiting. Any other
/// pairing changes nothing and asks the loop to keep waiting.
pub fn notifier_step(state: NotifierState, event: NotifierEvent) -> (r: (
    NotifierState,
    NotifierAction,
))
    ensures
        r == spec_notifier_step(state, event),
{
    match (state, event) {
        (NotifierState::WaitingForTick, NotifierEvent::TimerFired) => (
            NotifierState::Processing,
            NotifierAction::Announce,
        ),
        (NotifierState::Processing, NotifierEvent::BatchDone) => (
            NotifierState::WaitingForTick,
            NotifierAction::Wait,
        ),
        (s, _) => (s, NotifierAction::Wait),
    }
}

/// One daily announcement: whom to mention, the name for the title, and the
/// stored birthday value for the footer.
pub struct Announcement {
    pub user_id: u64,
    pub name: String,
    pub birthday_seconds: i64,
}

/// The announcements one tick owes: exactly one per record due on `today`,
/// in store order, each carrying that record's user, name, and stored
/// birthday value.
pub fn plan_announcements(store: &RecordStore, today: Date) -> (r: Vec<Announcement>)
    requires
        store.wf(),
    ensures
        r@.len() == spec_due(store@, today.month, today.day).len(),
        forall|k: int|
            0 <= k < r@.len() ==> {
                let p = spec_due(store@, today.month, today.day)[k];
                &&& (#[trigger] r@[k]).user_id == p.user_id
                &&& r@[k].name == p.name
                &&& r@[k].birthday_seconds as int == spec_epoch_seconds(p.birthday)
            },
{
    let due = store.list_due(today.month, today.day);
    let n = due.len();
    let mut out: Vec<Announcement> = Vec::new();
    let mut i: usize = 0;
    while i < n
        invariant
            i <= n == due@.len(),
            due@ == spec_due(store@, today.month, today.day),
            forall|k: int| 0 <= k < n ==> (#[trigger] due@[k]).birthday.wf(),
            out@.len() == i,
            forall|k: int|
                0 <= k < i ==> {
                    let p = due@[k];
                    &&& (#[trigger] out@[k]).user_id == p.user_id
                    &&& out@[k].name == p.name
                    &&& out@[k].birthday_seconds as int == spec_epoch_seconds(p.birthday)
                },
        decreases n - i,
    {
        let seconds = epoch_seconds(due[i].birthday);
        let name = due[i].name.clone();
        out.push(Announcement { user_id: due[i].user_id, name, birthday_seconds: seconds });
        i = i + 1;
    }
    out
}

} // verus!
