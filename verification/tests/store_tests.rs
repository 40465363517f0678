use birthdays::date::{parse_date, Date};
use birthdays::error::BirthdayError;
use birthdays::group::group_by_month;
use birthdays::month::to_month;
use birthdays::notifier::{
    notifier_step, plan_announcements, NotifierAction, NotifierEvent, NotifierState,
};
use birthdays::person::Person;
use birthdays::store::RecordStore;

fn record(day: u32, month: u32, year: u32, name: &str, user_id: u64) -> Person {
    Person::new(Date::new(day, month, year).unwrap(), String::from(name), user_id)
}

#[test]
fn set_then_get_round_trip() {
    // Empty store; set user A with name "Alice" and date "15-03-1990".
    let mut store = RecordStore::new();
    let date = parse_date("15-03-1990").unwrap();
    store.create(Person::new(date, String::from("Alice"), 1)).unwrap();

    let p = store.get(1).unwrap();
    assert_eq!(p.name, "Alice");
    assert_eq!(p.birthday.day, 15);
    assert_eq!(p.birthday.month, 3);
    assert_eq!(p.birthday.year, 1990);

    // Due on 2024-03-15, not due on 2024-03-16, whatever the stored year.
    let due = store.list_due(3, 15);
    assert_eq!(due.len(), 1);
    assert_eq!(due[0].user_id, 1);
    assert!(store.list_due(3, 16).is_empty());
}

#[test]
fn second_set_conflicts_and_changes_nothing() {
    let mut store = RecordStore::new();
    store.create(record(15, 3, 1990, "Alice", 1)).unwrap();
    let r = store.create(record(1, 1, 2000, "Someone", 1));
    assert_eq!(r, Err(BirthdayError::Conflict));

    let p = store.get(1).unwrap();
    assert_eq!(p.name, "Alice");
    assert_eq!(p.birthday, Date { day: 15, month: 3, year: 1990 });
    assert_eq!(store.len(), 1);
}

#[test]
fn edit_unset_user_is_not_found() {
    let mut store = RecordStore::new();
    store.create(record(15, 3, 1990, "Alice", 1)).unwrap();
    let r = store.update(2, Date::new(1, 1, 2000).unwrap());
    assert_eq!(r, Err(BirthdayError::NotFound));
    assert_eq!(store.len(), 1);
}

#[test]
fn edit_keeps_name_and_other_records() {
    let mut store = RecordStore::new();
    store.create(record(15, 3, 1990, "Alice", 1)).unwrap();
    store.create(record(2, 7, 1985, "Bob", 2)).unwrap();

    store.update(1, Date::new(9, 11, 1991).unwrap()).unwrap();

    let a = store.get(1).unwrap();
    assert_eq!(a.name, "Alice");
    assert_eq!(a.birthday, Date { day: 9, month: 11, year: 1991 });
    let b = store.get(2).unwrap();
    assert_eq!(b.name, "Bob");
    assert_eq!(b.birthday, Date { day: 2, month: 7, year: 1985 });
}

#[test]
fn get_on_empty_store_is_not_found() {
    let store = RecordStore::new();
    assert_eq!(store.get(1).err(), Some(BirthdayError::NotFound));
}

#[test]
fn error_messages_name_the_failure() {
    assert_eq!(BirthdayError::NotFound.message(), "No birthday found for this user");
    assert_eq!(BirthdayError::Conflict.message(), "This user already has a birthday set");
    assert_eq!(
        BirthdayError::InvalidDate.message(),
        "The date is not a real calendar date written day-month-year"
    );
}

#[test]
fn delete_is_idempotent() {
    let mut store = RecordStore::new();
    store.create(record(15, 3, 1990, "Alice", 1)).unwrap();
    store.create(record(2, 7, 1985, "Bob", 2)).unwrap();

    // Deleting a user that was never set does not fail and changes nothing.
    store.delete(77);
    assert_eq!(store.len(), 2);

    store.delete(1);
    assert_eq!(store.len(), 1);
    assert_eq!(store.get(1).err(), Some(BirthdayError::NotFound));

    // Deleting twice leaves what deleting once left.
    store.delete(1);
    assert_eq!(store.len(), 1);
    assert_eq!(store.get(2).unwrap().name, "Bob");
}

#[test]
fn list_keeps_insertion_order() {
    let mut store = RecordStore::new();
    store.create(record(15, 3, 1990, "Alice", 1)).unwrap();
    store.create(record(2, 7, 1985, "Bob", 2)).unwrap();
    store.create(record(29, 2, 2000, "Cleo", 3)).unwrap();

    let all = store.list();
    assert_eq!(all.len(), 3);
    assert_eq!(all[0].user_id, 1);
    assert_eq!(all[1].user_id, 2);
    assert_eq!(all[2].user_id, 3);
}

#[test]
fn due_today_matches_month_and_day_only() {
    let mut store = RecordStore::new();
    store.create(record(15, 3, 1990, "Alice", 1)).unwrap();
    store.create(record(15, 3, 2000, "Younger", 2)).unwrap();
    store.create(record(16, 3, 1990, "DayOff", 3)).unwrap();
    store.create(record(15, 4, 1990, "MonthOff", 4)).unwrap();

    let due = store.list_due(3, 15);
    assert_eq!(due.len(), 2);
    assert_eq!(due[0].user_id, 1);
    assert_eq!(due[1].user_id, 2);
    assert!(store.list_due(6, 1).is_empty());
}

#[test]
fn listing_groups_months_ascending() {
    // Records in months 3 and 1: January must come before March.
    let mut store = RecordStore::new();
    store.create(record(15, 3, 1990, "Alice", 1)).unwrap();
    store.create(record(20, 1, 1985, "Bob", 2)).unwrap();
    store.create(record(2, 1, 2000, "Cleo", 3)).unwrap();

    let groups = group_by_month(&store.list());
    assert_eq!(groups.len(), 2);
    assert_eq!(groups[0].month, 1);
    assert_eq!(to_month(groups[0].month).name(), "January");
    assert_eq!(groups[0].members.len(), 2);
    assert_eq!(groups[0].members[0].user_id, 2);
    assert_eq!(groups[0].members[1].user_id, 3);
    assert_eq!(groups[1].month, 3);
    assert_eq!(to_month(groups[1].month).name(), "March");
    assert_eq!(groups[1].members.len(), 1);
    assert_eq!(groups[1].members[0].user_id, 1);
}

#[test]
fn notifier_cycles_between_waiting_and_processing() {
    let (s, a) = notifier_step(NotifierState::WaitingForTick, NotifierEvent::TimerFired);
    assert_eq!(s, NotifierState::Processing);
    assert_eq!(a, NotifierAction::Announce);

    let (s, a) = notifier_step(s, NotifierEvent::BatchDone);
    assert_eq!(s, NotifierState::WaitingForTick);
    assert_eq!(a, NotifierAction::Wait);

    // Mismatched pairings change nothing and keep the loop waiting.
    let (s, a) = notifier_step(NotifierState::WaitingForTick, NotifierEvent::BatchDone);
    assert_eq!(s, NotifierState::WaitingForTick);
    assert_eq!(a, NotifierAction::Wait);
    let (s, a) = notifier_step(NotifierState::Processing, NotifierEvent::TimerFired);
    assert_eq!(s, NotifierState::Processing);
    assert_eq!(a, NotifierAction::Wait);
}

#[test]
fn one_announcement_per_due_record() {
    let mut store = RecordStore::new();
    store.create(record(15, 3, 1990, "Alice", 1)).unwrap();
    store.create(record(15, 3, 2000, "Younger", 2)).unwrap();
    store.create(record(1, 6, 1970, "Quiet", 3)).unwrap();

    let today = Date::new(15, 3, 2024).unwrap();
    let plan = plan_announcements(&store, today);
    assert_eq!(plan.len(), 2);
    assert_eq!(plan[0].user_id, 1);
    assert_eq!(plan[0].name, "Alice");
    assert_eq!(plan[0].birthday_seconds, 637_459_200);
    assert_eq!(plan[1].user_id, 2);
    assert_eq!(plan[1].name, "Younger");

    let quiet_day = Date::new(2, 6, 2024).unwrap();
    assert!(plan_announcements(&store, quiet_day).is_empty());
}
