use scheduler_bot::day::Day;
use scheduler_bot::parse::{ParamType, ParamVals};
use scheduler_bot::process::{
    process, process_set_schedule, process_set_timezone, process_view_help, DispatchError,
    HELP_TEXT, MEME_TEXT,
};
use scheduler_bot::schedules::ScheduleCollection;
use scheduler_bot::user::User;

fn directory() -> ScheduleCollection {
    let mut schedule = ScheduleCollection::new();
    schedule.insert_user(123, User::new("bob".to_string()));
    schedule.add_name_id("bob", 123).unwrap();
    schedule.insert_user(7, User::new("alice".to_string()));
    schedule.add_name_id("alice", 7).unwrap();
    schedule
}

#[test]
fn test_schedules() {
    let mut schedule = ScheduleCollection::new();
    schedule.insert_user(123, User::new("bob".to_string()));
    schedule.add_name_id("bob", 123).unwrap();
    process_set_timezone(&mut schedule, "bob", vec![ParamVals::TimeZone(-5)]).unwrap();
    process_set_schedule(
        &mut schedule,
        "bob",
        ParamType::AddSchedule,
        vec![
            ParamVals::DayRange(Day::Sat, Day::Sun),
            ParamVals::TimeRange(22, 23),
        ],
    )
    .unwrap();
    process_set_schedule(
        &mut schedule,
        "bob",
        ParamType::AddSchedule,
        vec![
            ParamVals::DayCollection(vec![Day::Fri]),
            ParamVals::TimeRange(22, 23),
        ],
    )
    .unwrap();
    process_set_schedule(
        &mut schedule,
        "bob",
        ParamType::AddSchedule,
        vec![
            ParamVals::DayCollection(vec![Day::Mon]),
            ParamVals::TimeRange(0, 1),
        ],
    )
    .unwrap();
    println!(
        "Schedule:\n{}",
        schedule.user("bob").unwrap().disp_schedule(false, -5)
    );
    let usr_schedule = schedule.user("bob").unwrap().get_raw_schedule();
    println!(
        "Raw schedule:\n{:024b}\n{:024b}\n{:024b}\n{:024b}\n{:024b}\n{:024b}\n{:024b}",
        usr_schedule[0],
        usr_schedule[1],
        usr_schedule[2],
        usr_schedule[3],
        usr_schedule[4],
        usr_schedule[5],
        usr_schedule[6]
    );
    assert_eq!((1 << 3) + (1 << 4), usr_schedule[6]);
}

#[test]
fn name_keeps_its_first_identity() {
    let mut schedule = directory();
    assert_eq!(schedule.add_name_id("bob", 7), Err(DispatchError::NameAlreadyBound));
    assert_eq!(schedule.get_id("bob"), Some(&123));
    assert_eq!(schedule.add_name_id("bob", 123), Ok(()));
    assert_eq!(schedule.get_id("bob"), Some(&123));
}

#[test]
fn only_stored_identities_can_be_named() {
    let mut schedule = directory();
    assert_eq!(schedule.add_name_id("carl", 99), Err(DispatchError::UserNotFound));
    assert_eq!(schedule.get_id("carl"), None);
    assert!(schedule.id_exists(7));
    assert!(!schedule.id_exists(99));
}

#[test]
fn inserting_again_replaces_the_user() {
    let mut schedule = directory();
    schedule.insert_user(7, User::new("alicia".to_string()));
    assert_eq!(schedule.ids(), vec![123, 7]);
    assert_eq!(schedule.user("alice").unwrap().name(), "alicia");
    assert_eq!(schedule.user_by_id(7).unwrap().name(), "alicia");
    assert_eq!(
        schedule.name_ids(),
        vec![("bob".to_string(), 123), ("alice".to_string(), 7)]
    );
}

#[test]
fn report_refuses_two_days() {
    let mut schedule = directory();
    let r = process(
        &mut schedule,
        "bob",
        ParamType::Available,
        vec![ParamVals::DayCollection(vec![Day::Mon, Day::Tue])],
    );
    assert_eq!(r, Err(DispatchError::TooManyValuesForReport));
    let r = process(
        &mut schedule,
        "bob",
        ParamType::Available,
        vec![
            ParamVals::DayCollection(vec![Day::Mon, Day::Tue]),
            ParamVals::TimeCollection(vec![3]),
        ],
    );
    assert_eq!(r, Err(DispatchError::TooManyValuesForReport));
}

#[test]
fn report_of_one_hour() {
    let mut schedule = directory();
    let add = vec![
        ParamVals::DayCollection(vec![Day::Mon]),
        ParamVals::TimeCollection(vec![15]),
    ];
    assert_eq!(process(&mut schedule, "bob", ParamType::AddSchedule, add.clone()), Ok(None));
    assert_eq!(process(&mut schedule, "alice", ParamType::AddSchedule, add.clone()), Ok(None));
    let r = process(&mut schedule, "bob", ParamType::Available, add);
    assert_eq!(r, Ok(Some("Timezone:0\nMon at 15: bob, alice, \n".to_string())));
    let r = process(
        &mut schedule,
        "bob",
        ParamType::Available,
        vec![
            ParamVals::DayCollection(vec![Day::Mon]),
            ParamVals::TimeCollection(vec![16]),
        ],
    );
    assert_eq!(r, Ok(Some("Timezone:0\n".to_string())));
}

#[test]
fn report_of_a_day_in_the_callers_zone() {
    let mut schedule = directory();
    process(
        &mut schedule,
        "alice",
        ParamType::AddSchedule,
        vec![
            ParamVals::DayCollection(vec![Day::Tue]),
            ParamVals::TimeRange(1, 2),
        ],
    )
    .unwrap();
    process(&mut schedule, "bob", ParamType::TimeZone, vec![ParamVals::TimeZone(-5)]).unwrap();
    let r = process(
        &mut schedule,
        "bob",
        ParamType::Available,
        vec![ParamVals::DayCollection(vec![Day::Mon])],
    );
    assert_eq!(
        r,
        Ok(Some("Timezone:-5\nMon at 20: alice, \nMon at 21: alice, \n".to_string()))
    );
    assert_eq!(schedule.available_at(Day::Mon, 20, -5), vec!["alice".to_string()]);
    assert_eq!(schedule.available_at(Day::Mon, 20, 0), Vec::<String>::new());
}

#[test]
fn views_of_the_caller() {
    let mut schedule = directory();
    process(&mut schedule, "bob", ParamType::TimeZone, vec![ParamVals::TimeZone(-5)]).unwrap();
    assert_eq!(
        process(&mut schedule, "bob", ParamType::TimeZone, vec![]),
        Ok(Some("-5".to_string()))
    );
    process(&mut schedule, "bob", ParamType::Name, vec![ParamVals::Name("robert".to_string())]).unwrap();
    assert_eq!(
        process(&mut schedule, "bob", ParamType::Name, vec![]),
        Ok(Some("robert".to_string()))
    );
    let own = process(&mut schedule, "bob", ParamType::ViewSchedule, vec![]).unwrap().unwrap();
    assert!(own.starts_with("```\nTimezone:-5\n00: ░ ░ ░ ░ ░ ░ ░ \n"));
    assert!(own.ends_with("23: ░ ░ ░ ░ ░ ░ ░ \n```"));
}

#[test]
fn viewing_another_user() {
    let mut schedule = directory();
    schedule.insert_user(55, User::new("carol".to_string()));
    schedule.add_name_id("carol#0001", 55).unwrap();
    process(&mut schedule, "carol#0001", ParamType::TimeZone, vec![ParamVals::TimeZone(2)]).unwrap();
    let r = process(
        &mut schedule,
        "bob",
        ParamType::ViewSchedule,
        vec![ParamVals::ViewId("carol#0001".to_string())],
    )
    .unwrap()
    .unwrap();
    assert!(r.starts_with("```\nTimezone:2\n00: "));
    let r = process(
        &mut schedule,
        "bob",
        ParamType::ViewSchedule,
        vec![ParamVals::ViewId("dave#0002".to_string())],
    );
    assert_eq!(r, Err(DispatchError::UserNotFound));
}

#[test]
fn unknown_caller_is_refused() {
    let mut schedule = directory();
    let r = process(&mut schedule, "zed", ParamType::TimeZone, vec![ParamVals::TimeZone(3)]);
    assert_eq!(r, Err(DispatchError::UserNotFound));
    let r = process(&mut schedule, "zed", ParamType::Name, vec![]);
    assert_eq!(r, Err(DispatchError::UserNotFound));
}

#[test]
fn wrong_shapes_change_nothing() {
    let mut schedule = directory();
    let r = process(
        &mut schedule,
        "bob",
        ParamType::AddSchedule,
        vec![
            ParamVals::DayCollection(vec![Day::Mon]),
            ParamVals::TimeCollection(vec![3, 30]),
        ],
    );
    assert_eq!(r, Err(DispatchError::ArgumentShapeMismatch));
    assert_eq!(schedule.user("bob").unwrap().get_raw_schedule(), [0; 7]);
    let r = process(
        &mut schedule,
        "bob",
        ParamType::AddSchedule,
        vec![ParamVals::TimeRange(1, 2), ParamVals::DayCollection(vec![Day::Mon])],
    );
    assert_eq!(r, Err(DispatchError::ArgumentShapeMismatch));
    let r = process(&mut schedule, "bob", ParamType::Meme, vec![ParamVals::TimeZone(1)]);
    assert_eq!(r, Err(DispatchError::ArgumentShapeMismatch));
    let r = process(&mut schedule, "bob", ParamType::TimeZone, vec![ParamVals::TimeZone(30)]);
    assert_eq!(r, Err(DispatchError::ArgumentShapeMismatch));
    assert_eq!(schedule.user("bob").unwrap().timezone(), 0);
}

#[test]
fn removing_hours() {
    let mut schedule = directory();
    process(
        &mut schedule,
        "bob",
        ParamType::AddSchedule,
        vec![ParamVals::DayRange(Day::Mon, Day::Fri), ParamVals::TimeRange(9, 17)],
    )
    .unwrap();
    process(
        &mut schedule,
        "bob",
        ParamType::RemoveSchedule,
        vec![ParamVals::DayRange(Day::Wed, Day::Wed), ParamVals::TimeCollection(vec![12, 13])],
    )
    .unwrap();
    let raw = schedule.user("bob").unwrap().get_raw_schedule();
    let work: u32 = ((1 << 18) - 1) & !((1 << 9) - 1);
    assert_eq!(raw, [0, work, work, work & !(1 << 12) & !(1 << 13), work, work, 0]);
}

#[test]
fn fixed_replies() {
    let mut schedule = directory();
    assert_eq!(
        process(&mut schedule, "zed", ParamType::Meme, vec![]),
        Ok(Some("https://i.postimg.cc/hvJh0k40/showtime.png\nIt's showtime".to_string()))
    );
    assert_eq!(MEME_TEXT, "https://i.postimg.cc/hvJh0k40/showtime.png\nIt's showtime");
    let help = process_view_help().unwrap().unwrap();
    assert_eq!(help, HELP_TEXT);
    assert!(help.starts_with("\nHelp:"));
    assert!(help.contains("?timezone <timezone>"));
    assert_eq!(process(&mut schedule, "zed", ParamType::Help, vec![]), Ok(Some(help)));
}
