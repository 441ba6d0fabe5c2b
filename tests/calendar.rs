use scheduler_bot::day::{num_to_day, Day};
use scheduler_bot::user::{global_daytime, shift_schedule, User};

#[test]
fn test_local_timezone() {
    let ans = shift_schedule(
        [
            (1 << 3) + (1 << 4),
            (1 << 3) + (1 << 4) + (1 << 5) + (1 << 6),
            0,
            0,
            0,
            0,
            (1 << 3) + (1 << 4),
        ],
        -5,
    );
    for day in ans.iter() {
        println!("{:024b}", day);
    }
    assert_eq!(
        [
            (1 << 22) + (1 << 23),
            3,
            0,
            0,
            0,
            (1 << 22) + (1 << 23),
            (1 << 22) + (1 << 23)
        ],
        ans
    );
}

// Changing the time zone only changes how local hours are read: the stored
// UTC mask stays as it was.
#[test]
fn test_set_timezone() {
    let mut usr = User::new("bob".to_string());
    usr.set_timezone(2);
    usr.set_raw_schedule([1, 1 << 23, 0, 1, 0, 1 << 23, 1 << 5]);
    println!("{}", usr.disp_schedule(true, 2));
    usr.set_timezone(-1);
    println!("{}", usr.disp_schedule(true, -1));
    assert_eq!(usr.get_raw_schedule()[0], 1);
    assert_eq!(usr.get_raw_schedule()[1], 1 << 23);
    assert_eq!(usr.get_raw_schedule()[6], 1 << 5);
    assert_eq!(usr.timezone(), -1);
}

#[test]
fn rotation_round_trip_on_a_mask() {
    let mask: [u32; 7] = [0x00F0_000F, 0x0080_0001, 0, 0x00FF_FFFF, 0x0012_3456, 1, 0x0080_0000];
    for tz in -23..24 {
        let local = shift_schedule(mask, tz);
        assert_eq!(shift_schedule(local, -tz), mask, "offset {}", tz);
    }
}

#[test]
fn rotation_by_zero_is_identity() {
    let mask: [u32; 7] = [5, 0, 0x00FF_FFFF, 7, 1 << 23, 0, 9];
    assert_eq!(shift_schedule(mask, 0), mask);
}

#[test]
fn rotation_east_pulls_from_previous_day() {
    // At UTC+2, 23:00 UTC on Sunday is 01:00 on Monday.
    let mask: [u32; 7] = [1 << 23, 0, 0, 0, 0, 0, 0];
    let local = shift_schedule(mask, 2);
    assert_eq!(local, [0, 1 << 1, 0, 0, 0, 0, 0]);
}

#[test]
fn day_range_wraps_past_saturday() {
    let mut usr = User::new("ann".to_string());
    usr.set_day_range(Day::Fri, Day::Tue, 10, true);
    let raw = usr.get_raw_schedule();
    assert_eq!(raw, [1 << 10, 1 << 10, 1 << 10, 0, 0, 1 << 10, 1 << 10]);
}

#[test]
fn local_hour_is_stored_in_utc() {
    let mut usr = User::new("ann".to_string());
    usr.set_timezone(-5);
    usr.set_time(Day::Mon, 9, true);
    assert!(usr.is_available(Day::Mon, 9, -5));
    assert!(usr.is_available(Day::Mon, 14, 0));
    assert_eq!(usr.get_raw_schedule()[1], 1 << 14);
}

#[test]
fn clearing_an_hour() {
    let mut usr = User::new("ann".to_string());
    usr.set_time_range(Day::Wed, 8, 11, true);
    usr.set_time(Day::Wed, 9, false);
    assert_eq!(usr.get_raw_schedule()[3], (1 << 8) + (1 << 10) + (1 << 11));
}

#[test]
fn time_range_with_end_before_start_changes_nothing() {
    let mut usr = User::new("ann".to_string());
    usr.set_time_range(Day::Wed, 11, 2, true);
    assert_eq!(usr.get_raw_schedule(), [0; 7]);
}

#[test]
fn day_time_range_crosses_midnight_in_utc() {
    let mut usr = User::new("ann".to_string());
    usr.set_timezone(3);
    usr.set_day_time_range(Day::Sat, Day::Sun, 1, 2, true);
    // Local 01:00 and 02:00 at UTC+3 are 22:00 and 23:00 of the day before.
    assert_eq!(
        usr.get_raw_schedule(),
        [0, 0, 0, 0, 0, (1 << 22) + (1 << 23), (1 << 22) + (1 << 23)]
    );
    assert!(usr.is_available(Day::Sun, 2, 3));
    assert!(!usr.is_available(Day::Sun, 3, 3));
}

#[test]
fn converting_local_time_to_utc() {
    assert_eq!(global_daytime(Day::Mon, 2, 5), (Day::Sun, 21));
    assert_eq!(global_daytime(Day::Sat, 22, -5), (Day::Sun, 3));
    assert_eq!(global_daytime(Day::Wed, 12, 0), (Day::Wed, 12));
    assert_eq!(global_daytime(Day::Sun, 0, 1), (Day::Sat, 23));
}

#[test]
fn day_numbers() {
    assert_eq!(num_to_day(0), Some(Day::Sun));
    assert_eq!(num_to_day(6), Some(Day::Sat));
    assert_eq!(num_to_day(7), None);
    assert_eq!(Day::Thu.num(), 4);
    assert_eq!(Day::Fri.to_string(), "Fri");
}

#[test]
fn user_name_and_zone() {
    let mut usr = User::new("bob".to_string());
    assert_eq!(usr.name(), "bob");
    assert_eq!(usr.timezone(), 0);
    usr.set_name("robert".to_string());
    assert_eq!(usr.name(), "robert");
}

#[test]
fn calendar_drawn_with_days_as_rows() {
    let mut usr = User::new("bob".to_string());
    usr.set_time(Day::Mon, 0, true);
    let text = usr.disp_schedule(false, 0);
    let free = "░".repeat(24);
    let mut expected = String::from("     012345678901234567890123\n");
    for name in ["Sun", "Mon", "Tue", "Wed", "Thu", "Fri", "Sat"] {
        if name == "Mon" {
            expected += &format!("{}: █{}\n", name, "░".repeat(23));
        } else {
            expected += &format!("{}: {}\n", name, free);
        }
    }
    assert_eq!(text, expected);
}

#[test]
fn calendar_drawn_with_hours_as_rows() {
    let mut usr = User::new("bob".to_string());
    usr.set_time(Day::Mon, 0, true);
    let text = usr.disp_schedule(true, 0);
    let lines: Vec<&str> = text.lines().collect();
    assert_eq!(lines.len(), 24);
    assert_eq!(lines[0], "00: ░ █ ░ ░ ░ ░ ░ ");
    assert_eq!(lines[13], "13: ░ ░ ░ ░ ░ ░ ░ ");
    // Read one hour east, the same hour shows at 01:00.
    let east = usr.disp_schedule(true, 1);
    assert_eq!(east.lines().nth(1).unwrap(), "01: ░ █ ░ ░ ░ ░ ░ ");
}
