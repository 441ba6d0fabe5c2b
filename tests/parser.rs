use scheduler_bot::day::Day;
use scheduler_bot::parse::{filter_query, parse_query, ParamType, ParamVals};

fn toks(words: &[&str]) -> Vec<String> {
    words.iter().map(|w| w.to_string()).collect()
}

#[test]
fn tokens_of_a_range_command() {
    let tokens = filter_query("add, from 1 to 2");
    assert_eq!(tokens, toks(&["add", "from", "1", "to", "2"]));
    let (p_type, vals) = parse_query(tokens);
    assert_eq!(p_type, Some(ParamType::AddSchedule));
    assert_eq!(
        vals,
        Some(vec![
            ParamVals::DayRange(Day::Sun, Day::Sat),
            ParamVals::TimeRange(1, 2)
        ])
    );
}

#[test]
fn day_collection_with_a_range_ending_earlier() {
    let (p_type, vals) = parse_query(toks(&["add", "mon", "tue", "wed", "from", "11", "to", "2"]));
    assert_eq!(p_type, Some(ParamType::AddSchedule));
    assert_eq!(
        vals,
        Some(vec![
            ParamVals::DayCollection(vec![Day::Mon, Day::Tue, Day::Wed]),
            ParamVals::TimeRange(11, 2)
        ])
    );
}

// A day token is read by its first three letters, so "mondi" names Monday.
#[test]
fn day_read_by_its_first_three_letters() {
    let (p_type, vals) = parse_query(toks(&[
        "remove", "from", "mondi", "to", "wed", "from", "13", "to", "14",
    ]));
    assert_eq!(p_type, Some(ParamType::RemoveSchedule));
    assert_eq!(
        vals,
        Some(vec![
            ParamVals::DayRange(Day::Mon, Day::Wed),
            ParamVals::TimeRange(13, 14)
        ])
    );
}

#[test]
fn unknown_day_spelling_fails() {
    let (p_type, vals) = parse_query(toks(&[
        "remove", "from", "mnday", "to", "wed", "from", "13", "to", "14",
    ]));
    assert_eq!(p_type, Some(ParamType::RemoveSchedule));
    assert_eq!(vals, None);
}

#[test]
fn filter_drops_symbols_and_lowers_case() {
    assert_eq!(
        filter_query("?Add MON,,tue!!  x-y"),
        toks(&["add", "mon", "tue", "xy"])
    );
    assert_eq!(filter_query(""), Vec::<String>::new());
    assert_eq!(filter_query(" , ,"), Vec::<String>::new());
}

#[test]
fn empty_query_has_no_command() {
    assert_eq!(parse_query(vec![]), (None, None));
    assert_eq!(parse_query(toks(&["hello", "there"])), (None, None));
}

#[test]
fn command_chosen_by_prefix() {
    let (p_type, vals) = parse_query(toks(&["addx", "mon", "5"]));
    assert_eq!(p_type, Some(ParamType::AddSchedule));
    assert_eq!(
        vals,
        Some(vec![
            ParamVals::DayCollection(vec![Day::Mon]),
            ParamVals::TimeCollection(vec![5])
        ])
    );
    assert_eq!(parse_query(toks(&["helpme"])), (Some(ParamType::Help), Some(vec![])));
    assert_eq!(parse_query(toks(&["showtime", "now"])), (Some(ParamType::Meme), Some(vec![])));
}

#[test]
fn week_parts_and_number_runs() {
    let (_, vals) = parse_query(toks(&["add", "weekends", "1", "5", "18", "x", "7"]));
    assert_eq!(
        vals,
        Some(vec![
            ParamVals::DayRange(Day::Sat, Day::Sun),
            ParamVals::TimeCollection(vec![1, 5, 18])
        ])
    );
    let (_, vals) = parse_query(toks(&["remove", "weekday", "from", "9", "to", "17"]));
    assert_eq!(
        vals,
        Some(vec![
            ParamVals::DayRange(Day::Mon, Day::Fri),
            ParamVals::TimeRange(9, 17)
        ])
    );
}

#[test]
fn add_needs_a_time() {
    assert_eq!(parse_query(toks(&["add", "mon"])), (Some(ParamType::AddSchedule), None));
    assert_eq!(parse_query(toks(&["add"])), (Some(ParamType::AddSchedule), None));
    assert_eq!(
        parse_query(toks(&["available", "mon"])),
        (
            Some(ParamType::Available),
            Some(vec![ParamVals::DayCollection(vec![Day::Mon])])
        )
    );
    assert_eq!(parse_query(toks(&["available"])), (Some(ParamType::Available), None));
}

#[test]
fn malformed_ranges_fail() {
    assert_eq!(parse_query(toks(&["add", "from", "30", "to", "2"])).1, None);
    assert_eq!(parse_query(toks(&["add", "from", "3", "til", "5"])).1, None);
    assert_eq!(parse_query(toks(&["add", "from", "3", "to"])).1, None);
    assert_eq!(parse_query(toks(&["add", "from", "mon", "until", "fri", "3"])).1, None);
    assert_eq!(parse_query(toks(&["add", "mon", "99999999999"])).1, None);
    assert_eq!(parse_query(toks(&["add", "mon", "soon"])).1, None);
}

#[test]
fn timezone_takes_the_leading_digit() {
    assert_eq!(
        parse_query(toks(&["timezone", "-7"])),
        (Some(ParamType::TimeZone), Some(vec![ParamVals::TimeZone(-7)]))
    );
    assert_eq!(
        parse_query(toks(&["timezone", "23"])),
        (Some(ParamType::TimeZone), Some(vec![ParamVals::TimeZone(2)]))
    );
    assert_eq!(
        parse_query(toks(&["timezone", "0.5"])),
        (Some(ParamType::TimeZone), Some(vec![ParamVals::TimeZone(0)]))
    );
    assert_eq!(
        parse_query(toks(&["timezone", "007"])),
        (Some(ParamType::TimeZone), Some(vec![ParamVals::TimeZone(7)]))
    );
    assert_eq!(parse_query(toks(&["timezone", "abc"])), (Some(ParamType::TimeZone), None));
    assert_eq!(parse_query(toks(&["timezone", "1.2.3"])), (Some(ParamType::TimeZone), None));
    assert_eq!(parse_query(toks(&["timezone"])), (Some(ParamType::TimeZone), Some(vec![])));
}

#[test]
fn names_and_view_ids() {
    assert_eq!(
        parse_query(toks(&["name", "phil", "io"])),
        (Some(ParamType::Name), Some(vec![ParamVals::Name("philio".to_string())]))
    );
    assert_eq!(parse_query(toks(&["name"])), (Some(ParamType::Name), Some(vec![])));
    assert_eq!(
        parse_query(toks(&["view", "entity", "2", "0", "5", "1"])),
        (
            Some(ParamType::ViewSchedule),
            Some(vec![ParamVals::ViewId("entity#2051".to_string())])
        )
    );
    assert_eq!(
        parse_query(toks(&["view", "a", "b", "c", "d"])),
        (Some(ParamType::ViewSchedule), Some(vec![]))
    );
}
