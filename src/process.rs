//! The dispatcher: applies a parsed command to the directory of users.
use vstd::prelude::*;

use crate::day::Day;
use crate::mask::{in_day_range, mask_wf, rotated, tz_ok};
use crate::parse::{views, ParamType, ParamVals, ParamView};
use crate::schedules::{
    available_names, day_report, id_index, lemma_user_edit_keeps_wf, slot_report,
    ScheduleCollection,
};
use crate::text::{push_signed_decimal, signed_decimal};
use crate::user::{local_update, render, User, UserModel};

verus! {

/// Why a command could not be carried out. None of these changes any user.
#[derive(Clone, Copy, Debug, PartialEq, Eq, Structural)]
pub enum DispatchError {
    /// The caller, or the user a command names, is not known.
    UserNotFound,
    /// The display name is already bound to another identity.
    NameAlreadyBound,
    /// The arguments do not have a shape the command accepts.
    ArgumentShapeMismatch,
    /// An availability report was asked for more than one day or hour.
    TooManyValuesForReport,
}

/// The text of the help reply.
pub const HELP_TEXT: &'static str = "
Help:\n
\n
Types of inputs to commands:\n
- time can be any from 0 to 23 (inclusive)\n
- Day can by any from sun to sat (inclusive)\n
- you can also use 'weekends' or 'weekdays' where Day(s) applies.\n
- timezone can be from -23 to 23\n
- user is a discord tag, excluding the '#', case-insensitive, eg. 3ntity2051\n
- name is anything, although it will be converted to alphanumeric lowercase\n
\n
Notation:\n
- <...> represents values (eg. <time> can be 0, 2, 18...)\n
- <add or remove> means you can use either add or remove.\n
\n
?<add or remove>\n
- add adds certain days and times as available\n
- remove makes certain days and times as unavailable\n
    ?<add or remove> from <Day> to <Day> from <time> to <time>\n
    ?<add or remove> <Day(s)> from <time> to <time>\n
    ?<add or remove> from <Day> to <Day> <time(s)>\n
    ?<add or remove> <Day(s)> <time(s)>\n
    - eg. ?add from mon to thu from 1 to 5\n
    - eg. ?remove mon wed fri from 4 to 7\n
    - eg. ?add from weekdays 1 5 18\n
\n
?name <name>\n
- set your name, eg. ?name philio\n
?name\n
- view your name\n
\n
?timezone <timezone>\n
- set your timezone, eg. ?timezone -7\n
?timezone\n
- view your timezone\n
\n
?view <user>\n
- view the user's schedule, eg. ?view 3ntity2051\n
?view\n
- view your own schedule\n
\n
?available <Day> <time>\n
- see who is available on that day and time, eg. ?available mon 15\n
?available <Day>\n
- see who is available on that day, eg. ?available fri\n
\n
?showtime\n
- try it yourself!\n
?help\n
- this message\n
";

/// The text of the `showtime` reply.
pub const MEME_TEXT: &'static str = "https://i.postimg.cc/hvJh0k40/showtime.png\nIt's showtime";

/// A reply as plain values.
pub open spec fn reply_view(r: Result<Option<String>, DispatchError>) -> Result<Option<Seq<char>>, DispatchError> {
    match r {
        Ok(Some(s)) => Ok(Some(s@)),
        Ok(None) => Ok(None),
        Err(e) => Err(e),
    }
}

/// A reply that posts `s`.
pub open spec fn says(s: Seq<char>) -> Result<Option<Seq<char>>, DispatchError> {
    Ok(Some(s))
}

/// A failure with error `e`.
pub open spec fn fails(e: DispatchError) -> Result<Option<Seq<char>>, DispatchError> {
    Err(e)
}

/// A change that posts nothing.
pub open spec fn done() -> Result<Option<Seq<char>>, DispatchError> {
    Ok(None)
}

/// The directory is as it was.
pub open spec fn unchanged(before: ScheduleCollection, after: ScheduleCollection) -> bool {
    after.entries() == before.entries() && after.bindings() == before.bindings()
}

/// The user registered as `caller`.
pub open spec fn caller_user(s: ScheduleCollection, caller: Seq<char>) -> UserModel {
    s.user_map()[s.name_map()[caller]]
}

/// `after` is `before` with the caller's user, in place, replaced by the one
/// `after` holds for the caller.
pub open spec fn caller_replaced(before: ScheduleCollection, after: ScheduleCollection, caller: Seq<char>) -> bool {
    let id = before.name_map()[caller];
    &&& after.bindings() == before.bindings()
    &&& after.entries() == before.entries().update(
        id_index(before.entries(), id),
        (id, caller_user(after, caller)),
    )
}

/// Every hour of `ts` is under 24.
pub open spec fn all_hours(ts: Seq<u32>) -> bool {
    forall|i: int| 0 <= i < ts.len() ==> #[trigger] ts[i] < 24
}

/// Every hour of a time argument is under 24.
pub open spec fn hours_ok(t: ParamView) -> bool {
    match t {
        ParamView::TimeCollection(ts) => all_hours(ts),
        ParamView::TimeRange(a, b) => a < 24 && b < 24,
        _ => false,
    }
}

/// The day and time arguments of a change of schedule have a shape it
/// accepts: days then times, each as a collection or a range.
pub open spec fn schedule_shape_ok(days: ParamView, times: ParamView) -> bool {
    &&& (days is DayCollection || days is DayRange)
    &&& hours_ok(times)
}

/// Day `d` is one the day argument selects.
pub open spec fn selects_day(days: ParamView, d: int) -> bool {
    match days {
        ParamView::DayCollection(ds) => exists|i: int| 0 <= i < ds.len() && #[trigger] ds[i].idx() == d,
        ParamView::DayRange(a, b) => in_day_range(a.idx(), b.idx(), d),
        _ => false,
    }
}

/// Hour `h` is one the time argument selects; a range whose end comes
/// before its start selects nothing.
pub open spec fn selects_hour(times: ParamView, h: int) -> bool {
    match times {
        ParamView::TimeCollection(ts) => exists|i: int| 0 <= i < ts.len() && #[trigger] ts[i] == h,
        ParamView::TimeRange(a, b) => a <= h <= b,
        _ => false,
    }
}

/// `v` is `u` with the local slots that the arguments select marked
/// `available` (or cleared), read at `u`'s own offset.
pub open spec fn schedule_changed(u: UserModel, v: UserModel, days: ParamView, times: ParamView, available: bool) -> bool {
    &&& v.name == u.name
    &&& v.timezone == u.timezone
    &&& mask_wf(v.schedule)
    &&& local_update(
        u.schedule,
        v.schedule,
        u.timezone,
        |d: int, h: int| selects_day(days, d) && selects_hour(times, h),
        available,
    )
}

/// Setting the caller's time zone.
pub open spec fn set_timezone_post(
    before: ScheduleCollection,
    after: ScheduleCollection,
    caller: Seq<char>,
    vals: Seq<ParamView>,
    r: Result<Option<Seq<char>>, DispatchError>,
) -> bool {
    if !before.name_map().contains_key(caller) {
        r == fails(DispatchError::UserNotFound) && unchanged(before, after)
    } else {
        match vals[0] {
            ParamView::TimeZone(tz) if tz_ok(tz as int) => {
                &&& r == done()
                &&& caller_replaced(before, after, caller)
                &&& caller_user(after, caller) == UserModel {
                    timezone: tz as int,
                    ..caller_user(before, caller)
                }
            },
            _ => r == fails(DispatchError::ArgumentShapeMismatch) && unchanged(before, after),
        }
    }
}

/// Setting the caller's display name.
pub open spec fn set_name_post(
    before: ScheduleCollection,
    after: ScheduleCollection,
    caller: Seq<char>,
    vals: Seq<ParamView>,
    r: Result<Option<Seq<char>>, DispatchError>,
) -> bool {
    if !before.name_map().contains_key(caller) {
        r == fails(DispatchError::UserNotFound) && unchanged(before, after)
    } else {
        match vals[0] {
            ParamView::Name(n) => {
                &&& r == done()
                &&& caller_replaced(before, after, caller)
                &&& caller_user(after, caller) == UserModel { name: n, ..caller_user(before, caller) }
            },
            _ => r == fails(DispatchError::ArgumentShapeMismatch) && unchanged(before, after),
        }
    }
}

/// Adding (`available`) or removing hours of the caller's schedule.
pub open spec fn set_schedule_post(
    before: ScheduleCollection,
    after: ScheduleCollection,
    caller: Seq<char>,
    available: bool,
    vals: Seq<ParamView>,
    r: Result<Option<Seq<char>>, DispatchError>,
) -> bool {
    if !before.name_map().contains_key(caller) {
        r == fails(DispatchError::UserNotFound) && unchanged(before, after)
    } else if schedule_shape_ok(vals[0], vals[1]) {
        &&& r == done()
        &&& caller_replaced(before, after, caller)
        &&& schedule_changed(
            caller_user(before, caller),
            caller_user(after, caller),
            vals[0],
            vals[1],
            available,
        )
    } else {
        r == fails(DispatchError::ArgumentShapeMismatch) && unchanged(before, after)
    }
}

/// The reply that shows a calendar: its owner's offset, then the grid as
/// read at `viewer_tz`.
pub open spec fn schedule_text(u: UserModel, viewer_tz: int) -> Seq<char> {
    "```\nTimezone:"@ + signed_decimal(u.timezone) + "\n"@ + render(rotated(u.schedule, viewer_tz), true) + "```"@
}

/// Showing another user's calendar, named by `name#tag`, at the caller's
/// offset.
pub open spec fn view_user_schedule_post(
    s: ScheduleCollection,
    caller: Seq<char>,
    vals: Seq<ParamView>,
    r: Result<Option<Seq<char>>, DispatchError>,
) -> bool {
    match vals[0] {
        ParamView::ViewId(id) => if !s.name_map().contains_key(caller) || !s.name_map().contains_key(id) {
            r == fails(DispatchError::UserNotFound)
        } else {
            r == says(schedule_text(caller_user(s, id), caller_user(s, caller).timezone))
        },
        _ => r == fails(DispatchError::ArgumentShapeMismatch),
    }
}

/// The first line of an availability report: the caller's offset.
pub open spec fn timezone_line(tz: int) -> Seq<char> {
    "Timezone:"@ + signed_decimal(tz) + "\n"@
}

/// Who is available at one day and hour, read at the caller's offset.
pub open spec fn available_day_time_post(
    s: ScheduleCollection,
    caller: Seq<char>,
    vals: Seq<ParamView>,
    r: Result<Option<Seq<char>>, DispatchError>,
) -> bool {
    match (vals[0], vals[1]) {
        (ParamView::DayCollection(ds), ParamView::TimeCollection(ts)) => if !s.name_map().contains_key(caller) {
            r == fails(DispatchError::UserNotFound)
        } else if ds.len() != 1 || ts.len() != 1 {
            r == fails(DispatchError::TooManyValuesForReport)
        } else if ts[0] >= 24 {
            r == fails(DispatchError::ArgumentShapeMismatch)
        } else {
            let tz = caller_user(s, caller).timezone;
            r == says(
                timezone_line(tz) + slot_report(
                    available_names(s.entries(), ds[0].idx(), ts[0] as int, tz),
                    ds[0],
                    ts[0] as int,
                ),
            )
        },
        _ => r == fails(DispatchError::ArgumentShapeMismatch),
    }
}

/// Who is available at each hour of one day, read at the caller's offset.
pub open spec fn available_day_post(
    s: ScheduleCollection,
    caller: Seq<char>,
    vals: Seq<ParamView>,
    r: Result<Option<Seq<char>>, DispatchError>,
) -> bool {
    match vals[0] {
        ParamView::DayCollection(ds) => if !s.name_map().contains_key(caller) {
            r == fails(DispatchError::UserNotFound)
        } else if ds.len() != 1 {
            r == fails(DispatchError::TooManyValuesForReport)
        } else {
            let tz = caller_user(s, caller).timezone;
            r == says(timezone_line(tz) + day_report(s.entries(), ds[0], tz, 24))
        },
        _ => r == fails(DispatchError::ArgumentShapeMismatch),
    }
}

/// A reply about the caller alone, made by `text` from the caller's user.
pub open spec fn caller_reply(
    s: ScheduleCollection,
    caller: Seq<char>,
    text: spec_fn(UserModel) -> Seq<char>,
    r: Result<Option<Seq<char>>, DispatchError>,
) -> bool {
    if !s.name_map().contains_key(caller) {
        r == fails(DispatchError::UserNotFound)
    } else {
        r == says(text(caller_user(s, caller)))
    }
}

/// What a command does, chosen by its kind and its number of arguments.
pub open spec fn dispatch_post(
    before: ScheduleCollection,
    after: ScheduleCollection,
    caller: Seq<char>,
    p: ParamType,
    vals: Seq<ParamView>,
    r: Result<Option<Seq<char>>, DispatchError>,
) -> bool {
    let n = vals.len();
    if p == ParamType::TimeZone && n == 1 {
        set_timezone_post(before, after, caller, vals, r)
    } else if p == ParamType::Name && n == 1 {
        set_name_post(before, after, caller, vals, r)
    } else if (p == ParamType::AddSchedule || p == ParamType::RemoveSchedule) && n == 2 {
        set_schedule_post(before, after, caller, p == ParamType::AddSchedule, vals, r)
    } else {
        &&& unchanged(before, after)
        &&& if p == ParamType::ViewSchedule && n == 1 {
            view_user_schedule_post(before, caller, vals, r)
        } else if p == ParamType::Available && n == 2 {
            available_day_time_post(before, caller, vals, r)
        } else if p == ParamType::Available && n == 1 {
            available_day_post(before, caller, vals, r)
        } else if p == ParamType::TimeZone && n == 0 {
            caller_reply(before, caller, |u: UserModel| signed_decimal(u.timezone), r)
        } else if p == ParamType::Name && n == 0 {
            caller_reply(before, caller, |u: UserModel| u.name, r)
        } else if p == ParamType::ViewSchedule && n == 0 {
            caller_reply(before, caller, |u: UserModel| schedule_text(u, u.timezone), r)
        } else if p == ParamType::Meme && n == 0 {
            r == says(MEME_TEXT@)
        } else if p == ParamType::Help && n == 0 {
            r == says(HELP_TEXT@)
        } else {
            r == fails(DispatchError::ArgumentShapeMismatch)
        }
    }
}

/// An availability report covers a single day: asked for a collection of
/// two days by a registered caller, it fails and changes nothing.
pub proof fn lemma_report_refuses_two_days(
    before: ScheduleCollection,
    after: ScheduleCollection,
    caller: Seq<char>,
    vals: Seq<ParamView>,
    r: Result<Option<Seq<char>>, DispatchError>,
)
    requires
        dispatch_post(before, after, caller, ParamType::Available, vals, r),
        before.name_map().contains_key(caller),
        vals.len() == 1 || (vals.len() == 2 && vals[1] is TimeCollection),
        match vals[0] {
            ParamView::DayCollection(ds) => ds.len() == 2,
            _ => false,
        },
    ensures
        r == fails(DispatchError::TooManyValuesForReport),
        unchanged(before, after),
{
}

proof fn lemma_local_update_chain(
    o: Seq<u32>,
    m: Seq<u32>,
    n: Seq<u32>,
    tz: int,
    p: spec_fn(int, int) -> bool,
    q: spec_fn(int, int) -> bool,
    pq: spec_fn(int, int) -> bool,
    available: bool,
)
    requires
        local_update(o, m, tz, p, available),
        local_update(m, n, tz, q, available),
        forall|d: int, h: int| 0 <= d < 7 && 0 <= h < 24 ==> #[trigger] pq(d, h) == (p(d, h) || q(d, h)),
    ensures
        local_update(o, n, tz, pq, available),
{
    assert forall|d: int, h: int| 0 <= d < 7 && 0 <= h < 24 implies #[trigger] crate::mask::available_in(
        n,
        d,
        h,
        tz,
    ) == if pq(d, h) {
        available
    } else {
        crate::mask::available_in(o, d, h, tz)
    } by {
        assert(crate::mask::available_in(n, d, h, tz) == if q(d, h) {
            available
        } else {
            crate::mask::available_in(m, d, h, tz)
        });
        assert(crate::mask::available_in(m, d, h, tz) == if p(d, h) {
            available
        } else {
            crate::mask::available_in(o, d, h, tz)
        });
    }
}

proof fn lemma_local_update_same(
    o: Seq<u32>,
    n: Seq<u32>,
    tz: int,
    p: spec_fn(int, int) -> bool,
    q: spec_fn(int, int) -> bool,
    available: bool,
)
    requires
        local_update(o, n, tz, p, available),
        forall|d: int, h: int| 0 <= d < 7 && 0 <= h < 24 ==> #[trigger] p(d, h) == q(d, h),
    ensures
        local_update(o, n, tz, q, available),
{
    assert forall|d: int, h: int| 0 <= d < 7 && 0 <= h < 24 implies #[trigger] crate::mask::available_in(
        n,
        d,
        h,
        tz,
    ) == if q(d, h) {
        available
    } else {
        crate::mask::available_in(o, d, h, tz)
    } by {
        assert(p(d, h) == q(d, h));
    }
}

/// Marks (or clears) each hour of `ts` on `day`.
fn set_times(usr: &mut User, day: Day, ts: &Vec<u32>, available: bool)
    requires
        forall|i: int| 0 <= i < ts@.len() ==> #[trigger] ts@[i] < 24,
    ensures
        mask_wf(final(usr)@.schedule),
        final(usr)@.name == old(usr)@.name,
        final(usr)@.timezone == old(usr)@.timezone,
        local_update(
            old(usr)@.schedule,
            final(usr)@.schedule,
            old(usr)@.timezone,
            |d: int, h: int| d == day.idx() && exists|i: int| 0 <= i < ts@.len() && #[trigger] ts@[i] == h,
            available,
        ),
{
    proof {
        use_type_invariant(&*usr);
    }
    let ghost tz = usr@.timezone;
    let ghost orig = usr@.schedule;
    let mut j: usize = 0;
    while j < ts.len()
        invariant
            j <= ts@.len(),
            forall|i: int| 0 <= i < ts@.len() ==> #[trigger] ts@[i] < 24,
            usr@.name == old(usr)@.name,
            mask_wf(usr@.schedule),
            usr@.timezone == tz,
            tz == old(usr)@.timezone,
            orig == old(usr)@.schedule,
            local_update(
                orig,
                usr@.schedule,
                tz,
                |d: int, h: int| d == day.idx() && exists|i: int| 0 <= i < j && #[trigger] ts@[i] == h,
                available,
            ),
        decreases ts@.len() - j,
    {
        let ghost cur = usr@.schedule;
        let t = ts[j];
        usr.set_time(day, t, available);
        proof {
            let p = |d: int, h: int| d == day.idx() && exists|i: int| 0 <= i < j && #[trigger] ts@[i] == h;
            let q = |d: int, h: int| d == day.idx() && h == t;
            let pq = |d: int, h: int| d == day.idx() && exists|i: int| 0 <= i < j + 1 && #[trigger] ts@[i] == h;
            assert forall|d: int, h: int| 0 <= d < 7 && 0 <= h < 24 implies #[trigger] pq(d, h) == (p(d, h) || q(d, h)) by {
                if q(d, h) {
                    assert(ts@[j as int] == h);
                }
                if pq(d, h) {
                    let i = choose|i: int| 0 <= i < j + 1 && #[trigger] ts@[i] == h;
                    if i < j {
                        assert(p(d, h));
                    }
                }
            }
            lemma_local_update_chain(orig, cur, usr@.schedule, tz, p, q, pq, available);
        }
        j = j + 1;
    }
    assert(ts@.len() == j);
}

/// Applies a change of schedule to one user.
fn apply_schedule(usr: &mut User, days: &ParamVals, times: &ParamVals, available: bool)
    requires
        schedule_shape_ok(days@, times@),
    ensures
        schedule_changed(old(usr)@, final(usr)@, days@, times@, available),
{
    proof {
        use_type_invariant(&*usr);
    }
    let ghost tz = usr@.timezone;
    let ghost orig = usr@.schedule;
    match days {
        ParamVals::DayCollection(ds) => {
            let mut k: usize = 0;
            while k < ds.len()
                invariant
                    k <= ds@.len(),
                    schedule_shape_ok(days@, times@),
                    days@ == ParamView::DayCollection(ds@),
                    usr@.name == old(usr)@.name,
                    usr@.timezone == tz,
                    mask_wf(usr@.schedule),
                    tz == old(usr)@.timezone,
                    orig == old(usr)@.schedule,
                    local_update(
                        orig,
                        usr@.schedule,
                        tz,
                        |d: int, h: int| (exists|i: int| 0 <= i < k && #[trigger] ds@[i].idx() == d) && selects_hour(times@, h),
                        available,
                    ),
                decreases ds@.len() - k,
            {
                let ghost cur = usr@.schedule;
                let day = ds[k];
                match times {
                    ParamVals::TimeCollection(ts) => {
                        assert(all_hours(ts@));
                        set_times(usr, day, ts, available);
                    },
                    ParamVals::TimeRange(a, b) => {
                        usr.set_time_range(day, *a, *b, available);
                    },
                    _ => {},
                }
                proof {
                    let p = |d: int, h: int| (exists|i: int| 0 <= i < k && #[trigger] ds@[i].idx() == d) && selects_hour(times@, h);
                    let q = |d: int, h: int| d == day.idx() && selects_hour(times@, h);
                    let pq = |d: int, h: int| (exists|i: int| 0 <= i < k + 1 && #[trigger] ds@[i].idx() == d) && selects_hour(times@, h);
                    assert forall|d: int, h: int| 0 <= d < 7 && 0 <= h < 24 implies #[trigger] pq(d, h) == (p(d, h) || q(d, h)) by {
                        if q(d, h) {
                            assert(ds@[k as int].idx() == d);
                        }
                        if pq(d, h) {
                            let i = choose|i: int| 0 <= i < k + 1 && #[trigger] ds@[i].idx() == d;
                            if i < k {
                                assert(p(d, h));
                            }
                        }
                    }
                    assert(local_update(cur, usr@.schedule, tz, q, available));
                    lemma_local_update_chain(orig, cur, usr@.schedule, tz, p, q, pq, available);
                }
                k = k + 1;
            }
            proof {
                assert(k == ds@.len());
                assert forall|d: int| 0 <= d < 7 implies (exists|i: int| 0 <= i < k && #[trigger] ds@[i].idx() == d) == selects_day(days@, d) by {
                    if selects_day(days@, d) {
                        let i = choose|i: int| 0 <= i < ds@.len() && #[trigger] ds@[i].idx() == d;
                        assert(0 <= i < k && ds@[i].idx() == d);
                    }
                }
                lemma_local_update_same(
                    orig,
                    usr@.schedule,
                    tz,
                    |d: int, h: int| (exists|i: int| 0 <= i < k && #[trigger] ds@[i].idx() == d) && selects_hour(times@, h),
                    |d: int, h: int| selects_day(days@, d) && selects_hour(times@, h),
                    available,
                );
            }
        },
        ParamVals::DayRange(a, b) => {
            match times {
                ParamVals::TimeCollection(ts) => {
                    let mut j: usize = 0;
                    while j < ts.len()
                        invariant
                            j <= ts@.len(),
                            schedule_shape_ok(days@, times@),
                            days@ == ParamView::DayRange(*a, *b),
                            times@ == ParamView::TimeCollection(ts@),
                            usr@.name == old(usr)@.name,
                            usr@.timezone == tz,
                            mask_wf(usr@.schedule),
                    mask_wf(usr@.schedule),
                            tz == old(usr)@.timezone,
                            orig == old(usr)@.schedule,
                            local_update(
                                orig,
                                usr@.schedule,
                                tz,
                                |d: int, h: int| in_day_range(a.idx(), b.idx(), d) && exists|i: int| 0 <= i < j && #[trigger] ts@[i] == h,
                                available,
                            ),
                        decreases ts@.len() - j,
                    {
                        let ghost cur = usr@.schedule;
                        let t = ts[j];
                        assert(all_hours(ts@));
                        usr.set_day_range(*a, *b, t, available);
                        proof {
                            let p = |d: int, h: int| in_day_range(a.idx(), b.idx(), d) && exists|i: int| 0 <= i < j && #[trigger] ts@[i] == h;
                            let q = |d: int, h: int| in_day_range(a.idx(), b.idx(), d) && h == t;
                            let pq = |d: int, h: int| in_day_range(a.idx(), b.idx(), d) && exists|i: int| 0 <= i < j + 1 && #[trigger] ts@[i] == h;
                            assert forall|d: int, h: int| 0 <= d < 7 && 0 <= h < 24 implies #[trigger] pq(d, h) == (p(d, h) || q(d, h)) by {
                                if q(d, h) {
                                    assert(ts@[j as int] == h);
                                }
                                if pq(d, h) {
                                    let i = choose|i: int| 0 <= i < j + 1 && #[trigger] ts@[i] == h;
                                    if i < j {
                                        assert(p(d, h));
                                    }
                                }
                            }
                            lemma_local_update_chain(orig, cur, usr@.schedule, tz, p, q, pq, available);
                        }
                        j = j + 1;
                    }
                    proof {
                        lemma_local_update_same(
                            orig,
                            usr@.schedule,
                            tz,
                            |d: int, h: int| in_day_range(a.idx(), b.idx(), d) && exists|i: int| 0 <= i < j && #[trigger] ts@[i] == h,
                            |d: int, h: int| selects_day(days@, d) && selects_hour(times@, h),
                            available,
                        );
                    }
                },
                ParamVals::TimeRange(s, e) => {
                    usr.set_day_time_range(*a, *b, *s, *e, available);
                    proof {
                        lemma_local_update_same(
                            orig,
                            usr@.schedule,
                            tz,
                            |d: int, h: int| in_day_range(a.idx(), b.idx(), d) && *s <= h <= *e,
                            |d: int, h: int| selects_day(days@, d) && selects_hour(times@, h),
                            available,
                        );
                    }
                },
                _ => {},
            }
        },
        _ => {},
    }
}

/// Sets the caller's time zone.
pub fn process_set_timezone(schedule: &mut ScheduleCollection, user_name: &str, vals: Vec<ParamVals>) -> (r: Result<Option<String>, DispatchError>)
    requires
        old(schedule).wf(),
        vals@.len() == 1,
    ensures
        final(schedule).wf(),
        set_timezone_post(*old(schedule), *final(schedule), user_name@, views(vals@), reply_view(r)),
{
    let ghost before = *schedule;
    let id = match schedule.get_id(user_name) {
        Some(id) => *id,
        None => {
            return Err(DispatchError::UserNotFound);
        },
    };
    assert(views(vals@)[0] == vals@[0]@);
    match &vals[0] {
        ParamVals::TimeZone(tz) => {
            let tz = *tz;
            if !(tz > -24 && tz < 24) {
                return Err(DispatchError::ArgumentShapeMismatch);
            }
            let ghost x = UserModel { timezone: tz as int, ..before.user_map()[id] };
            match schedule.mut_user(user_name) {
                Some(usr) => {
                    usr.set_timezone(tz);
                },
                None => {},
            }
            proof {
                lemma_user_edit_keeps_wf(before, *schedule, id, x);
            }
            Ok(None)
        },
        _ => Err(DispatchError::ArgumentShapeMismatch),
    }
}

/// Sets the caller's display name.
pub fn process_set_name(schedule: &mut ScheduleCollection, user_name: &str, vals: Vec<ParamVals>) -> (r: Result<Option<String>, DispatchError>)
    requires
        old(schedule).wf(),
        vals@.len() == 1,
    ensures
        final(schedule).wf(),
        set_name_post(*old(schedule), *final(schedule), user_name@, views(vals@), reply_view(r)),
{
    let ghost before = *schedule;
    let id = match schedule.get_id(user_name) {
        Some(id) => *id,
        None => {
            return Err(DispatchError::UserNotFound);
        },
    };
    assert(views(vals@)[0] == vals@[0]@);
    match &vals[0] {
        ParamVals::Name(name) => {
            let ghost x = UserModel { name: name@, ..before.user_map()[id] };
            match schedule.mut_user(user_name) {
                Some(usr) => {
                    usr.set_name(name.clone());
                },
                None => {},
            }
            proof {
                lemma_user_edit_keeps_wf(before, *schedule, id, x);
            }
            Ok(None)
        },
        _ => Err(DispatchError::ArgumentShapeMismatch),
    }
}

/// The day and time arguments have a shape that a change of schedule
/// accepts.
fn schedule_shape(days: &ParamVals, times: &ParamVals) -> (r: bool)
    ensures
        r == schedule_shape_ok(days@, times@),
{
    let days_ok = match days {
        ParamVals::DayCollection(_) => true,
        ParamVals::DayRange(_, _) => true,
        _ => false,
    };
    if !days_ok {
        return false;
    }
    match times {
        ParamVals::TimeCollection(ts) => {
            let mut i: usize = 0;
            while i < ts.len()
                invariant
                    i <= ts@.len(),
                    times@ == ParamView::TimeCollection(ts@),
                    days@ is DayCollection || days@ is DayRange,
                    forall|k: int| 0 <= k < i ==> #[trigger] ts@[k] < 24,
                decreases ts@.len() - i,
            {
                if ts[i] >= 24 {
                    assert(!all_hours(ts@)) by {
                        assert(ts@[i as int] >= 24);
                    }
                    return false;
                }
                i = i + 1;
            }
            true
        },
        ParamVals::TimeRange(a, b) => *a < 24 && *b < 24,
        _ => false,
    }
}

/// Adds hours to, or removes them from, the caller's schedule.
pub fn process_set_schedule(
    schedule: &mut ScheduleCollection,
    user_name: &str,
    p_type: ParamType,
    vals: Vec<ParamVals>,
) -> (r: Result<Option<String>, DispatchError>)
    requires
        old(schedule).wf(),
        vals@.len() == 2,
    ensures
        final(schedule).wf(),
        set_schedule_post(
            *old(schedule),
            *final(schedule),
            user_name@,
            p_type == ParamType::AddSchedule,
            views(vals@),
            reply_view(r),
        ),
{
    let ghost before = *schedule;
    let id = match schedule.get_id(user_name) {
        Some(id) => *id,
        None => {
            return Err(DispatchError::UserNotFound);
        },
    };
    assert(views(vals@)[0] == vals@[0]@);
    assert(views(vals@)[1] == vals@[1]@);
    if !schedule_shape(&vals[0], &vals[1]) {
        return Err(DispatchError::ArgumentShapeMismatch);
    }
    let available = p_type == ParamType::AddSchedule;
    let ghost u = before.user_map()[id];
    match schedule.mut_user(user_name) {
        Some(usr) => {
            apply_schedule(usr, &vals[0], &vals[1], available);
        },
        None => {},
    }
    proof {
        let x = schedule.entries()[id_index(before.entries(), id)].1;
        lemma_user_edit_keeps_wf(before, *schedule, id, x);
    }
    Ok(None)
}

/// The reply that shows `u`'s calendar as read at `viewer_tz`.
fn schedule_reply(u: &User, viewer_tz: i32) -> (r: String)
    requires
        tz_ok(viewer_tz as int),
    ensures
        r@ == schedule_text(u@, viewer_tz as int),
{
    let mut s = String::from_str("```\nTimezone:");
    push_signed_decimal(&mut s, u.timezone());
    s.append("\n");
    let grid = u.disp_schedule(true, viewer_tz);
    s.append(grid.as_str());
    s.append("```");
    s
}

/// Shows another user's calendar at the caller's offset.
pub fn process_view_user_schedule(schedule: &ScheduleCollection, user_name: &str, vals: Vec<ParamVals>) -> (r: Result<Option<String>, DispatchError>)
    requires
        schedule.wf(),
        vals@.len() == 1,
    ensures
        view_user_schedule_post(*schedule, user_name@, views(vals@), reply_view(r)),
{
    assert(views(vals@)[0] == vals@[0]@);
    match &vals[0] {
        ParamVals::ViewId(id) => match schedule.user(user_name) {
            Some(usr) => match schedule.user(id.as_str()) {
                Some(lookup_usr) => Ok(Some(schedule_reply(lookup_usr, usr.timezone()))),
                None => Err(DispatchError::UserNotFound),
            },
            None => Err(DispatchError::UserNotFound),
        },
        _ => Err(DispatchError::ArgumentShapeMismatch),
    }
}

/// The first line of an availability report.
fn timezone_header(tz: i32) -> (r: String)
    requires
        tz_ok(tz as int),
    ensures
        r@ == timezone_line(tz as int),
{
    let mut s = String::from_str("Timezone:");
    push_signed_decimal(&mut s, tz);
    s.append("\n");
    s
}

/// Who is available at one day and hour.
pub fn process_available_day_time(schedule: &ScheduleCollection, user_name: &str, vals: Vec<ParamVals>) -> (r: Result<Option<String>, DispatchError>)
    requires
        schedule.wf(),
        vals@.len() == 2,
    ensures
        available_day_time_post(*schedule, user_name@, views(vals@), reply_view(r)),
{
    assert(views(vals@)[0] == vals@[0]@);
    assert(views(vals@)[1] == vals@[1]@);
    match (&vals[0], &vals[1]) {
        (ParamVals::DayCollection(day_vec), ParamVals::TimeCollection(time_vec)) => {
            match schedule.user(user_name) {
                Some(usr) => {
                    if day_vec.len() != 1 || time_vec.len() != 1 {
                        return Err(DispatchError::TooManyValuesForReport);
                    }
                    if time_vec[0] >= 24 {
                        return Err(DispatchError::ArgumentShapeMismatch);
                    }
                    let tz = usr.timezone();
                    let mut s = timezone_header(tz);
                    let line = schedule.available_to_string(day_vec[0], time_vec[0], tz);
                    s.append(line.as_str());
                    Ok(Some(s))
                },
                None => Err(DispatchError::UserNotFound),
            }
        },
        _ => Err(DispatchError::ArgumentShapeMismatch),
    }
}

/// Who is available at each hour of one day.
pub fn process_available_day(schedule: &ScheduleCollection, user_name: &str, vals: Vec<ParamVals>) -> (r: Result<Option<String>, DispatchError>)
    requires
        schedule.wf(),
        vals@.len() == 1,
    ensures
        available_day_post(*schedule, user_name@, views(vals@), reply_view(r)),
{
    assert(views(vals@)[0] == vals@[0]@);
    match &vals[0] {
        ParamVals::DayCollection(day_vec) => match schedule.user(user_name) {
            Some(usr) => {
                if day_vec.len() != 1 {
                    return Err(DispatchError::TooManyValuesForReport);
                }
                let tz = usr.timezone();
                let mut s = timezone_header(tz);
                let report = schedule.available_day_to_string(day_vec[0], tz);
                s.append(report.as_str());
                Ok(Some(s))
            },
            None => Err(DispatchError::UserNotFound),
        },
        _ => Err(DispatchError::ArgumentShapeMismatch),
    }
}

/// The caller's offset.
pub fn process_view_timezone(schedule: &ScheduleCollection, user_name: &str) -> (r: Result<Option<String>, DispatchError>)
    requires
        schedule.wf(),
    ensures
        caller_reply(*schedule, user_name@, |u: UserModel| signed_decimal(u.timezone), reply_view(r)),
{
    match schedule.user(user_name) {
        Some(usr) => {
            let mut s = String::new();
            push_signed_decimal(&mut s, usr.timezone());
            Ok(Some(s))
        },
        None => Err(DispatchError::UserNotFound),
    }
}

/// The caller's display name.
pub fn process_view_name(schedule: &ScheduleCollection, user_name: &str) -> (r: Result<Option<String>, DispatchError>)
    requires
        schedule.wf(),
    ensures
        caller_reply(*schedule, user_name@, |u: UserModel| u.name, reply_view(r)),
{
    match schedule.user(user_name) {
        Some(usr) => Ok(Some(usr.name())),
        None => Err(DispatchError::UserNotFound),
    }
}

/// The caller's own calendar, at the caller's offset.
pub fn process_view_schedule(schedule: &ScheduleCollection, user_name: &str) -> (r: Result<Option<String>, DispatchError>)
    requires
        schedule.wf(),
    ensures
        caller_reply(*schedule, user_name@, |u: UserModel| schedule_text(u, u.timezone), reply_view(r)),
{
    match schedule.user(user_name) {
        Some(usr) => Ok(Some(schedule_reply(usr, usr.timezone()))),
        None => Err(DispatchError::UserNotFound),
    }
}

/// The `showtime` reply.
pub fn process_post_meme() -> (r: Result<Option<String>, DispatchError>)
    ensures
        reply_view(r) == says(MEME_TEXT@),
{
    Ok(Some(String::from_str(MEME_TEXT)))
}

/// The help reply.
pub fn process_view_help() -> (r: Result<Option<String>, DispatchError>)
    ensures
        reply_view(r) == says(HELP_TEXT@),
{
    Ok(Some(String::from_str(HELP_TEXT)))
}

/// Carries out a parsed command for the user registered as `user_name`.
/// The command runs by its kind and its number of arguments; a failed
/// command leaves the directory as it was.
pub fn process(
    schedule: &mut ScheduleCollection,
    user_name: &str,
    p_type: ParamType,
    vals: Vec<ParamVals>,
) -> (r: Result<Option<String>, DispatchError>)
    requires
        old(schedule).wf(),
    ensures
        final(schedule).wf(),
        dispatch_post(*old(schedule), *final(schedule), user_name@, p_type, views(vals@), reply_view(r)),
{
    let n = vals.len();
    if p_type == ParamType::TimeZone && n == 1 {
        process_set_timezone(schedule, user_name, vals)
    } else if p_type == ParamType::Name && n == 1 {
        process_set_name(schedule, user_name, vals)
    } else if (p_type == ParamType::AddSchedule || p_type == ParamType::RemoveSchedule) && n == 2 {
        process_set_schedule(schedule, user_name, p_type, vals)
    } else if p_type == ParamType::ViewSchedule && n == 1 {
        process_view_user_schedule(schedule, user_name, vals)
    } else if p_type == ParamType::Available && n == 2 {
        process_available_day_time(schedule, user_name, vals)
    } else if p_type == ParamType::Available && n == 1 {
        process_available_day(schedule, user_name, vals)
    } else if p_type == ParamType::TimeZone && n == 0 {
        process_view_timezone(schedule, user_name)
    } else if p_type == ParamType::Name && n == 0 {
        process_view_name(schedule, user_name)
    } else if p_type == ParamType::ViewSchedule && n == 0 {
        process_view_schedule(schedule, user_name)
    } else if p_type == ParamType::Meme && n == 0 {
        process_post_meme()
    } else if p_type == ParamType::Help && n == 0 {
        process_view_help()
    } else {
        Err(DispatchError::ArgumentShapeMismatch)
    }
}

} // verus!
