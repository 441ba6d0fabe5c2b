//! One user's weekly calendar: a name, a time zone, and a UTC mask.
use vstd::prelude::*;

use crate::day::{day_of, num_to_day, Day};
use crate::text::{digit_char, push_digit};
use crate::mask::{
    available_in, has_hour, in_day_range, lemma_utc_injective, lemma_with_hour,
    mask_wf, rotated, shl_word, shr_word, tz_ok, utc_day, utc_hour, with_hour, HOURS_MASK,
};

verus! {

/// What a user is: a display name, an offset from UTC in hours, and the
/// weekly mask of available hours, stored in UTC.
pub ghost struct UserModel {
    pub name: Seq<char>,
    pub timezone: int,
    pub schedule: Seq<u32>,
}

/// A user's calendar. Availability is stored in UTC; the time zone only
/// decides how local hours are read and written.
#[derive(Debug)]
pub struct User {
    name: String,
    timezone: i32,
    schedule: [u32; 7],
}

impl View for User {
    type V = UserModel;

    closed spec fn view(&self) -> UserModel {
        UserModel { name: self.name@, timezone: self.timezone as int, schedule: self.schedule@ }
    }
}

/// Every local slot `(d, h)` of `after` reads as it did in `before`, except
/// those that `changed` selects, which read `available`; `tz` is the
/// owner's offset.
pub open spec fn local_update(
    before: Seq<u32>,
    after: Seq<u32>,
    tz: int,
    changed: spec_fn(int, int) -> bool,
    available: bool,
) -> bool {
    forall|d: int, h: int|
        0 <= d < 7 && 0 <= h < 24 ==> #[trigger] available_in(after, d, h, tz) == if changed(d, h) {
            available
        } else {
            available_in(before, d, h, tz)
        }
}

/// How an hour shows in a rendered calendar: full when available.
pub open spec fn mark(w: u32, h: int) -> char {
    if has_hour(w, h as u32) {
        '█'
    } else {
        '░'
    }
}

/// The hour `h` written with two digits.
pub open spec fn two_digits(h: int) -> Seq<char> {
    seq![digit_char(h / 10), digit_char(h % 10)]
}

/// The marks of hour `h` on the first `n` days, each followed by a space.
pub open spec fn hour_cells(m: Seq<u32>, h: int, n: nat) -> Seq<char>
    decreases n,
{
    if n == 0 {
        Seq::empty()
    } else {
        hour_cells(m, h, (n - 1) as nat) + seq![mark(m[n - 1], h), ' ']
    }
}

/// The line of hour `h` across the week.
pub open spec fn hour_line(m: Seq<u32>, h: int) -> Seq<char> {
    two_digits(h) + seq![':', ' '] + hour_cells(m, h, 7) + seq!['\n']
}

/// The lines of the first `n` hours, one per hour.
pub open spec fn hour_grid(m: Seq<u32>, n: nat) -> Seq<char>
    decreases n,
{
    if n == 0 {
        Seq::empty()
    } else {
        hour_grid(m, (n - 1) as nat) + hour_line(m, n - 1)
    }
}

/// The marks of the first `n` hours of the day word `w`.
pub open spec fn day_cells(w: u32, n: nat) -> Seq<char>
    decreases n,
{
    if n == 0 {
        Seq::empty()
    } else {
        day_cells(w, (n - 1) as nat).push(mark(w, n - 1))
    }
}

/// The line of day `d` across its hours.
pub open spec fn day_line(m: Seq<u32>, d: int) -> Seq<char> {
    day_of(d).name_view() + seq![':', ' '] + day_cells(m[d], 24) + seq!['\n']
}

/// The lines of the first `n` days, one per day.
pub open spec fn day_grid(m: Seq<u32>, n: nat) -> Seq<char>
    decreases n,
{
    if n == 0 {
        Seq::empty()
    } else {
        day_grid(m, (n - 1) as nat) + day_line(m, n - 1)
    }
}

/// The header line above a calendar drawn with one line per day.
pub open spec fn day_grid_header() -> Seq<char> {
    "     012345678901234567890123\n"@
}

/// The mask `m` drawn as text: one line per hour when `time_as_row`,
/// one line per day under a header of hour digits otherwise.
pub open spec fn render(m: Seq<u32>, time_as_row: bool) -> Seq<char> {
    if time_as_row {
        hour_grid(m, 24)
    } else {
        day_grid_header() + day_grid(m, 7)
    }
}

impl User {
    /// Every user has an offset strictly between -24 and 24 and a
    /// well-formed mask.
    #[verifier::type_invariant]
    pub open spec fn wf(&self) -> bool {
        &&& tz_ok(self@.timezone)
        &&& mask_wf(self@.schedule)
    }

    /// A new user named `name`, at UTC, available at no hour.
    pub fn new(name: String) -> (r: User)
        ensures
            r@ == (UserModel { name: name@, timezone: 0, schedule: Seq::new(7, |i: int| 0u32) }),
    {
        let r = User { name, timezone: 0, schedule: [0u32; 7] };
        assert(r.schedule@ =~= Seq::new(7, |i: int| 0u32));
        r
    }

    /// The user's display name.
    pub fn name(&self) -> (r: String)
        ensures
            r@ == self@.name,
    {
        self.name.clone()
    }

    /// Changes the user's display name.
    pub fn set_name(&mut self, name: String)
        ensures
            final(self)@ == (UserModel { name: name@, ..old(self)@ }),
    {
        proof {
            use_type_invariant(&*self);
        }
        self.name = name;
    }

    /// The user's offset from UTC, in hours.
    pub fn timezone(&self) -> (r: i32)
        ensures
            r == self@.timezone,
            tz_ok(r as int),
    {
        proof {
            use_type_invariant(self);
        }
        self.timezone
    }

    /// Changes the user's offset. The stored UTC availability stays as it
    /// is: only the way local hours are read changes.
    pub fn set_timezone(&mut self, timezone: i32)
        requires
            tz_ok(timezone as int),
        ensures
            final(self)@ == (UserModel { timezone: timezone as int, ..old(self)@ }),
    {
        proof {
            use_type_invariant(&*self);
        }
        self.timezone = timezone;
    }

    /// Whether the user is available at local hour `time` of `day` as read by
    /// someone at offset `timezone`.
    pub fn is_available(&self, day: Day, time: u32, timezone: i32) -> (r: bool)
        requires
            time < 24,
            tz_ok(timezone as int),
        ensures
            r == available_in(self@.schedule, day.idx(), time as int, timezone as int),
    {
        proof {
            use_type_invariant(self);
        }
        let (d, t) = global_daytime(day, time, timezone);
        (self.schedule[d.num() as usize] >> t) & 1 == 1
    }

    /// Marks (or clears) local hour `time` of `day`, read at the user's own
    /// offset.
    pub fn set_time(&mut self, day: Day, time: u32, available: bool)
        requires
            time < 24,
        ensures
            final(self)@.name == old(self)@.name,
            final(self)@.timezone == old(self)@.timezone,
            mask_wf(final(self)@.schedule),
            final(self)@.schedule == old(self)@.schedule.update(
                utc_day(day.idx(), time as int, old(self)@.timezone),
                with_hour(
                    old(self)@.schedule[utc_day(day.idx(), time as int, old(self)@.timezone)],
                    utc_hour(time as int, old(self)@.timezone) as u32,
                    available,
                ),
            ),
            available_in(final(self)@.schedule, day.idx(), time as int, old(self)@.timezone)
                == available,
            local_update(
                old(self)@.schedule,
                final(self)@.schedule,
                old(self)@.timezone,
                |d: int, h: int| d == day.idx() && h == time,
                available,
            ),
    {
        proof {
            use_type_invariant(&*self);
        }
        let ghost tz = self.timezone as int;
        let ghost old_sched = self.schedule@;
        let (d, t) = global_daytime(day, time, self.timezone);
        let di = d.num() as usize;
        let mut s = self.schedule;
        let w = s[di];
        let nw = if available {
            w | (1u32 << t)
        } else {
            w & !(1u32 << t)
        };
        proof {
            lemma_with_hour(old_sched, di as int, t as int, available);
        }
        s[di] = nw;
        assert(s@ =~= old_sched.update(di as int, with_hour(old_sched[di as int], t, available)));
        self.schedule = s;
        proof {
            assert forall|d2: int, h2: int| 0 <= d2 < 7 && 0 <= h2 < 24 implies #[trigger] available_in(
                s@,
                d2,
                h2,
                tz,
            ) == if d2 == day.idx() && h2 == time {
                available
            } else {
                available_in(old_sched, d2, h2, tz)
            } by {
                lemma_utc_injective(d2, h2, day.idx(), time as int, tz);
            }
        }
    }

    /// Marks (or clears) local hours `start_time` to `end_time` inclusive of
    /// `day`; nothing changes when `start_time > end_time`.
    pub fn set_time_range(&mut self, day: Day, start_time: u32, end_time: u32, available: bool)
        requires
            end_time < 24,
        ensures
            mask_wf(final(self)@.schedule),
            final(self)@.name == old(self)@.name,
            final(self)@.timezone == old(self)@.timezone,
            local_update(
                old(self)@.schedule,
                final(self)@.schedule,
                old(self)@.timezone,
                |d: int, h: int| d == day.idx() && start_time <= h <= end_time,
                available,
            ),
    {
        proof {
            use_type_invariant(&*self);
        }
        let ghost tz = self@.timezone;
        let ghost old_sched = self@.schedule;
        let mut time = start_time;
        while time <= end_time
            invariant
                end_time < 24,
                start_time <= time <= end_time + 1 || time == start_time,
                self@.name == old(self)@.name,
                mask_wf(self@.schedule),
                self@.timezone == tz,
                tz == old(self)@.timezone,
                old_sched == old(self)@.schedule,
                local_update(
                    old_sched,
                    self@.schedule,
                    tz,
                    |d: int, h: int| d == day.idx() && start_time <= h < time,
                    available,
                ),
            decreases 24 - time,
        {
            self.set_time(day, time, available);
            time = time + 1;
        }
    }

    /// Marks (or clears) local hour `time` on each day from `start_day` to
    /// `end_day` inclusive, wrapping past Saturday when `end_day` comes first.
    pub fn set_day_range(&mut self, start_day: Day, end_day: Day, time: u32, available: bool)
        requires
            time < 24,
        ensures
            mask_wf(final(self)@.schedule),
            final(self)@.name == old(self)@.name,
            final(self)@.timezone == old(self)@.timezone,
            local_update(
                old(self)@.schedule,
                final(self)@.schedule,
                old(self)@.timezone,
                |d: int, h: int| in_day_range(start_day.idx(), end_day.idx(), d) && h == time,
                available,
            ),
    {
        proof {
            use_type_invariant(&*self);
        }
        let ghost tz = self@.timezone;
        let ghost old_sched = self@.schedule;
        let start = start_day.num();
        let end_num = if end_day.num() < start {
            end_day.num() + 7
        } else {
            end_day.num()
        };
        let mut day_num = start;
        while day_num <= end_num
            invariant
                start == start_day.idx(),
                end_num == if end_day.idx() < start_day.idx() {
                    end_day.idx() + 7
                } else {
                    end_day.idx()
                },
                start <= day_num <= end_num + 1,
                end_num < 14,
                time < 24,
                self@.name == old(self)@.name,
                mask_wf(self@.schedule),
                self@.timezone == tz,
                tz == old(self)@.timezone,
                old_sched == old(self)@.schedule,
                local_update(
                    old_sched,
                    self@.schedule,
                    tz,
                    |d: int, h: int| h == time && (start <= d < day_num || start <= d + 7 < day_num),
                    available,
                ),
            decreases end_num + 1 - day_num,
        {
            let day = num_to_day(day_num % 7).unwrap();
            assert(day_num as int % 7 == day_num || day_num as int % 7 == day_num - 7);
            self.set_time(day, time, available);
            day_num = day_num + 1;
        }
    }

    /// Marks (or clears) local hours `start_time` to `end_time` inclusive on
    /// each day from `start_day` to `end_day` inclusive, wrapping past
    /// Saturday when `end_day` comes first.
    pub fn set_day_time_range(
        &mut self,
        start_day: Day,
        end_day: Day,
        start_time: u32,
        end_time: u32,
        available: bool,
    )
        requires
            end_time < 24,
        ensures
            mask_wf(final(self)@.schedule),
            final(self)@.name == old(self)@.name,
            final(self)@.timezone == old(self)@.timezone,
            local_update(
                old(self)@.schedule,
                final(self)@.schedule,
                old(self)@.timezone,
                |d: int, h: int|
                    in_day_range(start_day.idx(), end_day.idx(), d) && start_time <= h <= end_time,
                available,
            ),
    {
        proof {
            use_type_invariant(&*self);
        }
        let ghost tz = self@.timezone;
        let ghost old_sched = self@.schedule;
        let start = start_day.num();
        let end_num = if end_day.num() < start {
            end_day.num() + 7
        } else {
            end_day.num()
        };
        let mut day_num = start;
        while day_num <= end_num
            invariant
                start == start_day.idx(),
                end_num == if end_day.idx() < start_day.idx() {
                    end_day.idx() + 7
                } else {
                    end_day.idx()
                },
                start <= day_num <= end_num + 1,
                end_num < 14,
                end_time < 24,
                self@.name == old(self)@.name,
                mask_wf(self@.schedule),
                self@.timezone == tz,
                tz == old(self)@.timezone,
                old_sched == old(self)@.schedule,
                local_update(
                    old_sched,
                    self@.schedule,
                    tz,
                    |d: int, h: int|
                        start_time <= h <= end_time && (start <= d < day_num || start <= d + 7
                            < day_num),
                    available,
                ),
            decreases end_num + 1 - day_num,
        {
            let day = num_to_day(day_num % 7).unwrap();
            assert(day_num as int % 7 == day_num || day_num as int % 7 == day_num - 7);
            self.set_time_range(day, start_time, end_time, available);
            day_num = day_num + 1;
        }
    }

    /// The user's calendar drawn as text, as it reads at offset `timezone`.
    pub fn disp_schedule(&self, time_as_row: bool, timezone: i32) -> (r: String)
        requires
            tz_ok(timezone as int),
        ensures
            r@ == render(rotated(self@.schedule, timezone as int), time_as_row),
    {
        let shifted = shift_schedule(self.schedule, timezone);
        let ghost m = shifted@;
        let mut out = String::new();
        let full = "█ ";
        let free = "░ ";
        let sep = ": ";
        let nl = "\n";
        proof {
            reveal_strlit("█ ");
            reveal_strlit("░ ");
            reveal_strlit(": ");
            reveal_strlit("\n");
        }
        if time_as_row {
            let mut h: u32 = 0;
            while h < 24
                invariant
                    h <= 24,
                    m == shifted@,
                    m.len() == 7,
                    out@ == hour_grid(m, h as nat),
                    full@ == seq!['█', ' '],
                    free@ == seq!['░', ' '],
                    sep@ == seq![':', ' '],
                    nl@ == seq!['\n'],
                decreases 24 - h,
            {
                let ghost before = out@;
                push_digit(&mut out, h / 10);
                push_digit(&mut out, h % 10);
                out.append(sep);
                let mut d: usize = 0;
                while d < 7
                    invariant
                        h < 24,
                        d <= 7,
                        m == shifted@,
                        m.len() == 7,
                        out@ == before + two_digits(h as int) + seq![':', ' '] + hour_cells(m, h as int, d as nat),
                        full@ == seq!['█', ' '],
                        free@ == seq!['░', ' '],
                    decreases 7 - d,
                {
                    if (shifted[d] >> h) & 1 == 1 {
                        out.append(full);
                    } else {
                        out.append(free);
                    }
                    d = d + 1;
                    assert(out@ =~= before + two_digits(h as int) + seq![':', ' '] + hour_cells(m, h as int, d as nat));
                }
                out.append(nl);
                h = h + 1;
                assert(out@ =~= hour_grid(m, h as nat));
            }
        } else {
            let header = "     012345678901234567890123\n";
            out.append(header);
            let mut d: usize = 0;
            while d < 7
                invariant
                    d <= 7,
                    m == shifted@,
                    m.len() == 7,
                    out@ == day_grid_header() + day_grid(m, d as nat),
                    sep@ == seq![':', ' '],
                    nl@ == seq!['\n'],
                decreases 7 - d,
            {
                let ghost before = out@;
                let day = num_to_day(d as u32).unwrap();
                let name = day.to_string();
                out.append(name.as_str());
                out.append(sep);
                let mut h: u32 = 0;
                while h < 24
                    invariant
                        d < 7,
                        h <= 24,
                        m == shifted@,
                        m.len() == 7,
                        out@ == before + day_of(d as int).name_view() + seq![':', ' '] + day_cells(m[d as int], h as nat),
                    decreases 24 - h,
                {
                    let full_one = "█";
                    let free_one = "░";
                    proof {
                        reveal_strlit("█");
                        reveal_strlit("░");
                    }
                    if (shifted[d] >> h) & 1 == 1 {
                        out.append(full_one);
                    } else {
                        out.append(free_one);
                    }
                    h = h + 1;
                    assert(out@ =~= before + day_of(d as int).name_view() + seq![':', ' '] + day_cells(m[d as int], h as nat));
                }
                out.append(nl);
                d = d + 1;
                assert(out@ =~= day_grid_header() + day_grid(m, d as nat));
            }
        }
        out
    }

    /// The user's mask, in UTC.
    pub fn get_raw_schedule(&self) -> (r: [u32; 7])
        ensures
            r@ == self@.schedule,
            mask_wf(r@),
    {
        proof {
            use_type_invariant(self);
        }
        self.schedule
    }

    /// Replaces the user's mask, given in UTC.
    pub fn set_raw_schedule(&mut self, schedule: [u32; 7])
        requires
            mask_wf(schedule@),
        ensures
            final(self)@ == (UserModel { schedule: schedule@, ..old(self)@ }),
    {
        proof {
            use_type_invariant(&*self);
        }
        self.schedule = schedule;
    }
}

/// Converts local hour `time` of `day` at offset `timezone` to its UTC day
/// and hour.
pub fn global_daytime(day: Day, time: u32, timezone: i32) -> (r: (Day, u32))
    requires
        time < 24,
        tz_ok(timezone as int),
    ensures
        r.0.idx() == utc_day(day.idx(), time as int, timezone as int),
        r.1 == utc_hour(time as int, timezone as int),
        r.1 < 24,
{
    let new_time = time as i32 - timezone;
    let day_shift: u32 = if new_time < 0 {
        6
    } else if new_time >= 24 {
        1
    } else {
        0
    };
    let hour: i32 = if new_time < 0 {
        new_time + 24
    } else if new_time >= 24 {
        new_time - 24
    } else {
        new_time
    };
    let d = num_to_day((day.num() + day_shift) % 7).unwrap();
    (d, hour as u32)
}

/// The mask `schedule`, stored in UTC, as it reads at offset `timezone`.
pub fn shift_schedule(schedule: [u32; 7], timezone: i32) -> (r: [u32; 7])
    requires
        tz_ok(timezone as int),
    ensures
        r@ == rotated(schedule@, timezone as int),
{
    let mut res = schedule;
    if timezone > 0 {
        let t = timezone as u32;
        let mut day: usize = 0;
        while day < 7
            invariant
                0 < t < 24,
                t == timezone,
                day <= 7,
                res@.len() == 7,
                forall|e: int| 0 <= e < day ==> #[trigger] res@[e] == shl_word(schedule@[e], schedule@[(e + 6) % 7], t),
            decreases 7 - day,
        {
            let prev = schedule[(day + 6) % 7];
            res[day] = ((schedule[day] << t) & HOURS_MASK) | (prev >> (24 - t));
            day = day + 1;
        }
        assert(res@ =~= rotated(schedule@, timezone as int));
    } else if timezone < 0 {
        let s = (-timezone) as u32;
        let mut day: usize = 0;
        while day < 7
            invariant
                0 < s < 24,
                s == -timezone,
                day <= 7,
                res@.len() == 7,
                forall|e: int| 0 <= e < day ==> #[trigger] res@[e] == shr_word(schedule@[e], schedule@[(e + 1) % 7], s),
            decreases 7 - day,
        {
            let next = schedule[(day + 1) % 7];
            res[day] = (schedule[day] >> s) | ((next << (24 - s)) & HOURS_MASK);
            day = day + 1;
        }
        assert(res@ =~= rotated(schedule@, timezone as int));
    }
    res
}

} // verus!
