//! The command language: raw text to tokens, and tokens to a typed query.
use vstd::prelude::*;

use crate::day::Day;
use crate::mask::tz_ok;

verus! {

/// The kind of command a query asks for.
#[derive(Clone, Copy, Debug, PartialEq, Eq, Structural)]
pub enum ParamType {
    TimeZone,
    Name,
    AddSchedule,
    RemoveSchedule,
    ViewSchedule,
    Available,
    Meme,
    Help,
}

/// A typed argument of a command.
#[derive(Clone, Debug, PartialEq)]
pub enum ParamVals {
    TimeCollection(Vec<u32>),
    DayCollection(Vec<Day>),
    TimeRange(u32, u32),
    DayRange(Day, Day),
    Name(String),
    TimeZone(i32),
    ViewId(String),
}

/// What an argument holds, as plain values.
pub ghost enum ParamView {
    TimeCollection(Seq<u32>),
    DayCollection(Seq<Day>),
    TimeRange(u32, u32),
    DayRange(Day, Day),
    Name(Seq<char>),
    TimeZone(i32),
    ViewId(Seq<char>),
}

impl View for ParamVals {
    type V = ParamView;

    open spec fn view(&self) -> ParamView {
        match self {
            ParamVals::TimeCollection(v) => ParamView::TimeCollection(v@),
            ParamVals::DayCollection(v) => ParamView::DayCollection(v@),
            ParamVals::TimeRange(a, b) => ParamView::TimeRange(*a, *b),
            ParamVals::DayRange(a, b) => ParamView::DayRange(*a, *b),
            ParamVals::Name(s) => ParamView::Name(s@),
            ParamVals::TimeZone(t) => ParamView::TimeZone(*t),
            ParamVals::ViewId(s) => ParamView::ViewId(s@),
        }
    }
}

/// The arguments `v` as plain values.
pub open spec fn views(v: Seq<ParamVals>) -> Seq<ParamView> {
    v.map_values(|p: ParamVals| p@)
}

/// The tokens `v` as character sequences.
pub open spec fn token_views(v: Seq<String>) -> Seq<Seq<char>> {
    v.map_values(|s: String| s@)
}

/// Characters that end a word.
pub open spec fn is_separator(c: char) -> bool {
    c == ' ' || c == ','
}

/// Characters that a token keeps: ASCII letters and digits.
pub open spec fn is_word_char(c: char) -> bool {
    ('a' <= c && c <= 'z') || ('A' <= c && c <= 'Z') || ('0' <= c && c <= '9')
}

/// ASCII lower case of `c`.
pub open spec fn ascii_lower(c: char) -> char {
    if 'A' <= c && c <= 'Z' {
        ((c as u32) + 32) as char
    } else {
        c
    }
}

/// Reading `s` from the left: the words completed so far, and the word
/// being read. Separators end a word, other characters that are not ASCII
/// letters or digits are dropped, letters are lowered, empty words vanish.
pub open spec fn scan_words(s: Seq<char>) -> (Seq<Seq<char>>, Seq<char>)
    decreases s.len(),
{
    if s.len() == 0 {
        (Seq::empty(), Seq::empty())
    } else {
        let (done, cur) = scan_words(s.drop_last());
        let c = s.last();
        if is_separator(c) {
            (
                if cur.len() > 0 {
                    done.push(cur)
                } else {
                    done
                },
                Seq::empty(),
            )
        } else if is_word_char(c) {
            (done, cur.push(ascii_lower(c)))
        } else {
            (done, cur)
        }
    }
}

/// The tokens of the raw text `s`.
pub open spec fn query_tokens(s: Seq<char>) -> Seq<Seq<char>> {
    let (done, cur) = scan_words(s);
    if cur.len() > 0 {
        done.push(cur)
    } else {
        done
    }
}

/// Splits raw text into lower-case tokens: words end at spaces and commas,
/// only ASCII letters and digits are kept, and empty words are dropped.
pub fn filter_query(input: &str) -> (r: Vec<String>)
    ensures
        token_views(r@) == query_tokens(input@),
{
    let lower = "abcdefghijklmnopqrstuvwxyz";
    proof {
        reveal_strlit("abcdefghijklmnopqrstuvwxyz");
    }
    let n = input.unicode_len();
    let mut words: Vec<String> = Vec::new();
    let mut cur = String::new();
    let mut cur_len: usize = 0;
    let mut i: usize = 0;
    while i < n
        invariant
            n == input@.len(),
            i <= n,
            cur_len == cur@.len(),
            cur_len <= i,
            lower@ == "abcdefghijklmnopqrstuvwxyz"@,
            (token_views(words@), cur@) == scan_words(input@.subrange(0, i as int)),
        decreases n - i,
    {
        let c = input.get_char(i);
        let ghost prefix = input@.subrange(0, i as int);
        assert(input@.subrange(0, i + 1).drop_last() =~= prefix);
        if c == ' ' || c == ',' {
            if cur_len > 0 {
                words.push(cur);
                assert(token_views(words@) =~= scan_words(prefix).0.push(scan_words(prefix).1));
            }
            cur = String::new();
            cur_len = 0;
        } else if 'A' <= c && c <= 'Z' {
            let k = (c as u32 - 65) as usize;
            proof {
                reveal_strlit("abcdefghijklmnopqrstuvwxyz");
            }
            let piece = lower.substring_char(k, k + 1);
            assert(piece@ =~= seq![ascii_lower(c)]);
            cur.append(piece);
            cur_len = cur_len + 1;
        } else if ('a' <= c && c <= 'z') || ('0' <= c && c <= '9') {
            let piece = input.substring_char(i, i + 1);
            assert(piece@ =~= seq![c]);
            cur.append(piece);
            cur_len = cur_len + 1;
        }
        i = i + 1;
    }
    assert(input@.subrange(0, n as int) =~= input@);
    if cur_len > 0 {
        words.push(cur);
        assert(token_views(words@) =~= query_tokens(input@));
    }
    words
}

/// `p` is a prefix of `t`.
pub open spec fn is_prefix_of(p: Seq<char>, t: Seq<char>) -> bool {
    p.len() <= t.len() && t.subrange(0, p.len() as int) == p
}

/// The day that a token names by its first three letters.
pub open spec fn day_token(t: Seq<char>) -> Option<Day> {
    if is_prefix_of("sun"@, t) {
        Some(Day::Sun)
    } else if is_prefix_of("mon"@, t) {
        Some(Day::Mon)
    } else if is_prefix_of("tue"@, t) {
        Some(Day::Tue)
    } else if is_prefix_of("wed"@, t) {
        Some(Day::Wed)
    } else if is_prefix_of("thu"@, t) {
        Some(Day::Thu)
    } else if is_prefix_of("fri"@, t) {
        Some(Day::Fri)
    } else if is_prefix_of("sat"@, t) {
        Some(Day::Sat)
    } else {
        None
    }
}

/// An ASCII decimal digit.
pub open spec fn is_digit(c: char) -> bool {
    '0' <= c && c <= '9'
}

/// Every character of `s` is a decimal digit.
pub open spec fn all_digits(s: Seq<char>) -> bool {
    forall|i: int| 0 <= i < s.len() ==> is_digit(#[trigger] s[i])
}

/// The value of the decimal digits `s`.
pub open spec fn digits_value(s: Seq<char>) -> int
    decreases s.len(),
{
    if s.len() == 0 {
        0
    } else {
        digits_value(s.drop_last()) * 10 + ((s.last() as int) - ('0' as int))
    }
}

/// The unsigned number a token spells: an optional `+`, then one or more
/// decimal digits, of a value that fits in 32 bits.
pub open spec fn number_token(t: Seq<char>) -> Option<u32> {
    let b = if t.len() > 0 && t[0] == '+' {
        t.drop_first()
    } else {
        t
    };
    if b.len() > 0 && all_digits(b) && digits_value(b) <= u32::MAX {
        Some(digits_value(b) as u32)
    } else {
        None
    }
}

/// The end of the run of day tokens that starts at `i`.
pub open spec fn day_run_end(ts: Seq<Seq<char>>, i: int) -> int
    decreases ts.len() - i,
{
    if 0 <= i < ts.len() && day_token(ts[i]) is Some {
        day_run_end(ts, i + 1)
    } else {
        i
    }
}

/// The end of the run of number tokens that starts at `i`.
pub open spec fn number_run_end(ts: Seq<Seq<char>>, i: int) -> int
    decreases ts.len() - i,
{
    if 0 <= i < ts.len() && number_token(ts[i]) is Some {
        number_run_end(ts, i + 1)
    } else {
        i
    }
}

/// The days that the tokens `i` to `j` name.
pub open spec fn days_of(ts: Seq<Seq<char>>, i: int, j: int) -> Seq<Day> {
    ts.subrange(i, j).map_values(|t: Seq<char>| day_token(t)->0)
}

/// The numbers that the tokens `i` to `j` spell.
pub open spec fn numbers_of(ts: Seq<Seq<char>>, i: int, j: int) -> Seq<u32> {
    ts.subrange(i, j).map_values(|t: Seq<char>| number_token(t)->0)
}

/// The time selector that starts at token `i`, after the day argument
/// `days`: nothing, `from A to B` with both hours under 24, or a run of
/// numbers. Tokens after the selector are ignored.
pub open spec fn time_selector(ts: Seq<Seq<char>>, i: int, days: ParamView) -> Option<Seq<ParamView>> {
    if i >= ts.len() {
        Some(seq![days])
    } else if is_prefix_of("from"@, ts[i]) {
        if i + 3 < ts.len() && ts[i + 2] == "to"@ && number_token(ts[i + 1]) is Some
            && number_token(ts[i + 3]) is Some && number_token(ts[i + 1])->0 < 24
            && number_token(ts[i + 3])->0 < 24 {
            Some(seq![days, ParamView::TimeRange(number_token(ts[i + 1])->0, number_token(ts[i + 3])->0)])
        } else {
            None
        }
    } else if number_token(ts[i]) is Some {
        Some(seq![days, ParamView::TimeCollection(numbers_of(ts, i, number_run_end(ts, i)))])
    } else {
        None
    }
}

/// The arguments of a schedule command: a day selector (a week part, a
/// `from D to D` range, a run of days, or the whole week when none of these
/// starts the tokens), then a time selector.
pub open spec fn schedule_args(ts: Seq<Seq<char>>) -> Option<Seq<ParamView>> {
    if ts.len() == 0 {
        None
    } else if is_prefix_of("weekday"@, ts[0]) {
        time_selector(ts, 1, ParamView::DayRange(Day::Mon, Day::Fri))
    } else if is_prefix_of("weekend"@, ts[0]) {
        time_selector(ts, 1, ParamView::DayRange(Day::Sat, Day::Sun))
    } else if is_prefix_of("from"@, ts[0]) && ts.len() > 1 && day_token(ts[1]) is Some {
        if ts.len() > 3 && ts[2] == "to"@ && day_token(ts[3]) is Some {
            time_selector(ts, 4, ParamView::DayRange(day_token(ts[1])->0, day_token(ts[3])->0))
        } else {
            None
        }
    } else if day_token(ts[0]) is Some {
        time_selector(
            ts,
            day_run_end(ts, 0),
            ParamView::DayCollection(days_of(ts, 0, day_run_end(ts, 0))),
        )
    } else {
        time_selector(ts, 0, ParamView::DayRange(Day::Sun, Day::Sat))
    }
}

/// `t` starts with `p`.
fn starts_with(t: &str, p: &str) -> (r: bool)
    ensures
        r == is_prefix_of(p@, t@),
{
    let n = t.unicode_len();
    let m = p.unicode_len();
    if m > n {
        return false;
    }
    let mut i: usize = 0;
    while i < m
        invariant
            m <= n,
            n == t@.len(),
            m == p@.len(),
            i <= m,
            forall|j: int| 0 <= j < i ==> t@[j] == p@[j],
        decreases m - i,
    {
        if t.get_char(i) != p.get_char(i) {
            return false;
        }
        i = i + 1;
    }
    assert(t@.subrange(0, m as int) =~= p@);
    true
}

/// `a` and `b` hold the same characters.
pub(crate) fn same_text(a: &str, b: &str) -> (r: bool)
    ensures
        r == (a@ == b@),
{
    if a.unicode_len() != b.unicode_len() {
        return false;
    }
    let r = starts_with(a, b);
    proof {
        if r {
            assert(a@ =~= b@);
        }
        if a@ == b@ {
            assert(a@.subrange(0, b@.len() as int) =~= b@);
        }
    }
    r
}

/// The day that a token names by its first three letters.
fn parse_day(word: &str) -> (r: Option<Day>)
    ensures
        r == day_token(word@),
{
    if starts_with(word, "sun") {
        Some(Day::Sun)
    } else if starts_with(word, "mon") {
        Some(Day::Mon)
    } else if starts_with(word, "tue") {
        Some(Day::Tue)
    } else if starts_with(word, "wed") {
        Some(Day::Wed)
    } else if starts_with(word, "thu") {
        Some(Day::Thu)
    } else if starts_with(word, "fri") {
        Some(Day::Fri)
    } else if starts_with(word, "sat") {
        Some(Day::Sat)
    } else {
        None
    }
}

proof fn lemma_digits_value_grows(s: Seq<char>, j: int)
    requires
        all_digits(s),
        0 <= j <= s.len(),
    ensures
        digits_value(s) >= digits_value(s.subrange(0, j)),
        digits_value(s) >= 0,
    decreases s.len(),
{
    if s.len() > 0 {
        let p = s.drop_last();
        assert(all_digits(p)) by {
            assert forall|i: int| 0 <= i < p.len() implies is_digit(#[trigger] p[i]) by {
                assert(p[i] == s[i]);
            }
        }
        assert(is_digit(s[s.len() - 1]));
        if j < s.len() {
            lemma_digits_value_grows(p, j);
            assert(p.subrange(0, j) =~= s.subrange(0, j));
        } else {
            lemma_digits_value_grows(p, 0);
            assert(s.subrange(0, j) =~= s);
        }
    }
}

/// The unsigned number a token spells, if it spells one.
fn parse_number(t: &str) -> (r: Option<u32>)
    ensures
        r == number_token(t@),
{
    let n = t.unicode_len();
    let start: usize = if n > 0 && t.get_char(0) == '+' {
        1
    } else {
        0
    };
    let ghost body = if t@.len() > 0 && t@[0] == '+' {
        t@.drop_first()
    } else {
        t@
    };
    assert(body =~= t@.subrange(start as int, n as int));
    if start == n {
        return None;
    }
    let mut acc: u32 = 0;
    let mut i = start;
    while i < n
        invariant
            n == t@.len(),
            start <= i <= n,
            body == t@.subrange(start as int, n as int),
            body == (if t@.len() > 0 && t@[0] == '+' {
                t@.drop_first()
            } else {
                t@
            }),
            all_digits(t@.subrange(start as int, i as int)),
            acc == digits_value(t@.subrange(start as int, i as int)),
        decreases n - i,
    {
        let c = t.get_char(i);
        if !('0' <= c && c <= '9') {
            assert(!all_digits(body)) by {
                assert(body[i - start] == c);
            }
            return None;
        }
        let d = c as u32 - 48;
        let ghost next = t@.subrange(start as int, i + 1);
        assert(next.drop_last() =~= t@.subrange(start as int, i as int));
        assert(digits_value(next) == acc * 10 + d);
        if acc > 429496729 || (acc == 429496729 && d > 5) {
            proof {
                if all_digits(body) {
                    lemma_digits_value_grows(body, i + 1 - start);
                    assert(body.subrange(0, i + 1 - start) =~= next);
                }
            }
            return None;
        }
        acc = acc * 10 + d;
        i = i + 1;
        assert(all_digits(t@.subrange(start as int, i as int))) by {
            assert forall|j: int| 0 <= j < i - start implies is_digit(
                #[trigger] t@.subrange(start as int, i as int)[j],
            ) by {
                if j < i - 1 - start {
                    assert(t@.subrange(start as int, i as int)[j] == t@.subrange(
                        start as int,
                        i - 1,
                    )[j]);
                }
            }
        }
    }
    assert(t@.subrange(start as int, n as int) =~= body);
    Some(acc)
}

/// `b` is a decimal number without sign: digits and at most one point,
/// with at least one digit.
pub open spec fn decimal_text(b: Seq<char>) -> bool {
    &&& forall|i: int| 0 <= i < b.len() ==> is_digit(#[trigger] b[i]) || b[i] == '.'
    &&& forall|i: int, j: int| 0 <= i < j < b.len() ==> !(#[trigger] b[i] == '.' && #[trigger] b[j] == '.')
    &&& exists|i: int| 0 <= i < b.len() && is_digit(#[trigger] b[i])
}

/// The most significant digit of the whole part of the decimal number `b`
/// (zero when that part is zero).
pub open spec fn leading_digit(b: Seq<char>) -> int
    decreases b.len(),
{
    if b.len() == 0 {
        0
    } else if b[0] == '0' {
        leading_digit(b.drop_first())
    } else if is_digit(b[0]) {
        (b[0] as int) - ('0' as int)
    } else {
        0
    }
}

/// The offset a time zone token gives: the leading digit of the decimal
/// number it spells, with its sign.
pub open spec fn timezone_token(t: Seq<char>) -> Option<i32> {
    let signed = t.len() > 0 && (t[0] == '-' || t[0] == '+');
    let b = if signed {
        t.drop_first()
    } else {
        t
    };
    if decimal_text(b) {
        Some(
            if t[0] == '-' {
                -leading_digit(b)
            } else {
                leading_digit(b)
            } as i32,
        )
    } else {
        None
    }
}

/// Arguments of `name`: every token joined into one name, or none.
pub open spec fn name_args(ts: Seq<Seq<char>>) -> Option<Seq<ParamView>> {
    if ts.len() > 0 {
        Some(seq![ParamView::Name(ts.flatten())])
    } else {
        Some(Seq::empty())
    }
}

/// Arguments of `view`: with more than four tokens, the last four joined
/// after a `#` that follows the others joined; none otherwise.
pub open spec fn view_id_args(ts: Seq<Seq<char>>) -> Option<Seq<ParamView>> {
    if ts.len() > 4 {
        Some(
            seq![
                ParamView::ViewId(
                    ts.subrange(0, ts.len() - 4).flatten() + seq!['#'] + ts.subrange(
                        ts.len() - 4,
                        ts.len() as int,
                    ).flatten(),
                ),
            ],
        )
    } else {
        Some(Seq::empty())
    }
}

/// Arguments of `timezone`: none, or the offset its first token gives.
pub open spec fn timezone_args(ts: Seq<Seq<char>>) -> Option<Seq<ParamView>> {
    if ts.len() == 0 {
        Some(Seq::empty())
    } else if timezone_token(ts[0]) is Some && tz_ok(timezone_token(ts[0])->0 as int) {
        Some(seq![ParamView::TimeZone(timezone_token(ts[0])->0)])
    } else {
        None
    }
}

/// The command a first token selects, by prefix, in a fixed order.
pub open spec fn command_of(t: Seq<char>) -> Option<ParamType> {
    if is_prefix_of("add"@, t) {
        Some(ParamType::AddSchedule)
    } else if is_prefix_of("remove"@, t) {
        Some(ParamType::RemoveSchedule)
    } else if is_prefix_of("name"@, t) {
        Some(ParamType::Name)
    } else if is_prefix_of("timezone"@, t) {
        Some(ParamType::TimeZone)
    } else if is_prefix_of("view"@, t) {
        Some(ParamType::ViewSchedule)
    } else if is_prefix_of("available"@, t) {
        Some(ParamType::Available)
    } else if is_prefix_of("showtime"@, t) {
        Some(ParamType::Meme)
    } else if is_prefix_of("help"@, t) {
        Some(ParamType::Help)
    } else {
        None
    }
}

/// The arguments of command `p` given the tokens after it. Adding and
/// removing need both a day and a time argument.
pub open spec fn command_args(p: ParamType, ts: Seq<Seq<char>>) -> Option<Seq<ParamView>> {
    match p {
        ParamType::AddSchedule | ParamType::RemoveSchedule => match schedule_args(ts) {
            Some(v) => if v.len() == 2 {
                Some(v)
            } else {
                None
            },
            None => None,
        },
        ParamType::Name => name_args(ts),
        ParamType::TimeZone => timezone_args(ts),
        ParamType::ViewSchedule => view_id_args(ts),
        ParamType::Available => schedule_args(ts),
        ParamType::Meme | ParamType::Help => Some(Seq::empty()),
    }
}

/// The query that the tokens `ts` spell: no command for no tokens or an
/// unknown first token, else the command and its arguments, if they parse.
pub open spec fn query_of(ts: Seq<Seq<char>>) -> (Option<ParamType>, Option<Seq<ParamView>>) {
    if ts.len() == 0 {
        (None, None)
    } else {
        match command_of(ts[0]) {
            Some(p) => (Some(p), command_args(p, ts.drop_first())),
            None => (None, None),
        }
    }
}

/// Parsed arguments as plain values.
pub open spec fn args_view(o: Option<Vec<ParamVals>>) -> Option<Seq<ParamView>> {
    match o {
        Some(v) => Some(views(v@)),
        None => None,
    }
}

/// Parses tokens into a command and its arguments. The command is `None`
/// when no command matches; the arguments are `None` when they do not parse.
pub fn parse_query(params: Vec<String>) -> (r: (Option<ParamType>, Option<Vec<ParamVals>>))
    ensures
        (r.0, args_view(r.1)) == query_of(token_views(params@)),
{
    let ghost ts = token_views(params@);
    let n = params.len();
    if n < 1 {
        return (None, None);
    }
    let mut rest: Vec<String> = Vec::new();
    let mut i: usize = 1;
    while i < n
        invariant
            n == params@.len(),
            ts == token_views(params@),
            1 <= i <= n,
            rest@.len() == i - 1,
            token_views(rest@) == ts.subrange(1, i as int),
        decreases n - i,
    {
        let tok = params[i].clone();
        let ghost old_rest = rest@;
        rest.push(tok);
        proof {
            assert forall|k: int| 0 <= k < rest@.len() implies #[trigger] token_views(rest@)[k]
                == ts.subrange(1, i + 1)[k] by {
                if k < old_rest.len() {
                    assert(token_views(old_rest)[k] == ts.subrange(1, i as int)[k]);
                    assert(rest@[k] == old_rest[k]);
                }
            }
        }
        assert(token_views(rest@) =~= ts.subrange(1, i + 1));
        i = i + 1;
    }
    assert(ts.subrange(1, n as int) =~= ts.drop_first());
    let head = params[0].as_str();
    if starts_with(head, "add") {
        (Some(ParamType::AddSchedule), parse_schedule_pair(&rest))
    } else if starts_with(head, "remove") {
        (Some(ParamType::RemoveSchedule), parse_schedule_pair(&rest))
    } else if starts_with(head, "name") {
        (Some(ParamType::Name), parse_name(&rest))
    } else if starts_with(head, "timezone") {
        (Some(ParamType::TimeZone), parse_timezone(&rest))
    } else if starts_with(head, "view") {
        (Some(ParamType::ViewSchedule), parse_schedule_id(&rest))
    } else if starts_with(head, "available") {
        (Some(ParamType::Available), parse_schedule(&rest))
    } else if starts_with(head, "showtime") {
        (Some(ParamType::Meme), Some(Vec::new()))
    } else if starts_with(head, "help") {
        (Some(ParamType::Help), Some(Vec::new()))
    } else {
        (None, None)
    }
}

/// The tokens `from` to `to` joined into one string.
fn join_tokens(ts: &Vec<String>, from: usize, to: usize) -> (r: String)
    requires
        from <= to <= ts@.len(),
    ensures
        r@ == token_views(ts@).subrange(from as int, to as int).flatten(),
{
    let ghost tv = token_views(ts@);
    let mut out = String::new();
    let mut i = from;
    assert(tv.subrange(from as int, from as int) =~= Seq::<Seq<char>>::empty());
    while i < to
        invariant
            from <= i <= to <= ts@.len(),
            tv == token_views(ts@),
            out@ == tv.subrange(from as int, i as int).flatten(),
        decreases to - i,
    {
        out.append(ts[i].as_str());
        proof {
            tv.subrange(from as int, i as int).lemma_flatten_push(tv[i as int]);
            assert(tv.subrange(from as int, i + 1) =~= tv.subrange(from as int, i as int).push(
                tv[i as int],
            ));
        }
        i = i + 1;
    }
    out
}

/// Arguments of `name`.
fn parse_name(params: &Vec<String>) -> (r: Option<Vec<ParamVals>>)
    ensures
        args_view(r) == name_args(token_views(params@)),
{
    if params.len() > 0 {
        let name = join_tokens(params, 0, params.len());
        assert(token_views(params@).subrange(0, params@.len() as int) =~= token_views(params@));
        let v = vec![ParamVals::Name(name)];
        assert(views(v@) =~= name_args(token_views(params@))->0);
        Some(v)
    } else {
        let v: Vec<ParamVals> = Vec::new();
        assert(views(v@) =~= Seq::<ParamView>::empty());
        Some(v)
    }
}

/// Arguments of `view`.
fn parse_schedule_id(params: &Vec<String>) -> (r: Option<Vec<ParamVals>>)
    ensures
        args_view(r) == view_id_args(token_views(params@)),
{
    let n = params.len();
    if n > 4 {
        let mut id = join_tokens(params, 0, n - 4);
        let hash = "#";
        proof {
            reveal_strlit("#");
        }
        id.append(hash);
        let tag = join_tokens(params, n - 4, n);
        id.append(tag.as_str());
        assert(id@ =~= token_views(params@).subrange(0, n - 4).flatten() + seq!['#']
            + token_views(params@).subrange(n - 4, n as int).flatten());
        let v = vec![ParamVals::ViewId(id)];
        assert(views(v@) =~= view_id_args(token_views(params@))->0);
        Some(v)
    } else {
        let v: Vec<ParamVals> = Vec::new();
        assert(views(v@) =~= Seq::<ParamView>::empty());
        Some(v)
    }
}

/// The offset a time zone token gives, if it spells a decimal number.
fn parse_timezone_token(t: &str) -> (r: Option<i32>)
    ensures
        r == timezone_token(t@),
{
    let n = t.unicode_len();
    let start: usize = if n > 0 && (t.get_char(0) == '-' || t.get_char(0) == '+') {
        1
    } else {
        0
    };
    let ghost b = t@.subrange(start as int, n as int);
    assert(b =~= (if t@.len() > 0 && (t@[0] == '-' || t@[0] == '+') {
        t@.drop_first()
    } else {
        t@
    }));
    let mut i = start;
    let mut dots: usize = 0;
    let mut dot_at: usize = 0;
    let mut digits = false;
    while i < n
        invariant
            n == t@.len(),
            start <= i <= n,
            start <= 1,
            b == t@.subrange(start as int, n as int),
            b == (if t@.len() > 0 && (t@[0] == '-' || t@[0] == '+') {
                t@.drop_first()
            } else {
                t@
            }),
            dots <= 1,
            forall|k: int| start <= k < i ==> is_digit(#[trigger] t@[k]) || t@[k] == '.',
            dots == 0 ==> forall|k: int| start <= k < i ==> #[trigger] t@[k] != '.',
            dots == 1 ==> start <= dot_at < i && t@[dot_at as int] == '.',
            dots == 1 ==> forall|k: int| start <= k < i && k != dot_at ==> #[trigger] t@[k] != '.',
            digits <==> exists|k: int| start <= k < i && is_digit(#[trigger] t@[k]),
        decreases n - i,
    {
        let c = t.get_char(i);
        if c == '.' {
            if dots == 1 {
                assert(!decimal_text(b)) by {
                    assert(b[dot_at - start] == '.' && b[i - start] == '.');
                }
                return None;
            }
            dots = 1;
            dot_at = i;
        } else if '0' <= c && c <= '9' {
            digits = true;
        } else {
            assert(!decimal_text(b)) by {
                assert(b[i - start] == c);
            }
            return None;
        }
        i = i + 1;
    }
    if !digits {
        assert(!decimal_text(b)) by {
            if decimal_text(b) {
                let k = choose|k: int| 0 <= k < b.len() && is_digit(#[trigger] b[k]);
                assert(t@[k + start] == b[k]);
            }
        }
        return None;
    }
    assert(decimal_text(b)) by {
        assert forall|x: int| 0 <= x < b.len() implies is_digit(#[trigger] b[x]) || b[x] == '.' by {
            assert(b[x] == t@[x + start]);
        }
        assert forall|x: int, y: int| 0 <= x < y < b.len() implies !(#[trigger] b[x] == '.'
            && #[trigger] b[y] == '.') by {
            assert(b[x] == t@[x + start]);
            assert(b[y] == t@[y + start]);
        }
        let k = choose|k: int| start <= k < i && is_digit(#[trigger] t@[k]);
        assert(b[k - start] == t@[k]);
    }
    let mut j = start;
    while j < n && t.get_char(j) == '0'
        invariant
            n == t@.len(),
            start <= j <= n,
            b == t@.subrange(start as int, n as int),
            leading_digit(b) == leading_digit(t@.subrange(j as int, n as int)),
        decreases n - j,
    {
        assert(t@.subrange(j as int, n as int).drop_first() =~= t@.subrange(j + 1, n as int));
        j = j + 1;
    }
    let lead: i32 = if j < n && '1' <= t.get_char(j) && t.get_char(j) <= '9' {
        (t.get_char(j) as u32 - 48) as i32
    } else {
        0
    };
    assert(lead == leading_digit(b)) by {
        if j < n {
            assert(t@.subrange(j as int, n as int)[0] == t@[j as int]);
        }
    }
    if t.get_char(0) == '-' {
        Some(-lead)
    } else {
        Some(lead)
    }
}

/// Arguments of `timezone`.
fn parse_timezone(params: &Vec<String>) -> (r: Option<Vec<ParamVals>>)
    ensures
        args_view(r) == timezone_args(token_views(params@)),
{
    if params.len() > 0 {
        match parse_timezone_token(params[0].as_str()) {
            Some(offset) => {
                if offset > -24 && offset < 24 {
                    let v = vec![ParamVals::TimeZone(offset)];
                    assert(views(v@) =~= timezone_args(token_views(params@))->0);
                    Some(v)
                } else {
                    None
                }
            },
            None => None,
        }
    } else {
        let v: Vec<ParamVals> = Vec::new();
        assert(views(v@) =~= Seq::<ParamView>::empty());
        Some(v)
    }
}

/// Arguments of a schedule command.
fn parse_schedule(ts: &Vec<String>) -> (r: Option<Vec<ParamVals>>)
    ensures
        args_view(r) == schedule_args(token_views(ts@)),
{
    let ghost tv = token_views(ts@);
    let n = ts.len();
    if n == 0 {
        return None;
    }
    let first = ts[0].as_str();
    if starts_with(first, "weekday") {
        parse_time_selector(ts, 1, ParamVals::DayRange(Day::Mon, Day::Fri))
    } else if starts_with(first, "weekend") {
        parse_time_selector(ts, 1, ParamVals::DayRange(Day::Sat, Day::Sun))
    } else if starts_with(first, "from") && n > 1 && parse_day(ts[1].as_str()).is_some() {
        if n > 3 && same_text(ts[2].as_str(), "to") {
            match (parse_day(ts[1].as_str()), parse_day(ts[3].as_str())) {
                (Some(a), Some(b)) => parse_time_selector(ts, 4, ParamVals::DayRange(a, b)),
                _ => None,
            }
        } else {
            None
        }
    } else {
        match parse_day(first) {
            Some(d0) => {
                let mut days: Vec<Day> = Vec::new();
                days.push(d0);
                let mut i: usize = 1;
                assert(day_run_end(tv, 0) == day_run_end(tv, 1));
                loop
                    invariant
                        1 <= i <= n,
                        n == tv.len(),
                        tv == token_views(ts@),
                        days@ == days_of(tv, 0, i as int),
                        day_run_end(tv, 0) == day_run_end(tv, i as int),
                    ensures
                        1 <= i <= n,
                        days@ == days_of(tv, 0, i as int),
                        day_run_end(tv, 0) == i,
                    decreases n - i,
                {
                    if i >= n {
                        break;
                    }
                    assert(tv[i as int] == ts@[i as int]@);
                    match parse_day(ts[i].as_str()) {
                        Some(d) => {
                            days.push(d);
                            assert(days@ =~= days_of(tv, 0, i + 1));
                            i = i + 1;
                        },
                        None => {
                            break;
                        },
                    }
                }
                parse_time_selector(ts, i, ParamVals::DayCollection(days))
            },
            None => parse_time_selector(ts, 0, ParamVals::DayRange(Day::Sun, Day::Sat)),
        }
    }
}

/// Arguments of `add` and `remove`: a schedule with both a day and a time
/// argument.
fn parse_schedule_pair(ts: &Vec<String>) -> (r: Option<Vec<ParamVals>>)
    ensures
        args_view(r) == command_args(ParamType::AddSchedule, token_views(ts@)),
{
    match parse_schedule(ts) {
        Some(v) => if v.len() == 2 {
            Some(v)
        } else {
            None
        },
        None => None,
    }
}

/// The time selector that starts at token `i`, after the day argument.
fn parse_time_selector(ts: &Vec<String>, i: usize, days: ParamVals) -> (r: Option<Vec<ParamVals>>)
    requires
        i <= ts@.len(),
    ensures
        args_view(r) == time_selector(token_views(ts@), i as int, days@),
{
    let ghost tv = token_views(ts@);
    let n = ts.len();
    if i >= n {
        let v = vec![days];
        assert(views(v@) =~= seq![days@]);
        return Some(v);
    }
    if starts_with(ts[i].as_str(), "from") {
        if n - i > 3 && same_text(ts[i + 2].as_str(), "to") {
            match (parse_number(ts[i + 1].as_str()), parse_number(ts[i + 3].as_str())) {
                (Some(a), Some(b)) => {
                    if a < 24 && b < 24 {
                        let v = vec![days, ParamVals::TimeRange(a, b)];
                        assert(views(v@) =~= time_selector(tv, i as int, days@)->0);
                        Some(v)
                    } else {
                        None
                    }
                },
                _ => None,
            }
        } else {
            None
        }
    } else {
        match parse_number(ts[i].as_str()) {
            Some(t0) => {
                let mut times: Vec<u32> = Vec::new();
                times.push(t0);
                let mut j: usize = i + 1;
                assert(numbers_of(tv, i as int, i + 1) =~= seq![t0]);
                loop
                    invariant
                        i < j <= n,
                        n == tv.len(),
                        tv == token_views(ts@),
                        times@ == numbers_of(tv, i as int, j as int),
                        number_run_end(tv, i as int) == number_run_end(tv, j as int),
                    ensures
                        i < j <= n,
                        times@ == numbers_of(tv, i as int, j as int),
                        number_run_end(tv, i as int) == j,
                    decreases n - j,
                {
                    if j >= n {
                        break;
                    }
                    assert(tv[j as int] == ts@[j as int]@);
                    match parse_number(ts[j].as_str()) {
                        Some(t) => {
                            times.push(t);
                            assert(times@ =~= numbers_of(tv, i as int, j + 1));
                            j = j + 1;
                        },
                        None => {
                            break;
                        },
                    }
                }
                let v = vec![days, ParamVals::TimeCollection(times)];
                assert(views(v@) =~= time_selector(tv, i as int, days@)->0);
                Some(v)
            },
            None => None,
        }
    }
}

} // verus!
