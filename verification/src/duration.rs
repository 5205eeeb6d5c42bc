//! Countdown durations typed by the user: `45s`, `10m`, `1h30m`, `1H30`,
//! `01:30:00`.
use vstd::prelude::*;
use crate::clock::Span;
use crate::text::{
    all_digits, char_is_digit, chars_of, copy_range, decimal, digit_char, digit_value,
    digits_value, is_digit, is_space,
    lemma_split_on_nonempty, lower, lower_char, lower_chars, parse_u64, parse_unsigned, split_on,
    split_on_exec, string_of, trim, trim_chars, trim_end, trim_start, views,
};

verus! {

pub open spec fn u64_max() -> nat {
    u64::MAX as nat
}

// ---------------------------------------------------------------------------
// `HH:MM:SS`
// ---------------------------------------------------------------------------

/// The three numbers of `h:m:s`, each as `str::parse::<u64>` reads it.
pub open spec fn colon_fields(t: Seq<char>) -> Option<(nat, nat, nat)> {
    let parts = split_on(t, ':');
    if parts.len() != 3 {
        None
    } else {
        match (
            parse_unsigned(parts[0], u64_max()),
            parse_unsigned(parts[1], u64_max()),
            parse_unsigned(parts[2], u64_max()),
        ) {
            (Some(h), Some(m), Some(s)) => Some((h, m, s)),
            _ => None,
        }
    }
}

/// The seconds that `h:m:s` writes, with minutes and seconds under 60.
pub open spec fn colon_seconds(t: Seq<char>) -> Option<nat> {
    match colon_fields(t) {
        Some((h, m, s)) => if m < 60 && s < 60 {
            Some(h * 3600 + m * 60 + s)
        } else {
            None
        },
        None => None,
    }
}

// ---------------------------------------------------------------------------
// `1h30m45s`
// ---------------------------------------------------------------------------

/// Reading a unit-based duration: the digits since the last unit, the
/// seconds so far, and which of the units `h`, `m`, `s` were seen.
pub struct UnitsScan {
    pub number: Seq<char>,
    pub seconds: nat,
    pub seen_h: bool,
    pub seen_m: bool,
    pub seen_s: bool,
}

pub open spec fn unit_seconds(c: char) -> nat {
    if c == 'h' {
        3600
    } else if c == 'm' {
        60
    } else {
        1
    }
}

pub open spec fn unit_seen(st: UnitsScan, c: char) -> bool {
    if c == 'h' {
        st.seen_h
    } else if c == 'm' {
        st.seen_m
    } else {
        st.seen_s
    }
}

/// One character: a digit extends the number; `h`, `m` or `s` (each at most
/// once, after a number) adds the number times the unit, failing where the
/// number or the total exceeds `u64`; anything else fails.
pub open spec fn units_step(st: UnitsScan, c: char) -> Option<UnitsScan> {
    if is_digit(c) {
        Some(UnitsScan { number: st.number.push(c), ..st })
    } else if c != 'h' && c != 'm' && c != 's' {
        None
    } else if unit_seen(st, c) || st.number.len() == 0 {
        None
    } else {
        let v = digits_value(st.number);
        let add = v * unit_seconds(c);
        if v > u64_max() || add > u64_max() || st.seconds + add > u64_max() {
            None
        } else {
            Some(
                UnitsScan {
                    number: seq![],
                    seconds: st.seconds + add,
                    seen_h: st.seen_h || c == 'h',
                    seen_m: st.seen_m || c == 'm',
                    seen_s: st.seen_s || c == 's',
                },
            )
        }
    }
}

pub open spec fn units_scan(s: Seq<char>) -> Option<UnitsScan>
    decreases s.len(),
{
    if s.len() == 0 {
        Some(UnitsScan { number: seq![], seconds: 0, seen_h: false, seen_m: false, seen_s: false })
    } else {
        match units_scan(s.drop_last()) {
            Some(st) => units_step(st, s.last()),
            None => None,
        }
    }
}

/// The seconds that a unit-based duration writes (case-insensitive).
pub open spec fn units_seconds(t: Seq<char>) -> Option<nat> {
    match units_scan(lower(t)) {
        Some(st) => if st.number.len() == 0 && (st.seen_h || st.seen_m || st.seen_s) {
            Some(st.seconds)
        } else {
            None
        },
        None => None,
    }
}

// ---------------------------------------------------------------------------
// `1H30`
// ---------------------------------------------------------------------------

/// `str::split_once(c)`: the text before and after the first `c`.
pub open spec fn split_once(s: Seq<char>, c: char) -> Option<(Seq<char>, Seq<char>)>
    decreases s.len(),
{
    if s.len() == 0 {
        None
    } else if s[0] == c {
        Some((seq![], s.drop_first()))
    } else {
        match split_once(s.drop_first(), c) {
            Some((a, b)) => Some((seq![s[0]] + a, b)),
            None => None,
        }
    }
}

/// The hours and minutes of `<hours>h<minutes>` (case-insensitive), with one
/// or two characters of minutes. (Counting characters rather than bytes
/// changes nothing: a non-ASCII character fails the number anyway.)
pub open spec fn compact_fields(t: Seq<char>) -> Option<(nat, nat)> {
    match split_once(lower(t), 'h') {
        Some((hours, minutes)) => if hours.len() == 0 || minutes.len() == 0 || minutes.len() > 2 {
            None
        } else {
            match (parse_unsigned(hours, u64_max()), parse_unsigned(minutes, u64_max())) {
                (Some(h), Some(m)) => Some((h, m)),
                _ => None,
            }
        },
        None => None,
    }
}

pub open spec fn compact_seconds(t: Seq<char>) -> Option<nat> {
    match compact_fields(t) {
        Some((h, m)) => if m < 60 {
            Some(h * 3600 + m * 60)
        } else {
            None
        },
        None => None,
    }
}

// ---------------------------------------------------------------------------
// The whole duration
// ---------------------------------------------------------------------------

/// The seconds that a number without a unit writes (`str::parse::<u64>`).
pub open spec fn bare_seconds(t: Seq<char>) -> Option<nat> {
    parse_unsigned(t, u64_max())
}

/// The seconds that the trimmed input `t` writes: as `h:m:s`, else with
/// units, else as `<hours>h<minutes>`, else as a number of seconds.
pub open spec fn written_seconds(t: Seq<char>) -> Option<nat> {
    match colon_seconds(t) {
        Some(v) => Some(v),
        None => match units_seconds(t) {
            Some(v) => Some(v),
            None => match compact_seconds(t) {
                Some(v) => Some(v),
                None => bare_seconds(t),
            },
        },
    }
}

/// The countdown, in seconds, that `input` asks for: a positive number of
/// seconds, at most `u64::MAX`, written in one of the accepted forms, after
/// trimming.
pub open spec fn duration_seconds(input: Seq<char>) -> Option<nat> {
    match written_seconds(trim(input)) {
        Some(v) => if 0 < v <= u64_max() {
            Some(v)
        } else {
            None
        },
        None => None,
    }
}

/// Why a duration was refused: it is not one of the accepted forms, or it is
/// zero.
#[derive(Clone, Debug, PartialEq, Eq)]
pub struct DurationParseError {
    input: String,
}

impl View for DurationParseError {
    type V = Seq<char>;

    closed spec fn view(&self) -> Seq<char> {
        self.input@
    }
}

impl DurationParseError {
    /// The refused input, trimmed.
    pub fn input(&self) -> (r: String)
        ensures
            r@ == self@,
    {
        self.input.clone()
    }
}

} // verus!

verus! {

fn colon_fields_exec(t: &Vec<char>) -> (r: Option<(u64, u64, u64)>)
    ensures
        r matches Some((h, m, s)) ==> colon_fields(t@) == Some((h as nat, m as nat, s as nat)),
        r is None ==> colon_fields(t@) is None,
{
    let parts = split_on_exec(t, ':');
    if parts.len() != 3 {
        return None;
    }
    assert(views(parts@)[0] == parts@[0]@ && views(parts@)[1] == parts@[1]@ && views(parts@)[2]
        == parts@[2]@);
    let h = match parse_u64(&parts[0]) {
        Some(v) => v,
        None => return None,
    };
    let m = match parse_u64(&parts[1]) {
        Some(v) => v,
        None => return None,
    };
    let s = match parse_u64(&parts[2]) {
        Some(v) => v,
        None => return None,
    };
    Some((h, m, s))
}

proof fn lemma_units_scan_prefix_fails(s: Seq<char>, k: int)
    requires
        0 <= k <= s.len(),
        units_scan(s.take(k)) is None,
    ensures
        units_scan(s) is None,
    decreases s.len() - k,
{
    if k < s.len() {
        assert(s.take(k + 1).drop_last() =~= s.take(k));
        lemma_units_scan_prefix_fails(s, k + 1);
    } else {
        assert(s.take(k) =~= s);
    }
}

fn units_seconds_exec(t: &Vec<char>) -> (r: Option<u64>)
    ensures
        r matches Some(v) ==> units_seconds(t@) == Some(v as nat),
        r is None ==> units_seconds(t@) is None,
{
    let l = lower_chars(t);
    let mut number: Vec<char> = Vec::new();
    let mut seconds: u64 = 0;
    let mut seen_h = false;
    let mut seen_m = false;
    let mut seen_s = false;
    let mut i: usize = 0;
    while i < l.len()
        invariant
            i <= l.len(),
            l@ == lower(t@),
            crate::text::all_digits(number@),
            units_scan(l@.take(i as int)) == Some(
                UnitsScan { number: number@, seconds: seconds as nat, seen_h, seen_m, seen_s },
            ),
        decreases l.len() - i,
    {
        assert(l@.take(i + 1).drop_last() =~= l@.take(i as int));
        assert(l@.take(i + 1).last() == l@[i as int]);
        let c = l[i];
        if char_is_digit(c) {
            number.push(c);
        } else {
            let index: u8 = if c == 'h' {
                0
            } else if c == 'm' {
                1
            } else if c == 's' {
                2
            } else {
                proof {
                    lemma_units_scan_prefix_fails(l@, i + 1);
                }
                return None;
            };
            let seen = if index == 0 {
                seen_h
            } else if index == 1 {
                seen_m
            } else {
                seen_s
            };
            if seen || number.len() == 0 {
                proof {
                    lemma_units_scan_prefix_fails(l@, i + 1);
                }
                return None;
            }
            if index == 0 {
                seen_h = true;
            } else if index == 1 {
                seen_m = true;
            } else {
                seen_s = true;
            }
            assert(number@[0] != '+') by {
                assert(is_digit(number@[0]));
            }
            let value = match parse_u64(&number) {
                Some(v) => v,
                None => {
                    proof {
                        lemma_units_scan_prefix_fails(l@, i + 1);
                    }
                    return None;
                },
            };
            let unit: u64 = if index == 0 {
                3600
            } else if index == 1 {
                60
            } else {
                1
            };
            let add = match value.checked_mul(unit) {
                Some(a) => a,
                None => {
                    proof {
                        lemma_units_scan_prefix_fails(l@, i + 1);
                    }
                    return None;
                },
            };
            seconds = match seconds.checked_add(add) {
                Some(s) => s,
                None => {
                    proof {
                        lemma_units_scan_prefix_fails(l@, i + 1);
                    }
                    return None;
                },
            };
            number = Vec::new();
        }
        i += 1;
    }
    assert(l@.take(l@.len() as int) =~= l@);
    if number.len() == 0 && (seen_h || seen_m || seen_s) {
        Some(seconds)
    } else {
        None
    }
}

proof fn lemma_split_once(s: Seq<char>, c: char, i: int)
    requires
        0 <= i <= s.len(),
        forall|k: int| 0 <= k < i ==> s[k] != c,
    ensures
        i < s.len() && s[i] == c ==> split_once(s, c) == Some((s.take(i), s.skip(i + 1))),
        i == s.len() ==> split_once(s, c) is None,
    decreases i,
{
    if i > 0 {
        lemma_split_once(s.drop_first(), c, i - 1);
        assert(seq![s[0]] + s.drop_first().take(i - 1) =~= s.take(i));
        if i < s.len() {
            assert(s.drop_first().skip(i) =~= s.skip(i + 1));
        }
    } else if s.len() > 0 {
        assert(s.take(0) =~= Seq::<char>::empty());
        assert(s.drop_first() =~= s.skip(1));
    }
}

fn compact_fields_exec(t: &Vec<char>) -> (r: Option<(u64, u64)>)
    ensures
        r matches Some((h, m)) ==> compact_fields(t@) == Some((h as nat, m as nat)),
        r is None ==> compact_fields(t@) is None,
{
    let l = lower_chars(t);
    let mut i: usize = 0;
    while i < l.len() && l[i] != 'h'
        invariant
            i <= l.len(),
            forall|k: int| 0 <= k < i ==> l@[k] != 'h',
        decreases l.len() - i,
    {
        i += 1;
    }
    proof {
        lemma_split_once(l@, 'h', i as int);
    }
    if i == l.len() {
        return None;
    }
    let hours = copy_range(&l, 0, i);
    let minutes = copy_range(&l, i + 1, l.len());
    assert(hours@ =~= l@.take(i as int));
    assert(minutes@ =~= l@.skip(i + 1));
    if hours.len() == 0 || minutes.len() == 0 || minutes.len() > 2 {
        return None;
    }
    let h = match parse_u64(&hours) {
        Some(v) => v,
        None => return None,
    };
    let m = match parse_u64(&minutes) {
        Some(v) => v,
        None => return None,
    };
    Some((h, m))
}

/// The seconds that `t` writes, where they fit `u64`.
fn written_seconds_exec(t: &Vec<char>) -> (r: Option<u64>)
    ensures
        r matches Some(v) ==> written_seconds(t@) == Some(v as nat),
        r is None ==> match written_seconds(t@) {
            Some(v) => v > u64_max(),
            None => true,
        },
{
    match colon_fields_exec(t) {
        Some((h, m, s)) => if m < 60 && s < 60 {
            let total: u128 = (h as u128) * 3600 + (m as u128) * 60 + (s as u128);
            if total > (u64::MAX as u128) {
                return None;
            }
            return Some(total as u64);
        },
        None => {},
    }
    match units_seconds_exec(t) {
        Some(v) => return Some(v),
        None => {},
    }
    match compact_fields_exec(t) {
        Some((h, m)) => if m < 60 {
            let total: u128 = (h as u128) * 3600 + (m as u128) * 60;
            if total > (u64::MAX as u128) {
                return None;
            }
            return Some(total as u64);
        },
        None => {},
    }
    parse_u64(t)
}

/// The countdown that `input` asks for (see `duration_seconds`), or the
/// trimmed input as the error.
pub fn parse_duration(input: &str) -> (r: Result<Span, DurationParseError>)
    ensures
        match duration_seconds(input@) {
            Some(v) => r matches Ok(s) && s@ == v * 1_000_000_000,
            None => r matches Err(e) && e@ == trim(input@),
        },
{
    let t = trim_chars(&chars_of(input));
    match written_seconds_exec(&t) {
        Some(v) => if v > 0 {
            return Ok(Span::from_secs(v));
        },
        None => {},
    }
    Err(DurationParseError { input: string_of(t.as_slice()) })
}

} // verus!

verus! {

proof fn lemma_lower_char(c: char)
    ensures
        lower_char(lower_char(c)) == lower_char(c),
        is_space(lower_char(c)) == is_space(c),
        is_digit(lower_char(c)) == is_digit(c),
        is_digit(c) ==> lower_char(c) == c,
        (lower_char(c) == ':') == (c == ':'),
        (lower_char(c) == '+') == (c == '+'),
{
}

proof fn lemma_lower_idempotent(s: Seq<char>)
    ensures
        lower(lower(s)) == lower(s),
{
    assert forall|i: int| 0 <= i < s.len() implies #[trigger] lower(lower(s))[i] == lower(s)[i] by {
        lemma_lower_char(s[i]);
    }
    assert(lower(lower(s)) =~= lower(s));
}

proof fn lemma_lower_drop_first(s: Seq<char>)
    requires
        s.len() > 0,
    ensures
        lower(s).drop_first() == lower(s.drop_first()),
        lower(s)[0] == lower_char(s[0]),
{
    assert(lower(s).drop_first() =~= lower(s.drop_first()));
}

proof fn lemma_lower_drop_last(s: Seq<char>)
    requires
        s.len() > 0,
    ensures
        lower(s).drop_last() == lower(s.drop_last()),
        lower(s).last() == lower_char(s.last()),
{
    assert(lower(s).drop_last() =~= lower(s.drop_last()));
}

proof fn lemma_trim_start_lower(s: Seq<char>)
    ensures
        trim_start(lower(s)) == lower(trim_start(s)),
    decreases s.len(),
{
    if s.len() > 0 {
        lemma_lower_drop_first(s);
        lemma_lower_char(s[0]);
        lemma_trim_start_lower(s.drop_first());
    }
}

proof fn lemma_trim_end_lower(s: Seq<char>)
    ensures
        trim_end(lower(s)) == lower(trim_end(s)),
    decreases s.len(),
{
    if s.len() > 0 {
        lemma_lower_drop_last(s);
        lemma_lower_char(s.last());
        lemma_trim_end_lower(s.drop_last());
    }
}

proof fn lemma_split_on_lower(s: Seq<char>)
    ensures
        split_on(lower(s), ':') == split_on(s, ':').map_values(|p: Seq<char>| lower(p)),
    decreases s.len(),
{
    if s.len() == 0 {
        assert(lower(s) =~= s);
        assert(split_on(s, ':').map_values(|p: Seq<char>| lower(p)) =~= seq![lower(seq![])]);
        assert(lower(seq![]) =~= Seq::<char>::empty());
    } else {
        lemma_lower_drop_last(s);
        lemma_lower_char(s.last());
        lemma_split_on_lower(s.drop_last());
        let parts = split_on(s.drop_last(), ':');
        lemma_split_on_nonempty(s.drop_last(), ':');
        if s.last() == ':' {
            assert(lower(seq![]) =~= Seq::<char>::empty());
            assert(parts.push(seq![]).map_values(|p: Seq<char>| lower(p)) =~= parts.map_values(
                |p: Seq<char>| lower(p),
            ).push(seq![]));
        } else {
            let lp = parts.map_values(|p: Seq<char>| lower(p));
            assert(lower(parts.last().push(s.last())) =~= lp.last().push(lower_char(s.last())));
            assert(parts.update(parts.len() - 1, parts.last().push(s.last())).map_values(
                |p: Seq<char>| lower(p),
            ) =~= lp.update(lp.len() - 1, lp.last().push(lower_char(s.last()))));
        }
    }
}

proof fn lemma_parse_unsigned_lower(p: Seq<char>, max: nat)
    ensures
        parse_unsigned(lower(p), max) == parse_unsigned(p, max),
{
    let body = if p.len() > 0 && p[0] == '+' {
        p.drop_first()
    } else {
        p
    };
    if p.len() > 0 {
        lemma_lower_drop_first(p);
        lemma_lower_char(p[0]);
    }
    let lbody = if lower(p).len() > 0 && lower(p)[0] == '+' {
        lower(p).drop_first()
    } else {
        lower(p)
    };
    assert(lbody == lower(body));
    assert forall|i: int| 0 <= i < body.len() implies is_digit(#[trigger] lower(body)[i])
        == is_digit(body[i]) by {
        lemma_lower_char(body[i]);
    }
    if all_digits(body) {
        assert forall|i: int| 0 <= i < body.len() implies #[trigger] lower(body)[i] == body[i] by {
            lemma_lower_char(body[i]);
        }
        assert(lower(body) =~= body);
    }
    if all_digits(lower(body)) {
        assert forall|i: int| 0 <= i < body.len() implies is_digit(#[trigger] body[i]) by {
            assert(is_digit(lower(body)[i]));
        }
    }
}

proof fn lemma_colon_seconds_lower(t: Seq<char>)
    ensures
        colon_seconds(lower(t)) == colon_seconds(t),
{
    lemma_split_on_lower(t);
    let parts = split_on(t, ':');
    if parts.len() == 3 {
        lemma_parse_unsigned_lower(parts[0], u64_max());
        lemma_parse_unsigned_lower(parts[1], u64_max());
        lemma_parse_unsigned_lower(parts[2], u64_max());
    }
}

proof fn lemma_written_lower(t: Seq<char>)
    ensures
        written_seconds(lower(t)) == written_seconds(t),
{
    lemma_colon_seconds_lower(t);
    lemma_lower_idempotent(t);
    lemma_parse_unsigned_lower(t, u64_max());
}

/// `str::to_ascii_uppercase` of one character.
pub open spec fn upper_char(c: char) -> char {
    if 'a' <= c && c <= 'z' {
        ((c as u32) - 32) as char
    } else {
        c
    }
}

/// `str::to_ascii_uppercase`.
pub open spec fn upper(s: Seq<char>) -> Seq<char> {
    s.map_values(|c: char| upper_char(c))
}

proof fn lemma_upper_char(c: char)
    ensures
        lower_char(upper_char(c)) == lower_char(c),
        is_space(upper_char(c)) == is_space(c),
{
}

proof fn lemma_lower_upper(s: Seq<char>)
    ensures
        lower(upper(s)) == lower(s),
{
    assert forall|i: int| 0 <= i < s.len() implies #[trigger] lower(upper(s))[i] == lower(s)[i] by {
        lemma_upper_char(s[i]);
    }
    assert(lower(upper(s)) =~= lower(s));
}

proof fn lemma_trim_start_upper(s: Seq<char>)
    ensures
        trim_start(upper(s)) == upper(trim_start(s)),
    decreases s.len(),
{
    if s.len() > 0 {
        assert(upper(s).drop_first() =~= upper(s.drop_first()));
        lemma_upper_char(s[0]);
        lemma_trim_start_upper(s.drop_first());
    }
}

proof fn lemma_trim_end_upper(s: Seq<char>)
    ensures
        trim_end(upper(s)) == upper(trim_end(s)),
    decreases s.len(),
{
    if s.len() > 0 {
        assert(upper(s).drop_last() =~= upper(s.drop_last()));
        lemma_upper_char(s.last());
        lemma_trim_end_upper(s.drop_last());
    }
}

proof fn lemma_trim_start_result(s: Seq<char>)
    ensures
        trim_start(s).len() == 0 || !is_space(trim_start(s)[0]),
        trim_start(trim_start(s)) == trim_start(s),
    decreases s.len(),
{
    if s.len() > 0 && is_space(s[0]) {
        lemma_trim_start_result(s.drop_first());
    }
}

proof fn lemma_trim_end_result(s: Seq<char>)
    ensures
        trim_end(s).len() <= s.len(),
        trim_end(s) == s.take(trim_end(s).len() as int),
        trim_end(trim_end(s)) == trim_end(s),
    decreases s.len(),
{
    if s.len() > 0 && is_space(s.last()) {
        lemma_trim_end_result(s.drop_last());
        assert(s.drop_last().take(trim_end(s).len() as int) =~= s.take(trim_end(s).len() as int));
    } else {
        assert(s.take(s.len() as int) =~= s);
    }
}

proof fn lemma_trim_idempotent(s: Seq<char>)
    ensures
        trim(trim(s)) == trim(s),
{
    let x = trim_start(s);
    lemma_trim_start_result(s);
    lemma_trim_end_result(x);
    let y = trim_end(x);
    if y.len() > 0 {
        assert(y[0] == x[0]);
    }
    assert(trim_start(y) == y);
}

/// Durations are read without regard to ASCII case or to white space around
/// them: lower-casing, upper-casing or trimming the input changes neither
/// what it asks for nor whether it is refused.
pub proof fn law_duration_case_insensitive(input: Seq<char>)
    ensures
        duration_seconds(lower(input)) == duration_seconds(input),
        duration_seconds(upper(input)) == duration_seconds(input),
        duration_seconds(trim(input)) == duration_seconds(input),
{
    lemma_trim_start_lower(input);
    lemma_trim_end_lower(trim_start(input));
    let t = trim(input);
    assert(trim(lower(input)) == lower(t));
    lemma_written_lower(t);
    lemma_trim_start_upper(input);
    lemma_trim_end_upper(trim_start(input));
    assert(trim(upper(input)) == upper(t));
    lemma_written_lower(upper(t));
    lemma_lower_upper(t);
    lemma_trim_idempotent(input);
}

} // verus!

verus! {

proof fn lemma_decimal_reads_back(n: nat)
    ensures
        decimal(n).len() >= 1,
        all_digits(decimal(n)),
        digits_value(decimal(n)) == n,
    decreases n,
{
    let d = (n % 10) as nat;
    assert(is_digit(digit_char(d)) && digit_value(digit_char(d)) == d);
    if n < 10 {
        assert(d == n);
        assert(decimal(n) == seq![digit_char(n)]);
        assert(decimal(n).drop_last() =~= Seq::<char>::empty());
        assert(digits_value(Seq::<char>::empty()) == 0);
        assert(decimal(n).last() == digit_char(n));
    } else {
        lemma_decimal_reads_back(n / 10);
        let s = decimal(n);
        assert(s.drop_last() =~= decimal(n / 10));
        assert(s.last() == digit_char(d));
        assert(digits_value(s) == (n / 10) * 10 + d);
        assert((n / 10) * 10 + n % 10 == n);
        assert forall|i: int| 0 <= i < s.len() implies is_digit(#[trigger] s[i]) by {
            if i < s.len() - 1 {
                assert(s[i] == decimal(n / 10)[i]);
            }
        }
    }
}

proof fn lemma_parse_decimal(n: nat)
    requires
        n <= u64_max(),
    ensures
        parse_unsigned(decimal(n), u64_max()) == Some(n),
{
    lemma_decimal_reads_back(n);
    assert(is_digit(decimal(n)[0]));
}

proof fn lemma_split_on_plain(x: Seq<char>, y: Seq<char>, c: char)
    requires
        forall|i: int| 0 <= i < y.len() ==> y[i] != c,
    ensures
        split_on(x + y, c) == split_on(x, c).update(
            split_on(x, c).len() - 1,
            split_on(x, c).last() + y,
        ),
    decreases y.len(),
{
    lemma_split_on_nonempty(x, c);
    if y.len() == 0 {
        assert(x + y =~= x);
        assert(split_on(x, c).last() + y =~= split_on(x, c).last());
        assert(split_on(x, c).update(split_on(x, c).len() - 1, split_on(x, c).last())
            =~= split_on(x, c));
    } else {
        let y0 = y.drop_last();
        lemma_split_on_plain(x, y0, c);
        assert((x + y).drop_last() =~= x + y0);
        assert((x + y).last() == y.last());
        let p = split_on(x, c);
        let q = p.update(p.len() - 1, p.last() + y0);
        assert(q.last() == p.last() + y0);
        assert((p.last() + y0).push(y.last()) =~= p.last() + y);
        assert(q.update(q.len() - 1, q.last().push(y.last())) =~= p.update(
            p.len() - 1,
            p.last() + y,
        ));
    }
}

proof fn lemma_split_three(a: Seq<char>, b: Seq<char>, d: Seq<char>, c: char)
    requires
        forall|i: int| 0 <= i < a.len() ==> a[i] != c,
        forall|i: int| 0 <= i < b.len() ==> b[i] != c,
        forall|i: int| 0 <= i < d.len() ==> d[i] != c,
    ensures
        split_on(a + seq![c] + b + seq![c] + d, c) == seq![a, b, d],
{
    let e = Seq::<char>::empty();
    lemma_split_on_plain(e, a, c);
    assert(e + a =~= a);
    assert(split_on(e, c) =~= seq![e]);
    assert(split_on(a, c) =~= seq![a]);
    let s1 = a.push(c);
    assert(s1.drop_last() =~= a);
    assert(split_on(s1, c) =~= seq![a, e]);
    lemma_split_on_plain(s1, b, c);
    assert(e + b =~= b);
    let s2 = s1 + b;
    assert(split_on(s2, c) =~= seq![a, b]);
    let s3 = s2.push(c);
    assert(s3.drop_last() =~= s2);
    assert(split_on(s3, c) =~= seq![a, b, e]);
    lemma_split_on_plain(s3, d, c);
    assert(e + d =~= d);
    assert(a + seq![c] + b + seq![c] + d =~= s3 + d);
    assert(split_on(s3 + d, c) =~= seq![a, b, d]);
}

/// A clock duration `h:m:s` (minutes and seconds under 60) asks for `h` hours,
/// `m` minutes and `s` seconds: `h * 3600 + m * 60 + s` seconds, where that is
/// positive and within `u64`.
pub proof fn law_clock_duration_is_hours_minutes_seconds(h: nat, m: nat, s: nat)
    requires
        m < 60,
        s < 60,
        0 < h * 3600 + m * 60 + s <= u64_max(),
    ensures
        duration_seconds(decimal(h) + ":"@ + decimal(m) + ":"@ + decimal(s)) == Some(
            h * 3600 + m * 60 + s,
        ),
{
    reveal_strlit(":");
    lemma_decimal_reads_back(h);
    lemma_decimal_reads_back(m);
    lemma_decimal_reads_back(s);
    let (a, b, d) = (decimal(h), decimal(m), decimal(s));
    assert forall|i: int| 0 <= i < a.len() implies a[i] != ':' by {
        assert(is_digit(a[i]));
    }
    assert forall|i: int| 0 <= i < b.len() implies b[i] != ':' by {
        assert(is_digit(b[i]));
    }
    assert forall|i: int| 0 <= i < d.len() implies d[i] != ':' by {
        assert(is_digit(d[i]));
    }
    let t = a + ":"@ + b + ":"@ + d;
    assert(t =~= a + seq![':'] + b + seq![':'] + d);
    lemma_split_three(a, b, d, ':');
    assert(t[0] == a[0] && is_digit(a[0]));
    assert(t.last() == d.last() && is_digit(d[d.len() - 1]));
    assert(trim_start(t) == t);
    assert(trim_end(t) == t);
    lemma_parse_decimal(h);
    lemma_parse_decimal(m);
    lemma_parse_decimal(s);
    assert(colon_fields(t) == Some((h, m, s)));
}

} // verus!
