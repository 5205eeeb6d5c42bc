//! Finding explicit alarm times in free text.
use vstd::prelude::*;
use vstd::utf8::{encode_scalar, encode_utf8};
use regex::Regex;
use std::collections::HashSet;
use crate::calendar::{instant, valid_zoned, ZonedTime, ZonedView};
use crate::schedule::{direct_resolution, parse_direct_in, Candidate, CandidateView, ScheduleError};
use crate::audio::contains;
use crate::schedule::month_number;
use crate::text::{chars_of, copy_range, ends_with, ends_with_exec, occurs_at, string_of, trim};
use crate::zone::{zone_is_known, zone_utc_offset, Zone};

verus! {

// ---------------------------------------------------------------------------
// Patterns
// ---------------------------------------------------------------------------

/// The byte ranges `(start, end)` of the successive matches of the regular
/// expression `pattern` in `text` (`Regex::find_iter`), or `None` where the
/// pattern does not compile.
pub uninterp spec fn regex_spans(pattern: Seq<char>, text: Seq<char>) -> Option<Seq<(usize, usize)>>;

/// `Regex::new(pattern)` and `Regex::find_iter(text)`, each match taken as its
/// byte range. Claims only that the result is the named function of the
/// pattern and the text.
#[verifier::external_body]
fn find_spans(pattern: &str, text: &str) -> (r: Option<Vec<(usize, usize)>>)
    ensures
        r matches Some(v) ==> regex_spans(pattern@, text@) == Some(v@),
        r is None ==> regex_spans(pattern@, text@) is None,
{
    let re = Regex::new(pattern).ok()?;
    Some(re.find_iter(text).map(|m| (m.start(), m.end())).collect())
}

/// The number of patterns that find candidate times.
pub const PATTERN_COUNT: usize = 4;

/// The patterns that find candidate times, in the order they are tried:
/// `today`/`tomorrow` with a time, a month and day with a time, a
/// twelve-hour time, and a twenty-four-hour time.
pub open spec fn candidate_pattern(k: int) -> Seq<char> {
    if k == 0 {
        "(?i)\\b(?:today|tomorrow)\\s+(?:at\\s+)?(?:(?:1[0-2]|0?[1-9])(?::[0-5]\\d)?\\s*(?:a\\.?m\\.?|p\\.?m\\.?)|(?:[01]?\\d|2[0-3]):[0-5]\\d)\\b"@
    } else if k == 1 {
        "(?i)\\b(?:january|february|march|april|may|june|july|august|september|october|november|december)\\s+\\d{1,2}\\s+(?:at\\s+)?(?:(?:1[0-2]|0?[1-9])(?::[0-5]\\d)?\\s*(?:a\\.?m\\.?|p\\.?m\\.?)|(?:[01]?\\d|2[0-3]):[0-5]\\d)\\b"@
    } else if k == 2 {
        "(?i)\\b(?:1[0-2]|0?[1-9])(?::[0-5]\\d)?\\s*(?:a\\.?m\\.?|p\\.?m\\.?)\\b"@
    } else {
        "(?i)\\b(?:[01]?\\d|2[0-3]):[0-5]\\d\\b"@
    }
}

fn candidate_pattern_exec(k: usize) -> (r: &'static str)
    ensures
        r@ == candidate_pattern(k as int),
{
    if k == 0 {
        "(?i)\\b(?:today|tomorrow)\\s+(?:at\\s+)?(?:(?:1[0-2]|0?[1-9])(?::[0-5]\\d)?\\s*(?:a\\.?m\\.?|p\\.?m\\.?)|(?:[01]?\\d|2[0-3]):[0-5]\\d)\\b"
    } else if k == 1 {
        "(?i)\\b(?:january|february|march|april|may|june|july|august|september|october|november|december)\\s+\\d{1,2}\\s+(?:at\\s+)?(?:(?:1[0-2]|0?[1-9])(?::[0-5]\\d)?\\s*(?:a\\.?m\\.?|p\\.?m\\.?)|(?:[01]?\\d|2[0-3]):[0-5]\\d)\\b"
    } else if k == 2 {
        "(?i)\\b(?:1[0-2]|0?[1-9])(?::[0-5]\\d)?\\s*(?:a\\.?m\\.?|p\\.?m\\.?)\\b"
    } else {
        "(?i)\\b(?:[01]?\\d|2[0-3]):[0-5]\\d\\b"
    }
}

/// The matches of pattern `k`, none where it does not compile.
pub open spec fn pattern_spans(text: Seq<char>, k: int) -> Seq<(usize, usize)> {
    match regex_spans(candidate_pattern(k), text) {
        Some(s) => s,
        None => seq![],
    }
}

/// The matches of the first `k` patterns, pattern by pattern.
pub open spec fn spans_before(text: Seq<char>, k: int) -> Seq<(usize, usize)>
    decreases k,
{
    if k <= 0 {
        seq![]
    } else {
        spans_before(text, k - 1) + pattern_spans(text, k - 1)
    }
}

// ---------------------------------------------------------------------------
// Byte offsets and character positions
// ---------------------------------------------------------------------------

/// Where character `k` of `s` begins in its UTF-8 encoding.
pub open spec fn byte_offset(s: Seq<char>, k: int) -> int {
    encode_utf8(s.take(k)).len() as int
}

/// The first position, from `k` on, of a character of `s` that begins at
/// byte `b` (the end of `s` counting as a position).
pub open spec fn char_position_from(s: Seq<char>, b: int, k: int) -> Option<int>
    decreases s.len() + 1 - k,
{
    if k < 0 || k > s.len() {
        None
    } else if byte_offset(s, k) == b {
        Some(k)
    } else {
        char_position_from(s, b, k + 1)
    }
}

/// The position of the character of `s` that begins at byte `b`.
pub open spec fn char_position(s: Seq<char>, b: int) -> Option<int> {
    char_position_from(s, b, 0)
}

pub proof fn lemma_encode_concat(a: Seq<char>, b: Seq<char>)
    ensures
        encode_utf8(a + b) == encode_utf8(a) + encode_utf8(b),
    decreases a.len(),
{
    if a.len() == 0 {
        assert(a + b =~= b);
        assert(encode_utf8(a) + encode_utf8(b) =~= encode_utf8(b));
    } else {
        lemma_encode_concat(a.drop_first(), b);
        assert((a + b).drop_first() =~= a.drop_first() + b);
        assert(encode_utf8(a + b) =~= encode_utf8(a) + encode_utf8(b));
    }
}

proof fn lemma_byte_offset_step(s: Seq<char>, k: int)
    requires
        0 <= k < s.len(),
    ensures
        byte_offset(s, k + 1) == byte_offset(s, k) + encode_scalar(s[k] as u32).len(),
{
    assert(s.take(k + 1) =~= s.take(k) + seq![s[k]]);
    lemma_encode_concat(s.take(k), seq![s[k]]);
    assert(seq![s[k]].drop_first() =~= Seq::<char>::empty());
    assert(encode_utf8(Seq::<char>::empty()) =~= Seq::<u8>::empty());
    assert(encode_utf8(seq![s[k]]) =~= encode_scalar(s[k] as u32));
}

/// The length of the UTF-8 encoding of `c` (`char::len_utf8`).
fn utf8_width(c: char) -> (r: u128)
    ensures
        r == encode_scalar(c as u32).len(),
{
    let u = c as u32;
    if u <= 0x7F {
        1
    } else if u <= 0x7FF {
        2
    } else if u <= 0xFFFF {
        proof {
            vstd::utf8::char_is_scalar(c);
        }
        3
    } else {
        proof {
            vstd::utf8::char_is_scalar(c);
        }
        4
    }
}

/// The byte offsets of all character positions of `s`, its end included.
fn byte_offsets(s: &Vec<char>) -> (r: Vec<u128>)
    ensures
        r@.len() == s@.len() + 1,
        forall|k: int| 0 <= k <= s@.len() ==> r@[k] == byte_offset(s@, k),
{
    let mut r: Vec<u128> = Vec::new();
    r.push(0);
    assert(s@.take(0) =~= Seq::<char>::empty());
    let mut k: usize = 0;
    while k < s.len()
        invariant
            k <= s.len(),
            r@.len() == k + 1,
            forall|m: int| 0 <= m <= k ==> r@[m] == byte_offset(s@, m),
            r@[k as int] <= 4 * k,
        decreases s.len() - k,
    {
        proof {
            lemma_byte_offset_step(s@, k as int);
        }
        let next = r[k] + utf8_width(s[k]);
        r.push(next);
        k += 1;
    }
    r
}

fn char_position_exec(s: &Vec<char>, offsets: &Vec<u128>, b: usize) -> (r: Option<usize>)
    requires
        offsets@.len() == s@.len() + 1,
        forall|k: int| 0 <= k <= s@.len() ==> offsets@[k] == byte_offset(s@, k),
    ensures
        r matches Some(k) ==> char_position(s@, b as int) == Some(k as int) && k <= s@.len(),
        r is None ==> char_position(s@, b as int) is None,
{
    let n = offsets.len();
    let mut k: usize = 0;
    while k < n
        invariant
            n == offsets@.len(),
            k <= s.len() + 1,
            offsets@.len() == s@.len() + 1,
            forall|m: int| 0 <= m <= s@.len() ==> offsets@[m] == byte_offset(s@, m),
            char_position(s@, b as int) == char_position_from(s@, b as int, k as int),
        decreases s.len() + 1 - k,
    {
        if offsets[k] == b as u128 {
            assert(k <= s@.len());
            return Some(k);
        }
        k += 1;
    }
    None
}

// ---------------------------------------------------------------------------
// Collecting candidates
// ---------------------------------------------------------------------------

pub open spec fn candidate_views(s: Seq<Candidate>) -> Seq<CandidateView> {
    s.map_values(|c: Candidate| c@)
}

/// Whether `[start, end)` overlaps a range already taken.
pub open spec fn overlaps(taken: Seq<(int, int)>, start: int, end: int) -> bool {
    exists|k: int| 0 <= k < taken.len() && start < (#[trigger] taken[k]).1 && end > taken[k].0
}

/// The instants that the candidates `found` name.
pub open spec fn instants_of(found: Seq<CandidateView>) -> Set<int> {
    Set::new(|x: int| exists|k: int| 0 <= k < found.len() && instant((#[trigger] found[k]).target) == x)
}

/// Whether a candidate already names the instant of `target`.
pub open spec fn has_instant(found: Seq<CandidateView>, target: ZonedView) -> bool {
    exists|k: int| 0 <= k < found.len() && instant((#[trigger] found[k]).target) == instant(target)
}

/// The end of a match `[start, end)` of `text`, taking in a `.` that follows
/// a match ending in `a.m` or `p.m`.
pub open spec fn extended_end(text: Seq<char>, start: int, end: int) -> int {
    let m = text.subrange(start, end);
    if end < text.len() && text[end] == '.' && (ends_with(m, "a.m"@) || ends_with(m, "p.m"@)) {
        end + 1
    } else {
        end
    }
}

/// Ranges taken and candidates found so far.
pub type Scan = (Seq<(int, int)>, Seq<CandidateView>);

/// One match, the byte range `span` of `text`: where it does not overlap a
/// range already taken and resolves to an alarm time, its range is taken and,
/// unless a candidate already names the same instant, it becomes a candidate.
pub open spec fn scan_step(
    text: Seq<char>,
    now: ZonedView,
    zone: Seq<char>,
    st: Scan,
    span: (usize, usize),
) -> Scan {
    match (char_position(text, span.0 as int), char_position(text, span.1 as int)) {
        (Some(i), Some(j)) => if i > j {
            st
        } else {
            let end = extended_end(text, i, j);
            if overlaps(st.0, i, end) {
                st
            } else {
                let source = text.subrange(i, end);
                match direct_resolution(source, now, zone) {
                    Ok(target) => {
                        let taken = st.0.push((i, end));
                        if has_instant(st.1, target) {
                            (taken, st.1)
                        } else {
                            (
                                taken,
                                st.1.push(
                                    CandidateView { source: trim(source), target, timezone: zone },
                                ),
                            )
                        }
                    },
                    Err(_) => st,
                }
            }
        },
        _ => st,
    }
}

/// The scan after the matches `spans`, in order.
pub open spec fn scan(text: Seq<char>, now: ZonedView, zone: Seq<char>, spans: Seq<(usize, usize)>) -> Scan
    decreases spans.len(),
{
    if spans.len() == 0 {
        (seq![], seq![])
    } else {
        scan_step(text, now, zone, scan(text, now, zone, spans.drop_last()), spans.last())
    }
}

/// The candidates found in `text`, in the order they were found.
pub open spec fn found_candidates(text: Seq<char>, now: ZonedView, zone: Seq<char>) -> Seq<
    CandidateView,
> {
    scan(text, now, zone, spans_before(text, PATTERN_COUNT as int)).1
}

/// Whether the candidates' instants strictly increase.
pub open spec fn sorted_by_instant(s: Seq<CandidateView>) -> bool {
    forall|a: int, b: int|
        0 <= a < b < s.len() ==> instant((#[trigger] s[a]).target) < instant((#[trigger] s[b]).target)
}

fn overlaps_exec(taken: &Vec<(usize, usize)>, start: usize, end: usize) -> (r: bool)
    ensures
        r == overlaps(taken@.map_values(|p: (usize, usize)| (p.0 as int, p.1 as int)), start as int, end as int),
{
    let ghost t = taken@.map_values(|p: (usize, usize)| (p.0 as int, p.1 as int));
    let mut k: usize = 0;
    while k < taken.len()
        invariant
            k <= taken.len(),
            t == taken@.map_values(|p: (usize, usize)| (p.0 as int, p.1 as int)),
            forall|m: int| 0 <= m < k ==> !(start < (#[trigger] t[m]).1 && end > t[m].0),
        decreases taken.len() - k,
    {
        let (a, b) = taken[k];
        assert(t[k as int] == (a as int, b as int));
        if start < b && end > a {
            return true;
        }
        k += 1;
    }
    false
}

} // verus!

verus! {

/// Whether no two candidates name the same instant.
pub open spec fn distinct_instants(s: Seq<CandidateView>) -> bool {
    forall|a: int, b: int|
        0 <= a < s.len() && 0 <= b < s.len() && a != b ==> instant((#[trigger] s[a]).target)
            != instant((#[trigger] s[b]).target)
}

proof fn lemma_scan_distinct(text: Seq<char>, now: ZonedView, zone: Seq<char>, spans: Seq<(usize, usize)>)
    ensures
        distinct_instants(scan(text, now, zone, spans).1),
    decreases spans.len(),
{
    if spans.len() > 0 {
        lemma_scan_distinct(text, now, zone, spans.drop_last());
        let prev = scan(text, now, zone, spans.drop_last()).1;
        let next = scan(text, now, zone, spans).1;
        assert forall|a: int, b: int|
            0 <= a < next.len() && 0 <= b < next.len() && a != b implies instant(
            (#[trigger] next[a]).target,
        ) != instant((#[trigger] next[b]).target) by {
            if next.len() > prev.len() {
                assert(next == prev.push(next.last()));
                if a == next.len() - 1 {
                    assert(!has_instant(prev, next[a].target));
                    assert(prev[b] == next[b]);
                } else if b == next.len() - 1 {
                    assert(!has_instant(prev, next[b].target));
                    assert(prev[a] == next[a]);
                } else {
                    assert(prev[a] == next[a] && prev[b] == next[b]);
                }
            }
        }
    }
}

proof fn lemma_insert_contains(s: Seq<CandidateView>, p: int, v: CandidateView, x: CandidateView)
    requires
        0 <= p <= s.len(),
    ensures
        s.insert(p, v).contains(x) <==> (x == v || s.contains(x)),
{
    let t = s.insert(p, v);
    if t.contains(x) {
        let k = choose|k: int| 0 <= k < t.len() && t[k] == x;
        if k < p {
            assert(s[k] == x);
        } else if k > p {
            assert(s[k - 1] == x);
        }
    }
    if s.contains(x) {
        let k = choose|k: int| 0 <= k < s.len() && s[k] == x;
        if k < p {
            assert(t[k] == x);
        } else {
            assert(t[k + 1] == x);
        }
    }
    if x == v {
        assert(t[p] == x);
    }
}

proof fn lemma_drop_last_contains(s: Seq<CandidateView>, x: CandidateView)
    requires
        s.len() > 0,
    ensures
        s.contains(x) <==> (x == s.last() || s.drop_last().contains(x)),
{
    if s.contains(x) {
        let k = choose|k: int| 0 <= k < s.len() && s[k] == x;
        if k < s.len() - 1 {
            assert(s.drop_last()[k] == x);
        }
    }
    if s.drop_last().contains(x) {
        let k = choose|k: int| 0 <= k < s.len() - 1 && s.drop_last()[k] == x;
        assert(s[k] == x);
    }
    if x == s.last() {
        assert(s[s.len() - 1] == x);
    }
}

/// The candidates in order of their instants.
fn sort_by_instant(found: Vec<Candidate>) -> (r: Vec<Candidate>)
    requires
        distinct_instants(candidate_views(found@)),
    ensures
        sorted_by_instant(candidate_views(r@)),
        forall|x: CandidateView|
            candidate_views(r@).contains(x) <==> candidate_views(found@).contains(x),
{
    let ghost orig = candidate_views(found@);
    let mut rest = found;
    let mut sorted: Vec<Candidate> = Vec::new();
    while rest.len() > 0
        invariant
            sorted_by_instant(candidate_views(sorted@)),
            distinct_instants(candidate_views(rest@)),
            forall|a: int, b: int|
                0 <= a < rest@.len() && 0 <= b < sorted@.len() ==> instant(
                    (#[trigger] rest@[a])@.target,
                ) != instant((#[trigger] sorted@[b])@.target),
            forall|x: CandidateView|
                orig.contains(x) <==> (candidate_views(rest@).contains(x) || candidate_views(
                    sorted@,
                ).contains(x)),
        decreases rest.len(),
    {
        let ghost old_rest = rest@;
        let ghost old_sorted = sorted@;
        let c = rest.pop().unwrap();
        assert(c == old_rest.last());
        let mut p: usize = 0;
        while p < sorted.len() && sorted[p].target.is_before(&c.target)
            invariant
                p <= sorted.len(),
                sorted@ == old_sorted,
                forall|m: int| 0 <= m < p ==> instant((#[trigger] sorted@[m])@.target) < instant(
                    c@.target,
                ),
            decreases sorted.len() - p,
        {
            p += 1;
        }
        proof {
            if p < sorted.len() {
                assert(instant(sorted@[p as int]@.target) != instant(c@.target)) by {
                    assert(old_rest[old_rest.len() - 1] == c);
                }
            }
        }
        sorted.insert(p, c);
        proof {
            let sv = candidate_views(sorted@);
            let ov = candidate_views(old_sorted);
            assert(sv =~= ov.insert(p as int, c@));
            assert(candidate_views(rest@) =~= candidate_views(old_rest).drop_last());
            assert(candidate_views(old_rest).last() == c@);
            assert forall|a: int, b: int| 0 <= a < b < sv.len() implies instant(
                (#[trigger] sv[a]).target,
            ) < instant((#[trigger] sv[b]).target) by {
                if b < p {
                } else if b == p {
                } else if a < p {
                    assert(sv[b] == ov[b - 1]);
                    if p < ov.len() {
                        assert(instant(ov[p as int].target) > instant(c@.target)) by {
                            assert(old_rest[old_rest.len() - 1] == c);
                        }
                    }
                } else if a == p {
                    assert(sv[b] == ov[b - 1]);
                    assert(instant(ov[p as int].target) > instant(c@.target)) by {
                        assert(old_rest[old_rest.len() - 1] == c);
                    }
                } else {
                    assert(sv[a] == ov[a - 1] && sv[b] == ov[b - 1]);
                }
            }
            assert forall|a: int, b: int|
                0 <= a < rest@.len() && 0 <= b < sorted@.len() implies instant(
                (#[trigger] rest@[a])@.target,
            ) != instant((#[trigger] sorted@[b])@.target) by {
                assert(rest@[a] == old_rest[a]);
                if b < p {
                    assert(sorted@[b] == old_sorted[b]);
                } else if b == p {
                    assert(candidate_views(old_rest)[a] == rest@[a]@);
                    assert(candidate_views(old_rest)[old_rest.len() - 1] == c@);
                } else {
                    assert(sorted@[b] == old_sorted[b - 1]);
                }
            }
            assert forall|x: CandidateView|
                orig.contains(x) <==> (candidate_views(rest@).contains(x) || candidate_views(
                    sorted@,
                ).contains(x)) by {
                lemma_insert_contains(ov, p as int, c@, x);
                lemma_drop_last_contains(candidate_views(old_rest), x);
            }
        }
    }
    proof {
        assert forall|x: CandidateView| !candidate_views(rest@).contains(x) by {}
    }
    sorted
}

} // verus!

verus! {

pub open spec fn taken_view(taken: Seq<(usize, usize)>) -> Seq<(int, int)> {
    taken.map_values(|p: (usize, usize)| (p.0 as int, p.1 as int))
}

proof fn lemma_seen_instant(seen: Set<i128>, found: Seq<CandidateView>, target: ZonedView, t: i128)
    requires
        seen.map(|x: i128| x as int) == instants_of(found),
        t == instant(target),
    ensures
        seen.contains(t) <==> has_instant(found, target),
{
    if seen.contains(t) {
        assert(seen.map(|x: i128| x as int).contains(t as int));
        assert(instants_of(found).contains(t as int));
    }
    if has_instant(found, target) {
        let k = choose|k: int| 0 <= k < found.len() && instant((#[trigger] found[k]).target) == instant(
            target,
        );
        assert(instants_of(found).contains(t as int));
        assert(seen.map(|x: i128| x as int).contains(t as int));
        let y = choose|y: i128| seen.contains(y) && y as int == t as int;
        assert(y == t);
    }
}

proof fn lemma_seen_after_push(seen: Set<i128>, found: Seq<CandidateView>, c: CandidateView, t: i128)
    requires
        seen.map(|x: i128| x as int) == instants_of(found),
        t == instant(c.target),
    ensures
        seen.insert(t).map(|x: i128| x as int) == instants_of(found.push(c)),
{
    let f2 = found.push(c);
    assert forall|x: int| instants_of(f2).contains(x) implies seen.insert(t).map(
        |y: i128| y as int,
    ).contains(x) by {
        let k = choose|k: int| 0 <= k < f2.len() && instant((#[trigger] f2[k]).target) == x;
        if k < found.len() {
            assert(f2[k] == found[k]);
            assert(instants_of(found).contains(x));
            assert(seen.map(|y: i128| y as int).contains(x));
            let y = choose|y: i128| seen.contains(y) && y as int == x;
            assert(seen.insert(t).contains(y));
        } else {
            assert(seen.insert(t).contains(t));
        }
    }
    assert forall|x: int| seen.insert(t).map(|y: i128| y as int).contains(x) implies instants_of(
        f2,
    ).contains(x) by {
        let y = choose|y: i128| seen.insert(t).contains(y) && y as int == x;
        if y == t {
            assert(f2[found.len() as int] == c);
        } else {
            assert(seen.map(|z: i128| z as int).contains(x));
            assert(instants_of(found).contains(x));
            let k = choose|k: int| 0 <= k < found.len() && instant((#[trigger] found[k]).target) == x;
            assert(f2[k] == found[k]);
        }
    }
    assert(seen.insert(t).map(|y: i128| y as int) =~= instants_of(f2));
}

/// The alarm times that the matches `spans` (byte ranges of `text`, in the
/// order found) give, resolved in `zone` at `now`: each match, in turn, that
/// does not overlap an earlier accepted match and resolves to a future time;
/// one candidate per instant, the first found; ordered by instant.
pub fn candidates_from_spans(
    text: &str,
    spans: &Vec<(usize, usize)>,
    now: &ZonedTime,
    zone: &Zone,
) -> (r: Vec<Candidate>)
    ensures
        sorted_by_instant(candidate_views(r@)),
        forall|x: CandidateView|
            candidate_views(r@).contains(x) <==> scan(text@, now@, zone@, spans@).1.contains(x),
{
    broadcast use vstd::std_specs::hash::group_hash_axioms;

    let chars = chars_of(text);
    let offsets = byte_offsets(&chars);
    let am = chars_of("a.m");
    let pm = chars_of("p.m");
    let mut taken: Vec<(usize, usize)> = Vec::new();
    let mut found: Vec<Candidate> = Vec::new();
    let mut seen: HashSet<i128> = HashSet::new();
    let mut i: usize = 0;
    assert(spans@.take(0) =~= Seq::<(usize, usize)>::empty());
    assert(seen@.map(|x: i128| x as int) =~= instants_of(candidate_views(found@)));
    while i < spans.len()
        invariant
            i <= spans.len(),
            chars@ == text@,
            am@ == "a.m"@,
            pm@ == "p.m"@,
            offsets@.len() == chars@.len() + 1,
            forall|m: int| 0 <= m <= chars@.len() ==> offsets@[m] == byte_offset(chars@, m),
            (taken_view(taken@), candidate_views(found@)) == scan(
                text@,
                now@,
                zone@,
                spans@.take(i as int),
            ),
            seen@.map(|x: i128| x as int) == instants_of(candidate_views(found@)),
        decreases spans.len() - i,
    {
        assert(spans@.take(i + 1).drop_last() =~= spans@.take(i as int));
        assert(spans@.take(i + 1).last() == spans@[i as int]);
        let (bs, be) = spans[i];
        let ci = char_position_exec(&chars, &offsets, bs);
        let cj = char_position_exec(&chars, &offsets, be);
        if let (Some(a), Some(b)) = (ci, cj) {
            if a <= b {
                let matched = copy_range(&chars, a, b);
                let end = if b < chars.len() && chars[b] == '.' && (ends_with_exec(&matched, &am)
                    || ends_with_exec(&matched, &pm)) {
                    b + 1
                } else {
                    b
                };
                assert(end == extended_end(text@, a as int, b as int));
                if !overlaps_exec(&taken, a, end) {
                    let source = copy_range(&chars, a, end);
                    let source_text = string_of(source.as_slice());
                    match parse_direct_in(source_text.as_str(), now, zone) {
                        Ok(c) => {
                            let ghost tv = taken_view(taken@);
                            taken.push((a, end));
                            assert(taken_view(taken@) =~= tv.push((a as int, end as int)));
                            let ghost fv = candidate_views(found@);
                            let ghost before = seen@;
                            let t = c.target.instant_nanos();
                            proof {
                                lemma_seen_instant(before, fv, c@.target, t);
                            }
                            if seen.insert(t) {
                                found.push(c);
                                assert(candidate_views(found@) =~= fv.push(c@));
                                proof {
                                    lemma_seen_after_push(before, fv, c@, t);
                                }
                            } else {
                                assert(seen@ =~= before);
                            }
                        },
                        Err(_) => {},
                    }
                }
            }
        }
        i += 1;
    }
    assert(spans@.take(spans@.len() as int) =~= spans@);
    proof {
        lemma_scan_distinct(text@, now@, zone@, spans@);
    }
    sort_by_instant(found)
}

/// The explicit alarm times in `text`, resolved in `zone` at `now`: the
/// candidates that the matches of the patterns, pattern by pattern, give
/// (see `candidates_from_spans`).
pub fn extract_candidates_in(text: &str, now: &ZonedTime, zone: &Zone) -> (r: Vec<Candidate>)
    ensures
        sorted_by_instant(candidate_views(r@)),
        forall|x: CandidateView|
            candidate_views(r@).contains(x) <==> found_candidates(text@, now@, zone@).contains(x),
{
    let mut all: Vec<(usize, usize)> = Vec::new();
    let mut k: usize = 0;
    while k < PATTERN_COUNT
        invariant
            k <= PATTERN_COUNT,
            all@ == spans_before(text@, k as int),
        decreases PATTERN_COUNT - k,
    {
        let mut spans = match find_spans(candidate_pattern_exec(k), text) {
            Some(v) => v,
            None => Vec::new(),
        };
        assert(spans@ == pattern_spans(text@, k as int));
        let ghost before = all@;
        all.append(&mut spans);
        assert(all@ == before + pattern_spans(text@, k as int));
        k += 1;
    }
    candidates_from_spans(text, &all, now, zone)
}

/// The explicit alarm times in `text`, resolved in the system's zone at the
/// clock reading `clock_secs` seconds and `clock_nanos` nanoseconds after
/// 1970-01-01 00:00:00 UTC. Where the zone is found and the reading lies in
/// the supported range, the result is that of `extract_candidates_in` for
/// them.
pub fn extract_candidates(text: &str, clock_secs: i64, clock_nanos: u32) -> (r: Result<
    Vec<Candidate>,
    ScheduleError,
>)
    requires
        clock_nanos < 1_000_000_000,
    ensures
        r matches Ok(v) ==> sorted_by_instant(candidate_views(v@)) && exists|
            now: ZonedView,
            zone: Seq<char>,
        |
            #![trigger found_candidates(text@, now, zone)]
            zone_is_known(zone) && instant(now) == clock_secs * 1_000_000_000 + clock_nanos
                && now.offset_secs == zone_utc_offset(zone, clock_secs) && valid_zoned(now)
                && forall|x: CandidateView|
                #[trigger] candidate_views(v@).contains(x) <==> found_candidates(
                    text@,
                    now,
                    zone,
                ).contains(x),
        r matches Err(e) ==> e is LocalTimeZoneUnavailable,
{
    let zone = match Zone::system() {
        Some(z) => z,
        None => return Err(ScheduleError::LocalTimeZoneUnavailable),
    };
    proof {
        use_type_invariant(&zone);
    }
    let now = match zone.time_at(clock_secs, clock_nanos) {
        Some(n) => n,
        None => return Err(ScheduleError::LocalTimeZoneUnavailable),
    };
    proof {
        use_type_invariant(&now);
    }
    let found = extract_candidates_in(text, &now, &zone);
    assert(found_candidates(text@, now@, zone@) == found_candidates(text@, now@, zone@));
    Ok(found)
}

} // verus!

verus! {

proof fn lemma_step_later(
    text: Seq<char>,
    now: ZonedView,
    zone: Seq<char>,
    st: Scan,
    span: (usize, usize),
)
    requires
        forall|k: int| 0 <= k < st.1.len() ==> instant((#[trigger] st.1[k]).target) > instant(now),
    ensures
        forall|k: int|
            0 <= k < scan_step(text, now, zone, st, span).1.len() ==> instant(
                (#[trigger] scan_step(text, now, zone, st, span).1[k]).target,
            ) > instant(now),
{
    let next = scan_step(text, now, zone, st, span);
    if let (Some(i), Some(j)) = (char_position(text, span.0 as int), char_position(text, span.1 as int)) {
        if i <= j {
            let end = extended_end(text, i, j);
            if !overlaps(st.0, i, end) {
                let source = text.subrange(i, end);
                if let Ok(target) = direct_resolution(source, now, zone) {
                    if !has_instant(st.1, target) {
                        let c = CandidateView { source: trim(source), target, timezone: zone };
                        assert(next.1 == st.1.push(c));
                        assert forall|k: int| 0 <= k < next.1.len() implies instant(
                            (#[trigger] next.1[k]).target,
                        ) > instant(now) by {
                            if k < st.1.len() {
                                assert(next.1[k] == st.1[k]);
                            }
                        }
                    }
                }
            }
        }
    }
}

proof fn lemma_scan_later(text: Seq<char>, now: ZonedView, zone: Seq<char>, spans: Seq<(usize, usize)>)
    ensures
        forall|k: int|
            0 <= k < scan(text, now, zone, spans).1.len() ==> instant(
                (#[trigger] scan(text, now, zone, spans).1[k]).target,
            ) > instant(now),
    decreases spans.len(),
{
    if spans.len() > 0 {
        lemma_scan_later(text, now, zone, spans.drop_last());
        lemma_step_later(text, now, zone, scan(text, now, zone, spans.drop_last()), spans.last());
    }
}

/// Every candidate found in a text names a time later than the moment the
/// text is read at.
pub proof fn law_candidates_are_later(text: Seq<char>, now: ZonedView, zone: Seq<char>)
    ensures
        forall|k: int|
            0 <= k < found_candidates(text, now, zone).len() ==> instant(
                (#[trigger] found_candidates(text, now, zone)[k]).target,
            ) > instant(now),
{
    lemma_scan_later(text, now, zone, spans_before(text, PATTERN_COUNT as int));
}

} // verus!

verus! {

/// The time part shared by the patterns that pair a time with a day: a
/// twelve-hour time (`2pm`, `3:30 p.m.`) or a twenty-four-hour time (`14:30`).
pub open spec fn time_pattern() -> Seq<char> {
    "(?:(?:1[0-2]|0?[1-9])(?::[0-5]\\d)?\\s*(?:a\\.?m\\.?|p\\.?m\\.?)|(?:[01]?\\d|2[0-3]):[0-5]\\d)\\b"@
}

/// The month-and-day pattern lists every month name that the scheduling
/// grammar reads, takes the day as one or two digits (`\d{1,2}`, so `June 5`
/// as well as `June 12`), then an optional `at`, and ends with the same time
/// part as the `today`/`tomorrow` pattern.
pub proof fn law_month_pattern_reads_the_grammar()
    ensures
        forall|w: Seq<char>| #[trigger] month_number(w) is Some ==> contains(candidate_pattern(1), w),
        contains(candidate_pattern(1), ")\\s+\\d{1,2}\\s+(?:at\\s+)?"@),
        ends_with(candidate_pattern(1), time_pattern()),
        ends_with(candidate_pattern(0), time_pattern()),
{
    let p = candidate_pattern(1);
    reveal_strlit("(?i)\\b(?:january|february|march|april|may|june|july|august|september|october|november|december)\\s+\\d{1,2}\\s+(?:at\\s+)?(?:(?:1[0-2]|0?[1-9])(?::[0-5]\\d)?\\s*(?:a\\.?m\\.?|p\\.?m\\.?)|(?:[01]?\\d|2[0-3]):[0-5]\\d)\\b");
    reveal_strlit("(?i)\\b(?:today|tomorrow)\\s+(?:at\\s+)?(?:(?:1[0-2]|0?[1-9])(?::[0-5]\\d)?\\s*(?:a\\.?m\\.?|p\\.?m\\.?)|(?:[01]?\\d|2[0-3]):[0-5]\\d)\\b");
    reveal_strlit("(?:(?:1[0-2]|0?[1-9])(?::[0-5]\\d)?\\s*(?:a\\.?m\\.?|p\\.?m\\.?)|(?:[01]?\\d|2[0-3]):[0-5]\\d)\\b");
    reveal_strlit(")\\s+\\d{1,2}\\s+(?:at\\s+)?");
    reveal_strlit("january");
    reveal_strlit("february");
    reveal_strlit("march");
    reveal_strlit("april");
    reveal_strlit("may");
    reveal_strlit("june");
    reveal_strlit("july");
    reveal_strlit("august");
    reveal_strlit("september");
    reveal_strlit("october");
    reveal_strlit("november");
    reveal_strlit("december");
    assert(p.subrange(9, 16) =~= "january"@);
    assert(occurs_at(p, "january"@, 9));
    assert(p.subrange(17, 25) =~= "february"@);
    assert(occurs_at(p, "february"@, 17));
    assert(p.subrange(26, 31) =~= "march"@);
    assert(occurs_at(p, "march"@, 26));
    assert(p.subrange(32, 37) =~= "april"@);
    assert(occurs_at(p, "april"@, 32));
    assert(p.subrange(38, 41) =~= "may"@);
    assert(occurs_at(p, "may"@, 38));
    assert(p.subrange(42, 46) =~= "june"@);
    assert(occurs_at(p, "june"@, 42));
    assert(p.subrange(47, 51) =~= "july"@);
    assert(occurs_at(p, "july"@, 47));
    assert(p.subrange(52, 58) =~= "august"@);
    assert(occurs_at(p, "august"@, 52));
    assert(p.subrange(59, 68) =~= "september"@);
    assert(occurs_at(p, "september"@, 59));
    assert(p.subrange(69, 76) =~= "october"@);
    assert(occurs_at(p, "october"@, 69));
    assert(p.subrange(77, 85) =~= "november"@);
    assert(occurs_at(p, "november"@, 77));
    assert(p.subrange(86, 94) =~= "december"@);
    assert(occurs_at(p, "december"@, 86));
    assert(p.subrange(94, 118) =~= ")\\s+\\d{1,2}\\s+(?:at\\s+)?"@);
    assert(occurs_at(p, ")\\s+\\d{1,2}\\s+(?:at\\s+)?"@, 94));
    assert(p.skip(p.len() - time_pattern().len()) =~= time_pattern());
    let q = candidate_pattern(0);
    assert(q.skip(q.len() - time_pattern().len()) =~= time_pattern());
}

} // verus!
