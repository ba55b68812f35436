use vstd::prelude::*;

use crate::chars::{chars_of, string_of_range};

verus! {

pub open spec fn is_digit(c: char) -> bool {
    '0' <= c && c <= '9'
}

pub open spec fn digit_value(c: char) -> nat {
    (c as u32 - 48) as nat
}

/// The number that a string of decimal digits denotes; the empty string denotes 0.
pub open spec fn digits_value(d: Seq<char>) -> nat
    decreases d.len(),
{
    if d.len() == 0 {
        0
    } else {
        digits_value(d.drop_last()) * 10 + digit_value(d.last())
    }
}

/// How many digits follow one another from position `p` on.
pub open spec fn digit_run(s: Seq<char>, p: int) -> nat
    decreases s.len() - p,
{
    if 0 <= p < s.len() && is_digit(s[p]) {
        1 + digit_run(s, p + 1)
    } else {
        0
    }
}

/// Whether a timestamp starts at `p`: any number of digits for the hours, then
/// `:MM:SS ` with two digits each for the minutes and the seconds.
pub open spec fn stamp_at(s: Seq<char>, p: int) -> bool {
    let c = p + digit_run(s, p);
    &&& 0 <= p
    &&& c + 7 <= s.len()
    &&& s[c] == ':'
    &&& is_digit(s[c + 1])
    &&& is_digit(s[c + 2])
    &&& s[c + 3] == ':'
    &&& is_digit(s[c + 4])
    &&& is_digit(s[c + 5])
    &&& s[c + 6] == ' '
}

/// The first line break at or after `q`, or the end of `s`.
pub open spec fn line_end(s: Seq<char>, q: int) -> int
    decreases s.len() - q,
{
    if 0 <= q < s.len() && s[q] != '\n' {
        line_end(s, q + 1)
    } else {
        q
    }
}

/// One timestamp found in a text, with the rest of its line.
pub ghost struct StampModel {
    pub hours: nat,
    pub minutes: nat,
    pub seconds: nat,
    pub text: Seq<char>,
}

impl StampModel {
    pub open spec fn total(self) -> nat {
        self.hours * 3600 + self.minutes * 60 + self.seconds
    }
}

/// The timestamp that starts at `p`, where `stamp_at(s, p)`.
pub open spec fn stamp_model_at(s: Seq<char>, p: int) -> StampModel {
    let c = p + digit_run(s, p);
    StampModel {
        hours: digits_value(s.subrange(p, c)),
        minutes: digits_value(s.subrange(c + 1, c + 3)),
        seconds: digits_value(s.subrange(c + 4, c + 6)),
        text: s.subrange(c + 7, line_end(s, c + 7)),
    }
}

/// The timestamps of `s` from position `p` on, leftmost first. A timestamp's
/// text runs to the end of its line, and the search for the next one resumes
/// after that line break (`skipping` holds while the rest of a line is passed
/// over).
pub open spec fn stamps_from(s: Seq<char>, p: int, skipping: bool) -> Seq<StampModel>
    decreases s.len() - p,
{
    if p < 0 || p >= s.len() {
        seq![]
    } else if skipping {
        stamps_from(s, p + 1, s[p] != '\n')
    } else if stamp_at(s, p) {
        seq![stamp_model_at(s, p)] + stamps_from(s, p + digit_run(s, p) + 7, true)
    } else {
        stamps_from(s, p + 1, false)
    }
}

/// All timestamps of `s`, in order of appearance.
pub open spec fn stamps(s: Seq<char>) -> Seq<StampModel> {
    stamps_from(s, 0, false)
}

/// Whether the offset in seconds of every timestamp of `s` fits in a `u64`.
pub open spec fn stamps_fit(s: Seq<char>) -> bool {
    forall|i: int| 0 <= i < stamps(s).len() ==> #[trigger] stamps(s)[i].total() <= u64::MAX
}

/// One timestamp found in a text, with its offset in seconds.
pub struct TimestampMatch {
    pub hours: u64,
    pub minutes: u64,
    pub seconds: u64,
    pub total_seconds: u64,
    pub text: String,
}

impl View for TimestampMatch {
    type V = StampModel;

    open spec fn view(&self) -> StampModel {
        StampModel {
            hours: self.hours as nat,
            minutes: self.minutes as nat,
            seconds: self.seconds as nat,
            text: self.text@,
        }
    }
}

impl TimestampMatch {
    pub open spec fn wf(&self) -> bool {
        self.total_seconds as nat == self@.total()
    }
}

pub open spec fn match_views(v: Seq<TimestampMatch>) -> Seq<StampModel> {
    v.map_values(|m: TimestampMatch| m@)
}

fn is_digit_char(c: char) -> (r: bool)
    ensures
        r == is_digit(c),
{
    '0' <= c && c <= '9'
}

fn digit_run_exec(cs: &Vec<char>, p: usize) -> (r: usize)
    requires
        p <= cs@.len(),
    ensures
        r as int == p + digit_run(cs@, p as int),
        r <= cs@.len(),
{
    let mut k: usize = p;
    while k < cs.len() && is_digit_char(cs[k])
        invariant
            p <= k <= cs@.len(),
            digit_run(cs@, p as int) == (k - p) + digit_run(cs@, k as int),
        decreases cs@.len() - k,
    {
        k = k + 1;
    }
    k
}

fn line_end_exec(cs: &Vec<char>, q: usize) -> (r: usize)
    requires
        q <= cs@.len(),
    ensures
        r as int == line_end(cs@, q as int),
        q <= r <= cs@.len(),
{
    let mut k: usize = q;
    while k < cs.len() && cs[k] != '\n'
        invariant
            q <= k <= cs@.len(),
            line_end(cs@, q as int) == line_end(cs@, k as int),
        decreases cs@.len() - k,
    {
        k = k + 1;
    }
    k
}

proof fn lemma_prefix_value_le(d: Seq<char>, j: int)
    requires
        0 <= j <= d.len(),
    ensures
        digits_value(d.subrange(0, j)) <= digits_value(d),
    decreases d.len() - j,
{
    if j < d.len() {
        lemma_prefix_value_le(d.drop_last(), j);
        assert(d.drop_last().subrange(0, j) == d.subrange(0, j));
    } else {
        assert(d.subrange(0, j) == d);
    }
}

/// The number denoted by the digits `cs[from..to]`, if it fits in a `u64`.
fn parse_digits(cs: &Vec<char>, from: usize, to: usize) -> (r: Option<u64>)
    requires
        from <= to <= cs@.len(),
        forall|i: int| from <= i < to ==> is_digit(#[trigger] cs@[i]),
    ensures
        match r {
            Some(v) => v as nat == digits_value(cs@.subrange(from as int, to as int)),
            None => digits_value(cs@.subrange(from as int, to as int)) > u64::MAX,
        },
{
    let ghost d = cs@.subrange(from as int, to as int);
    let mut v: u64 = 0;
    let mut i: usize = from;
    while i < to
        invariant
            from <= i <= to <= cs@.len(),
            d == cs@.subrange(from as int, to as int),
            forall|k: int| from <= k < to ==> is_digit(#[trigger] cs@[k]),
            v as nat == digits_value(cs@.subrange(from as int, i as int)),
        decreases to - i,
    {
        let c = cs[i];
        let dv: u64 = (c as u32 - 48) as u64;
        proof {
            let next = cs@.subrange(from as int, i + 1);
            assert(next.drop_last() == cs@.subrange(from as int, i as int));
            assert(next.last() == c);
            assert(d.subrange(0, i + 1 - from) == next);
            lemma_prefix_value_le(d, i + 1 - from);
        }
        match v.checked_mul(10) {
            None => {
                return None;
            },
            Some(t) => match t.checked_add(dv) {
                None => {
                    return None;
                },
                Some(w) => {
                    v = w;
                },
            },
        }
        i = i + 1;
    }
    Some(v)
}

/// The value of the two digits `cs[i..i + 2]`.
fn two_digits(cs: &Vec<char>, i: usize) -> (r: u64)
    requires
        i + 2 <= cs@.len(),
        is_digit(cs@[i as int]),
        is_digit(cs@[i + 1]),
    ensures
        r as nat == digits_value(cs@.subrange(i as int, i + 2)),
        r < 100,
{
    let n = cs.len();
    let a: u64 = (cs[i] as u32 - 48) as u64;
    let b: u64 = (cs[i + 1] as u32 - 48) as u64;
    proof {
        let d = cs@.subrange(i as int, i + 2);
        assert(d.drop_last() == cs@.subrange(i as int, i + 1));
        assert(d.drop_last().drop_last() == Seq::<char>::empty());
        assert(d.drop_last().last() == cs@[i as int]);
        assert(digits_value(d.drop_last().drop_last()) == 0);
        assert(digits_value(d.drop_last()) == digit_value(cs@[i as int]));
    }
    a * 10 + b
}

/// The timestamp that starts at `p`, whose hours end at `c`, if its offset in
/// seconds fits in a `u64`.
fn stamp_exec(cs: &Vec<char>, p: usize, c: usize) -> (r: Option<TimestampMatch>)
    requires
        stamp_at(cs@, p as int),
        c as int == p + digit_run(cs@, p as int),
    ensures
        match r {
            Some(m) => m@ == stamp_model_at(cs@, p as int) && m.wf(),
            None => stamp_model_at(cs@, p as int).total() > u64::MAX,
        },
{
    proof {
        assert forall|i: int| p <= i < c implies is_digit(#[trigger] cs@[i]) by {
            lemma_digit_run_digits(cs@, p as int, i);
        }
    }
    let n = cs.len();
    let minutes = two_digits(cs, c + 1);
    let seconds = two_digits(cs, c + 4);
    let small: u64 = minutes * 60 + seconds;
    match parse_digits(cs, p, c) {
        None => None,
        Some(hours) => match hours.checked_mul(3600) {
            None => None,
            Some(h) => match h.checked_add(small) {
                None => None,
                Some(total_seconds) => {
                    let e = line_end_exec(cs, c + 7);
                    let text = string_of_range(cs, c + 7, e);
                    Some(TimestampMatch { hours, minutes, seconds, total_seconds, text })
                },
            },
        },
    }
}

proof fn lemma_digit_run_digits(s: Seq<char>, p: int, i: int)
    requires
        0 <= p <= i < p + digit_run(s, p),
    ensures
        is_digit(s[i]),
    decreases i - p,
{
    if i > p {
        lemma_digit_run_digits(s, p + 1, i);
    }
}

/// The timestamps of `text`, in order of appearance, each with the rest of its
/// line; `None` exactly when the offset of one of them does not fit in a `u64`.
pub fn extract_timestamps(text: &str) -> (r: Option<Vec<TimestampMatch>>)
    ensures
        match r {
            Some(v) => stamps_fit(text@) && match_views(v@) == stamps(text@) && forall|i: int|
                0 <= i < v@.len() ==> #[trigger] v@[i].wf(),
            None => !stamps_fit(text@),
        },
{
    let cs = chars_of(text);
    let n = cs.len();
    let mut out: Vec<TimestampMatch> = Vec::new();
    let mut p: usize = 0;
    let mut skipping = false;
    while p < n
        invariant
            n == cs@.len(),
            cs@ == text@,
            p <= n,
            stamps(cs@) == match_views(out@) + stamps_from(cs@, p as int, skipping),
            forall|i: int| 0 <= i < out@.len() ==> #[trigger] out@[i].wf(),
        decreases n - p,
    {
        if skipping {
            if cs[p] == '\n' {
                skipping = false;
            }
            p = p + 1;
        } else {
            let c = digit_run_exec(&cs, p);
            if c < n && n - c >= 7 && cs[c] == ':' && is_digit_char(cs[c + 1]) && is_digit_char(cs[c + 2])
                && cs[c + 3] == ':' && is_digit_char(cs[c + 4]) && is_digit_char(cs[c + 5])
                && cs[c + 6] == ' ' {
                match stamp_exec(&cs, p, c) {
                    None => {
                        proof {
                            let k = out@.len() as int;
                            assert(stamps(cs@)[k] == stamp_model_at(cs@, p as int));
                        }
                        return None;
                    },
                    Some(m) => {
                        let ghost before = out@;
                        out.push(m);
                        proof {
                            assert(match_views(out@) == match_views(before).push(m@));
                            assert(match_views(out@) + stamps_from(cs@, c + 7, true) == match_views(
                                before,
                            ) + (seq![m@] + stamps_from(cs@, c + 7, true)));
                        }
                        p = c + 7;
                        skipping = true;
                    },
                }
            } else {
                p = p + 1;
            }
        }
    }
    proof {
        assert(match_views(out@) == stamps(cs@));
        assert forall|i: int| 0 <= i < stamps(cs@).len() implies #[trigger] stamps(
            cs@,
        )[i].total() <= u64::MAX by {
            assert(out@[i].wf());
        }
    }
    Some(out)
}

proof fn lemma_digit_run_of_digits(s: Seq<char>, p: int, len: nat)
    requires
        0 <= p,
        p + len < s.len(),
        forall|i: int| p <= i < p + len ==> is_digit(#[trigger] s[i]),
        !is_digit(s[p + len]),
    ensures
        digit_run(s, p) == len,
    decreases len,
{
    if len > 0 {
        lemma_digit_run_of_digits(s, p + 1, (len - 1) as nat);
    }
}

proof fn lemma_line_end_over(s: Seq<char>, q: int, e: int)
    requires
        0 <= q <= e <= s.len(),
        forall|i: int| q <= i < e ==> #[trigger] s[i] != '\n',
        e == s.len() || s[e] == '\n',
    ensures
        line_end(s, q) == e,
    decreases e - q,
{
    if q < e {
        lemma_line_end_over(s, q + 1, e);
    }
}

proof fn lemma_skip_over(s: Seq<char>, q: int, e: int)
    requires
        0 <= q <= e <= s.len(),
        forall|i: int| q <= i < e ==> #[trigger] s[i] != '\n',
    ensures
        stamps_from(s, q, true) == stamps_from(s, e, true),
    decreases e - q,
{
    if q < e {
        lemma_skip_over(s, q + 1, e);
    }
}

/// A line `H:MM:SS text` (any number of hour digits, two minute digits, two
/// second digits, then one space and text without a line break) at the start of
/// a description gives exactly one timestamp, whose offset is
/// `H * 3600 + MM * 60 + SS` and whose text is all of `text`; the search for
/// further timestamps resumes at the end of that line. A description that is
/// only that line has no other timestamp.
pub proof fn well_formed_line(
    h: Seq<char>,
    mm: Seq<char>,
    ss: Seq<char>,
    text: Seq<char>,
    rest: Seq<char>,
)
    requires
        forall|i: int| 0 <= i < h.len() ==> is_digit(#[trigger] h[i]),
        mm.len() == 2 && is_digit(mm[0]) && is_digit(mm[1]),
        ss.len() == 2 && is_digit(ss[0]) && is_digit(ss[1]),
        forall|i: int| 0 <= i < text.len() ==> #[trigger] text[i] != '\n',
        rest.len() == 0 || rest[0] == '\n',
    ensures
        ({
            let line = h + ":"@ + mm + ":"@ + ss + " "@ + text;
            let s = line + rest;
            &&& stamps(s) == seq![
                StampModel {
                    hours: digits_value(h),
                    minutes: digits_value(mm),
                    seconds: digits_value(ss),
                    text,
                },
            ] + stamps_from(s, line.len() as int, true)
            &&& stamps(s)[0].total() == digits_value(h) * 3600 + digits_value(mm) * 60
                + digits_value(ss)
            &&& rest.len() == 0 ==> stamps(s).len() == 1
        }),
{
    reveal_strlit(":");
    reveal_strlit(" ");
    let line = h + ":"@ + mm + ":"@ + ss + " "@ + text;
    let s = line + rest;
    let c = h.len() as int;
    let t0 = c + 7;
    let e = line.len() as int;
    assert(e == t0 + text.len());
    assert forall|i: int| 0 <= i < c implies is_digit(#[trigger] s[i]) by {
        assert(s[i] == h[i]);
    }
    assert(s[c] == ':');
    lemma_digit_run_of_digits(s, 0, h.len());
    assert(s[c + 1] == mm[0]);
    assert(s[c + 2] == mm[1]);
    assert(s[c + 3] == ':');
    assert(s[c + 4] == ss[0]);
    assert(s[c + 5] == ss[1]);
    assert(s[c + 6] == ' ');
    assert(stamp_at(s, 0));
    assert forall|i: int| t0 <= i < e implies #[trigger] s[i] != '\n' by {
        assert(s[i] == text[i - t0]);
    }
    if rest.len() > 0 {
        assert(s[e] == rest[0]);
    }
    lemma_line_end_over(s, t0, e);
    lemma_skip_over(s, t0, e);
    assert(s.subrange(0, c) == h);
    assert(s.subrange(c + 1, c + 3) == mm);
    assert(s.subrange(c + 4, c + 6) == ss);
    assert(s.subrange(t0, e) == text);
    if rest.len() == 0 {
        assert(stamps_from(s, e, true) == Seq::<StampModel>::empty());
    }
}

} // verus!
