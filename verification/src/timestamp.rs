//! Codec for the timestamp notation embedded in transcript text.
//!
//! A timestamp is written `#H:MM:SS-D#` with one to four hour digits, one
//! or two minute and second digits and exactly one sub-second digit. The
//! digit widths found in the source text are retained on the parsed value
//! so that rewritten text can account for the original length.

use vstd::prelude::*;

verus! {

/// Maximum hour value a timestamp can carry.
pub const MAX_HOURS: u32 = 4095;

/// A parsed timestamp: hours, minutes, seconds and one sub-second digit,
/// each field together with the digit width it occupied in source text
/// (sub-seconds are always one digit wide).
#[derive(Clone, Copy, Debug, PartialEq, Eq, Structural)]
pub struct Timestamp {
    pub hours: u32,
    pub minutes: u32,
    pub seconds: u32,
    pub subsecs: u32,
    pub hours_len: u32,
    pub minutes_len: u32,
    pub seconds_len: u32,
}

impl Timestamp {
    /// Field bounds every timestamp satisfies: value ranges and the digit
    /// widths the notation allows.
    pub open spec fn wf(self) -> bool {
        &&& self.hours <= MAX_HOURS
        &&& self.minutes <= 59
        &&& self.seconds <= 59
        &&& self.subsecs <= 9
        &&& 1 <= self.hours_len <= 4
        &&& 1 <= self.minutes_len <= 2
        &&& 1 <= self.seconds_len <= 2
    }

    /// Textual length of the timestamp: the digit widths plus the two `#`
    /// marks, two `:` separators, the `-` and the sub-second digit.
    pub open spec fn spec_len(self) -> int {
        self.hours_len + self.minutes_len + self.seconds_len + 6
    }

    fn new(hours: u32, minutes: u32, seconds: u32, subsecs: u32) -> (r: Timestamp)
        requires
            hours <= MAX_HOURS,
            minutes <= 59,
            seconds <= 59,
            subsecs <= 9,
        ensures
            r == spec_canonical(hours, minutes, seconds, subsecs),
    {
        let hours_len: u32 = if hours < 100 {
            2
        } else if hours < 1000 {
            3
        } else {
            4
        };
        Timestamp {
            hours,
            minutes,
            seconds,
            subsecs,
            hours_len,
            minutes_len: 2,
            seconds_len: 2,
        }
    }

    /// The zero timestamp in canonical widths.
    pub fn zero() -> (r: Timestamp)
        ensures
            r == spec_zero(),
    {
        Timestamp::new(0, 0, 0, 0)
    }

    /// Whether the slice begins with a well-formed timestamp.
    pub fn is_timestamp(timestamp_slice: &[u8]) -> (r: bool)
        ensures
            r == spec_parse(timestamp_slice@) is Some,
    {
        Timestamp::try_parse_timestamp(timestamp_slice).is_some()
    }

    /// Parses the timestamp the slice begins with, or reports the slice as
    /// malformed.
    pub fn parse(timestamp: &[u8]) -> (r: Result<Timestamp, Error>)
        ensures
            match r {
                Ok(t) => spec_parse(timestamp@) == Some(t),
                Err(e) => spec_parse(timestamp@) is None && (match e {
                    Error::Malformed(v) => v@ == timestamp@,
                }),
            },
    {
        match Timestamp::try_parse_timestamp(timestamp) {
            Some(t) => Ok(t),
            None => Err(Error::malformed(timestamp)),
        }
    }

    fn try_parse_timestamp(s: &[u8]) -> (r: Option<Timestamp>)
        ensures
            r == spec_parse(s@),
    {
        if s.len() < 1 || s[0] != 35 {
            return None;
        }
        let (vh, hl) = match parse_number(s, 1, 4, MAX_HOURS) {
            Some(p) => p,
            None => {
                return None;
            },
        };
        let p1: usize = 1 + hl as usize;
        if p1 >= s.len() || s[p1] != 58 {
            return None;
        }
        let (vm, ml) = match parse_number(s, p1 + 1, 2, 59) {
            Some(p) => p,
            None => {
                return None;
            },
        };
        let p2: usize = p1 + 1 + ml as usize;
        if p2 >= s.len() || s[p2] != 58 {
            return None;
        }
        let (vs, sl) = match parse_number(s, p2 + 1, 2, 59) {
            Some(p) => p,
            None => {
                return None;
            },
        };
        let p3: usize = p2 + 1 + sl as usize;
        if p3 >= s.len() || s[p3] != 45 {
            return None;
        }
        let pu: usize = p3 + 1;
        if pu >= s.len() || s[pu] < 48 || s[pu] > 57 {
            return None;
        }
        let vu: u32 = (s[pu] - 48) as u32;
        let p4: usize = p3 + 2;
        if p4 >= s.len() || s[p4] != 35 {
            return None;
        }
        proof {
            assert(digit_run_len(s@, p4 as int) == 0);
            assert(digit_run_len(s@, pu as int) == 1);
        }
        Some(Timestamp::new_with_input_len(vh, hl, vm, ml, vs, sl, vu, 1))
    }

    /// A timestamp carrying the digit widths found in source text.
    fn new_with_input_len(
        hours: u32,
        hours_len: u32,
        minutes: u32,
        minutes_len: u32,
        seconds: u32,
        seconds_len: u32,
        subsecs: u32,
        subsecs_len: u32,
    ) -> (r: Timestamp)
        requires
            hours <= MAX_HOURS,
            1 <= hours_len <= 4,
            minutes <= 59,
            1 <= minutes_len <= 2,
            seconds <= 59,
            1 <= seconds_len <= 2,
            subsecs <= 9,
            subsecs_len == 1,
        ensures
            r == (Timestamp { hours, minutes, seconds, subsecs, hours_len, minutes_len,
            seconds_len }),
            r.wf(),
    {
        Timestamp { hours, minutes, seconds, subsecs, hours_len, minutes_len, seconds_len }
    }
}

impl Timestamp {
    /// Rounds up at the most significant non-zero unit, zeroing everything
    /// below it: a fractional hour count becomes the next whole hour, a
    /// fractional minute count the next whole minute, bare seconds one
    /// minute. A value already whole at its unit, and the zero timestamp,
    /// are unchanged.
    ///
    /// Applied to the last timestamp of a recording segment this gives a
    /// conservative estimate of the segment's duration.
    pub fn round_up(self) -> (r: Timestamp)
        requires
            self.wf(),
            spec_can_round_up(self),
        ensures
            r == spec_round_up(self),
            r.wf(),
    {
        if self.hours > 0 {
            if self.minutes == 0 && self.seconds == 0 && self.subsecs == 0 {
                self
            } else {
                Timestamp::new(self.hours + 1, 0, 0, 0)
            }
        } else if self.minutes > 0 {
            if self.seconds == 0 && self.subsecs == 0 {
                self
            } else {
                Timestamp::new(0, self.minutes + 1, 0, 0)
            }
        } else if self.seconds > 0 {
            Timestamp::new(0, 1, 0, 0)
        } else {
            Timestamp::new(0, 0, 0, 0)
        }
    }

    /// Component-wise addition with carries from sub-seconds into seconds,
    /// seconds into minutes and minutes into hours; hours accumulate
    /// without further carrying. The result has canonical digit widths.
    pub fn add(self, rhs: Timestamp) -> (r: Timestamp)
        requires
            self.wf(),
            rhs.wf(),
            spec_add_hours_total(self, rhs) <= MAX_HOURS,
        ensures
            r == spec_add(self, rhs),
            r.wf(),
    {
        let (subsecs, subsecs_carry) = carrying_add(self.subsecs, rhs.subsecs, 10);
        let (seconds, seconds_carry) = carrying_add(subsecs_carry + self.seconds, rhs.seconds, 60);
        let (minutes, minutes_carry) = carrying_add(seconds_carry + self.minutes, rhs.minutes, 60);
        let hours = minutes_carry + self.hours + rhs.hours;
        Timestamp::new(hours, minutes, seconds, subsecs)
    }

    /// Hour count.
    pub fn hours(self) -> (r: u32)
        ensures
            r == self.hours,
    {
        self.hours
    }

    /// Minute count.
    pub fn minutes(self) -> (r: u32)
        ensures
            r == self.minutes,
    {
        self.minutes
    }

    /// Second count.
    pub fn seconds(self) -> (r: u32)
        ensures
            r == self.seconds,
    {
        self.seconds
    }

    /// Sub-second digit.
    pub fn subsecs(self) -> (r: u32)
        ensures
            r == self.subsecs,
    {
        self.subsecs
    }

    fn hours_len(self) -> (r: u32)
        ensures
            r == self.hours_len,
    {
        self.hours_len
    }

    fn minutes_len(self) -> (r: u32)
        ensures
            r == self.minutes_len,
    {
        self.minutes_len
    }

    fn seconds_len(self) -> (r: u32)
        ensures
            r == self.seconds_len,
    {
        self.seconds_len
    }

    fn subsecs_len(self) -> (r: u32)
        ensures
            r == 1,
    {
        1
    }

    /// Textual length of the timestamp. For a parsed value this is the
    /// length of the original text, missing leading zeroes included; for a
    /// value built in code it is the canonical formatted length.
    pub fn len(self) -> (r: usize)
        requires
            self.wf(),
        ensures
            r == self.spec_len(),
    {
        (1 + self.hours_len() + 1 + self.minutes_len() + 1 + self.seconds_len() + 1
            + self.subsecs_len() + 1) as usize
    }

    /// Discards the digit widths found while parsing and assumes the
    /// canonical widths that formatting would use.
    pub fn canonicalize_len(self) -> (r: Timestamp)
        requires
            self.wf(),
        ensures
            r == spec_canonical(self.hours, self.minutes, self.seconds, self.subsecs),
    {
        Timestamp::new(self.hours, self.minutes, self.seconds, self.subsecs)
    }

    /// Canonical text of the timestamp: `#`, the hours with at least two
    /// digits, `:`, two minute digits, `:`, two second digits, `-`, the
    /// sub-second digit, `#`.
    pub fn formatted(self) -> (r: Vec<u8>)
        ensures
            r@ == spec_format(self),
    {
        let mut out: Vec<u8> = Vec::new();
        out.push(35);
        push_pad2(&mut out, self.hours);
        out.push(58);
        push_pad2(&mut out, self.minutes);
        out.push(58);
        push_pad2(&mut out, self.seconds);
        out.push(45);
        push_decimal(&mut out, self.subsecs);
        out.push(35);
        proof {
            assert(out@ =~= spec_format(self));
        }
        out
    }
}

impl Default for Timestamp {
    /// The zero timestamp.
    fn default() -> (r: Timestamp)
        ensures
            r == spec_zero(),
    {
        Timestamp::zero()
    }
}

/// Whether rounding up stays within the field bounds: it does not, only
/// when a fractional part would push the hours past their maximum or the
/// minutes of an hour-less timestamp past fifty-nine.
pub open spec fn spec_can_round_up(t: Timestamp) -> bool {
    &&& !(t.hours == MAX_HOURS && !(t.minutes == 0 && t.seconds == 0 && t.subsecs == 0))
    &&& !(t.hours == 0 && t.minutes == 59 && !(t.seconds == 0 && t.subsecs == 0))
}

/// The rounded-up timestamp: the next whole count of the most significant
/// non-zero unit, in canonical digit widths, or the value itself where
/// nothing below that unit is set.
pub open spec fn spec_round_up(t: Timestamp) -> Timestamp {
    if t.hours > 0 {
        if t.minutes == 0 && t.seconds == 0 && t.subsecs == 0 {
            t
        } else {
            spec_canonical((t.hours + 1) as u32, 0, 0, 0)
        }
    } else if t.minutes > 0 {
        if t.seconds == 0 && t.subsecs == 0 {
            t
        } else {
            spec_canonical(0, (t.minutes + 1) as u32, 0, 0)
        }
    } else if t.seconds > 0 {
        spec_canonical(0, 1, 0, 0)
    } else {
        spec_canonical(0, 0, 0, 0)
    }
}

/// The hour count that component-wise addition of two timestamps carries
/// up to, before any bound is applied.
pub open spec fn spec_add_hours_total(a: Timestamp, b: Timestamp) -> int {
    let c1 = (a.subsecs + b.subsecs) / 10;
    let c2 = (c1 + a.seconds + b.seconds) / 60;
    let c3 = (c2 + a.minutes + b.minutes) / 60;
    c3 + a.hours + b.hours
}

/// The component-wise sum of two timestamps, with base-ten carry out of
/// the sub-seconds and base-sixty carries out of seconds and minutes, in
/// canonical digit widths.
pub open spec fn spec_add(a: Timestamp, b: Timestamp) -> Timestamp {
    let su = (a.subsecs + b.subsecs) % 10;
    let c1 = (a.subsecs + b.subsecs) / 10;
    let se = (c1 + a.seconds + b.seconds) % 60;
    let c2 = (c1 + a.seconds + b.seconds) / 60;
    let mi = (c2 + a.minutes + b.minutes) % 60;
    let c3 = (c2 + a.minutes + b.minutes) / 60;
    let ho = c3 + a.hours + b.hours;
    spec_canonical(ho as u32, mi as u32, se as u32, su as u32)
}

/// One base-`wrap_at` digit addition: the wrapped sum and the carry.
fn carrying_add(lhs: u32, rhs: u32, wrap_at: u32) -> (r: (u32, u32))
    requires
        wrap_at > 0,
        lhs + rhs <= u32::MAX,
    ensures
        r.0 == (lhs + rhs) as int % wrap_at as int,
        r.1 == (lhs + rhs) as int / wrap_at as int,
{
    let unwrapped_sum = lhs + rhs;
    let carry = unwrapped_sum / wrap_at;
    let sum = unwrapped_sum % wrap_at;
    (sum, carry)
}

/// Decimal digit bytes of `n`, most significant first, without leading
/// zeroes (the single digit `0` for zero).
pub open spec fn dec_digits(n: int) -> Seq<u8>
    decreases n,
{
    if n <= 9 {
        seq![(48 + if n >= 0 { n } else { 0 }) as u8]
    } else {
        dec_digits(n / 10) + seq![(48 + n % 10) as u8]
    }
}

/// Decimal digit bytes of `n`, padded with one leading zero to at least
/// two digits.
pub open spec fn pad2(n: int) -> Seq<u8> {
    if n <= 9 {
        seq![48u8] + dec_digits(n)
    } else {
        dec_digits(n)
    }
}

/// Canonical text of a timestamp.
pub open spec fn spec_format(t: Timestamp) -> Seq<u8> {
    seq![35u8] + pad2(t.hours as int) + seq![58u8] + pad2(t.minutes as int) + seq![58u8] + pad2(
        t.seconds as int,
    ) + seq![45u8] + dec_digits(t.subsecs as int) + seq![35u8]
}

/// Appends the decimal digits of `n`.
fn push_decimal(out: &mut Vec<u8>, n: u32)
    ensures
        final(out)@ == old(out)@ + dec_digits(n as int),
    decreases n,
{
    if n >= 10 {
        push_decimal(out, n / 10);
    }
    out.push(48 + (n % 10) as u8);
    proof {
        assert(out@ =~= old(out)@ + dec_digits(n as int));
    }
}

/// Appends the decimal digits of `n`, padded to at least two digits.
fn push_pad2(out: &mut Vec<u8>, n: u32)
    ensures
        final(out)@ == old(out)@ + pad2(n as int),
{
    if n <= 9 {
        out.push(48);
    }
    push_decimal(out, n);
    proof {
        assert(out@ =~= old(out)@ + pad2(n as int));
    }
}

/// Length of the scanning window: the canonical textual length of a
/// timestamp, which is also the largest length the window scan can match.
pub const SCAN_WINDOW: usize = 12;

/// The timestamp found by the fixed-size window scan at offset `i`: the
/// window of twelve bytes starting there must parse. Offsets too close to
/// the end of the buffer have no full window and match nothing.
pub open spec fn spec_ts_at(s: Seq<u8>, i: int) -> Option<Timestamp> {
    if 0 <= i && i + SCAN_WINDOW <= s.len() {
        spec_parse(s.subrange(i, i + SCAN_WINDOW as int))
    } else {
        None
    }
}

/// A window match is well formed and fits inside its window.
pub proof fn lemma_ts_at_wf(s: Seq<u8>, i: int)
    requires
        spec_ts_at(s, i) is Some,
    ensures
        spec_ts_at(s, i)->Some_0.wf(),
        9 <= spec_ts_at(s, i)->Some_0.spec_len() <= SCAN_WINDOW,
        i + spec_ts_at(s, i)->Some_0.spec_len() <= s.len(),
{
    lemma_spec_parse_wf(s.subrange(i, i + SCAN_WINDOW as int));
}

/// The rightmost window match at offset `i` or below.
pub open spec fn spec_last_ts_from(s: Seq<u8>, i: int) -> Option<Timestamp>
    decreases i + 1,
{
    if i < 0 {
        None
    } else if spec_ts_at(s, i) is Some {
        spec_ts_at(s, i)
    } else {
        spec_last_ts_from(s, i - 1)
    }
}

/// The rightmost window match anywhere in the buffer.
pub open spec fn spec_last_ts(s: Seq<u8>) -> Option<Timestamp> {
    spec_last_ts_from(s, s.len() - SCAN_WINDOW as int)
}

/// A rightmost match below `i` is a window match, so it is well formed.
proof fn lemma_last_ts_from_wf(s: Seq<u8>, i: int)
    requires
        spec_last_ts_from(s, i) is Some,
    ensures
        spec_last_ts_from(s, i)->Some_0.wf(),
    decreases i + 1,
{
    if i >= 0 {
        if spec_ts_at(s, i) is Some {
            lemma_ts_at_wf(s, i);
        } else {
            lemma_last_ts_from_wf(s, i - 1);
        }
    }
}

/// The rightmost match in a buffer is well formed.
pub proof fn lemma_last_ts_wf(s: Seq<u8>)
    requires
        spec_last_ts(s) is Some,
    ensures
        spec_last_ts(s)->Some_0.wf(),
{
    lemma_last_ts_from_wf(s, s.len() - SCAN_WINDOW as int);
}

/// There is a rightmost match exactly when there is a match at all.
pub proof fn lemma_last_ts_none(s: Seq<u8>, i: int)
    requires
        i >= -1,
    ensures
        spec_last_ts_from(s, i) is None <==> (forall|j: int| j <= i ==> spec_ts_at(s, j) is None),
    decreases i + 1,
{
    if i >= 0 {
        lemma_last_ts_none(s, i - 1);
    }
}

impl Timestamp {
    /// All window matches in the buffer: every offset at which the
    /// twelve-byte window parses as a timestamp, in left-to-right order,
    /// with the parsed value.
    pub fn extract_timestamps(buf: &[u8]) -> (r: Vec<(usize, Timestamp)>)
        ensures
            forall|k: int|
                0 <= k < r@.len() ==> spec_ts_at(buf@, #[trigger] r@[k].0 as int) == Some(r@[k].1),
            forall|k1: int, k2: int| 0 <= k1 < k2 < r@.len() ==> r@[k1].0 < r@[k2].0,
            forall|i: int|
                #[trigger] spec_ts_at(buf@, i) is Some ==> exists|k: int|
                    0 <= k < r@.len() && #[trigger] r@[k].0 == i,
    {
        let mut r: Vec<(usize, Timestamp)> = Vec::new();
        if buf.len() < SCAN_WINDOW {
            assert(forall|i: int| spec_ts_at(buf@, i) is None);
            return r;
        }
        let mut i: usize = 0;
        let end: usize = buf.len() - SCAN_WINDOW;
        while i <= end
            invariant
                end == buf@.len() - SCAN_WINDOW,
                SCAN_WINDOW <= buf@.len(),
                0 <= i <= end + 1,
                forall|k: int|
                    0 <= k < r@.len() ==> spec_ts_at(buf@, #[trigger] r@[k].0 as int) == Some(
                        r@[k].1,
                    ) && r@[k].0 < i,
                forall|k1: int, k2: int| 0 <= k1 < k2 < r@.len() ==> r@[k1].0 < r@[k2].0,
                forall|j: int|
                    0 <= j < i && #[trigger] spec_ts_at(buf@, j) is Some ==> exists|k: int|
                        0 <= k < r@.len() && #[trigger] r@[k].0 == j,
                buf@.len() <= usize::MAX,
            decreases end + 1 - i,
        {
            let ghost r0 = r@;
            let window = vstd::slice::slice_subrange(buf, i, i + SCAN_WINDOW);
            match Timestamp::try_parse_timestamp(window) {
                Some(t) => {
                    r.push((i, t));
                    proof {
                        assert(forall|k: int| 0 <= k < r0.len() ==> r@[k] == r0[k]);
                        assert(r@[r0.len() as int].0 == i as int);
                        assert(spec_ts_at(buf@, i as int) == Some(t));
                    }
                },
                None => {
                    proof {
                        assert(spec_ts_at(buf@, i as int) is None);
                    }
                },
            }
            i = i + 1;
        }
        assert(forall|j: int| j > end ==> spec_ts_at(buf@, j) is None);
        r
    }

    /// The rightmost window match in the buffer, if any.
    pub fn last_timestamp(buf: &[u8]) -> (r: Option<Timestamp>)
        ensures
            r == spec_last_ts(buf@),
    {
        if buf.len() < SCAN_WINDOW {
            assert(spec_last_ts(buf@) is None);
            return None;
        }
        let mut i: usize = buf.len() - SCAN_WINDOW;
        loop
            invariant
                SCAN_WINDOW <= buf@.len(),
                buf@.len() <= usize::MAX,
                0 <= i <= buf@.len() - SCAN_WINDOW,
                spec_last_ts(buf@) == spec_last_ts_from(buf@, i as int),
            decreases i,
        {
            let window = vstd::slice::slice_subrange(buf, i, i + SCAN_WINDOW);
            match Timestamp::try_parse_timestamp(window) {
                Some(t) => {
                    assert(spec_ts_at(buf@, i as int) == Some(t));
                    return Some(t);
                },
                None => {
                    assert(spec_ts_at(buf@, i as int) is None);
                },
            }
            if i == 0 {
                assert(spec_last_ts_from(buf@, -1) is None);
                return None;
            }
            i = i - 1;
        }
    }

    /// Whether any window in the buffer matches a timestamp.
    pub fn contains_timestamps(head: &[u8]) -> (r: bool)
        ensures
            r <==> spec_last_ts(head@) is Some,
    {
        Timestamp::last_timestamp(head).is_some()
    }

    /// Copies the content to `to` verbatim, except that every timestamp
    /// found by the left-to-right window scan is replaced by the canonical
    /// text of the timestamp plus `by`; the scan resumes after each
    /// match. Returns the last shifted timestamp that was written, if any.
    pub fn write_with_adjusted_timestamps(
        to: &mut Vec<u8>,
        content_with_timestamps: &[u8],
        by: Timestamp,
    ) -> (r: Option<Timestamp>)
        requires
            by.wf(),
            spec_rewrite_ok(content_with_timestamps@, by, 0),
        ensures
            final(to)@ == old(to)@ + spec_rewrite_from(content_with_timestamps@, by, 0),
            r == spec_last_adjusted_from(content_with_timestamps@, by, 0),
            match r {
                Some(l) => l.wf(),
                None => true,
            },
    {
        let ghost s = content_with_timestamps@;
        let _n: usize = content_with_timestamps.len();
        assert(s.len() <= usize::MAX);
        let mut last: Option<Timestamp> = None;
        let mut i: usize = 0;
        while i < content_with_timestamps.len()
            invariant
                s == content_with_timestamps@,
                by.wf(),
                0 <= i <= s.len(),
                s.len() <= usize::MAX,
                to@ + spec_rewrite_from(s, by, i as int) == old(to)@ + spec_rewrite_from(
                    s,
                    by,
                    0,
                ),
                spec_last_adjusted_from(s, by, 0) == opt_or(
                    spec_last_adjusted_from(s, by, i as int),
                    last,
                ),
                spec_rewrite_ok(s, by, i as int),
                match last {
                    Some(l) => l.wf(),
                    None => true,
                },
            decreases s.len() - i,
        {
            let mut matched: Option<Timestamp> = None;
            if SCAN_WINDOW <= content_with_timestamps.len() && i <= content_with_timestamps.len()
                - SCAN_WINDOW {
                let window = vstd::slice::slice_subrange(content_with_timestamps, i, i
                    + SCAN_WINDOW);
                matched = Timestamp::try_parse_timestamp(window);
            }
            match matched {
                Some(t) => {
                    proof {
                        assert(spec_ts_at(s, i as int) == Some(t));
                        lemma_ts_at_wf(s, i as int);
                    }
                    let adjusted = t.add(by);
                    let mut f = adjusted.formatted();
                    to.append(&mut f);
                    last = Some(adjusted);
                    i = i + t.len();
                    proof {
                        assert(to@ + spec_rewrite_from(s, by, i as int) =~= old(to)@
                            + spec_rewrite_from(s, by, 0));
                    }
                },
                None => {
                    proof {
                        assert(spec_ts_at(s, i as int) is None);
                    }
                    to.push(content_with_timestamps[i]);
                    i = i + 1;
                    proof {
                        assert(to@ + spec_rewrite_from(s, by, i as int) =~= old(to)@
                            + spec_rewrite_from(s, by, 0));
                    }
                },
            }
        }
        proof {
            assert(to@ =~= to@ + spec_rewrite_from(s, by, i as int));
        }
        last
    }
}

/// The first of two optional timestamps that is present.
spec fn opt_or(a: Option<Timestamp>, b: Option<Timestamp>) -> Option<Timestamp> {
    if a is Some {
        a
    } else {
        b
    }
}

/// The bytes from offset `i` on, with every scan match replaced by the
/// canonical text of the match plus `by`; the scan resumes after each
/// match.
pub open spec fn spec_rewrite_from(s: Seq<u8>, by: Timestamp, i: int) -> Seq<u8>
    decreases s.len() - i
    via spec_rewrite_from_decreases
{
    if i >= s.len() {
        Seq::empty()
    } else if spec_ts_at(s, i) is Some {
        let t = spec_ts_at(s, i)->Some_0;
        spec_format(spec_add(t, by)) + spec_rewrite_from(s, by, i + t.spec_len())
    } else {
        seq![s[i]] + spec_rewrite_from(s, by, i + 1)
    }
}

#[via_fn]
proof fn spec_rewrite_from_decreases(s: Seq<u8>, by: Timestamp, i: int) {
    if i < s.len() && spec_ts_at(s, i) is Some {
        lemma_ts_at_wf(s, i);
    }
}

/// The last shifted timestamp the rewrite of `s` from offset `i` writes.
pub open spec fn spec_last_adjusted_from(s: Seq<u8>, by: Timestamp, i: int) -> Option<Timestamp>
    decreases s.len() - i
    via spec_last_adjusted_from_decreases
{
    if i >= s.len() {
        None
    } else if spec_ts_at(s, i) is Some {
        let t = spec_ts_at(s, i)->Some_0;
        let rest = spec_last_adjusted_from(s, by, i + t.spec_len());
        if rest is Some {
            rest
        } else {
            Some(spec_add(t, by))
        }
    } else {
        spec_last_adjusted_from(s, by, i + 1)
    }
}

#[via_fn]
proof fn spec_last_adjusted_from_decreases(s: Seq<u8>, by: Timestamp, i: int) {
    if i < s.len() && spec_ts_at(s, i) is Some {
        lemma_ts_at_wf(s, i);
    }
}

/// Whether every scan match rewritten from offset `i` on can take the
/// shift `by` without its hour count leaving the field bounds.
pub open spec fn spec_rewrite_ok(s: Seq<u8>, by: Timestamp, i: int) -> bool
    decreases s.len() - i
    via spec_rewrite_ok_decreases
{
    if i >= s.len() {
        true
    } else if spec_ts_at(s, i) is Some {
        let t = spec_ts_at(s, i)->Some_0;
        spec_add_hours_total(t, by) <= MAX_HOURS && spec_rewrite_ok(s, by, i + t.spec_len())
    } else {
        spec_rewrite_ok(s, by, i + 1)
    }
}

#[via_fn]
proof fn spec_rewrite_ok_decreases(s: Seq<u8>, by: Timestamp, i: int) {
    if i < s.len() && spec_ts_at(s, i) is Some {
        lemma_ts_at_wf(s, i);
    }
}

/// A reason a slice is not accepted by the codec.
#[derive(Debug)]
pub enum Error {
    /// The slice does not begin with a well-formed timestamp; the bytes
    /// are kept for reporting.
    Malformed(Vec<u8>),
}

impl Error {
    /// Wraps the bytes that were not recognized as a timestamp.
    pub fn malformed(not_a_timestamp: &[u8]) -> (r: Error)
        ensures
            match r {
                Error::Malformed(v) => v@ == not_a_timestamp@,
            },
    {
        Error::Malformed(vstd::slice::slice_to_vec(not_a_timestamp))
    }
}

/// Canonical digit widths for given field values: two digits for minutes
/// and seconds, and for hours two digits or the actual digit count when
/// the value needs more.
pub open spec fn spec_canonical(hours: u32, minutes: u32, seconds: u32, subsecs: u32) -> Timestamp {
    Timestamp {
        hours,
        minutes,
        seconds,
        subsecs,
        hours_len: if hours < 100 {
            2
        } else if hours < 1000 {
            3
        } else {
            4
        },
        minutes_len: 2,
        seconds_len: 2,
    }
}

/// The zero timestamp in canonical widths.
pub open spec fn spec_zero() -> Timestamp {
    spec_canonical(0, 0, 0, 0)
}

/// Whether a byte is an ASCII decimal digit.
pub open spec fn is_digit(b: u8) -> bool {
    48 <= b <= 57
}

/// Numeric value of an ASCII decimal digit byte.
pub open spec fn digit_val(b: u8) -> int {
    b as int - 48
}

/// Length of the maximal run of digit bytes starting at `i`.
pub open spec fn digit_run_len(s: Seq<u8>, i: int) -> int
    decreases s.len() - i,
{
    if i < 0 || i >= s.len() || !is_digit(s[i]) {
        0
    } else {
        1 + digit_run_len(s, i + 1)
    }
}

/// Numeric value of the `l` digit bytes starting at `i`, read as a decimal
/// number.
pub open spec fn run_value(s: Seq<u8>, i: int, l: int) -> int
    decreases l,
{
    if l <= 0 {
        0
    } else {
        run_value(s, i, l - 1) * 10 + digit_val(s[i + l - 1])
    }
}

/// The timestamp denoted at the start of `s`, if `s` begins with the
/// literal pattern `#`, one to four hour digits (value at most 4095), `:`,
/// one or two minute digits (at most 59), `:`, one or two second digits
/// (at most 59), `-`, exactly one sub-second digit, `#`. Each digit run is
/// maximal; bytes after the closing `#` are ignored. Any deviation means
/// no timestamp is denoted.
pub open spec fn spec_parse(s: Seq<u8>) -> Option<Timestamp> {
    let hl = digit_run_len(s, 1);
    let ml = digit_run_len(s, hl + 2);
    let sl = digit_run_len(s, hl + ml + 3);
    let ul = digit_run_len(s, hl + ml + sl + 4);
    let vh = run_value(s, 1, hl);
    let vm = run_value(s, hl + 2, ml);
    let vs = run_value(s, hl + ml + 3, sl);
    if s.len() >= 1 && s[0] == 35 && 1 <= hl <= 4 && vh <= MAX_HOURS && hl + 1 < s.len()
        && s[hl + 1] == 58 && 1 <= ml <= 2 && vm <= 59 && hl + ml + 2 < s.len()
        && s[hl + ml + 2] == 58 && 1 <= sl <= 2 && vs <= 59 && hl + ml + sl + 3 < s.len()
        && s[hl + ml + sl + 3] == 45 && ul == 1 && hl + ml + sl + 5 < s.len()
        && s[hl + ml + sl + 5] == 35 {
        Some(Timestamp {
            hours: vh as u32,
            minutes: vm as u32,
            seconds: vs as u32,
            subsecs: digit_val(s[hl + ml + sl + 4]) as u32,
            hours_len: hl as u32,
            minutes_len: ml as u32,
            seconds_len: sl as u32,
        })
    } else {
        None
    }
}

/// A maximal digit run has a non-negative length and stays within the
/// buffer.
pub proof fn lemma_digit_run_in_bounds(s: Seq<u8>, i: int)
    requires
        0 <= i <= s.len(),
    ensures
        0 <= digit_run_len(s, i),
        i + digit_run_len(s, i) <= s.len(),
    decreases s.len() - i,
{
    if i < s.len() && is_digit(s[i]) {
        lemma_digit_run_in_bounds(s, i + 1);
    }
}

/// Every byte of a maximal digit run is a digit.
proof fn lemma_digit_run_all_digits(s: Seq<u8>, i: int)
    requires
        0 <= i <= s.len(),
    ensures
        i + digit_run_len(s, i) <= s.len(),
        forall|t: int| i <= t < i + digit_run_len(s, i) ==> is_digit(#[trigger] s[t]),
    decreases s.len() - i,
{
    if i < s.len() && is_digit(s[i]) {
        lemma_digit_run_all_digits(s, i + 1);
    }
}

/// A successful parse yields a well-formed timestamp whose textual length
/// fits within the parsed bytes.
pub proof fn lemma_spec_parse_wf(s: Seq<u8>)
    requires
        spec_parse(s) is Some,
    ensures
        spec_parse(s)->Some_0.wf(),
        9 <= spec_parse(s)->Some_0.spec_len() <= s.len(),
{
    let hl = digit_run_len(s, 1);
    let ml = digit_run_len(s, hl + 2);
    let sl = digit_run_len(s, hl + ml + 3);
    lemma_digit_run_all_digits(s, 1);
    lemma_digit_run_all_digits(s, hl + 2);
    lemma_digit_run_all_digits(s, hl + ml + 3);
    lemma_digit_run_all_digits(s, hl + ml + sl + 4);
    lemma_run_value_bound(s, 1, hl);
    lemma_run_value_bound(s, hl + 2, ml);
    lemma_run_value_bound(s, hl + ml + 3, sl);
}

/// Parses one bounded decimal number: the maximal digit run starting at
/// `pos`, accepted when it is one to `max_len` digits long and its value
/// is at most `max_val`. Returns the value and the digit count.
fn parse_number(s: &[u8], pos: usize, max_len: u32, max_val: u32) -> (r: Option<(u32, u32)>)
    requires
        pos <= s@.len(),
        1 <= max_len <= 4,
        max_val < 10000,
    ensures
        match r {
            Some(p) => {
                &&& p.1 == digit_run_len(s@, pos as int)
                &&& p.0 == run_value(s@, pos as int, p.1 as int)
                &&& 1 <= p.1 <= max_len
                &&& p.0 <= max_val
            },
            None => {
                ||| digit_run_len(s@, pos as int) == 0
                ||| digit_run_len(s@, pos as int) > max_len
                ||| run_value(s@, pos as int, digit_run_len(s@, pos as int)) > max_val
            },
        },
{
    let ghost gs = s@;
    let mut j: usize = pos;
    while j < s.len() && 48 <= s[j] && s[j] <= 57
        invariant
            pos <= j <= gs.len(),
            s@ == gs,
            digit_run_len(gs, pos as int) == j - pos + digit_run_len(gs, j as int),
            forall|t: int| pos <= t < j ==> is_digit(gs[t]),
        decreases gs.len() - j,
    {
        j = j + 1;
    }
    assert(digit_run_len(gs, j as int) == 0);
    let run: usize = j - pos;
    if run == 0 || run > max_len as usize {
        return None;
    }
    let mut v: u32 = 0;
    let mut k: usize = 0;
    while k < run
        invariant
            0 <= k <= run,
            run <= 4,
            pos + run <= gs.len(),
            pos + run <= usize::MAX,
            s@ == gs,
            forall|t: int| pos <= t < pos + run ==> is_digit(gs[t]),
            v == run_value(gs, pos as int, k as int),
            v <= 9999,
        decreases run - k,
    {
        assert(is_digit(gs[pos + k]));
        let b: u8 = s[pos + k];
        v = v * 10 + (b - 48) as u32;
        k = k + 1;
        assert(v <= 9999) by {
            lemma_run_value_bound(gs, pos as int, k as int);
        };
    }
    if v > max_val {
        return None;
    }
    Some((v, run as u32))
}

/// A run of `l` digits denotes a value below `10^l` (stated for the runs
/// the notation allows, up to four digits).
proof fn lemma_run_value_bound(s: Seq<u8>, i: int, l: int)
    requires
        0 <= l <= 4,
        0 <= i,
        i + l <= s.len(),
        forall|t: int| i <= t < i + l ==> is_digit(#[trigger] s[t]),
    ensures
        0 <= run_value(s, i, l) < pow10(l),
    decreases l,
{
    if l > 0 {
        lemma_run_value_bound(s, i, l - 1);
    }
}

/// Powers of ten for the digit widths the notation allows.
pub open spec fn pow10(l: int) -> int {
    if l <= 0 {
        1
    } else if l == 1 {
        10
    } else if l == 2 {
        100
    } else if l == 3 {
        1000
    } else {
        10000
    }
}

/// Value of a whole digit-byte sequence read as a decimal number.
pub open spec fn seq_value(d: Seq<u8>) -> int
    decreases d.len(),
{
    if d.len() == 0 {
        0
    } else {
        seq_value(d.drop_last()) * 10 + digit_val(d.last())
    }
}

/// A bounded digit run read in place denotes the same value as the
/// sequence of its bytes.
proof fn lemma_run_value_is_seq_value(s: Seq<u8>, i: int, l: int)
    requires
        0 <= i,
        0 <= l,
        i + l <= s.len(),
    ensures
        run_value(s, i, l) == seq_value(s.subrange(i, i + l)),
    decreases l,
{
    if l > 0 {
        lemma_run_value_is_seq_value(s, i, l - 1);
        assert(s.subrange(i, i + l).drop_last() =~= s.subrange(i, i + l - 1));
        assert(s.subrange(i, i + l).last() == s[i + l - 1]);
    }
}

/// The decimal digits of a number are digit bytes, their count matches
/// the number's magnitude, and reading them back gives the number.
proof fn lemma_dec_digits_props(n: int)
    requires
        n >= 0,
    ensures
        dec_digits(n).len() >= 1,
        forall|k: int| 0 <= k < dec_digits(n).len() ==> is_digit(#[trigger] dec_digits(n)[k]),
        seq_value(dec_digits(n)) == n,
        n <= 9 ==> dec_digits(n).len() == 1,
        10 <= n <= 99 ==> dec_digits(n).len() == 2,
        100 <= n <= 999 ==> dec_digits(n).len() == 3,
        1000 <= n <= 9999 ==> dec_digits(n).len() == 4,
    decreases n,
{
    if n <= 9 {
        let d = dec_digits(n);
        assert(d.drop_last() =~= Seq::<u8>::empty());
        assert(seq_value(Seq::<u8>::empty()) == 0);
        assert(d.last() == (48 + n) as u8);
        assert(digit_val(d.last()) == n);
        assert(seq_value(d) == n);
    } else {
        lemma_dec_digits_props(n / 10);
        let d = dec_digits(n);
        assert(d.drop_last() =~= dec_digits(n / 10));
        assert(d.last() == (48 + n % 10) as u8);
        assert(seq_value(d) == (n / 10) * 10 + n % 10);
        assert((n / 10) * 10 + n % 10 == n) by (nonlinear_arith);
    }
}

/// The zero-padded decimal digits of a number are digit bytes, their
/// count matches the number's magnitude with a floor of two, and reading
/// them back gives the number.
proof fn lemma_pad2_props(n: int)
    requires
        0 <= n <= 9999,
    ensures
        pad2(n).len() >= 2,
        forall|k: int| 0 <= k < pad2(n).len() ==> is_digit(#[trigger] pad2(n)[k]),
        seq_value(pad2(n)) == n,
        n <= 99 ==> pad2(n).len() == 2,
        100 <= n <= 999 ==> pad2(n).len() == 3,
        1000 <= n <= 9999 ==> pad2(n).len() == 4,
{
    lemma_dec_digits_props(n);
    if n <= 9 {
        let p = pad2(n);
        assert(p.drop_last() =~= seq![48u8]);
        assert(p.last() == dec_digits(n)[0]);
        assert(seq_value(seq![48u8]) == 0) by {
            assert(seq![48u8].drop_last() =~= Seq::<u8>::empty());
            assert(seq_value(Seq::<u8>::empty()) == 0);
            assert(seq![48u8].last() == 48u8);
        };
        assert(seq_value(p) == n);
    }
}

/// A stretch of digit bytes bounded by a non-digit (or the end of the
/// buffer) is exactly the maximal digit run at its start.
proof fn lemma_digit_run_exact(s: Seq<u8>, i: int, l: int)
    requires
        0 <= i,
        0 <= l,
        i + l <= s.len(),
        forall|k: int| i <= k < i + l ==> is_digit(#[trigger] s[k]),
        i + l == s.len() || !is_digit(s[i + l]),
    ensures
        digit_run_len(s, i) == l,
    decreases l,
{
    if l > 0 {
        lemma_digit_run_exact(s, i + 1, l - 1);
    }
}

/// Whether a timestamp carries the canonical digit widths for its field
/// values.
pub open spec fn spec_is_canonical(t: Timestamp) -> bool {
    t == spec_canonical(t.hours, t.minutes, t.seconds, t.subsecs)
}

/// Law: parsing the canonical text of a well-formed timestamp that
/// carries canonical digit widths yields the timestamp itself.
pub proof fn lemma_format_parse_roundtrip(t: Timestamp)
    requires
        t.wf(),
        spec_is_canonical(t),
    ensures
        spec_parse(spec_format(t)) == Some(t),
{
    let f = spec_format(t);
    let h = pad2(t.hours as int);
    let m = pad2(t.minutes as int);
    let sec = pad2(t.seconds as int);
    let u = dec_digits(t.subsecs as int);
    lemma_pad2_props(t.hours as int);
    lemma_pad2_props(t.minutes as int);
    lemma_pad2_props(t.seconds as int);
    lemma_dec_digits_props(t.subsecs as int);
    let hl = h.len() as int;
    let ml = m.len() as int;
    let sl = sec.len() as int;
    assert(u.len() == 1);
    assert(f.len() == hl + ml + sl + 6);
    assert(f[0] == 35);
    assert forall|k: int| 0 <= k < hl implies f[1 + k] == h[k] by {}
    assert(f[hl + 1] == 58);
    assert forall|k: int| 0 <= k < ml implies f[hl + 2 + k] == m[k] by {}
    assert(f[hl + ml + 2] == 58);
    assert forall|k: int| 0 <= k < sl implies f[hl + ml + 3 + k] == sec[k] by {}
    assert(f[hl + ml + sl + 3] == 45);
    assert(f[hl + ml + sl + 4] == u[0]);
    assert(f[hl + ml + sl + 5] == 35);
    lemma_digit_run_exact(f, 1, hl);
    lemma_digit_run_exact(f, hl + 2, ml);
    lemma_digit_run_exact(f, hl + ml + 3, sl);
    lemma_digit_run_exact(f, hl + ml + sl + 4, 1);
    assert(f.subrange(1, 1 + hl) =~= h);
    assert(f.subrange(hl + 2, hl + 2 + ml) =~= m);
    assert(f.subrange(hl + ml + 3, hl + ml + 3 + sl) =~= sec);
    lemma_run_value_is_seq_value(f, 1, hl);
    lemma_run_value_is_seq_value(f, hl + 2, ml);
    lemma_run_value_is_seq_value(f, hl + ml + 3, sl);
    assert(run_value(f, 1, hl) == t.hours);
    assert(run_value(f, hl + 2, ml) == t.minutes);
    assert(run_value(f, hl + ml + 3, sl) == t.seconds);
    assert(digit_val(f[hl + ml + sl + 4]) == t.subsecs);
    assert(spec_parse(f) == Some(t));
}

} // verus!
