//! Maps a calendar date to one of eight lunar-phase symbols through a sparse
//! calendar of primary-phase dates.
//!
//! The calendar is authored data: an ascending, duplicate-free list of the
//! dates on which a primary phase (new moon, first quarter, full moon, last
//! quarter) occurs over a fixed multi-year window, together with the phase of
//! its first entry. Each successive entry advances the cycle position by
//! exactly two symbol steps, so a date found at entry n carries the phase
//! `start + 2n`, and a date falling between entries carries the symbol one
//! step before the phase the next entry will mark, `start + 2n + 7` modulo 8.

use vstd::arithmetic::div_mod::lemma_add_mod_noop;
use vstd::arithmetic::div_mod::lemma_mul_mod_noop_right;
use vstd::prelude::*;

verus! {

/// A calendar date, ordered lexicographically by (year, month, day).
#[derive(Clone, Copy, Debug, PartialEq, Eq, Structural)]
pub struct Date {
    pub year: i32,
    pub month: u8,
    pub day: u8,
}

/// `a` falls strictly earlier than `b`.
pub open spec fn date_before(a: Date, b: Date) -> bool {
    ||| a.year < b.year
    ||| (a.year == b.year && a.month < b.month)
    ||| (a.year == b.year && a.month == b.month && a.day < b.day)
}

impl Date {
    /// Lexicographic comparison on (year, month, day).
    pub fn before(&self, other: &Date) -> (r: bool)
        ensures
            r == date_before(*self, *other),
    {
        self.year < other.year || (self.year == other.year && self.month < other.month) || (
        self.year == other.year && self.month == other.month && self.day < other.day)
    }
}

/// The eight stages of the lunar cycle, in cycle order: the four primary
/// phases interleaved with the four transitional stages between them.
#[derive(Clone, Copy, Debug, PartialEq, Eq, Structural)]
pub enum Phase {
    NewMoon,
    WaxingCrescent,
    FirstQuarter,
    WaxingGibbous,
    FullMoon,
    WaningGibbous,
    LastQuarter,
    WaningCrescent,
}

/// Cycle position of a phase, 0 through 7.
pub open spec fn phase_index(p: Phase) -> int {
    match p {
        Phase::NewMoon => 0,
        Phase::WaxingCrescent => 1,
        Phase::FirstQuarter => 2,
        Phase::WaxingGibbous => 3,
        Phase::FullMoon => 4,
        Phase::WaningGibbous => 5,
        Phase::LastQuarter => 6,
        Phase::WaningCrescent => 7,
    }
}

/// The phase at cycle position `i`; positions are always taken modulo 8.
pub open spec fn phase_at_index(i: int) -> Phase {
    let k = i % 8;
    if k == 0 {
        Phase::NewMoon
    } else if k == 1 {
        Phase::WaxingCrescent
    } else if k == 2 {
        Phase::FirstQuarter
    } else if k == 3 {
        Phase::WaxingGibbous
    } else if k == 4 {
        Phase::FullMoon
    } else if k == 5 {
        Phase::WaningGibbous
    } else if k == 6 {
        Phase::LastQuarter
    } else {
        Phase::WaningCrescent
    }
}

/// The symbol of a phase: the Unicode glyph for that stage of the cycle.
pub open spec fn spec_emoji(p: Phase) -> char {
    match p {
        Phase::NewMoon => '\u{1f311}',
        Phase::WaxingCrescent => '\u{1f312}',
        Phase::FirstQuarter => '\u{1f313}',
        Phase::WaxingGibbous => '\u{1f314}',
        Phase::FullMoon => '\u{1f315}',
        Phase::WaningGibbous => '\u{1f316}',
        Phase::LastQuarter => '\u{1f317}',
        Phase::WaningCrescent => '\u{1f318}',
    }
}

impl Phase {
    /// Cycle position of this phase, 0 through 7.
    pub fn cycle_index(&self) -> (i: u8)
        ensures
            i == phase_index(*self),
            i < 8,
    {
        match self {
            Phase::NewMoon => 0,
            Phase::WaxingCrescent => 1,
            Phase::FirstQuarter => 2,
            Phase::WaxingGibbous => 3,
            Phase::FullMoon => 4,
            Phase::WaningGibbous => 5,
            Phase::LastQuarter => 6,
            Phase::WaningCrescent => 7,
        }
    }

    /// The phase at cycle position `i`.
    pub fn from_cycle_index(i: u8) -> (p: Phase)
        requires
            i < 8,
        ensures
            p == phase_at_index(i as int),
    {
        proof {
            vstd::arithmetic::div_mod::lemma_small_mod(i as nat, 8);
        }
        if i == 0 {
            Phase::NewMoon
        } else if i == 1 {
            Phase::WaxingCrescent
        } else if i == 2 {
            Phase::FirstQuarter
        } else if i == 3 {
            Phase::WaxingGibbous
        } else if i == 4 {
            Phase::FullMoon
        } else if i == 5 {
            Phase::WaningGibbous
        } else if i == 6 {
            Phase::LastQuarter
        } else {
            Phase::WaningCrescent
        }
    }

    /// The Unicode glyph for this phase.
    pub fn as_emoji(&self) -> (c: char)
        ensures
            c == spec_emoji(*self),
    {
        match self {
            Phase::NewMoon => '\u{1f311}',
            Phase::WaxingCrescent => '\u{1f312}',
            Phase::FirstQuarter => '\u{1f313}',
            Phase::WaxingGibbous => '\u{1f314}',
            Phase::FullMoon => '\u{1f315}',
            Phase::WaningGibbous => '\u{1f316}',
            Phase::LastQuarter => '\u{1f317}',
            Phase::WaningCrescent => '\u{1f318}',
        }
    }
}

/// The eight symbols are pairwise distinct, and walking the cycle in
/// position order walks their code points in strictly ascending order.
pub proof fn lemma_symbols_distinct_and_ordered()
    ensures
        forall|i: int, j: int|
            0 <= i < j < 8 ==> spec_emoji(phase_at_index(i)) != spec_emoji(phase_at_index(j)),
        forall|i: int, j: int|
            0 <= i < j < 8 ==> (spec_emoji(phase_at_index(i)) as u32) < (spec_emoji(
                phase_at_index(j),
            ) as u32),
{
    assert forall|i: int, j: int| 0 <= i < j < 8 implies (spec_emoji(phase_at_index(i)) as u32) < (
    spec_emoji(phase_at_index(j)) as u32) by {
        vstd::arithmetic::div_mod::lemma_small_mod(i as nat, 8);
        vstd::arithmetic::div_mod::lemma_small_mod(j as nat, 8);
    }
    assert forall|i: int, j: int| 0 <= i < j < 8 implies spec_emoji(phase_at_index(i)) != spec_emoji(
        phase_at_index(j),
    ) by {
        vstd::arithmetic::div_mod::lemma_small_mod(i as nat, 8);
        vstd::arithmetic::div_mod::lemma_small_mod(j as nat, 8);
    }
}

/// Entries ascend strictly under the lexicographic date order.
pub open spec fn ascending(e: Seq<Date>) -> bool {
    forall|i: int, j: int| 0 <= i < j < e.len() ==> date_before(e[i], e[j])
}

/// The largest m <= n such that entry m - 1 falls strictly before `d`, or 0
/// if none of the first n entries does.
pub open spec fn entries_before(e: Seq<Date>, d: Date, n: nat) -> nat
    decreases n,
{
    if n == 0 {
        0
    } else if date_before(e[n - 1], d) {
        n
    } else {
        entries_before(e, d, (n - 1) as nat)
    }
}

/// Cycle position carried by date `d` under calendar `e` whose first entry
/// has position `start`: `start + 2n` on primary-phase day n, one step
/// before the upcoming entry's phase otherwise.
pub open spec fn spec_resolve_position(e: Seq<Date>, start: int, d: Date) -> int {
    let m = entries_before(e, d, e.len());
    if m < e.len() && e[m as int] == d {
        start + 2 * m
    } else {
        start + 2 * m + 7
    }
}

/// The symbol date `d` resolves to under calendar `e` with start position
/// `start`.
pub open spec fn spec_resolve_phase(e: Seq<Date>, start: int, d: Date) -> Phase {
    phase_at_index(spec_resolve_position(e, start, d))
}

proof fn lemma_entries_before(e: Seq<Date>, d: Date, n: nat)
    ensures
        entries_before(e, d, n) <= n,
        entries_before(e, d, n) > 0 ==> date_before(e[entries_before(e, d, n) - 1], d),
        forall|i: int| entries_before(e, d, n) <= i < n ==> !date_before(e[i], d),
    decreases n,
{
    if n > 0 {
        lemma_entries_before(e, d, (n - 1) as nat);
    }
}

/// A sparse calendar of primary-phase dates and the phase of its first
/// entry; the entries ascend strictly.
#[derive(Debug)]
pub struct PhaseCalendar {
    pub entries: Vec<Date>,
    pub start: Phase,
}

impl PhaseCalendar {
    /// The calendar's invariant: its entries ascend strictly, so they are
    /// duplicate-free and binary search over them is meaningful.
    pub open spec fn wf(&self) -> bool {
        ascending(self.entries@)
    }

    /// Builds a calendar after checking that `entries` ascends strictly;
    /// authored data that does not is rejected, never reordered silently.
    #[verifier::loop_isolation(false)]
    pub fn new(entries: Vec<Date>, start: Phase) -> (r: Option<PhaseCalendar>)
        ensures
            r is Some <==> ascending(entries@),
            r matches Some(c) ==> c.entries@ == entries@ && c.start == start && c.wf(),
    {
        let mut i: usize = 1;
        while i < entries.len()
            invariant
                1 <= i,
                forall|p: int, q: int| 0 <= p < q < i && q < entries@.len() ==> date_before(
                    entries@[p],
                    entries@[q],
                ),
            decreases entries.len() - i,
        {
            if !entries[i - 1].before(&entries[i]) {
                return None;
            }
            proof {
                assert forall|p: int| 0 <= p < i - 1 implies date_before(
                    entries@[p],
                    entries@[i as int],
                ) by {
                    assert(date_before(entries@[p], entries@[i - 1]));
                }
            }
            i = i + 1;
        }
        Some(PhaseCalendar { entries, start })
    }

    /// How many entries the calendar holds.
    pub fn len(&self) -> (n: usize)
        ensures
            n == self.entries@.len(),
    {
        self.entries.len()
    }

    /// Resolves the phase symbol of date `d`.
    ///
    /// A date found in the calendar at entry n is a primary-phase day and
    /// carries position `start + 2n`; a date between entries, with n entries
    /// before it, carries position `start + 2n + 7`, one symbol step before
    /// the phase the next entry will mark. Positions are taken modulo 8.
    ///
    /// Dates outside the window the calendar was authored for still resolve
    /// (the computation is total), but the answer is only as meaningful as
    /// the calendar that was supplied; rejecting such dates is the caller's
    /// charge.
    #[verifier::loop_isolation(false)]
    pub fn resolve_phase(&self, d: Date) -> (p: Phase)
        requires
            self.wf(),
        ensures
            p == spec_resolve_phase(self.entries@, phase_index(self.start), d),
    {
        let ghost e = self.entries@;
        let len = self.entries.len();
        let mut lo: usize = 0;
        let mut hi: usize = len;
        while lo < hi
            invariant
                lo <= hi <= len,
                forall|i: int| 0 <= i < lo ==> date_before(e[i], d),
                forall|i: int| hi <= i < len ==> !date_before(e[i], d),
            decreases hi - lo,
        {
            let mid = lo + (hi - lo) / 2;
            if self.entries[mid].before(&d) {
                proof {
                    assert forall|i: int| 0 <= i < mid + 1 implies date_before(e[i], d) by {
                        if i < mid {
                            assert(date_before(e[i], e[mid as int]));
                        }
                    }
                }
                lo = mid + 1;
            } else {
                proof {
                    assert forall|i: int| mid <= i < len implies !date_before(e[i], d) by {
                        if mid < i && date_before(e[i], d) {
                            assert(date_before(e[mid as int], e[i]));
                            assert(date_before(e[mid as int], d));
                        }
                    }
                }
                hi = mid;
            }
        }
        proof {
            lemma_entries_before(e, d, e.len());
            let m = entries_before(e, d, e.len());
            if m > lo {
                assert(date_before(e[m - 1], d));
                assert(!date_before(e[m - 1], d));
            }
            if m < lo {
                assert(date_before(e[lo - 1], d));
                assert(!date_before(e[lo - 1], d));
            }
            assert(lo == m);
        }
        let start_idx = self.start.cycle_index() as usize;
        let found = lo < len && self.entries[lo] == d;
        let m8 = lo % 8;
        let pos = if found {
            start_idx + 2 * m8
        } else {
            start_idx + 2 * m8 + 7
        };
        proof {
            let start = phase_index(self.start);
            lemma_mul_mod_noop_right(2, lo as int, 8);
            lemma_add_mod_noop(start, 2 * (lo as int), 8);
            lemma_add_mod_noop(start + 2 * (lo as int), 7, 8);
            lemma_add_mod_noop(start, 2 * ((lo as int) % 8), 8);
            lemma_add_mod_noop(start + 2 * ((lo as int) % 8), 7, 8);
            assert(pos % 8 == spec_resolve_position(e, start, d) % 8);
        }
        Phase::from_cycle_index((pos % 8) as u8)
    }
}

/// Resolving the same date against the same calendar twice yields the same
/// symbol: the answer is a function of the calendar and the date alone, so
/// the resolver is idempotent and total over the window the calendar covers.
pub proof fn lemma_resolve_phase_deterministic(
    e: Seq<Date>,
    start: int,
    d: Date,
    p1: Phase,
    p2: Phase,
)
    requires
        p1 == spec_resolve_phase(e, start, d),
        p2 == spec_resolve_phase(e, start, d),
    ensures
        p1 == p2,
{
}

/// A well-formed calendar ascends strictly: every earlier entry falls
/// strictly before every later one, so no date appears twice.
pub proof fn lemma_calendar_ascending(c: &PhaseCalendar)
    requires
        c.wf(),
    ensures
        forall|i: int, j: int|
            0 <= i < j < c.entries@.len() ==> date_before(c.entries@[i], c.entries@[j]),
        forall|i: int, j: int| 0 <= i < j < c.entries@.len() ==> c.entries@[i] != c.entries@[j],
{
    assert forall|i: int, j: int| 0 <= i < j < c.entries@.len() implies c.entries@[i]
        != c.entries@[j] by {
        assert(date_before(c.entries@[i], c.entries@[j]));
    }
}

} // verus!
