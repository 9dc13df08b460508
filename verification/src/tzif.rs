//! Resolves the UTC offset in effect at an instant from a compiled
//! timezone-transition table.
//!
//! The table is a read-only blob in the two-block TZif layout: a legacy
//! 32-bit block followed by a 64-bit block. Each block is a 44-byte header (a
//! 4-byte magic tag, a version byte, 15 reserved bytes, six 4-byte big-endian
//! counts) followed by its body. Only the 64-bit block is read for data: its
//! `timecnt` signed 64-bit transition timestamps, the parallel array of
//! `timecnt` type-index bytes, and the first 4 bytes (the offset, in seconds
//! east of UTC) of the 6-byte local-time-type record the resolved index
//! selects.

use vstd::prelude::*;

use crate::reader::be_i32;
use crate::reader::be_i64;
use crate::reader::be_u32;
use crate::reader::read_i32_be;
use crate::reader::read_i64_be;
use crate::reader::read_u32_be;
use crate::reader::read_u8;

verus! {

/// Why a table was rejected.
///
/// A malformed table is a build defect in the blob that was baked in, not a
/// runtime condition; an instant earlier than the first transition is a
/// caller error. Neither is answered with a made-up offset.
#[derive(Clone, Copy, Debug, PartialEq, Eq, Structural)]
pub enum TzError {
    /// A magic tag or version byte is wrong, the blob is too short for what
    /// its counts announce, it records no transitions, its transitions are
    /// not strictly ascending, or a type index points past the type table.
    Malformed,
    /// The instant predates the first recorded transition, so no interval
    /// covers it.
    BeforeFirstTransition,
}

/// The 4-byte magic tag "TZif" followed by the version byte '2' at `base`.
pub open spec fn magic_ok(s: Seq<u8>, base: int) -> bool {
    &&& s[base] == 0x54u8
    &&& s[base + 1] == 0x5au8
    &&& s[base + 2] == 0x69u8
    &&& s[base + 3] == 0x66u8
    &&& s[base + 4] == 0x32u8
}

/// Body length of the legacy block, from the six counts of its header:
/// isutccnt at byte 20, isstdcnt at 24, leapcnt at 28, timecnt at 32,
/// typecnt at 36, charcnt at 40. The body holds timecnt 4-byte timestamps,
/// timecnt index bytes, typecnt 6-byte records, charcnt abbreviation bytes,
/// leapcnt 8-byte leap records, and isstdcnt + isutccnt flag bytes.
pub open spec fn legacy_body_len(s: Seq<u8>) -> int {
    be_u32(s, 32) * 5 + be_u32(s, 36) * 6 + be_u32(s, 40) + be_u32(s, 28) * 8 + be_u32(s, 24)
        + be_u32(s, 20) as int
}

/// Where the 64-bit block begins.
pub open spec fn block2_base(s: Seq<u8>) -> int {
    44 + legacy_body_len(s)
}

/// Number of transitions recorded in the 64-bit block.
pub open spec fn timecnt(s: Seq<u8>) -> nat {
    be_u32(s, block2_base(s) + 32)
}

/// Number of local-time-type records in the 64-bit block.
pub open spec fn typecnt(s: Seq<u8>) -> nat {
    be_u32(s, block2_base(s) + 36)
}

/// The instant, in epoch seconds, of transition `i` of the 64-bit block.
pub open spec fn transition(s: Seq<u8>, i: int) -> int {
    be_i64(s, block2_base(s) + 44 + 8 * i)
}

/// Where the type-index bytes begin: right after the transition timestamps.
pub open spec fn type_index_base(s: Seq<u8>) -> int {
    block2_base(s) + 44 + 8 * timecnt(s)
}

/// The local-time-type index of transition `i`.
pub open spec fn type_index(s: Seq<u8>, i: int) -> u8 {
    s[type_index_base(s) + i]
}

/// Where the 6-byte local-time-type records begin.
pub open spec fn type_record_base(s: Seq<u8>) -> int {
    type_index_base(s) + timecnt(s)
}

/// One past the last byte the resolver may read.
pub open spec fn data_end(s: Seq<u8>) -> int {
    type_record_base(s) + 6 * typecnt(s)
}

/// The UTC offset, in seconds east of UTC, of local-time-type record `k`:
/// the first 4 bytes of the record, signed big-endian.
pub open spec fn type_offset(s: Seq<u8>, k: int) -> int {
    be_i32(s, type_record_base(s) + 6 * k)
}

/// A structurally sound table: both headers carry the magic tag and version,
/// every byte the resolver may touch is present, at least one transition is
/// recorded, the transitions ascend strictly, and every type index points
/// into the type table.
pub open spec fn wf(s: Seq<u8>) -> bool {
    &&& s.len() >= 44
    &&& magic_ok(s, 0)
    &&& s.len() >= block2_base(s) + 44
    &&& magic_ok(s, block2_base(s))
    &&& s.len() >= data_end(s)
    &&& timecnt(s) >= 1
    &&& forall|i: int, j: int| 0 <= i < j < timecnt(s) ==> transition(s, i) < transition(s, j)
    &&& forall|i: int| 0 <= i < timecnt(s) ==> type_index(s, i) < typecnt(s)
}

/// The largest m <= n such that transition m - 1 is at or before `t`, or 0
/// if every one of the first n transitions is after `t`.
pub open spec fn transitions_through(s: Seq<u8>, t: int, n: nat) -> nat
    decreases n,
{
    if n == 0 {
        0
    } else if transition(s, n - 1) <= t {
        n
    } else {
        transitions_through(s, t, (n - 1) as nat)
    }
}

/// Index of the transition interval covering `t`: the latest transition at
/// or before `t`.
pub open spec fn interval_of(s: Seq<u8>, t: int) -> int {
    transitions_through(s, t, timecnt(s)) - 1
}

/// `n` indexes the transition interval covering `t`: transition n is at or
/// before `t`, and the next transition, if any, is after `t`.
pub open spec fn is_interval_for(s: Seq<u8>, t: int, n: int) -> bool {
    &&& 0 <= n < timecnt(s)
    &&& transition(s, n) <= t
    &&& n + 1 < timecnt(s) ==> t < transition(s, n + 1)
}

/// The offset in effect at `t`: the offset of the local-time-type record
/// that the covering interval's type index selects.
pub open spec fn spec_offset_at(s: Seq<u8>, t: int) -> int {
    type_offset(s, type_index(s, interval_of(s, t)) as int)
}

proof fn lemma_transitions_through(s: Seq<u8>, t: int, n: nat)
    ensures
        transitions_through(s, t, n) <= n,
        transitions_through(s, t, n) > 0 ==> transition(s, transitions_through(s, t, n) - 1) <= t,
        forall|i: int| transitions_through(s, t, n) <= i < n ==> transition(s, i) > t,
    decreases n,
{
    if n > 0 {
        lemma_transitions_through(s, t, (n - 1) as nat);
    }
}

/// The interval covering an instant is unique: no two distinct transition
/// indices both start an interval that contains `t`.
pub proof fn lemma_interval_unique(s: Seq<u8>, t: int, a: int, b: int)
    requires
        wf(s),
        is_interval_for(s, t, a),
        is_interval_for(s, t, b),
    ensures
        a == b,
{
    if a < b {
        assert(transition(s, a + 1) <= transition(s, b) || a + 1 == b);
    }
    if b < a {
        assert(transition(s, b + 1) <= transition(s, a) || b + 1 == a);
    }
}

/// For every instant at or after the first transition of a sound table,
/// exactly one transition interval covers it, and `interval_of` names it.
pub proof fn lemma_interval_exists_unique(s: Seq<u8>, t: int)
    requires
        wf(s),
        t >= transition(s, 0),
    ensures
        is_interval_for(s, t, interval_of(s, t)),
        forall|n: int| is_interval_for(s, t, n) ==> n == interval_of(s, t),
{
    lemma_transitions_through(s, t, timecnt(s));
    let m = transitions_through(s, t, timecnt(s));
    if m == 0 {
        assert(transition(s, 0) > t);
    }
    assert(is_interval_for(s, t, m - 1));
    assert forall|n: int| is_interval_for(s, t, n) implies n == interval_of(s, t) by {
        lemma_interval_unique(s, t, n, m - 1);
    }
}

/// Offsets resolved at `t` and at `t - 1` agree unless `t` is itself a
/// transition instant: the offset only changes at a recorded boundary.
pub proof fn lemma_adjacent_instants(s: Seq<u8>, t: int)
    requires
        wf(s),
        t - 1 >= transition(s, 0),
        forall|i: int| 0 <= i < timecnt(s) ==> transition(s, i) != t,
    ensures
        spec_offset_at(s, t) == spec_offset_at(s, t - 1),
{
    lemma_interval_exists_unique(s, t - 1);
    lemma_interval_exists_unique(s, t);
    let n = interval_of(s, t - 1);
    assert(transition(s, n) != t);
    if n + 1 < timecnt(s) {
        assert(transition(s, n + 1) != t);
    }
    assert(is_interval_for(s, t, n));
}

/// The magic tag "TZif" and version byte '2' stand at `base`.
fn magic_version_ok(buf: &Vec<u8>, base: usize) -> (r: bool)
    requires
        base + 5 <= buf.len(),
    ensures
        r == magic_ok(buf@, base as int),
{
    buf[base] == 0x54 && buf[base + 1] == 0x5a && buf[base + 2] == 0x69 && buf[base + 3] == 0x66
        && buf[base + 4] == 0x32
}

/// Largest index whose element is at or before `t`, in a strictly ascending
/// list that starts at or before `t`.
#[verifier::loop_isolation(false)]
fn latest_at_or_before(v: &Vec<i64>, t: i64) -> (n: usize)
    requires
        v.len() >= 1,
        forall|i: int, j: int| 0 <= i < j < v.len() ==> v@[i] < v@[j],
        v@[0] <= t,
    ensures
        n < v.len(),
        v@[n as int] <= t,
        n + 1 < v.len() ==> t < v@[n + 1],
{
    let mut lo: usize = 0;
    let mut hi: usize = v.len();
    while lo < hi
        invariant
            lo <= hi <= v.len(),
            forall|i: int| 0 <= i < lo ==> v@[i] <= t,
            forall|i: int| hi <= i < v.len() ==> t < v@[i],
        decreases hi - lo,
    {
        let mid = lo + (hi - lo) / 2;
        if v[mid] <= t {
            lo = mid + 1;
        } else {
            hi = mid;
        }
    }
    assert(v@[0] <= t);
    lo - 1
}

/// Resolves the UTC offset, in seconds east of UTC, in effect at instant `t`
/// (epoch seconds) according to the compiled table `table`.
///
/// The legacy 32-bit block is skipped by the byte length its header
/// announces; the 64-bit block is validated and read. An instant equal to a
/// transition uses that transition's own offset; an instant after the last
/// transition uses the last transition's offset. A structurally unsound
/// table answers `Malformed`, an instant before the first transition
/// `BeforeFirstTransition`; neither is covered by any interval, so no offset
/// is invented for them.
#[verifier::loop_isolation(false)]
pub fn resolve_offset(t: i64, table: &Vec<u8>) -> (r: Result<i32, TzError>)
    ensures
        r is Ok <==> wf(table@) && t >= transition(table@, 0),
        r matches Ok(off) ==> off == spec_offset_at(table@, t as int),
        r == Result::<i32, TzError>::Err(TzError::Malformed) <==> !wf(table@),
        r == Result::<i32, TzError>::Err(TzError::BeforeFirstTransition) <==> wf(table@) && t
            < transition(table@, 0),
{
    let ghost s = table@;
    let len = table.len();
    if len < 44 {
        return Err(TzError::Malformed);
    }
    if !magic_version_ok(table, 0) {
        return Err(TzError::Malformed);
    }
    let isutccnt = read_u32_be(table, 20) as u64;
    let isstdcnt = read_u32_be(table, 24) as u64;
    let leapcnt = read_u32_be(table, 28) as u64;
    let timecnt1 = read_u32_be(table, 32) as u64;
    let typecnt1 = read_u32_be(table, 36) as u64;
    let charcnt1 = read_u32_be(table, 40) as u64;
    let b2_wide: u64 = 44 + timecnt1 * 5 + typecnt1 * 6 + charcnt1 + leapcnt * 8 + isstdcnt
        + isutccnt;
    assert(b2_wide == block2_base(s));
    if b2_wide > (len as u64) - 44 {
        return Err(TzError::Malformed);
    }
    let b2 = b2_wide as usize;
    if !magic_version_ok(table, b2) {
        return Err(TzError::Malformed);
    }
    let tc_wide = read_u32_be(table, b2 + 32) as u64;
    let tyc_wide = read_u32_be(table, b2 + 36) as u64;
    assert(tc_wide == timecnt(s) && tyc_wide == typecnt(s));
    if tc_wide * 9 + tyc_wide * 6 > (len as u64) - 44 - b2_wide {
        return Err(TzError::Malformed);
    }
    if tc_wide == 0 {
        return Err(TzError::Malformed);
    }
    let tc = tc_wide as usize;
    let tyc = tyc_wide as usize;
    let trans_base = b2 + 44;

    let mut v: Vec<i64> = Vec::new();
    let mut i: usize = 0;
    while i < tc
        invariant
            i <= tc,
            v@.len() == i,
            trans_base + 8 * tc <= table@.len(),
            trans_base == block2_base(s) + 44,
            tc == timecnt(s),
            s == table@,
            forall|j: int| 0 <= j < i ==> v@[j] == transition(s, j),
        decreases tc - i,
    {
        let x = read_i64_be(table, trans_base + 8 * i);
        v.push(x);
        i = i + 1;
    }

    let mut i: usize = 1;
    while i < tc
        invariant
            1 <= i <= tc || tc < 1,
            v@.len() == tc,
            tc == timecnt(s),
            forall|j: int| 0 <= j < tc ==> v@[j] == transition(s, j),
            forall|p: int, q: int| 0 <= p < q < i ==> v@[p] < v@[q],
        decreases tc - i,
    {
        if v[i - 1] >= v[i] {
            assert(transition(s, i - 1) >= transition(s, i as int));
            return Err(TzError::Malformed);
        }
        i = i + 1;
    }

    let ti_base = trans_base + 8 * tc;
    assert(ti_base == type_index_base(s));
    let mut i: usize = 0;
    while i < tc
        invariant
            i <= tc,
            ti_base + tc <= table@.len(),
            ti_base == type_index_base(s),
            tc == timecnt(s),
            tyc == typecnt(s),
            s == table@,
            forall|j: int| 0 <= j < i ==> type_index(s, j) < typecnt(s),
        decreases tc - i,
    {
        if read_u8(table, ti_base + i) as usize >= tyc {
            assert(type_index(s, i as int) >= typecnt(s));
            return Err(TzError::Malformed);
        }
        i = i + 1;
    }

    assert(wf(s));
    if t < v[0] {
        return Err(TzError::BeforeFirstTransition);
    }

    let n = latest_at_or_before(&v, t);
    proof {
        lemma_interval_exists_unique(s, t as int);
        assert(is_interval_for(s, t as int, n as int));
    }
    let k = read_u8(table, ti_base + n) as usize;
    let rec_base = ti_base + tc;
    assert(rec_base == type_record_base(s));
    assert(k == type_index(s, n as int));
    assert((k as nat) < typecnt(s));
    assert(rec_base + 6 * k + 6 <= rec_base + 6 * tyc);
    assert(rec_base + 6 * tyc == data_end(s) <= table@.len());
    let off = read_i32_be(table, rec_base + 6 * k);
    assert(off == spec_offset_at(s, t as int));
    Ok(off)
}

} // verus!
