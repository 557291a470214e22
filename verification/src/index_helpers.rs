//! Lookup of recorded integration times.
//!
//! Times are exchanged as order keys: integers that compare exactly as the
//! times they stand for do. A buffer of recorded times is step-major: the time
//! of step `s` of particle `p` among `n` particles is at `s * n + p`.

use vstd::prelude::*;

verus! {

/// The recorded time key of step `s` of particle `p` among `n` particles.
pub open spec fn step_key(keys: Seq<i64>, n: int, p: int, s: int) -> i64 {
    keys[s * n + p]
}

/// The steps `0..len` of particle `p` are recorded in nondecreasing time order.
pub open spec fn sorted_steps(keys: Seq<i64>, n: int, p: int, len: int) -> bool {
    forall|i: int, j: int|
        0 <= i <= j < len ==> #[trigger] step_key(keys, n, p, i) <= #[trigger] step_key(keys, n, p, j)
}

/// The bisection over the steps `lo..hi` of particle `p`: the first step of the
/// range whose time lies after `t`, found by halving the range.
pub open spec fn bisect(keys: Seq<i64>, n: int, p: int, t: i64, lo: int, hi: int) -> int
    decreases hi - lo,
{
    if lo < hi {
        let mid = (lo + hi) / 2;
        if step_key(keys, n, p, mid) <= t {
            bisect(keys, n, p, t, mid + 1, hi)
        } else {
            bisect(keys, n, p, t, lo, mid)
        }
    } else {
        lo
    }
}

/// The step that precedes time `t` among the first `len` steps of particle `p`:
/// the step before the bisection point, or step 0 when there is none.
pub open spec fn preceding_step(keys: Seq<i64>, n: int, p: int, len: int, t: i64) -> int {
    let first_after = bisect(keys, n, p, t, 0, len);
    if first_after > 0 {
        first_after - 1
    } else {
        0
    }
}

/// What a lookup of time `t` in the first `len` steps of particle `p` gives:
/// the step that precedes `t` and the time recorded there. That step ends a
/// run of steps at or before `t` (or is step 0 when `t` precedes step 0), and
/// when the steps are in time order it is the last step at or before `t`.
pub open spec fn lookup_result(keys: Seq<i64>, n: int, p: int, len: int, t: i64, key: i64, step: int) -> bool {
    &&& step == preceding_step(keys, n, p, len, t)
    &&& 0 <= step < len
    &&& key == step_key(keys, n, p, step)
    &&& (key <= t && (step + 1 == len || step_key(keys, n, p, step + 1) > t)) || (step == 0 && key > t)
    &&& sorted_steps(keys, n, p, len) ==> forall|s: int|
        0 <= s < len && #[trigger] step_key(keys, n, p, s) <= t ==> s <= step
}

proof fn lemma_slot_in_bounds(n: int, p: int, s: int, len: int)
    requires
        0 <= p < n,
        0 <= s < len,
    ensures
        0 <= s * n + p < len * n,
        s * n + p < (s + 1) * n,
{
    assert(0 <= s * n) by (nonlinear_arith)
        requires
            0 <= s,
            0 <= n,
    ;
    assert((s + 1) * n <= len * n) by (nonlinear_arith)
        requires
            s + 1 <= len,
            0 <= n,
    ;
    assert((s + 1) * n == s * n + n) by (nonlinear_arith);
}

/// A step among the first `len` of particle `p` lies at or before the slot of
/// the last of them.
proof fn lemma_probe_in_bounds(n: int, p: int, s: int, len: int)
    requires
        0 <= n,
        0 <= p,
        0 <= s < len,
    ensures
        0 <= s * n + p <= (len - 1) * n + p,
{
    assert(0 <= s * n <= (len - 1) * n) by (nonlinear_arith)
        requires
            0 <= n,
            0 <= s <= len - 1,
    ;
}

/// The bisection point of `lo..hi` lies in that range, and it splits it where
/// the recorded times cross `t`.
proof fn lemma_bisect_boundary(keys: Seq<i64>, n: int, p: int, t: i64, lo: int, hi: int, len: int)
    requires
        0 <= lo <= hi <= len,
        lo > 0 ==> step_key(keys, n, p, lo - 1) <= t,
        hi < len ==> step_key(keys, n, p, hi) > t,
    ensures
        lo <= bisect(keys, n, p, t, lo, hi) <= hi,
        bisect(keys, n, p, t, lo, hi) > 0 ==> step_key(keys, n, p, bisect(keys, n, p, t, lo, hi) - 1) <= t,
        bisect(keys, n, p, t, lo, hi) < len ==> step_key(keys, n, p, bisect(keys, n, p, t, lo, hi)) > t,
    decreases hi - lo,
{
    if lo < hi {
        let mid = (lo + hi) / 2;
        if step_key(keys, n, p, mid) <= t {
            lemma_bisect_boundary(keys, n, p, t, mid + 1, hi, len);
        } else {
            lemma_bisect_boundary(keys, n, p, t, lo, mid, len);
        }
    }
}

/// On steps in time order, every step at or before `t` comes before the bisection point.
proof fn lemma_sorted_preceding(keys: Seq<i64>, n: int, p: int, len: int, t: i64)
    requires
        sorted_steps(keys, n, p, len),
        0 <= len,
    ensures
        forall|s: int|
            0 <= s < len && #[trigger] step_key(keys, n, p, s) <= t ==> s < bisect(keys, n, p, t, 0, len),
{
    lemma_bisect_boundary(keys, n, p, t, 0, len, len);
    let b = bisect(keys, n, p, t, 0, len);
    assert forall|s: int| 0 <= s < len && #[trigger] step_key(keys, n, p, s) <= t implies s < b by {
        if s >= b {
            assert(step_key(keys, n, p, b) <= step_key(keys, n, p, s));
        }
    }
}


/// `read` gives the recorded key of every slot below `keys.len()`: it can be
/// called on each of them, and what it returns for slot `i` is `keys[i]`.
pub open spec fn reads_keys<F: Fn(usize) -> i64>(read: F, keys: Seq<i64>) -> bool {
    &&& forall|i: usize| (i as int) < keys.len() ==> #[trigger] call_requires(read, (i,))
    &&& forall|i: usize, k: i64| (i as int) < keys.len() && #[trigger] call_ensures(read, (i,), k) ==> k == keys[i as int]
}

/// The slot of step `s` of particle `p` among `n` particles.
pub open spec fn step_slot(n: int, p: int, s: int) -> int {
    s * n + p
}

/// `slot` is the slot of one of the first `len` steps of particle `p`.
pub open spec fn particle_slot(slot: int, n: int, p: int, len: int) -> bool {
    exists|s: int| 0 <= s < len && slot == #[trigger] step_slot(n, p, s)
}

/// The number of binary digits of `n` (0 for 0): `ceil(log2(n + 1))`.
pub open spec fn binary_digits(n: nat) -> nat
    decreases n,
{
    if n == 0 {
        0
    } else {
        1 + binary_digits(n / 2)
    }
}

/// The most slots that a lookup among `filled_len` recorded steps reads: one
/// per halving of the range, and the slot of the step found.
pub open spec fn probe_bound(filled_len: nat) -> nat {
    binary_digits(filled_len) + 1
}

proof fn lemma_binary_digits_grow(a: nat, b: nat)
    requires
        a <= b,
    ensures
        binary_digits(a) <= binary_digits(b),
    decreases b,
{
    if a > 0 {
        lemma_binary_digits_grow(a / 2, b / 2);
    }
}

/// Finds the last step of particle `p`, among its first `filled_len` recorded
/// steps, whose time is at or before `t_end` (step 0 when there is none), by
/// bisection over a buffer of `len` slots read through `read`; returns the key
/// recorded at that step, the step, and the slots read, in order. Only slots
/// of particle `p` among its first `filled_len` steps are read, and at most
/// `probe_bound(filled_len)` of them, whatever `n_particles` and `len` are.
pub fn find_preceding_step_by<F: Fn(usize) -> i64>(
    read: &F,
    len: usize,
    n_particles: usize,
    p: usize,
    filled_len: usize,
    t_end: i64,
) -> (r: (i64, isize, Ghost<Seq<usize>>))
    requires
        1 <= filled_len,
        (filled_len - 1) * n_particles + p < len,
        len <= isize::MAX,
        filled_len <= isize::MAX,
        forall|i: usize| i < len ==> #[trigger] call_requires(*read, (i,)),
    ensures
        r.2@.len() <= probe_bound(filled_len as nat),
        forall|j: int|
            0 <= j < r.2@.len() ==> particle_slot(#[trigger] r.2@[j] as int, n_particles as int, p as int, filled_len as int),
        forall|keys: Seq<i64>|
            keys.len() == len && #[trigger] reads_keys(*read, keys) ==> lookup_result(
                keys,
                n_particles as int,
                p as int,
                filled_len as int,
                t_end,
                r.0,
                r.1 as int,
            ),
{
    let ghost n = n_particles as int;
    let ghost mut probes: Seq<usize> = Seq::empty();
    let mut lo: usize = 0;
    let mut hi: usize = filled_len;
    while lo < hi
        invariant
            0 <= lo <= hi <= filled_len,
            probes.len() + binary_digits((hi - lo) as nat) <= binary_digits(filled_len as nat),
            forall|j: int|
                0 <= j < probes.len() ==> particle_slot(#[trigger] probes[j] as int, n, p as int, filled_len as int),
            (filled_len - 1) * n_particles + p < len,
            forall|i: usize| i < len ==> #[trigger] call_requires(*read, (i,)),
            n == n_particles as int,
            forall|keys: Seq<i64>|
                keys.len() == len && #[trigger] reads_keys(*read, keys) ==> bisect(
                    keys,
                    n,
                    p as int,
                    t_end,
                    lo as int,
                    hi as int,
                ) == bisect(keys, n, p as int, t_end, 0, filled_len as int),
        decreases hi - lo,
    {
        let mid = lo + (hi - lo) / 2;
        assert(mid == (lo + hi) / 2);
        proof {
            lemma_probe_in_bounds(n, p as int, mid as int, filled_len as int);
        }
        let slot = mid * n_particles + p;
        let val = read(slot);
        let ghost (old_lo, old_hi) = (lo, hi);
        if val <= t_end {
            lo = mid + 1;
        } else {
            hi = mid;
        }
        proof {
            let ghost before = probes;
            probes = probes.push(slot);
            assert forall|j: int|
                0 <= j < probes.len() implies particle_slot(#[trigger] probes[j] as int, n, p as int, filled_len as int) by {
                if j < before.len() {
                    assert(probes[j] == before[j]);
                } else {
                    assert(probes[j] == step_slot(n, p as int, mid as int));
                }
            }
            let size = (old_hi - old_lo) as nat;
            assert((hi - lo) as nat <= size / 2);
            lemma_binary_digits_grow((hi - lo) as nat, size / 2);
            assert(binary_digits(size) == 1 + binary_digits(size / 2));
            assert forall|keys: Seq<i64>| keys.len() == len && #[trigger] reads_keys(*read, keys) implies bisect(
                keys,
                n,
                p as int,
                t_end,
                lo as int,
                hi as int,
            ) == bisect(keys, n, p as int, t_end, 0, filled_len as int) by {
                assert(call_ensures(*read, (slot,), val));
                assert(val == step_key(keys, n, p as int, mid as int));
                assert(bisect(keys, n, p as int, t_end, old_lo as int, old_hi as int) == bisect(
                    keys,
                    n,
                    p as int,
                    t_end,
                    lo as int,
                    hi as int,
                ));
            }
        }
    }
    let step: usize = if lo > 0 { lo - 1 } else { 0 };
    proof {
        lemma_probe_in_bounds(n, p as int, step as int, filled_len as int);
    }
    let slot = step * n_particles + p;
    let key = read(slot);
    proof {
        let ghost before = probes;
        probes = probes.push(slot);
        assert forall|j: int|
            0 <= j < probes.len() implies particle_slot(#[trigger] probes[j] as int, n, p as int, filled_len as int) by {
            if j < before.len() {
                assert(probes[j] == before[j]);
            } else {
                assert(probes[j] == step_slot(n, p as int, step as int));
            }
        }
        assert forall|keys: Seq<i64>| keys.len() == len && #[trigger] reads_keys(*read, keys) implies lookup_result(
            keys,
            n,
            p as int,
            filled_len as int,
            t_end,
            key,
            step as int,
        ) by {
            assert(call_ensures(*read, (slot,), key));
            lemma_bisect_boundary(keys, n, p as int, t_end, 0, filled_len as int, filled_len as int);
            if sorted_steps(keys, n, p as int, filled_len as int) {
                lemma_sorted_preceding(keys, n, p as int, filled_len as int, t_end);
            }
            if step + 1 < filled_len {
                lemma_probe_in_bounds(n, p as int, step + 1, filled_len as int);
            }
            assert(step == preceding_step(keys, n, p as int, filled_len as int, t_end));
        }
    }
    (key, step as isize, Ghost(probes))
}

/// Finds the last step of particle `p`, among its first `filled_len` recorded
/// steps, whose time is at or before `t_end` (step 0 when there is none), by
/// bisection; returns the time recorded at that step and the step.
pub fn find_preceding_step(
    time_out: &[i64],
    n_particles: usize,
    p: usize,
    filled_len: usize,
    t_end: i64,
) -> (r: (i64, isize))
    requires
        1 <= filled_len,
        (filled_len - 1) * n_particles + p < time_out@.len(),
        time_out@.len() <= isize::MAX,
        filled_len <= isize::MAX,
    ensures
        lookup_result(time_out@, n_particles as int, p as int, filled_len as int, t_end, r.0, r.1 as int),
{
    let read = |i: usize| -> (k: i64)
        requires
            (i as int) < time_out@.len(),
        ensures
            k == time_out@[i as int],
        { time_out[i] };
    let (key, step, _probes) = find_preceding_step_by(&read, time_out.len(), n_particles, p, filled_len, t_end);
    assert(reads_keys(read, time_out@));
    (key, step)
}

/// The number of recorded steps used for a particle: its filled length, at most
/// the capacity and at least one.
pub open spec fn used_len(filled_len: usize, steps_cap: usize) -> int {
    let capped = if filled_len < steps_cap { filled_len as int } else { steps_cap as int };
    if capped < 1 {
        1
    } else {
        capped
    }
}

/// A requested time moved into `[first, last]`: below `first` it becomes
/// `first`, else above `last` it becomes `last`.
pub open spec fn clamp_time(t: i64, first: i64, last: i64) -> i64 {
    if t < first {
        first
    } else if t > last {
        last
    } else {
        t
    }
}

/// Row `p` of a lookup: for every requested time `ts[j]`, clamped into the
/// recorded time span of particle `p`, the lookup result (`times[j]`, `steps[j]`).
pub open spec fn particle_row(
    keys: Seq<i64>,
    ts: Seq<i64>,
    n: int,
    p: int,
    len: int,
    times: Seq<i64>,
    steps: Seq<isize>,
) -> bool {
    let first = step_key(keys, n, p, 0);
    let last = step_key(keys, n, p, len - 1);
    &&& times.len() == ts.len()
    &&& steps.len() == ts.len()
    &&& forall|j: int|
        0 <= j < ts.len() ==> lookup_result(
            keys,
            n,
            p,
            len,
            clamp_time(ts[j], first, last),
            #[trigger] times[j],
            steps[j] as int,
        )
}

/// How a requested time was brought into a particle's recorded time span.
#[derive(Clone, Copy, Debug, PartialEq, Eq, Structural)]
pub enum Clamp {
    /// The time lies in the span and is looked up as it is.
    Within,
    /// The time lies before the first recorded time, kept at `slot`, and is moved onto it.
    ToFirst { slot: usize },
    /// The time lies after the last recorded time, kept at `slot`, and is moved onto it.
    ToLast { slot: usize },
}

/// How the requested time `t` is clamped into the span of the first `len`
/// recorded steps of particle `p`.
pub open spec fn clamp_of(keys: Seq<i64>, n: int, p: int, len: int, t: i64) -> Clamp {
    if t < step_key(keys, n, p, 0) {
        Clamp::ToFirst { slot: p as usize }
    } else if t > step_key(keys, n, p, len - 1) {
        Clamp::ToLast { slot: ((len - 1) * n + p) as usize }
    } else {
        Clamp::Within
    }
}

/// Row `p` of the clamps of a lookup: for every requested time `ts[j]`, how
/// it was clamped into the recorded time span of particle `p`.
pub open spec fn clamp_row(keys: Seq<i64>, ts: Seq<i64>, n: int, p: int, len: int, clamps: Seq<Clamp>) -> bool {
    &&& clamps.len() == ts.len()
    &&& forall|j: int| 0 <= j < ts.len() ==> #[trigger] clamps[j] == clamp_of(keys, n, p, len, ts[j])
}

/// The lookups of every particle in a buffer of `keys`: row `p` of `times`,
/// `steps` and `clamps` belongs to particle `p`.
pub open spec fn lookup_rows(
    keys: Seq<i64>,
    ts: Seq<i64>,
    n: int,
    steps_cap: usize,
    filled_lens: Seq<usize>,
    rows: int,
    times: Seq<Vec<i64>>,
    steps: Seq<Vec<isize>>,
    clamps: Seq<Vec<Clamp>>,
) -> bool {
    forall|q: int|
        0 <= q < rows ==> {
            &&& particle_row(keys, ts, n, q, used_len(filled_lens[q], steps_cap), (#[trigger] times[q])@, steps[q]@)
            &&& clamp_row(keys, ts, n, q, used_len(filled_lens[q], steps_cap), clamps[q]@)
        }
}

proof fn lemma_rows_push(
    keys: Seq<i64>,
    ts: Seq<i64>,
    n: int,
    steps_cap: usize,
    filled_lens: Seq<usize>,
    rows: int,
    times: Seq<Vec<i64>>,
    steps: Seq<Vec<isize>>,
    clamps: Seq<Vec<Clamp>>,
    times_row: Vec<i64>,
    steps_row: Vec<isize>,
    clamps_row: Vec<Clamp>,
)
    requires
        0 <= rows,
        times.len() == rows,
        steps.len() == rows,
        clamps.len() == rows,
        lookup_rows(keys, ts, n, steps_cap, filled_lens, rows, times, steps, clamps),
        particle_row(keys, ts, n, rows, used_len(filled_lens[rows], steps_cap), times_row@, steps_row@),
        clamp_row(keys, ts, n, rows, used_len(filled_lens[rows], steps_cap), clamps_row@),
    ensures
        lookup_rows(
            keys,
            ts,
            n,
            steps_cap,
            filled_lens,
            rows + 1,
            times.push(times_row),
            steps.push(steps_row),
            clamps.push(clamps_row),
        ),
{
    let t2 = times.push(times_row);
    let s2 = steps.push(steps_row);
    let c2 = clamps.push(clamps_row);
    assert forall|q: int| 0 <= q < rows + 1 implies {
        &&& particle_row(keys, ts, n, q, used_len(filled_lens[q], steps_cap), (#[trigger] t2[q])@, s2[q]@)
        &&& clamp_row(keys, ts, n, q, used_len(filled_lens[q], steps_cap), c2[q]@)
    } by {
        if q < rows {
            assert(t2[q] == times[q]);
            assert(s2[q] == steps[q]);
            assert(c2[q] == clamps[q]);
        }
    }
}

/// What every lookup of particle `p` gives, stated by cases on its filled
/// length: the step found lies among the particle's first
/// `max(1, min(filled_lens[p], steps_cap))` steps and the time returned is
/// the one recorded there; on steps in time order, a requested time at or past
/// the last of those steps finds that last step.
pub open spec fn lookup_laws(
    keys: Seq<i64>,
    ts: Seq<i64>,
    n: int,
    steps_cap: int,
    filled_lens: Seq<usize>,
    times: Seq<Vec<i64>>,
    steps: Seq<Vec<isize>>,
    p: int,
    j: int,
) -> bool {
    let step = steps[p]@[j] as int;
    &&& times[p]@[j] == keys[step * n + p]
    &&& 0 <= step
    &&& filled_lens[p] >= steps_cap ==> {
        &&& step < steps_cap
        &&& (sorted_steps(keys, n, p, steps_cap) && ts[j] >= keys[(steps_cap - 1) * n + p]) ==> step
            == steps_cap - 1
    }
    &&& 1 <= filled_lens[p] < steps_cap ==> {
        &&& step < filled_lens[p]
        &&& (sorted_steps(keys, n, p, filled_lens[p] as int) && ts[j] >= keys[(filled_lens[p] - 1) * n + p])
            ==> step == filled_lens[p] - 1
    }
    &&& filled_lens[p] == 0 ==> step == 0
}

proof fn lemma_row_gives_laws(
    keys: Seq<i64>,
    ts: Seq<i64>,
    n: int,
    steps_cap: usize,
    filled_lens: Seq<usize>,
    times: Seq<Vec<i64>>,
    steps: Seq<Vec<isize>>,
    p: int,
    j: int,
)
    requires
        0 <= p < filled_lens.len(),
        0 <= j < ts.len(),
        steps_cap > 0,
        particle_row(keys, ts, n, p, used_len(filled_lens[p], steps_cap), times[p]@, steps[p]@),
    ensures
        lookup_laws(keys, ts, n, steps_cap as int, filled_lens, times, steps, p, j),
{
    let len = used_len(filled_lens[p], steps_cap);
    let first = step_key(keys, n, p, 0);
    let last = step_key(keys, n, p, len - 1);
    let t = clamp_time(ts[j], first, last);
    assert(lookup_result(keys, n, p, len, t, times[p]@[j], steps[p]@[j] as int));
    let step = steps[p]@[j] as int;
    if sorted_steps(keys, n, p, len) && ts[j] >= last {
        assert(first <= last);
        assert(t == last);
        assert(step_key(keys, n, p, len - 1) <= t);
    }
}

/// For every particle and every requested time, the step that precedes that
/// time (clamped into the particle's recorded time span), the key recorded
/// there, and how the time was clamped; the buffer of `len` slots is read
/// through `read`, and only the slots that the lookups probe are read.
///
/// Row `p` of the results belongs to particle `p`; column `j` to `ts[j]`.
pub fn find_last_times_and_indices_by<F: Fn(usize) -> i64>(
    read: &F,
    len: usize,
    ts: &[i64],
    n_particles: usize,
    steps_cap: usize,
    filled_lens: &[usize],
) -> (r: (Vec<Vec<i64>>, Vec<Vec<isize>>, Vec<Vec<Clamp>>))
    requires
        len == n_particles * steps_cap,
        filled_lens@.len() == n_particles,
        n_particles > 0 ==> steps_cap > 0,
        len <= isize::MAX,
        forall|i: usize| i < len ==> #[trigger] call_requires(*read, (i,)),
    ensures
        r.0@.len() == n_particles,
        r.1@.len() == n_particles,
        r.2@.len() == n_particles,
        forall|keys: Seq<i64>|
            keys.len() == len && #[trigger] reads_keys(*read, keys) ==> lookup_rows(
                keys,
                ts@,
                n_particles as int,
                steps_cap,
                filled_lens@,
                n_particles as int,
                r.0@,
                r.1@,
                r.2@,
            ),
        forall|keys: Seq<i64>, p: int, j: int|
            keys.len() == len && #[trigger] reads_keys(*read, keys) && 0 <= p < n_particles && 0 <= j < ts@.len()
                ==> #[trigger] lookup_laws(keys, ts@, n_particles as int, steps_cap as int, filled_lens@, r.0@, r.1@, p, j),
{
    let mut all_times: Vec<Vec<i64>> = Vec::new();
    let mut all_indices: Vec<Vec<isize>> = Vec::new();
    let mut all_clamps: Vec<Vec<Clamp>> = Vec::new();
    let ghost n = n_particles as int;
    for p in 0..n_particles
        invariant
            len == n_particles * steps_cap,
            filled_lens@.len() == n_particles,
            n_particles > 0 ==> steps_cap > 0,
            len <= isize::MAX,
            forall|i: usize| i < len ==> #[trigger] call_requires(*read, (i,)),
            n == n_particles as int,
            all_times@.len() == p,
            all_indices@.len() == p,
            all_clamps@.len() == p,
            forall|keys: Seq<i64>|
                keys.len() == len && #[trigger] reads_keys(*read, keys) ==> lookup_rows(
                    keys,
                    ts@,
                    n,
                    steps_cap,
                    filled_lens@,
                    p as int,
                    all_times@,
                    all_indices@,
                    all_clamps@,
                ),
    {
        let capped = if filled_lens[p] < steps_cap { filled_lens[p] } else { steps_cap };
        let filled_len = if capped < 1 { 1 } else { capped };
        assert(filled_len == used_len(filled_lens@[p as int], steps_cap));
        assert(filled_len * n_particles <= len) by (nonlinear_arith)
            requires
                filled_len <= steps_cap,
                len == n_particles * steps_cap,
        ;
        assert(filled_len <= filled_len * n_particles) by (nonlinear_arith)
            requires
                n_particles >= 1,
        ;
        proof {
            lemma_slot_in_bounds(n, p as int, 0, filled_len as int);
            lemma_slot_in_bounds(n, p as int, filled_len - 1, filled_len as int);
        }
        assert(0 * n + p == p);
        let last_slot = (filled_len - 1) * n_particles + p;
        let first = read(p);
        let last = read(last_slot);
        let mut times_row: Vec<i64> = Vec::new();
        let mut idx_row: Vec<isize> = Vec::new();
        let mut clamp_row_: Vec<Clamp> = Vec::new();
        for j in 0..ts.len()
            invariant
                p < n_particles,
                1 <= filled_len,
                filled_len * n_particles <= len,
                (filled_len - 1) * n_particles + p < len,
                last_slot == (filled_len - 1) * n_particles + p,
                filled_len <= isize::MAX,
                len <= isize::MAX,
                forall|i: usize| i < len ==> #[trigger] call_requires(*read, (i,)),
                call_ensures(*read, (p,), first),
                call_ensures(*read, (last_slot,), last),
                n == n_particles as int,
                times_row@.len() == j,
                idx_row@.len() == j,
                clamp_row_@.len() == j,
                forall|keys: Seq<i64>|
                    keys.len() == len && #[trigger] reads_keys(*read, keys) ==> {
                        &&& first == step_key(keys, n, p as int, 0)
                        &&& last == step_key(keys, n, p as int, filled_len - 1)
                        &&& forall|k: int|
                            0 <= k < j ==> lookup_result(
                                keys,
                                n,
                                p as int,
                                filled_len as int,
                                clamp_time(ts@[k], first, last),
                                #[trigger] times_row@[k],
                                idx_row@[k] as int,
                            )
                        &&& forall|k: int|
                            0 <= k < j ==> #[trigger] clamp_row_@[k] == clamp_of(
                                keys,
                                n,
                                p as int,
                                filled_len as int,
                                ts@[k],
                            )
                    },
        {
            let t_end = ts[j];
            let (t, clamp) = if t_end < first {
                (first, Clamp::ToFirst { slot: p })
            } else if t_end > last {
                (last, Clamp::ToLast { slot: last_slot })
            } else {
                (t_end, Clamp::Within)
            };
            let (val, idx, _probes) = find_preceding_step_by(read, len, n_particles, p, filled_len, t);
            times_row.push(val);
            idx_row.push(idx);
            clamp_row_.push(clamp);
            proof {
                assert forall|keys: Seq<i64>| keys.len() == len && #[trigger] reads_keys(*read, keys) implies {
                    &&& first == step_key(keys, n, p as int, 0)
                    &&& last == step_key(keys, n, p as int, filled_len - 1)
                    &&& forall|k: int|
                        0 <= k < j + 1 ==> lookup_result(
                            keys,
                            n,
                            p as int,
                            filled_len as int,
                            clamp_time(ts@[k], first, last),
                            #[trigger] times_row@[k],
                            idx_row@[k] as int,
                        )
                    &&& forall|k: int|
                        0 <= k < j + 1 ==> #[trigger] clamp_row_@[k] == clamp_of(keys, n, p as int, filled_len as int, ts@[k])
                } by {
                    assert(call_ensures(*read, ((0 * n + p) as usize,), first));
                }
            }
        }
        let ghost prev_times = all_times@;
        let ghost prev_indices = all_indices@;
        let ghost prev_clamps = all_clamps@;
        all_times.push(times_row);
        all_indices.push(idx_row);
        all_clamps.push(clamp_row_);
        proof {
            assert(all_times@ == prev_times.push(times_row));
            assert(all_indices@ == prev_indices.push(idx_row));
            assert(all_clamps@ == prev_clamps.push(clamp_row_));
            assert forall|keys: Seq<i64>| keys.len() == len && #[trigger] reads_keys(*read, keys) implies lookup_rows(
                keys,
                ts@,
                n,
                steps_cap,
                filled_lens@,
                p + 1,
                all_times@,
                all_indices@,
                all_clamps@,
            ) by {
                assert(particle_row(keys, ts@, n, p as int, filled_len as int, times_row@, idx_row@));
                assert(clamp_row(keys, ts@, n, p as int, filled_len as int, clamp_row_@));
                lemma_rows_push(
                    keys,
                    ts@,
                    n,
                    steps_cap,
                    filled_lens@,
                    p as int,
                    prev_times,
                    prev_indices,
                    prev_clamps,
                    times_row,
                    idx_row,
                    clamp_row_,
                );
            }
        }
    }
    assert forall|keys: Seq<i64>, p: int, j: int|
        keys.len() == len && #[trigger] reads_keys(*read, keys) && 0 <= p < n_particles && 0 <= j < ts@.len()
            implies #[trigger] lookup_laws(
        keys,
        ts@,
        n_particles as int,
        steps_cap as int,
        filled_lens@,
        all_times@,
        all_indices@,
        p,
        j,
    ) by {
        assert(lookup_rows(
            keys,
            ts@,
            n_particles as int,
            steps_cap,
            filled_lens@,
            n_particles as int,
            all_times@,
            all_indices@,
            all_clamps@,
        ));
        assert(particle_row(
            keys,
            ts@,
            n_particles as int,
            p,
            used_len(filled_lens@[p], steps_cap),
            all_times@[p]@,
            all_indices@[p]@,
        ));
        lemma_row_gives_laws(keys, ts@, n_particles as int, steps_cap, filled_lens@, all_times@, all_indices@, p, j);
    }
    (all_times, all_indices, all_clamps)
}

/// For every particle and every requested time, the step that precedes that time
/// (clamped into the particle's recorded time span) and the time recorded there.
///
/// Row `p` of both results belongs to particle `p`; column `j` to `ts[j]`.
pub fn find_last_times_and_indices(
    time_out: &[i64],
    ts: &[i64],
    n_particles: usize,
    steps_cap: usize,
    filled_lens: &[usize],
) -> (r: (Vec<Vec<i64>>, Vec<Vec<isize>>))
    requires
        time_out@.len() == n_particles * steps_cap,
        filled_lens@.len() == n_particles,
        n_particles > 0 ==> steps_cap > 0,
        time_out@.len() <= isize::MAX,
    ensures
        r.0@.len() == n_particles,
        r.1@.len() == n_particles,
        forall|p: int|
            0 <= p < n_particles ==> particle_row(
                time_out@,
                ts@,
                n_particles as int,
                p,
                used_len(filled_lens@[p], steps_cap),
                (#[trigger] r.0@[p])@,
                r.1@[p]@,
            ),
        forall|p: int, j: int|
            0 <= p < n_particles && 0 <= j < ts@.len() ==> #[trigger] lookup_laws(
                time_out@,
                ts@,
                n_particles as int,
                steps_cap as int,
                filled_lens@,
                r.0@,
                r.1@,
                p,
                j,
            ),
{
    let read = |i: usize| -> (k: i64)
        requires
            (i as int) < time_out@.len(),
        ensures
            k == time_out@[i as int],
        { time_out[i] };
    let (times, steps, _clamps) = find_last_times_and_indices_by(
        &read,
        time_out.len(),
        ts,
        n_particles,
        steps_cap,
        filled_lens,
    );
    assert(reads_keys(read, time_out@));
    assert forall|p: int| 0 <= p < n_particles implies particle_row(
        time_out@,
        ts@,
        n_particles as int,
        p,
        used_len(filled_lens@[p], steps_cap),
        (#[trigger] times@[p])@,
        steps@[p]@,
    ) by {}
    assert forall|p: int, j: int| 0 <= p < n_particles && 0 <= j < ts@.len() implies #[trigger] lookup_laws(
        time_out@,
        ts@,
        n_particles as int,
        steps_cap as int,
        filled_lens@,
        times@,
        steps@,
        p,
        j,
    ) by {
        assert(particle_row(
            time_out@,
            ts@,
            n_particles as int,
            p,
            used_len(filled_lens@[p], steps_cap),
            times@[p]@,
            steps@[p]@,
        ));
        lemma_row_gives_laws(time_out@, ts@, n_particles as int, steps_cap, filled_lens@, times@, steps@, p, j);
    }
    (times, steps)
}

} // verus!
