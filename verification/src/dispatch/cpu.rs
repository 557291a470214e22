//! The layout of CPU integration results.

use vstd::prelude::*;

use crate::config::INPUT_STATE_DIM;

verus! {

/// Where component `c` of the state at output time `t` of particle `p` (of
/// `n` particles) lies in a time-major output buffer.
pub open spec fn output_slot(t: int, n: int, p: int, c: int) -> int {
    (t * n + p) * INPUT_STATE_DIM + c
}

proof fn lemma_output_slot_bounds(t: int, n: int, p: int, c: int, times: int)
    requires
        0 <= t < times,
        0 <= p < n,
        0 <= c < INPUT_STATE_DIM,
    ensures
        0 <= output_slot(t, n, p, c),
        output_slot(t, n, p, c) + 1 <= times * n * INPUT_STATE_DIM,
        output_slot(t, n, p, c) == (t * n + p) * 6 + c,
{
    assert(0 <= t * n) by (nonlinear_arith)
        requires
            0 <= t,
            0 <= n,
    ;
    assert((t * n + p + 1) <= times * n) by (nonlinear_arith)
        requires
            0 <= t < times,
            0 <= p < n,
    ;
    assert((t * n + p) * 6 + c + 1 <= times * n * 6) by (nonlinear_arith)
        requires
            (t * n + p + 1) <= times * n,
            0 <= c < 6,
    ;
}

/// Two different (time, component) pairs of one particle have different output slots.
proof fn lemma_output_slot_distinct(t1: int, c1: int, t2: int, c2: int, n: int, p: int)
    requires
        0 <= p < n,
        0 <= t1,
        0 <= t2,
        0 <= c1 < INPUT_STATE_DIM,
        0 <= c2 < INPUT_STATE_DIM,
        output_slot(t1, n, p, c1) == output_slot(t2, n, p, c2),
    ensures
        t1 == t2,
        c1 == c2,
{
    let s1 = t1 * n + p;
    let s2 = t2 * n + p;
    assert(s1 * 6 + c1 == s2 * 6 + c2);
    assert(s1 == s2 && c1 == c2) by (nonlinear_arith)
        requires
            s1 * 6 + c1 == s2 * 6 + c2,
            0 <= c1 < 6,
            0 <= c2 < 6,
    ;
    assert(t1 == t2) by (nonlinear_arith)
        requires
            t1 * n + p == t2 * n + p,
            0 < n,
    ;
}

/// Writes the trajectory of particle `particle` (one state per output time,
/// time-major) into its slots of a time-major output of `particle_count`
/// particles, leaving every other slot as it was.
pub fn store_trajectory<T: Copy>(output: &mut Vec<T>, trajectory: &[T], particle: usize, particle_count: usize)
    requires
        particle < particle_count,
        (trajectory@.len() / (INPUT_STATE_DIM as nat)) * particle_count * INPUT_STATE_DIM <= old(output)@.len(),
    ensures
        final(output)@.len() == old(output)@.len(),
        forall|t: int, c: int|
            0 <= t < trajectory@.len() / (INPUT_STATE_DIM as nat) && 0 <= c < INPUT_STATE_DIM ==> final(output)@[
                #[trigger] output_slot(t, particle_count as int, particle as int, c)] == trajectory@[t * INPUT_STATE_DIM + c],
        forall|t: int, c: int|
            0 <= t < trajectory@.len() / 6 && 0 <= c < 6 ==> final(output)@[(t * particle_count + particle) * 6 + c]
                == #[trigger] trajectory@[t * 6 + c],
        forall|i: int|
            0 <= i < old(output)@.len() && (forall|t: int, c: int|
                0 <= t < trajectory@.len() / (INPUT_STATE_DIM as nat) && 0 <= c < INPUT_STATE_DIM ==> i != #[trigger] output_slot(
                    t,
                    particle_count as int,
                    particle as int,
                    c,
                )) ==> final(output)@[i] == old(output)@[i],
{
    let ghost start = output@;
    let ghost n = particle_count as int;
    let ghost p = particle as int;
    let states = trajectory.len() / INPUT_STATE_DIM;
    let total = output.len();
    let traj_len = trajectory.len();
    let mut t: usize = 0;
    while t < states
        invariant
            particle < particle_count,
            n == particle_count as int,
            p == particle as int,
            states == trajectory@.len() / (INPUT_STATE_DIM as nat),
            states * particle_count * INPUT_STATE_DIM <= start.len(),
            t <= states,
            output@.len() == start.len(),
            total == start.len(),
            traj_len == trajectory@.len(),
            forall|u: int, c: int|
                0 <= u < t && 0 <= c < INPUT_STATE_DIM ==> output@[#[trigger] output_slot(u, n, p, c)]
                    == trajectory@[u * INPUT_STATE_DIM + c],
            forall|i: int|
                0 <= i < start.len() && (forall|u: int, c: int|
                    0 <= u < t && 0 <= c < INPUT_STATE_DIM ==> i != #[trigger] output_slot(u, n, p, c)) ==> output@[i]
                    == start[i],
        decreases states - t,
    {
        assert(t * INPUT_STATE_DIM + INPUT_STATE_DIM <= trajectory@.len()) by (nonlinear_arith)
            requires
                t < states,
                states == trajectory@.len() / 6,
        ;
        let mut c: usize = 0;
        while c < INPUT_STATE_DIM
            invariant
                particle < particle_count,
                n == particle_count as int,
                p == particle as int,
                states == trajectory@.len() / (INPUT_STATE_DIM as nat),
                states * particle_count * INPUT_STATE_DIM <= start.len(),
                t < states,
                t * INPUT_STATE_DIM + INPUT_STATE_DIM <= trajectory@.len(),
                c <= INPUT_STATE_DIM,
                output@.len() == start.len(),
                total == start.len(),
                traj_len == trajectory@.len(),
                forall|u: int, d: int|
                    0 <= u < t && 0 <= d < INPUT_STATE_DIM ==> output@[#[trigger] output_slot(u, n, p, d)]
                        == trajectory@[u * INPUT_STATE_DIM + d],
                forall|d: int|
                    0 <= d < c ==> output@[#[trigger] output_slot(t as int, n, p, d)] == trajectory@[t
                        * INPUT_STATE_DIM + d],
                forall|i: int|
                    0 <= i < start.len() && (forall|u: int, d: int|
                        0 <= u < t && 0 <= d < INPUT_STATE_DIM ==> i != #[trigger] output_slot(u, n, p, d)) && (
                    forall|d: int| 0 <= d < c ==> i != #[trigger] output_slot(t as int, n, p, d)) ==> output@[i]
                        == start[i],
            decreases INPUT_STATE_DIM - c,
        {
            proof {
                lemma_output_slot_bounds(t as int, n, p, c as int, states as int);
            }
            let offset = (t * particle_count + particle) * INPUT_STATE_DIM + c;
            let ghost before = output@;
            output.set(offset, trajectory[t * INPUT_STATE_DIM + c]);
            proof {
                assert forall|u: int, d: int|
                    0 <= u < t && 0 <= d < INPUT_STATE_DIM implies output@[#[trigger] output_slot(u, n, p, d)]
                    == trajectory@[u * INPUT_STATE_DIM + d] by {
                    lemma_output_slot_bounds(u, n, p, d, states as int);
                    assert(before[output_slot(u, n, p, d)] == trajectory@[u * INPUT_STATE_DIM + d]);
                    if output_slot(u, n, p, d) == offset {
                        lemma_output_slot_distinct(u, d, t as int, c as int, n, p);
                    }
                }
                assert forall|d: int|
                    0 <= d < c + 1 implies output@[#[trigger] output_slot(t as int, n, p, d)] == trajectory@[t
                    * INPUT_STATE_DIM + d] by {
                    lemma_output_slot_bounds(t as int, n, p, d, states as int);
                    if d < c {
                        assert(before[output_slot(t as int, n, p, d)] == trajectory@[t * INPUT_STATE_DIM + d]);
                        if output_slot(t as int, n, p, d) == offset {
                            lemma_output_slot_distinct(t as int, d, t as int, c as int, n, p);
                        }
                    }
                }
            }
            c += 1;
        }
        proof {
            assert forall|i: int|
                0 <= i < start.len() && (forall|u: int, d: int|
                    0 <= u < t + 1 && 0 <= d < INPUT_STATE_DIM ==> i != #[trigger] output_slot(u, n, p, d)) implies output@[i]
                == start[i] by {
                assert forall|d: int| 0 <= d < INPUT_STATE_DIM implies i != #[trigger] output_slot(t as int, n, p, d) by {
                    assert(i != output_slot(t as int, n, p, d));
                }
            }
        }
        t += 1;
    }
    assert forall|u: int, c: int|
        0 <= u < trajectory@.len() / 6 && 0 <= c < 6 implies output@[(u * particle_count + particle) * 6 + c]
        == #[trigger] trajectory@[u * 6 + c] by {
        assert(output@[output_slot(u, n, p, c)] == trajectory@[u * INPUT_STATE_DIM + c]);
    }
}

/// Two slots of a time-major output with `n` particles that are equal belong
/// to the same particle, time and component.
proof fn lemma_output_slot_unique(t1: int, p1: int, c1: int, t2: int, p2: int, c2: int, n: int)
    requires
        0 <= p1 < n,
        0 <= p2 < n,
        0 <= t1,
        0 <= t2,
        0 <= c1 < INPUT_STATE_DIM,
        0 <= c2 < INPUT_STATE_DIM,
        output_slot(t1, n, p1, c1) == output_slot(t2, n, p2, c2),
    ensures
        t1 == t2,
        p1 == p2,
        c1 == c2,
{
    let s1 = t1 * n + p1;
    let s2 = t2 * n + p2;
    assert(s1 == s2 && c1 == c2) by (nonlinear_arith)
        requires
            s1 * 6 + c1 == s2 * 6 + c2,
            0 <= c1 < 6,
            0 <= c2 < 6,
    ;
    assert(t1 == t2 && p1 == p2) by (nonlinear_arith)
        requires
            t1 * n + p1 == t2 * n + p2,
            0 <= p1 < n,
            0 <= p2 < n,
            0 <= t1,
            0 <= t2,
    ;
}

/// The value that slot (time `t`, component `c`) of a particle holds once
/// `trajectory` has been stored over a zeroed block: the trajectory's value
/// where it reaches, `zero` beyond its end.
pub open spec fn stored_value<T>(trajectory: Seq<T>, t: int, c: int, zero: T) -> T {
    if t < trajectory.len() / (INPUT_STATE_DIM as nat) {
        trajectory[t * INPUT_STATE_DIM + c]
    } else {
        zero
    }
}

/// The slots of particle `p` in `output` hold `trajectory` stored over `zero`.
pub open spec fn holds_trajectory<T>(output: Seq<T>, trajectory: Seq<T>, p: int, n: int, times: int, zero: T) -> bool {
    forall|t: int, c: int|
        0 <= t < times && 0 <= c < INPUT_STATE_DIM ==> output[#[trigger] output_slot(t, n, p, c)] == stored_value(
            trajectory,
            t,
            c,
            zero,
        )
}

/// Some trajectory that `integrate` can give for particle `p` is what the
/// slots of `p` in `output` hold.
pub open spec fn integrated_into<T, E, F: Fn(usize) -> Result<Vec<T>, E>>(
    integrate: F,
    output: Seq<T>,
    p: int,
    n: int,
    times: int,
    zero: T,
) -> bool {
    exists|trajectory: Vec<T>|
        #[trigger] call_ensures(integrate, (p as usize,), Ok(trajectory)) && holds_trajectory(
            output,
            trajectory@,
            p,
            n,
            times,
            zero,
        )
}

/// `integrate` can succeed on particle `p`.
pub open spec fn integrates<T, E, F: Fn(usize) -> Result<Vec<T>, E>>(integrate: F, p: int) -> bool {
    exists|trajectory: Vec<T>| #[trigger] call_ensures(integrate, (p as usize,), Ok(trajectory))
}

/// Integrates the `particle_count` particles of a stage one after the other,
/// `integrate(p)` giving the trajectory of particle `p` (one state per output
/// time, time-major), and collects them into a time-major output of
/// `times_len` times that starts out as `zero` everywhere. The first particle
/// whose integration fails ends the stage with its error.
pub fn integrate_particles<T: Copy, E, F>(
    particle_count: usize,
    times_len: usize,
    zero: T,
    integrate: F,
) -> (r: Result<Vec<T>, E>) where F: Fn(usize) -> Result<Vec<T>, E>
    requires
        times_len * particle_count * INPUT_STATE_DIM <= usize::MAX,
        forall|p: usize| p < particle_count ==> call_requires(integrate, (p,)),
        forall|p: usize, out: Result<Vec<T>, E>|
            p < particle_count && #[trigger] call_ensures(integrate, (p,), out) ==> (out matches Ok(trajectory)
                ==> trajectory@.len() / (INPUT_STATE_DIM as nat) <= times_len),
    ensures
        r matches Ok(output) ==> {
            &&& output@.len() == times_len * particle_count * INPUT_STATE_DIM
            &&& forall|p: int|
                0 <= p < particle_count ==> #[trigger] integrated_into(
                    integrate,
                    output@,
                    p,
                    particle_count as int,
                    times_len as int,
                    zero,
                )
        },
        r matches Err(e) ==> exists|p: int|
            0 <= p < particle_count && #[trigger] call_ensures(integrate, (p as usize,), Err(e)) && forall|q: int|
                0 <= q < p ==> #[trigger] integrates(integrate, q),
{
    let total = times_len * particle_count * INPUT_STATE_DIM;
    let mut output: Vec<T> = Vec::new();
    while output.len() < total
        invariant
            output@.len() <= total,
            forall|i: int| 0 <= i < output@.len() ==> output@[i] == zero,
        decreases total - output@.len(),
    {
        output.push(zero);
    }
    let ghost n = particle_count as int;
    let ghost times = times_len as int;
    let ghost mut trajectories: Seq<Vec<T>> = Seq::empty();
    proof {
        assert forall|q: int, t: int, c: int|
            0 <= q < particle_count && 0 <= t < times_len && 0 <= c < INPUT_STATE_DIM implies output@[#[trigger] output_slot(
            t,
            n,
            q,
            c,
        )] == zero by {
            lemma_output_slot_bounds(t, n, q, c, times);
        }
    }
    let mut p: usize = 0;
    while p < particle_count
        invariant
            p <= particle_count,
            n == particle_count as int,
            times == times_len as int,
            total == times_len * particle_count * INPUT_STATE_DIM,
            output@.len() == total,
            trajectories.len() == p,
            forall|q: usize| q < particle_count ==> call_requires(integrate, (q,)),
            forall|q: usize, out: Result<Vec<T>, E>|
                q < particle_count && #[trigger] call_ensures(integrate, (q,), out) ==> (out matches Ok(trajectory)
                    ==> trajectory@.len() / (INPUT_STATE_DIM as nat) <= times_len),
            forall|q: int| 0 <= q < p ==> #[trigger] call_ensures(integrate, (q as usize,), Ok(trajectories[q])),
            forall|q: int, t: int, c: int|
                0 <= q < particle_count && 0 <= t < times_len && 0 <= c < INPUT_STATE_DIM ==> output@[#[trigger] output_slot(
                    t,
                    n,
                    q,
                    c,
                )] == if q < p {
                    stored_value(trajectories[q]@, t, c, zero)
                } else {
                    zero
                },
        decreases particle_count - p,
    {
        let outcome = integrate(p);
        let trajectory = match outcome {
            Ok(trajectory) => trajectory,
            Err(e) => {
                proof {
                    assert forall|q: int| 0 <= q < p implies #[trigger] integrates(integrate, q) by {
                        assert(call_ensures(integrate, (q as usize,), Ok(trajectories[q])));
                    }
                    assert(call_ensures(integrate, ((p as int) as usize,), Err(e)));
                }
                return Err(e);
            },
        };
        let ghost before = output@;
        let ghost states = trajectory@.len() / (INPUT_STATE_DIM as nat);
        assert(states * particle_count * INPUT_STATE_DIM <= output@.len()) by (nonlinear_arith)
            requires
                states <= times_len,
                output@.len() == times_len * particle_count * 6,
        ;
        store_trajectory(&mut output, &trajectory, p, particle_count);
        proof {
            trajectories = trajectories.push(trajectory);
            assert forall|q: int| 0 <= q < p + 1 implies #[trigger] call_ensures(
                integrate,
                (q as usize,),
                Ok(trajectories[q]),
            ) by {}
            assert forall|q: int, t: int, c: int|
                0 <= q < particle_count && 0 <= t < times_len && 0 <= c < INPUT_STATE_DIM implies output@[#[trigger] output_slot(
                t,
                n,
                q,
                c,
            )] == if q < p + 1 {
                stored_value(trajectories[q]@, t, c, zero)
            } else {
                zero
            } by {
                lemma_output_slot_bounds(t, n, q, c, times);
                if q == p {
                    if t >= states {
                        assert forall|u: int, d: int| 0 <= u < states && 0 <= d < INPUT_STATE_DIM implies output_slot(t, n, q, c)
                            != #[trigger] output_slot(u, n, p as int, d) by {
                            if output_slot(t, n, q, c) == output_slot(u, n, p as int, d) {
                                lemma_output_slot_unique(t, q, c, u, p as int, d, n);
                            }
                        }
                        assert(before[output_slot(t, n, q, c)] == zero);
                    }
                } else {
                    assert forall|u: int, d: int| 0 <= u < states && 0 <= d < INPUT_STATE_DIM implies output_slot(t, n, q, c)
                        != #[trigger] output_slot(u, n, p as int, d) by {
                        if output_slot(t, n, q, c) == output_slot(u, n, p as int, d) {
                            lemma_output_slot_unique(t, q, c, u, p as int, d, n);
                        }
                    }
                    assert(output@[output_slot(t, n, q, c)] == before[output_slot(t, n, q, c)]);
                }
            }
        }
        p += 1;
    }
    proof {
        assert forall|q: int| 0 <= q < particle_count implies #[trigger] integrated_into(
            integrate,
            output@,
            q,
            particle_count as int,
            times_len as int,
            zero,
        ) by {
            assert(call_ensures(integrate, (q as usize,), Ok(trajectories[q])));
            assert(holds_trajectory(output@, trajectories[q]@, q, n, times, zero));
        }
    }
    Ok(output)
}

} // verus!
