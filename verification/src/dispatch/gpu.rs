use vstd::prelude::*;

verus! {

/// Threads per block used for every particle-parallel kernel launch.
pub const BLOCK_SIZE: u32 = 128;

/// The number of particles that a launch actually sees: the particle count
/// reduced to the kernel's 32-bit index space.
pub open spec fn launch_width(n: usize) -> nat {
    (n as nat) % 0x1_0000_0000
}

/// Launch geometry for `n` particles: enough blocks of `BLOCK_SIZE` threads to
/// give every (32-bit) particle index a thread, and the block size itself.
pub fn grid_size(n: usize) -> (r: (u32, u32))
    ensures
        r.1 == BLOCK_SIZE,
        r.0 as nat == (launch_width(n) + 127) / 128,
        r.0 as nat * 128 >= launch_width(n),
        launch_width(n) > 0 ==> (r.0 as nat - 1) * 128 < launch_width(n),
        n <= u32::MAX ==> r.0 as nat == (n + 127) / 128,
        n <= u32::MAX ==> r.0 as nat * 128 >= n,
{
    let wide: u64 = n as u64;
    let width: u32 = #[verifier::truncate] (wide as u32);
    assert(wide as u32 == wide % 0x1_0000_0000) by (bit_vector);
    let blocks: u32 = width / BLOCK_SIZE + if width % BLOCK_SIZE == 0 { 0 } else { 1 };
    (blocks, BLOCK_SIZE)
}

/// Number of values in one particle state (position and velocity).
pub const STATE_LEN: usize = 6;

/// Number of values in one extended state: a particle state followed by three padding values.
pub const EXTENDED_STATE_LEN: usize = 9;

/// Copies, in order, the states `src[idx * STATE_LEN .. idx * STATE_LEN + STATE_LEN]`
/// of every index `idx` of `indices` into one flat buffer.
pub fn gather_states<T: Copy>(src: &[T], indices: &[usize], n_particles: usize, n_divisions: usize) -> (r: Vec<T>)
    requires
        forall|k: int| 0 <= k < indices@.len() ==> (#[trigger] indices@[k]) * STATE_LEN + STATE_LEN <= src@.len(),
    ensures
        r@.len() == indices@.len() * STATE_LEN,
        forall|k: int, c: int|
            0 <= k < indices@.len() && 0 <= c < STATE_LEN ==> #[trigger] r@[k * STATE_LEN + c] == src@[indices@[k]
                * STATE_LEN + c],
{
    let src_len: usize = src.len();
    assert(src@.len() == src_len);
    let mut dst: Vec<T> = Vec::new();
    let mut k: usize = 0;
    while k < indices.len()
        invariant
            src@.len() <= usize::MAX,
            k <= indices@.len(),
            forall|q: int| 0 <= q < indices@.len() ==> (#[trigger] indices@[q]) * STATE_LEN + STATE_LEN <= src@.len(),
            dst@.len() == k * STATE_LEN,
            forall|q: int, c: int|
                0 <= q < k && 0 <= c < STATE_LEN ==> #[trigger] dst@[q * STATE_LEN + c] == src@[indices@[q]
                    * STATE_LEN + c],
        decreases indices@.len() - k,
    {
        let idx = indices[k];
        let start = idx * STATE_LEN;
        let mut c: usize = 0;
        while c < STATE_LEN
            invariant
                src@.len() <= usize::MAX,
                k < indices@.len(),
                idx == indices@[k as int],
                start == idx * STATE_LEN,
                start + STATE_LEN <= src@.len(),
                c <= STATE_LEN,
                dst@.len() == k * STATE_LEN + c,
                forall|q: int, d: int|
                    0 <= q < k && 0 <= d < STATE_LEN ==> #[trigger] dst@[q * STATE_LEN + d] == src@[indices@[q]
                        * STATE_LEN + d],
                forall|d: int| 0 <= d < c ==> #[trigger] dst@[k * STATE_LEN + d] == src@[start + d],
            decreases STATE_LEN - c,
        {
            dst.push(src[start + c]);
            c += 1;
        }
        k += 1;
    }
    dst
}

/// For every particle, the states at its (nonnegative) indices into `src`, each
/// copied from `src[idx * STATE_LEN ..]` and followed by three copies of `pad`.
pub fn gather_states_nested_extended<T: Copy>(
    src: &[T],
    indices: &[Vec<isize>],
    n_particles: usize,
    n_divisions: usize,
    pad: T,
) -> (r: Vec<Vec<T>>)
    requires
        forall|p: int, k: int|
            0 <= p < indices@.len() && 0 <= k < indices@[p]@.len() ==> 0 <= #[trigger] indices@[p]@[k] && indices@[p]@[k]
                * STATE_LEN + STATE_LEN <= src@.len(),
    ensures
        r@.len() == indices@.len(),
        forall|p: int| 0 <= p < indices@.len() ==> (#[trigger] r@[p])@.len() == indices@[p]@.len() * EXTENDED_STATE_LEN,
        forall|p: int, k: int, c: int|
            0 <= p < indices@.len() && 0 <= k < indices@[p]@.len() && 0 <= c < EXTENDED_STATE_LEN ==> #[trigger] r@[p]@[k
                * EXTENDED_STATE_LEN + c] == if c < STATE_LEN {
                src@[indices@[p]@[k] * STATE_LEN + c]
            } else {
                pad
            },
{
    let src_len: usize = src.len();
    assert(src@.len() == src_len);
    let mut all: Vec<Vec<T>> = Vec::new();
    let mut p: usize = 0;
    while p < indices.len()
        invariant
            src@.len() <= usize::MAX,
            p <= indices@.len(),
            all@.len() == p,
            forall|q: int, k: int|
                0 <= q < indices@.len() && 0 <= k < indices@[q]@.len() ==> 0 <= #[trigger] indices@[q]@[k] && indices@[q]@[k]
                    * STATE_LEN + STATE_LEN <= src@.len(),
            forall|q: int| 0 <= q < p ==> (#[trigger] all@[q])@.len() == indices@[q]@.len() * EXTENDED_STATE_LEN,
            forall|q: int, k: int, c: int|
                0 <= q < p && 0 <= k < indices@[q]@.len() && 0 <= c < EXTENDED_STATE_LEN ==> #[trigger] all@[q]@[k
                    * EXTENDED_STATE_LEN + c] == if c < STATE_LEN {
                    src@[indices@[q]@[k] * STATE_LEN + c]
                } else {
                    pad
                },
        decreases indices@.len() - p,
    {
        let particle_indices = &indices[p];
        let mut states: Vec<T> = Vec::new();
        let mut k: usize = 0;
        while k < particle_indices.len()
            invariant
                src@.len() <= usize::MAX,
                p < indices@.len(),
                particle_indices@ == indices@[p as int]@,
                k <= particle_indices@.len(),
                forall|q: int, j: int|
                    0 <= q < indices@.len() && 0 <= j < indices@[q]@.len() ==> 0 <= #[trigger] indices@[q]@[j]
                        && indices@[q]@[j] * STATE_LEN + STATE_LEN <= src@.len(),
                states@.len() == k * EXTENDED_STATE_LEN,
                forall|j: int, c: int|
                    0 <= j < k && 0 <= c < EXTENDED_STATE_LEN ==> #[trigger] states@[j * EXTENDED_STATE_LEN + c] == if c
                        < STATE_LEN {
                        src@[particle_indices@[j] * STATE_LEN + c]
                    } else {
                        pad
                    },
            decreases particle_indices@.len() - k,
        {
            assert(0 <= indices@[p as int]@[k as int]);
            let idx = particle_indices[k] as usize;
            let start = idx * STATE_LEN;
            let mut c: usize = 0;
            while c < EXTENDED_STATE_LEN
                invariant
                    src@.len() <= usize::MAX,
                    k < particle_indices@.len(),
                    idx == particle_indices@[k as int],
                    start == idx * STATE_LEN,
                    start + STATE_LEN <= src@.len(),
                    c <= EXTENDED_STATE_LEN,
                    states@.len() == k * EXTENDED_STATE_LEN + c,
                    forall|j: int, d: int|
                        0 <= j < k && 0 <= d < EXTENDED_STATE_LEN ==> #[trigger] states@[j * EXTENDED_STATE_LEN + d] == if d
                            < STATE_LEN {
                            src@[particle_indices@[j] * STATE_LEN + d]
                        } else {
                            pad
                        },
                    forall|d: int|
                        0 <= d < c ==> #[trigger] states@[k * EXTENDED_STATE_LEN + d] == if d < STATE_LEN {
                            src@[start + d]
                        } else {
                            pad
                        },
                decreases EXTENDED_STATE_LEN - c,
            {
                if c < STATE_LEN {
                    states.push(src[start + c]);
                } else {
                    states.push(pad);
                }
                c += 1;
            }
            k += 1;
        }
        all.push(states);
        p += 1;
    }
    all
}

/// How many of the first `k` entries of `flags` are set.
pub open spec fn count_set(flags: Seq<bool>, k: int) -> nat
    decreases k,
{
    if k <= 0 {
        0
    } else {
        count_set(flags, k - 1) + if flags[k - 1] {
            1nat
        } else {
            0nat
        }
    }
}

/// The one entry of `flags` that is set: its index when exactly one is set,
/// and otherwise, as the error, how many are set (none, or more than one).
/// Used to pick the single kernel bundle of an artifact, and the single cubin
/// of that bundle.
pub fn only_match(flags: &[bool]) -> (r: Result<usize, usize>)
    ensures
        r is Ok <==> count_set(flags@, flags@.len() as int) == 1,
        r matches Ok(i) ==> i < flags@.len() && flags@[i as int],
        r matches Err(n) ==> n == count_set(flags@, flags@.len() as int),
{
    let mut found: Option<usize> = None;
    let mut count: usize = 0;
    let mut i: usize = 0;
    while i < flags.len()
        invariant
            i <= flags@.len(),
            count == count_set(flags@, i as int),
            count <= i,
            found matches Some(j) ==> j < i && flags@[j as int] && count >= 1,
            count >= 1 ==> found is Some,
        decreases flags@.len() - i,
    {
        if flags[i] {
            if found.is_none() {
                found = Some(i);
            }
            count += 1;
        }
        i += 1;
    }
    if count == 1 {
        match found {
            Some(j) => Ok(j),
            None => Err(count),
        }
    } else {
        Err(count)
    }
}

} // verus!
