# drift

The verified core of `drift`, an orbit integrator for large ensembles of test
particles in galactic potentials.

`src/` is the library, checked with Verus:

- `config`: engines, integration methods, variants and reference implementations.
- `interface`: what the Python-facing layer decides: selector values, access
  flags, recipes attached to particle groups, output-time grids, the container
  graph of a run (labels, explicit dependencies, groups, the stage plan),
  which stage's result goes back to which argument of a run, and the integer
  side of device and throughput information.
- `dispatch`: running the stages of a plan, the time-major layout of results,
  GPU launch geometry, state gathering and kernel-artifact selection, and the
  dependency tree of backgrounds, particle groups and test groups.
- `index_helpers`: bisection over recorded times, and how requested times are
  clamped into the recorded span.
- `integrators`, `engines`, `dopr54_cpu`: which configurations have an
  integrator, the host-side decisions of the GPU driver, and the layout of
  integrator dumps: their tokens, keys and integers.

`app/` is the Python extension around it: PyO3 classes and functions, the
floating-point reference integrators (galpy's DOPR54 and DOP853 schemes,
SciPy helpers), GPU launches and logging.
