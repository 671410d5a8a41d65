# ptm

A verified toolkit for a four-tape Polynomial Turing Machine.

* `src/` is the library, written in Verus: the binary artifact formats (file header with
  CRC-32, magic numbers, TMTT transition tables, snapshots) with their encoders and decoders,
  tapes and the step-by-step simulator, SystemVerilog generation for Intel Cyclone FPGAs,
  state encodings and resource estimates, and the integer parts of trace analysis (state
  histograms, head movements, pattern and cycle detection). Every function carries a
  contract, and the round trips of the formats, the run of the machine and the properties
  of the encodings are proved.
* `app/` is the command-line program around it (`validate`, `simulate`, `synthesize`,
  `analyze`, `info`), plus what is floating-point arithmetic: the polynomial step bound,
  entropies, variances, utilization and the complexity and anomaly statistics.
* `tests/` runs the library on concrete inputs.
