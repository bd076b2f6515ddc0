# perfwin

The decision and parsing logic of a Windows performance monitor, written in
Verus and proved against its contracts.

- `src/` is the verified library: reading HWiNFO's shared-memory layout and
  numbering repeated sensor names, reading PDH `GPU Engine` instance names,
  repairing `SensorsSM=1` in `HWiNFO64.INI`, choosing, grouping and ranking
  processes, the sample buffer, and the sampling loop's decisions.
- `app/` is the Python extension around it: the sampling thread, Windows
  calls (shared memory, PDH, DXGI, process control), floating-point figures,
  and the pyo3 classes.
- `tests/` runs the library on concrete inputs.
