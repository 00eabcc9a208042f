# firefly

Surveillance-data handling for an air-traffic tracker, written in Verus:
the ASTERIX wire formats (categories 001, 002, 019, 020, 021, 034, 048,
062, 063, 065, the FSPEC and the Mode S BDS registers) and the decision
logic of the sensor adapters (OGN/FLARM beacon framing, the community
aggregator's aircraft fields, settings, reconnect and poll pacing,
flight-plan keys and correlation), each with its contract proved.

- `src/` — the verified library. Every item of every category is decoded
  as the integer count of its least significant bit; the encoders and
  decoders of categories 062, 063 and 065 are proved inverse to each other.
- `tests/` — tests of the library on concrete values.
- `app/` — the adapters around it: sockets, HTTP, JSON, the clock, and
  everything computed in floating point (geodesy, units, accuracies).
