# rust_synth

A small polyphonic synthesizer with an on-screen piano, played from the
computer keyboard (AZERTY, C major) or with the mouse.

- `src/` is the verified library (Verus): notes and their names, waveforms,
  the stage machine of the ADSR envelope, the voice bank of the engine, the
  keyboard-to-note mapping, the layout of the on-screen piano, and the player
  state that turns key and mouse events into note commands.
- `app/` is the program around it: audio output (cpal), the window and its
  drawing (eframe/egui), and the floating-point signal processing
  (oscillators, envelope levels, mixing).
- `tests/` runs the library on concrete inputs.
