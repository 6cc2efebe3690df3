# hyprgradient

Procedural gradient wallpapers for Wayland compositors with wlr-layer-shell.

- `src/` is the verified library (Verus): the configuration model and its
  validation, the stable ordering of color stops, the preparation of the
  gradients to cycle through, the command words shared by the command line
  and the event file, the gradient cycle of the main loop, the integer layout
  of the shader's stop uniforms, and the bookkeeping of per-output surfaces.
- `app/` is the program around it: reading and writing files, watching the
  event file with inotify, parsing TOML, Wayland and EGL/OpenGL.
- `tests/` exercises the library on concrete values.
