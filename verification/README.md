# binder

Shows the desktop in a wallpaper window of the Kagami compositor.

The library in `src/` is verified with Verus. It makes no system call: it draws, it
writes and reads messages, and it decides what the program does next.

- `canvas`, `font`, `desktop`: drawing. Every drawing function is specified by the set
  of pixels that it paints; `desktop` states the colour of every pixel of the picture.
- `wire`, `error`: the messages and the errors.
- `reply`, `window`, `shared`, `chunked`: the conversations with Kagami, as functions
  from an answer to the next step, with proofs about whole conversations.
- `startup`, `session`: how Kagami is found, and the course of the program.

`app/` is the program around the library. It performs the steps through the system
library `swiftlib`.
