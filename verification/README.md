# dsh_launcher

A tray launcher for Windows that keeps the DeepSeek Harness web service alive, with
its decisions verified by Verus.

- `src/` is the library: everything the launcher decides, parses, formats or orders,
  as functions and step-by-step machines with contracts. It does no I/O. Calls into
  the standard library and the `image` crate that Verus cannot read stand behind a
  few small functions with stated contracts.
- `app/` is the program around it: threads, files, sockets, Win32 calls, the event
  loop and the tray icon. It performs what a machine asks for and hands back what
  came of it.
- `tests/` runs the library on concrete values.

The laws of the library, such as that a notice is shown once per version, that a
process which is not the service's is never ended, or that every opened handle is
closed, are the public proof functions whose names begin with `law_`.

The program reads its icon from `icons/DeepSeekHarness-WhaleGirl.ico` beside the
executable.
