# mousedb

A small Linux helper for a mouse with a worn left button. It grabs the physical
mouse with `EVIOCGRAB`, drops accidental second clicks and contact bounce, and
re-emits the cleaned events through `/dev/uinput` as a virtual mouse. It works
under Wayland because it sits below the compositor.

    sudo mousedb /dev/input/by-id/YOUR_MOUSE-event-mouse 80

`80` is the press window in milliseconds; good values are usually 50 to 120.
Pick the physical mouse's event node, not the virtual device named
`debounced virtual mouse`. Run the program without arguments for the options.

## Layout

`src/` is the library, verified with Verus:

- `filter`: the debounce state machine;
- `wire`: batches of raw records in, batches of raw records out;
- `event`: input events and their byte layout;
- `time`: instants, durations and deadlines;
- `session`: what the program does next;
- `device`: the virtual mouse and how it is set up;
- `args`: the command line;
- `text`: reading, splitting and writing text;
- `codes`: the kernel's numbers;
- `laws`: what the filter promises over any number of batches.

`app/` is the program around it: system calls, the clock, standard error.
`tests/` runs the library on concrete events.
