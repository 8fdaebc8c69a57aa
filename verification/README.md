# projecteur_core

The Qt-independent logic of Projecteur, a presenter and spotlight tool for
Linux desktops, written in Verus: every function in `src/` carries a
contract that Verus proves.

- `src/` is the library: the presenter registry and device discovery
  decisions, HID and HID++ decoding, Linux input events, the input-mapping
  data, its `QDataStream` and `KConfig` encodings and the prefix matcher,
  the configuration file and the spotlight settings, the forwarding of a
  grabbed presenter's buttons, the presentation timer, the overlay's
  reaction to presenter events, the control service's decisions, the
  command line, and screen-capture conversions. Public proof functions
  (`lemma_*`) state the laws the library keeps, such as reading back what
  was written.
- `tests/` exercises the library on concrete values.
- `app/` is the program around it: reading the HID tree, creating the
  virtual input devices, serving and calling the session-bus control
  interface, and running the button forwarding loop.
