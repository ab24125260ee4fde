# uni_sync_curve

A CPU-temperature driven fan controller for Lian Li UNI fan hubs, with its
core verified by Verus.

- `src/` is the verified library:
  - `temperature`: temperatures as binary64 bit patterns, with NaN test and
    an integer order key;
  - `config`: the configuration model and the default configuration;
  - `curve`: looking a temperature up on a fan curve (which branch applies,
    and which points bound the temperature), with its laws;
  - `protocol`: the HID reports that set a channel, per hub model;
  - `device`: supported hubs, how an id is shown, and the registry of hubs;
  - `control`: what setting a channel takes (lookup and reports);
  - `sensors`: choosing the CPU temperature among the sensors;
  - `cli`: the options and the configuration path.
- `app/` is the program around it: command line parsing, the JSON file,
  USB HID access, sensor reading, the binary64 interpolation and the loop.
- `tests/` runs the library on concrete values.
