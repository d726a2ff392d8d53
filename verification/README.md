# patstrap

The server of the Patstrap, a head band with vibration motors that gives
haptic feedback to head pats in VRChat.

- `src/` is the library, verified with Verus: the frames exchanged with the
  strap (`protocol`), the connection state of each device (`device`), the
  saved settings and each device's haptics (`config`), and the decisions of
  device discovery (`discovery`) and of the OSC listeners (`service`).
- `app/` is the program around it: the window, the Bluetooth and network
  connections, the OSC sockets, and the settings file.
- `tests/` runs the library on concrete inputs.
