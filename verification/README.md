# device_cfg

A control service for embedded Linux boards (WiFi, wired Ethernet, CAN and
clock diagnostics, self-update, and a companion daemon), served over HTTP.

- `src/` is the library, written in Verus: every rule the service applies —
  parsing `wpa_cli`, `ip` and `/sys` output, writing and reading the
  `ifupdown` file, validating addresses, NTP arithmetic, release and asset
  selection, mirror order, log trimming, and the step-by-step WiFi scan and
  connect sessions — has its contract proved.
  - `text.rs`, `numeric.rs`: text and number handling stated over `Seq<char>`.
  - `device/`: `wifi`, `netif`, `ethernet`, `system`, `update`, `daemon`.
  - `web/`: the API's request shapes, the diagnostics schedule, the bus-load
    monitor's decisions, log following, and the embedded front end's paths.
- `app/` is the program around it: the axum server, processes, files,
  sockets, HTTP downloads and JSON. It feeds what it reads to the library and
  carries out what the library decides.
- `tests/` runs the library on concrete inputs.

The front end is embedded from `frontend/dist` when the program is built; it
has to be built first.
