# onefarm

An auto-farming assistant for an Android farming game running in the LDPlayer
emulator on Windows. It captures the emulator's screen, finds buttons and items by
template matching on a normalised 960 x 540 screen, and clicks through scripts that
buy seeds and tools, harvest and sell, and check the seed templates.

## Layout

- `src/` — the library, verified with Verus:
  - `matching.rs`, `recognize.rs`, `recognize_fast.rs`: the template matcher and
    its model (first window in row-major order whose quick probes pass and whose mean
    difference is below the threshold);
  - `templates.rs`: the template store, the variant search and occurrence counting;
  - `digits.rs`: reading the quantity printed above the purchase slider;
  - `screen.rs`, `input.rs`: from a captured frame to the normalised screen, and from
    screen coordinates back to clicks and swipes in the window;
  - `shop.rs`, `buying.rs`, `purchase.rs`, `checking.rs`, `harvest.rs`, `login.rs`: the
    decisions of the scripts (opening a shop, buying targets round by round and each
    purchase step by step, the seed check, the harvest-and-sell state machine and the
    sale's last confirmation, bringing the game up);
  - `tally.rs`, `cancel.rs`, `ordering.rs`: purchase totals and history, stop
    requests, and the order of names;
  - `config.rs`, `device.rs`, `adb.rs`, `diagnostics.rs`, `utils.rs`, `text.rs`,
    `textsplit.rs`: settings, the emulator console's instance list, the adb wire
    format, the template tests, and text helpers.
- `tests/` — tests of the library on concrete screens and inputs.
- `app/` — the Tauri program: Windows capture and input, files, the console
  process, the adb connection, and the drivers that run the scripts with the
  library's decisions.
