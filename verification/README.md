# machine_code

A Windows tool that reads the machine's hardware identifiers (MAC address,
motherboard, CPU, disk, system UUID, BIOS serial, computer name), turns them
into a stable machine code, shows them in a native window and serves them
to web pages through a localhost HTTP API once the user has authorized it.

The library under `src/` holds the logic, verified with Verus:

- `hardware`: accepting or rejecting raw identifier values, trying sources
  in order, the machine code (SHA-256 of the sorted, normalised readings)
  and its confidence level;
- `mac`, `smbios`, `sources`: turning what the system returns (adapter
  lists, raw SMBIOS tables, storage descriptors, WMI rows, `wmic` output)
  into values;
- `server`, `state`: reading request heads, routing, the answers of the API
  and the shared authorization state;
- `remote_content`, `json`: reading the server's reply as JSON (through
  `serde_json`), finding the agreement texts in it, and the PowerShell
  command that fetches it;
- `ui`, `diagnostics`: what the window shows and does, and the log format;
- `text`, `order`, `crypto`: the character, ordering and digest operations
  the rest is specified with.

`app/` is the program around it: Win32 calls, WMI, processes, sockets and
files. `tests/` runs the library on concrete values.
