# snapmaker_timelapse_syncer

The core of SnapSync, a desktop tool that finds a Snapmaker U1 on the local
network and copies its timelapse videos into a folder. The rules of the tool
are written in Verus and proved against their contracts; the network, disk and
async plumbing around them is ordinary Rust. The desktop shell (window, tray,
start at sign-in) is not part of this crate: `app/` offers the commands and
start-up that a shell calls.

## Layout

- `src/` — the verified library.
  - `text.rs`, `paths.rs`: strings as `Seq<char>`, trimming, splitting,
    UTF-8 lengths, and `/`-separated paths with the meaning of
    `std::path::Path`.
  - `models.rs`: settings, printers, timelapses, history and status.
  - `protocol.rs`: printer addresses, percent-encoded URL paths and the camera
    folder listing.
  - `urls.rs`, `candidates.rs`: the download URLs of a timelapse (parsed by the
    `url` crate), each checked to point at the configured printer, and where
    its thumbnail comes from.
  - `sync_engine.rs`: local file names, size checks, the progress and counts of
    a sync, and the status it shows.
  - `storage.rs`, `commands.rs`, `discovery.rs`: the bounded history, the
    decisions behind the interface commands and the scheduler, and the
    printers found over mDNS.
- `app/` — HTTP, mDNS, files on disk, the async loop of a sync and the
  commands, calling the library for every decision.
- `tests/` — tests of the library on concrete values.
