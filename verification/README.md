# nola

The live TV and player-shell logic of the Nola media client, as a Verus
library with proved contracts.

- `src/text.rs`: Unicode white space, ASCII case folding, trimming, tag prefixes.
- `src/weburl.rs`: URLs as the `url` crate parses and joins them.
- `src/attributes.rs`: the attribute list and title comma of `#EXTINF` lines.
- `src/playlist.rs`: `parse_m3u`, reading an M3U playlist into channels, with
  a line-by-line model of the format and the properties every result has.
- `src/model.rs`, `src/store.rs`: playlist sources and channels, and adding,
  refreshing and removing sources, with the laws that relate these operations.
- `src/search.rs`: magnet info hashes, de-duplicated search results, tracker choice.
- `src/player.rs`: mpv-style options, the bundled player's command line,
  external player launch plans, update file names.
- `app/`: a command-line shell around the library (store file, downloads,
  processes, libmpv).
- `tests/`: tests run against the compiled library.
