# ncm_tui

A client for NetEase Cloud Music in the terminal: discovering music, playing it
from files and streams, lyrics in time with the music, a local library, downloads
and a playback cache of bounded size.

The library under `src/` holds what the program decides and computes, with its
behaviour stated in contracts that Verus proves. It does no I/O. The program
under `app/` talks to the network, the disk, the audio output and the terminal,
and hands what it gets to the library.

| Module | What it holds |
| --- | --- |
| `text`, `decimal`, `time`, `path`, `sorting`, `json` | texts, numbers, clocks, paths, stable sorting, JSON values |
| `ncm_core` | requests to the service: their payloads, seals, sessions, retries and resumed downloads |
| `auth`, `discovery`, `catalog` | what the answers of the service mean, and which request comes next |
| `download`, `organizer`, `scanner`, `database`, `library` | planning downloads, laying out files, scanning directories, the queue |
| `playback_cache`, `streaming`, `player`, `cover`, `lyrics` | the cache of streams, the playback clock, covers and lyrics |
| `palette`, `pagination`, `config` | finding commands, pages of results, settings |
| `tui` | the interface: its state, what keys, clicks and events do to it, and what is on the screen |

The interface is a state that never acts by itself. Keys, clicks and events change
it and leave commands in it; the program takes the commands, carries them out and
returns what came of them. Every method of `tui::app::App` says in its contract
which state follows, over `AppView`. The larger specification functions are
opaque: `reveal` them where a proof has to look inside.
