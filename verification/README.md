# ytm-core

The core of a YouTube Music player for the terminal, verified with Verus.

- `src/` is the library. It decides what is queued, played, searched for, shown and kept;
  every function states what it returns or changes, but for readings of the
  clock and the samples of a decoded image, of which nothing can be said.
  - `text`, `spacing`, `seqs`, `assoc`, `double`: texts as sequences of characters, white
    space in them, lists, maps by text, and scaling in double precision.
  - `library`, `player`, `playback`, `persistence`: playlists, the queue, the audio thread's
    state machine, and what is kept between runs.
  - `lrc`, `title`, `lyrics`, `search`, `translate`: timed lyrics, queries for them, ranking,
    and translations.
  - `cover`, `kitty`, `media`: cover art, images on a terminal, and the desktop's controls.
  - `config`, `session`, `json`, `error`: settings, signing in, and what can go wrong.
  - `cells`, `panel`, `filter`, `lyric_panel`, `ui`, `screen`: the screen and its keys.
  - `jukebox`, `jukebox_screen`, `deck`: the player that queues one playlist at a time.
- `tests/` runs the library.
- `app/` is the program around it: the terminal, mpv, the network and the files.

Times are nanoseconds. What comes from other crates is named where it is called, with what
is relied on.
