# desubot

A Telegram group bot that keeps light statistics of a chat: it stores every
message, counts the (stemmed) words each member uses, mentions everybody on
`/here`, lists a member's top words on `/top`, strings stored messages
together with a Markov chain on `/markov` and `/markov_all`, answers
read-only SQL on `/sql`, writes a New Year greeting on `/omedeto`, and saves
the media sent to the chat.

Layout:

- `src/` is the verified library (Verus). Each module states what it
  computes as `requires`/`ensures` over spec functions on `Seq<char>`:
  - `text`: the string operations everything else is built from (search,
    replace, split, trim, decimal notation, UTF-8 length);
  - `router`: which command a message asks for;
  - `sql`: which `/sql` requests run, and how result tables are shown;
  - `report`: the `/here` and `/top` replies;
  - `stem`: reading MyStem's JSON output and grammar tags;
  - `omedeto`: the greeting;
  - `chatter`: Markov-chain replies;
  - `files`: where media files are stored;
  - `store`: the decisions around the database;
  - `error`: the error type.
- `app/` is the program around it: the Telegram loop, the SQLite database,
  the MyStem child process and the downloads.
- `tests/` runs the library on concrete inputs.

The program reads `assets/scheme.sql` and `assets/stop-words.txt` at run
time and expects the `mystem` binary on the `PATH`.
