# botbot

The logic of a chat bot for the FDN Matrix and IRC rooms, verified with Verus.
The bot reads the frames that matrix-commander prints for each message
(`Message received for room <room> [<room id>] | sender <name> [<id>] | <time> | <text>`),
answers the messages that name it from a database of trigger words, pings the
admins on request, links the ticket numbers written in the tickets room, and
lets admins add and remove trigger words (`botbot admin add [trigger word] [answer]`,
`botbot admin del [trigger word]`) and see the disk usage of `/var`
(`botbot admin space`).

- `src/` is the verified library:
  - `text`: byte offsets of `str::find`, slicing on character boundaries,
    splitting, ASCII lower case, replacement, and the lemmas on UTF-8 they rest on;
  - `matrix`: the room and sender fields of a frame part, with the laws that a
    field written as matrix-commander writes it is read back;
  - `message_mgmt`: ping lists and the arguments of admin commands;
  - `message`: messages, what the bot decides for them (`thinking`), and the
    replies once the database has answered;
  - `botbot`: reading one output line into a message and what calls the bot;
  - `trigger_words`: the in-memory list of trigger words;
  - `my_system`: disk usage from the output of `df`;
  - `pattern`, `transliterate`: the calls into the `regex` and `unidecode` crates.
- `app/` runs matrix-commander (with the paths it is configured with), `df`,
  the sqlite database and the main loop.
- `tests/` exercises the library on concrete values.
