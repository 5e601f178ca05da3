# voice_keyboard_core

The core of a voice keyboard: one device listens, another one types. The library holds what
both need: how devices pair and shake hands, what they say to each other, how a session goes
from the first word to the last, and what is remembered so that no piece of text is typed
twice. Sound never passes through it.

Everything under `src/` is verified with Verus. `Core` is the way in and out: commands and
events as JSON texts.

| Modules | What they hold |
| --- | --- |
| `text`, `json`, `once`, `ids` | strings, JSON values and texts, identifiers |
| `crypto`, `noise`, `transport` | digests and keys, the Noise handshake, encrypted channels |
| `protocol`, `wire` | the messages, and the JSON in which they travel |
| `store`, `journal` | the tables behind the journal, and the journal |
| `stable` | dictated text that is still open to revision |
| `trust`, `session`, `event` | paired devices, sessions, what the program is told |
| `outside`, `desk`, `steps` | what comes from outside, what sessions share, the steps of a session |
| `inbound`, `orders` | what a session makes of messages and of commands |
| `engine`, `network`, `upkeep`, `command`, `config` | the device: messages, time, commands, setting up |
| `session_laws`, `device_laws` | what holds whatever comes |

What a device does depends on what comes from outside: identifiers that are drawn, replies of
the journal, messages that handshakes write. All of that is kept, for reasoning only, in the
order in which it came (`outside`), and every step is a function of the device, the command
and what came. What is kept is closed to the other modules: it grows only by the call that
gave it.

`app/` is the library as other languages see it.
