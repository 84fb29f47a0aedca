# xtce-gs

A ground station for CCSDS telemetry described by XTCE: a socket or a recording, a definition,
and an operator.

Bytes arrive, packets are recovered from them, parameters are recovered from the packets, and
each step fails on its own. `src/` holds everything of that which decides, files or renders, and
Verus proves what it promises. `app/` is the program around it: the command line, files, sockets,
threads and the floating-point geometry of a plot.

| Where | What |
|---|---|
| `ring`, `store`, `sample`, `value`, `limits`, `stats`, `event` | samples and their bounded history, limits, counters, the event log |
| `float`, `ratio`, `time`, `decimate` | doubles by their bits, instants, fitting a series onto an axis |
| `packet`, `sequence`, `losses`, `decode`, `decoded`, `definition`, `sctime` | packets, sequence counts and what they say was lost, spacecraft time, what a definition made of a packet |
| `config`, `limit_file`, `link`, `args`, `cli`, `error` | what a session is started from and refused for |
| `dispatch`, `acquire`, `session` | the queue between link and decoder, and what each side does next |
| `csv`, `record`, `export`, `probe`, `report`, `text` | recordings, tables and what the terminal shows |

Doubles are held as their bits: comparing them, turning integers, instants and quotients into
them and cutting them back are exact; general arithmetic on them, and their decimal text, come
from the caller.

The link layer (`xtce-gs-link`), the decoder (`xtce-decode`, `xtce-model`) and the window
(`xtce-gs-gui`) are crates of their own, and only `app/` calls them.
