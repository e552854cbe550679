# iax2

The Inter-Asterisk eXchange v2 protocol (RFC 5456), written in Verus: framing,
information elements, registration and calls, reliability, the jitter buffer and
G.711 are executable Rust with contracts that Verus proves.

The library does no input or output. A driver owns the sockets, the clock and
the audio devices, and hands datagrams, commands and clock readings in.

| module | contents |
|---|---|
| `consts`, `ie`, `frame` | constants, information elements, frames |
| `time` | readings of the driver's clock |
| `leg` | one leg: sequence numbers, window, retransmission |
| `client`, `client_model`, `client_laws` | one account on one exchange: code, model, laws |
| `jitter`, `g711`, `pcm` | jitter buffer, codec, queues of samples |
| `softphone`, `softphone_model`, `softphone_laws` | several lines on several exchanges |
| `regdaemon`, `calltest`, `regtest` | three smaller programs |
| `accounts`, `words`, `text`, `table`, `digest`, `action` | configuration, text, tables, MD5, what a program is asked to do |

A model says what an operation does as a function of the state; the contract of
the code equates the two. The `law_` functions state what holds of the whole.

`app/` holds the programs around the library: sockets, keyboard, audio devices
and resampling. On Linux it needs the ALSA development files.
