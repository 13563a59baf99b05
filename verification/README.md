# disbot

Terminal sessions that run under tmux, reached from a browser and from a Telegram chat.

`src/` is the library, written in Verus: what disbot decides and computes, with contracts that the
verifier proves. It performs no input and no output. `app/` is the program around it: it runs tmux,
serves HTTP and the web socket, talks to Telegram, and keeps the files. `tests/` runs the library on
concrete values.

| module | what it holds |
| --- | --- |
| `text`, `number` | strings and numerals, stated over sequences of characters |
| `tmux` | the commands for tmux and what its answers mean |
| `session` | ids, the opening of a session step by step, input, screen, size, end |
| `registry`, `sync` | the known sessions, and bringing them in line with tmux |
| `output`, `clock` | pieces of output, the time of day |
| `screen` | a screen cut into messages |
| `command`, `tg` | the commands of the bot, its owner, and what it does with a message |
| `forward` | when a screen is passed on to the owner |
| `api`, `ws` | what a browser may ask for, and what it is answered |
| `config`, `home` | the set-up, the home directory and the paths that lead from it |
| `error` | what can go wrong, in words |

What the library takes on trust is marked `external_body` or `assume_specification`, each with a
comment that names the outside function and says what is claimed of it.

## Setting it up

| variable | meaning | default |
| --- | --- | --- |
| `DISBOT_BIND` | the address to listen on | `127.0.0.1:7878` |
| `DISBOT_TOKEN` | what a browser has to know | `letmein` |
| `DISBOT_CMD` | what a session runs | the user's shell |
| `DISBOT_TG_TOKEN` | the token of the bot | none: there is no bot |
| `DISBOT_TG_OWNER` | the owner of the bot | the first user who speaks to it |

`Cargo.toml` names `takecell` only to hold it, a dependency of teloxide, to a release that builds with
Rust 1.95.

The page for the browser is read from `web/index.html` when the program starts.
