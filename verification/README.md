# marketeer

A personal macroeconomics dashboard: market and macro series on cards, a monthly budget, and a
chat with a language model that knows the figures on the cards and can search the web.

`src/` is the library. It holds what the program decides and computes, and Verus proves each
function against its contract. `app/` is the program around it: the window, the database, the
network, the threads, and the arithmetic on floating-point numbers. `tests/` runs the library.

The models that the chat offers can be listed in `~/.economy.models`, one name on each line.

| Modules | What they hold |
| --- | --- |
| `text`, `utf8`, `decimal`, `scalar`, `order`, `json`, `calendar` | texts, numbers, sorting, JSON values and days |
| `country`, `range`, `registry` | what can be chosen, and which series there are |
| `feeds`, `kraken`, `yahoo` | what is asked of the sources, and what is read from their replies |
| `series`, `table` | observations, and what a card shows of them |
| `html`, `percent`, `search`, `tools` | the tools that a model may use |
| `chat`, `stream`, `agent`, `prompt`, `markdown` | the conversation with a model |
| `budget`, `color`, `display` | the budget, colours and figures |
| `worker`, `dashboard` | what is fetched when, and the state of the program |

Floating-point numbers pass through the library as their bit patterns (`scalar`): it compares
and orders them, and leaves the arithmetic to the program. A day is a number, counted from
January 1 of the year 1.

Where a function cannot work on some of its inputs, it says so in its `requires`, and a function
whose name starts with `try_` stands beside it and answers `None` on those.
