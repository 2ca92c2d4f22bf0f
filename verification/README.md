# auto_fuel_price

Twice a day, at 18:00 and 20:00 in Bangkok, this watcher fetches Bangchak's retail fuel prices. Where
a price moved from yesterday to today by more than 0.01 baht, it pushes a Thai message to LINE.
A state file keeps the last price list and whether its date was notified, so that later runs
on lists of that date keep quiet.

`src/` is the library. Verus proves its functions against their contracts; one call, into `chrono`, is
trusted.

| module      | what it holds                                                              |
| ----------- | -------------------------------------------------------------------------- |
| `text`      | words, decimal numerals                                                     |
| `numeral`   | numerals of numbers beyond a machine word                                   |
| `rounding`  | rounding to a step and to 53 significant bits                               |
| `price`     | prices as binary64 numbers: order, distance, text with two decimals         |
| `snapshot`  | price lists and the changes they announce                                   |
| `effective` | the date and time in a list's remark                                        |
| `message`   | the wording of the notification                                             |
| `feed`      | from the published list to a snapshot                                       |
| `line`      | the push request and the verdict on its reply                               |
| `clock`     | timestamps in Bangkok time, through `chrono` and `chrono-tz`                |
| `config`    | settings                                                                    |
| `tick`      | what one run does and remembers                                             |

`app/` is the program around it: HTTP, JSON, files, environment variables and the schedule.

## Settings

| variable             | default                   | purpose                                            |
| -------------------- | ------------------------- | -------------------------------------------------- |
| `LINE_CHANNEL_TOKEN` | none                      | access token of the LINE channel                    |
| `LINE_TARGET_ID`     | none                      | user, group or room that receives the messages      |
| `STATE_FILE`         | `last_fuel_prices.json`   | where the last price list is kept                   |
| `RUN_ONCE`           | unset                     | if set, run once and exit                           |
| `DRY_RUN`            | unset                     | if set, print news in place of sending it           |
| `RUST_LOG`           | `info`                    | log filter                                          |

Without a token or a recipient the watcher still fetches and compares; it logs a warning in place of
the push and tells the news once both are there.

The state file is rewritten when a list brings no change, when its date was notified before, and when
a message about it was delivered. News that was only printed, or could not be sent, leaves the file as
it is.
