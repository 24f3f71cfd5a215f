# hash-miner

A GPU miner for the keccak256 proof-of-work token of hash256.org, with a
verified core.

- `src/` is the library, written in Verus. What the miner decides on whole
  numbers, bytes and text stands there with its contract: hits and their check
  on the CPU (`hit`), batches and the walk through the nonces (`gpu`, `search`),
  seeds and shards (`seed`), tuning and its results (`tune`, `profile`,
  `persist`), account nonces and the fate of transactions (`chain`), the
  market's priority fees (`market`), prices and profit (`oracle`, `price`),
  settings (`config`), the mining session (`miner`) and what is shown
  (`format`). `account`, `word`, `bytes` and `text` hold what these share.
- `app/` is the program around it: devices and their shader, RPC, files, the
  console, and the reading of the settings. It also has what is floating point:
  the rank that a percentile stands for, the ratio of cost to reward, and the
  factors that tuning holds times and rates against.
- `tests/` runs the library.

Public proof functions named `law_…` state what holds across functions: that
account nonces never collide, that no nonce is tried twice, that cards keep to
their shards, that nothing pays without a price, and so on.

Functions marked `external_body` call outside crates; their contracts are
believed, and each says in its comment which function it calls and what is
claimed of it.
