# savitri_masternode

The masternode of the Savitri network, with its rules verified by [Verus](https://github.com/verus-lang/verus).

A masternode takes block proposals from lightnodes, votes on them, forms certificates out of
votes, keeps the finalized chain, puts lightnodes into groups and hands out monoliths: blocks
that commit to long ranges of the chain.

## Layout

`src/` is the library. Everything in it is verified: each public function states what it returns
or changes, and the laws that span several functions stand beside them as public proof functions.

| modules | what they hold |
|---|---|
| `proposal_validator`, `proposals`, `main_loop` | checking proposals, election certificates, votes and block acceptance; the role of a masternode in a group; what the main loop decides |
| `certificates`, `finality`, `transactions` | certificates, which blocks are final and what is stored of them, the transactions of a block |
| `whitelist`, `registration`, `registry`, `activity`, `peers`, `topics`, `addresses` | elected proposers, lightnodes, known and connected peers, the topics of gossip, network addresses |
| `masternode_p2p`, `monolith_p2p`, `monolith_p2p_fixed`, `p2p`, `p2p_block_receiver` | messages between masternodes, and handing out groups and monoliths |
| `monolith_producer`, `monolith_storage`, `monolith_benchmark` | making, checking and keeping monoliths, and what a benchmark counts |
| `mempool_manager`, `retry_manager`, `performance` | waiting transactions, registrations to be tried again, caches, filters and rate limits |
| `startup` | arguments, settings, the genesis block |
| `messages` | the messages themselves |
| `crypto`, `clock`, `json` | calls into outside crates and std, each behind a stated contract |
| `bytes`, `text`, `text_set`, `keyed`, `search` | byte strings, text, and vectors kept by key |

What is believed without proof is marked `external_body` and says in its comment which outside
function it calls and what is claimed of it.

`tests/` runs the library with the real outside crates. `app/` is the program around it: the
network, the database, files and the clock's timers. Its module `workspace` is the only one that
calls the other crates of the Savitri workspace.

## Floating point

Scores and percentages travel as the bits of their floating-point values; averages and rates are
computed in `app/`.
