# Spendability PIR

Private spendability checks for Zcash wallets over single-server private
information retrieval (PIR).

- **Nullifier PIR** tells a wallet whether a note is spent, by querying a
  bucketed hash table of recent Ironwood nullifiers.
- **Witness PIR** fetches the Merkle authentication path of a newly found note,
  before the wallet's own tree is complete.

The library under `src/` is verified with Verus: its functions carry contracts,
and `laws` and `nullifier::contents` state what holds across operations.

| Module      | What it holds                                                    |
|-------------|------------------------------------------------------------------|
| `bytes`, `text`, `ordered`, `hash_index` | byte strings, message texts, two maps |
| `protocol`  | types shared by both subsystems, the PIR engine's interface      |
| `p2p`       | wire messages, frames and their reassembly                       |
| `nullifier` | the nullifier table, its snapshots and laws                      |
| `witness`   | Merkle nodes, the commitment tree, witnesses, frontiers and laws |
| `ingest`    | compact blocks: validation, sync and follow decisions            |
| `pir`       | SimplePIR queries over the two database geometries               |
| `client`    | the wallet's side                                                |
| `server`    | the servers' side, and the YPIR engine                           |

`app/` is the program around the library: gRPC, HTTP, Zakura, disk and the
command line. `tests/` runs the library.
