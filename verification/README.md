# collab

A collaborative document system with end-to-end encryption: clients edit a
CRDT text document (`yrs`), encrypt every update to an MLS group (`openmls`),
and exchange them through a relay that only ever sees ciphertext. The relay
gates document content behind Ed25519 subscribe capabilities anchored per
document and epoch.

## Layout

- `src/` — the library, verified with Verus. Every function carries a
  contract; the modules that call outside crates (`aead`, `base64`, `crdt`,
  `ed25519`, `mls_ops`) hold the trusted wrappers and say in their doc
  comments what each one claims. Properties that span several operations are
  stated as public proof functions (`lemma_*`), for example:
  - `capability`: capabilities are bound to user, document, epoch and
    expiry, the three signed message kinds are domain-separated, and what
    the signing functions make verifies under the signer's key (stated on
    the signing functions themselves);
  - `routing`: a sender never receives its own message, handshake traffic is
    never gated, anchor epochs only grow, rotation revokes older
    authorizations, and the router's memory is bounded;
  - `storage`: the offline queue never exceeds its count and byte budgets,
    and an admitted message joins the end of its user's queue after only
    messages of its own kind were dropped to make room, the user's own
    first and then the oldest of whoever holds the most, each one counted;
    such drops never touch messages of another kind, and an admitted
    message that trims nothing ends its user's queue (first in, first out);
  - `persistence`: a snapshot's plaintext decodes to what was encoded, and a
    restored group is the sealed member at the sealed epoch (when the sealed
    key store holds the group, at that epoch and with a readable owner, and
    its key pair, the restore yields that member), and a stale snapshot
    restores to `Ok(None)`;
  - `connection`: unstable failures exhaust the retry budget;
  - `vault_manifest`: a rename moves exactly one file;
  - `vault_sync`: an oversized manifest update, or one that would open too
    many documents, is refused before it is merged and changes nothing.
  - `mls`: the owner-only removal policy on both sides, the replay error,
    and the owner read from leaf 0, each stated over the outcomes of the
    `openmls` operations, which `mls_ops` names.
- `tests/` — tests of the library on concrete values.
- `app/` — the program around it: command-line parsing, files, the
  WebSocket relay loop, the file-system watcher, serde copies of the wire
  types, and the floating-point reconnect backoff.
