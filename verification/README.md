# aparte

The core of a small XMPP client, written and verified in Verus.

* `src/` is the library.
  * `account`, `stanza`, `payload`, `presence`, `message`, `event`, `disco`, `config`, `table`: the
    data.
  * `client`, `connections`, `async_iq`, `crypto`, `mods`: connections, pending requests, encryption
    schemes and modules.
  * `shared`, `aparte`, `modules`, `dispatch`, `run`, `proxy`: what the client does. `run` is the
    event loop, one step at a time.
  * `laws`: what holds of the whole.
* `tests/` runs the library.
* `app/` is the runtime around it: Tokio, the XMPP connections and the configuration file.

A contract usually names a relation between the client before and after a call (`connected`,
`answered`, `handled`). Modules and encryption schemes are supplied by the user of the library; each
says by its own spec functions how a call of it may end, and the contracts speak of these.
