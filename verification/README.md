# vaultmesh_agent

The policy core of the VaultMesh local Agent broker, written in Verus: every
function in `src/` carries a `requires`/`ensures` contract that Verus proves.

## Layout

- `src/` — the verified library.
  - Broker state: `broker` (clients, sessions, grants, plans and open
    requests; disconnecting, revoking and clearing, and the admission of a
    connecting client).
  - Requests: `admission` (protocol, session, replay guard, tool, parameters,
    plans, grants, confirmation ticket, action digest), `request_gate`,
    `sessions`, `native_wait` (the wait for a local decision, as a
    state-and-event step).
  - Permissions and confirmations: `policy`, `permission_desk`,
    `confirmation`, `unlock`, `authz_rules`, `authz_envelope` (sealed rule
    store payloads), `window`, `native_ui`.
  - Direct actions: `direct_policy`, `direct_ssh`, `direct_http`,
    `direct_permission`, `connector`, `connector_state`, `active_plans`,
    `http_path`, `http_safety`, `web`.
  - Account catalog: `account_catalog`, `account_page`, `catalog_revision`,
    `listing`, `text_order`.
  - Data: `json`, `json_text`, `canonical` (canonical JSON and digests),
    `ids`, `text`, `frame`, `error`, `model`.
- `tests/` — tests of the library against concrete values.
- `app/` — the unverified edges: reading and writing files and sockets, the
  clock, serde conversion, the loops that wait and poll, and the glue that
  runs the library's steps in order.

Outside crates (`uuid`, `sha2`, `base64`, `aes-gcm`, `url`, `serde_json`) are
reached through small trusted wrappers whose contracts say what each call
returns; each wrapper's doc comment names the call.
