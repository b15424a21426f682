# contract_reads

Reads a registry of contracts page by page: by an index, by a tag, or by a
relationship. A page lists contracts in the order of the index that they are
read from, and hands out a cursor after which the next page goes on. Of each
contract it shows the address and, where asked for, the metadata and the state
that the contract itself answers with. Contracts that have not changed since a
given revision or time can be left out.

- `src/` is the library. Its behaviour is stated in contracts and proved by Verus.
  - `read` is the entry point: `read` lists a target and builds a page.
  - `pagination` and `metadata` walk the indices, `page` builds pages, `wire`
    asks contracts for their state.
  - `window` says which part of an index a request asks for, `bytes` and `keys`
    how indices are kept in storage, `decimal` and `text` how cursors are read,
    `hex` how keys are told in errors.
  - `store`, and functions in `keys`, `text`, `page` and `wire`, call
    `cw_storage_plus` and `cosmwasm_std`; what is believed of these calls stands in their contracts.
  - `order`, `scan` and `admission` hold the theory of keys and walks, `laws`
    what holds of listings and pages as a whole.
- `app/` offers the query with the message types of a chain.
- `tests/` runs the library against the mock chain of `cosmwasm_std`.
