# MCP response cache

Caches the answers to side-effect-free MCP requests at a gateway, so that repeated discovery
requests and read-only tool calls are answered locally. MCP tunnels everything through `POST`, so
whether an answer may be cached is decided by the JSON-RPC method and by a table of tools that the
operator writes, not by the HTTP verb. What servers say of their tools (`readOnlyHint`,
`destructiveHint`) can only forbid, never allow.

The library in `src/` is verified with Verus. `app/` is the gateway policy around it.

| Module | What it holds |
|---|---|
| `text` | plain operations on text |
| `json` | JSON values, their model, and the canonical form |
| `wire` | reading and writing JSON with `serde_json` |
| `sse` | the framing of event streams |
| `mcp` | requests, responses, event streams, ids, tool annotations |
| `key` | cache keys |
| `store` | entries and the rules of the two backends |
| `annotations` | marks for tools that are not safe |
| `config`, `policy` | the configuration, what it comes to, and what is decided about a request |
| `flow` | the steps of a request, and what is done about its response |
| `guarantees` | what the cache promises as a whole |

## What happens to a request

- A request that is no POST of `application/json`, or no JSON-RPC 2.0 request, is forwarded, and
  so is a message without an `id`, which expects no answer.
- A discovery method (`tools/list`, `resources/list`, `prompts/list`) is cached for all callers,
  where that is switched on and its time is not zero.
- The call of a tool is cached where the tool is listed and switched on, and was not seen to be
  unsafe. With the scope `identity` the key holds the hashes of principal and session, and a call
  with neither is not cached.
- A hit is answered with the stored result and the id of the request, whatever JSON value that is.
- With `Cache-Control: no-cache` the request is forwarded, and the fresh answer is kept.
- Errors, tool errors, and event streams that are more than notifications and one successful
  response are not kept.

Every response carries `x-mcp-cache: hit`, `miss` or `bypass`.
