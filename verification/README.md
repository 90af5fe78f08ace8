# firebase-emu

A local emulator of Firebase: Firestore, Auth, Storage, Pub/Sub, Functions and a
console, all on the machine itself.

- `src/` is the library. It holds what the services decide and compute, written
  in Verus: every function states what it returns, and the laws that hold across
  functions stand beside them as public proof functions.
- `app/` is the program around it: listeners, gRPC and HTTP, SQLite, files and
  the processes of functions.
- `tests/` run the library on concrete values.

The modules of the library, by service:

| Service   | Modules |
|-----------|---------|
| Firestore | `value`, `double`, `document`, `field_path`, `names`, `writes`, `query`, `changes`, `firestore`, `listen`, `durable` |
| Browsers  | `json`, `web_values`, `web_requests`, `web_form`, `web_channel`, `web_service` |
| Pub/Sub   | `pubsub`, `broker`, `leases`, `streaming`, `paging`, `guarantees`, `claims`, `fanout` |
| Storage   | `storage`, `buckets`, `listing`, `listed`, `multipart` |
| Auth      | `accounts`, `auth`, `auth_service`, `auth_laws` |
| Functions | `triggers`, `workers`, `handlers`, `outbox` |
| Setup     | `loopback`, `settings`, `dotenv`, `codebases`, `project`, `schema` |
| Console   | `console`, `cloning` |
| Shared    | `text`, `ordered`, `status`, `timestamps`, `time_order`, `encoding` |

What the library takes from outside crates without proof is marked
`external_body` or `assume_specification`; a comment at each place names the
outside function and says what is claimed of it.
