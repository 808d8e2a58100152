# holo_hosting

The host zome of a hosting service for hApps: hosts register, enable and disable
apps, list the apps there are, and hand a key-value store the hosts that recently
enabled or disabled each app.

- `src/` is the verified library. Each zome function is a procedure that alternates
  requests to the DHT with decisions on the answers; the procedures take the answers
  as events and say which request comes next or with what result the function ends
  (`enable`, `disable`, `apps`, `kv`, `registration`, `service_log`). `dht` models the
  DHT as a set of links and says which answers a DHT may give; `laws` proves what whole
  runs of the procedures do against every such DHT.
- `app/` is the zome around it: it reads the conductor, performs the requests with
  `hdk`, and keeps the service log details, whose prices are floating-point values.
- `tests/` runs the procedures against an in-memory DHT.
