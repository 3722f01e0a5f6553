# dreamwake_client

The verified decision logic of the Dreamwake network client, written in
Verus. Each module states its behaviour as `requires`/`ensures` contracts over
mathematical views, and the library's laws are public proof functions.

- `outcomes` — tracked action records, terminal outcomes, paced lookups, traces.
- `arrival` — issued commands and the arrival feedback that may tune the lead.
- `actions` — hardware edge backlog and charge episodes.
- `commands` — command head assignment, forecast/authored ticks, capture
  deadlines, retries and finalization of pending commands.
- `reconcile` — which reconciliation an owner publication calls for.
- `baselines` — owner baseline member control: resets, retirements, admission.
- `owner_group` — owner prediction group membership and dependency closure.
- `dependencies` — the dependency records an owner prediction step reads.
- `delivery` — decisions on received public state and group publications.
- `references`, `receipts`, `events`, `presentation` — bounded histories,
  acknowledgement batches, presentation journal bookkeeping, rendering rules.
- `control`, `ui`, `hud`, `autoplay` — control-lane, interface, heads-up
  display and playtest decisions.

`app/` holds the floating-point host pieces (receive timeouts, pose blending)
that feed these decisions.
