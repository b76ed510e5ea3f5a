# openhpa

Tuning of Kubernetes HorizontalPodAutoscalers and KEDA ScaledObjects: rules that find what could be
better about a workload's autoscaling, recommendations for a human to approve, and the apply,
probation and rollback around them.

Every decision is made in the library under `src/`, which is written in Verus: its functions carry
contracts, and the proofs cover them and the laws that tie them together (`law_*`). The operator
under `app/` is ordinary Rust around it: the command line, the Kubernetes, Prometheus and model
APIs, and the arithmetic on measured values.

| Where | What |
|---|---|
| `src/rules.rs`, `src/forecast.rs`, `src/schedule.rs`, `src/cron.rs` | what is detected in a workload's history, and the windows of a recurring peak |
| `src/synthesis.rs`, `src/llm.rs`, `src/backend.rs` | one recommendation from what was approved, and the exchange with an optional model |
| `src/collector.rs`, `src/metrics.rs` | reading autoscalers and metric series |
| `src/applier.rs`, `src/status.rs`, `src/crd.rs` | patches, and the life of a recommendation |
| `src/safety.rs`, `src/leader.rs`, `src/controller.rs` | health after a change, leader election, and the passes of the reconcile loop |
| `src/clock.rs`, `src/sample.rs`, `src/text.rs`, `src/json.rs`, `src/field_map.rs` | the values that all of it is written in |
| `app/` | the operator |

The library holds no floating-point number. A measured value is a `Sample`, the bits of a binary64
number, which the library orders and compares; means, correlations and other figures are computed in
`app/numbers.rs` and handed to the functions that judge them.
