# optimal_transport_agents

Optimal transport between agent distributions (Sinkhorn plans, Wasserstein
distances, Earth Mover's Distance, JKO gradient flows, barycenters).

- `src/` — the verified library: the integer core of these algorithms.
  - `distribution.rs`: the linear congruential generator used for
    deterministic sampling (`SimpleRng`), the stream of draws that sampling
    uses, and the choice of a support index from a search of the cumulative
    weights.
  - `jko.rs`: the JKO trajectory (`steps + 1` entries, starting with the
    initial distribution, each entry the step applied to the previous one).
  - `barycenter.rs`: the base-`side` digits that place the points of the
    uniform reference grid, and the proof that they determine the index.
- `app/` — the floating-point algorithms themselves (`AgentDistribution`,
  `sinkhorn`, `wasserstein_1`, `wasserstein_2`, `emd`, `emd_1d`, `jko_step`,
  `jko_flow`, `barycenter`, `free_support_barycenter`), built on the library.
- `tests/` — tests of the library on concrete values.
