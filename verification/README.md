# crowdfund

A crowdfunding campaign contract and the factory that deploys campaigns,
written as verified state machines.

- `src/campaign.rs` — the campaign: its abstract state (`CampaignModel`), the
  rule of every entry point as a spec function (why a call is refused, what the
  state becomes, which transfer and events it asks for), and the executable
  `CrowdfundContract` proved against them.
- `src/factory.rs` — the factory's registry of deployed campaigns, numbered
  from one.
- `src/salt.rs` — the deployment salt, hashed by the host's Keccak-256.
- `src/laws.rs` — properties of one or two calls: the invariant every call
  keeps, time windows, exclusivity of the withdrawal and refunds in a state,
  at-most-once withdrawal and refund, and the registry's numbering.
- `src/history.rs` — properties over whole sequences of calls: a refund and
  the withdrawal never both happen (with ledger time moving forward),
  refunds never exceed contributions, the executed flag is set exactly from
  the first withdrawal on, and each stretch goal is announced at most once.
  Two exact accounting laws hold where nothing saturates at `i128::MAX`:
  the pledges add up to the raised total minus the refunds (raised total
  never saturating), and a pledge equals the contributions since its last
  refund (that pledge never saturating).
- `app/` — the Soroban contracts: they read storage, call the library, and
  carry out token transfers, deployments, authorisation and events.
