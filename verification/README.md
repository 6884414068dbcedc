# medieval

The rules of a small campaign-and-battle strategy game, written in Verus and
proved against their contracts.

- `src/` is the verified library: the campaign (provinces, armies, economy,
  recruitment, auto-resolved battles, the computer opponent, victory), save
  validation, the hand-off of a pending campaign battle to the tactical
  layer, the deterministic tactical battle (terrain, deployment, orders,
  movement, combat, morale, routing, sieges), the player's semantic battle
  controls and their request vocabulary, keyboard meaning, and the battle
  sandbox's army muster and opponent. Laws that span several operations are
  public proof functions (`campaign_laws.rs`, `seed_order.rs`, and the
  `pub proof fn`s beside the operations they relate).
- `tests/` runs the library on concrete values.
- `app/` is the unverified shell: JSON documents and save files, desktop and
  browser command surfaces, the floating-point camera and pointer picking,
  frame pacing, and character mesh reading.
