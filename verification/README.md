# bpsr_module_optimizer

A module optimizer and combat meter for Blue Protocol: Star Resonance, with its logic verified by
[Verus](https://github.com/verus-lang/verus).

`src/` is the library. Everything in it is verified against its contracts; what it takes from other
crates (rayon, zstd, etherparse, prost) stands behind small functions that say what is taken on
trust.

| Module | What it holds |
| --- | --- |
| `optimizer` | The search for the best combinations of modules: model, ranking, branch and bound, breakdowns, and everything around a search on a graphics device but the dispatch itself |
| `capture` | From captured packets to frames: recognising the server, putting segments in order, opening the driver |
| `protocol` | From frames to messages |
| `engine` | From messages to encounters: hits, attributes, connections, samples, history |
| `compute`, `models` | What is shown of an encounter, and what the user can do with it |
| `inventory`, `attrs` | Owned modules and their names |

The laws of the library are public proof functions whose names begin with `law_`.

`app/` is the program around it: files, the capture driver, the graphics device, rates in floating
point and the JSON interface. It reads these files beside the executable:

- `MonsterNameBoss.json`, `SkillName.json`: names by number
- `classes.json`, `class_names.json`: classes and ways to play them
- `pb_fields.json`: field numbers of the messages
- `ConsumableBuffIds.json`: the effects that come from meals (`food`) and potions (`syrup`)
- `optimize.wgsl`, `optimize_chunked.wgsl`: the kernels
- `owned_modules.json`: the modules that were saved last
