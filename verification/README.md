# ucodectl

A verified library for Intel and AMD CPU microcode: it parses bundles and
containers, compares releases, inspects early boot images, builds deterministic
early-load CPIO archives, and plans safe updates.

`src/` is the library. Its functions carry contracts that Verus
proves; what comes from elsewhere (SHA-256, little-endian integers, object files,
CPUID, how the system joins paths) is declared in small wrappers whose contracts
say what is believed of them.

| Module | What it holds |
| --- | --- |
| `model` | CPU identities, patch metadata, findings, selection |
| `intel`, `amd` | the two vendors' formats: parsing, validation, writing |
| `archive` | `newc` CPIO archives |
| `catalog` | collections of patches: ingestion, comparison, manifests |
| `boot` | early images, initrds and unified kernel images |
| `linux`, `windows` | what a host shows of its processors |
| `policy` | what should be done about it |
| `transaction` | the course of applying a plan |
| `bytes`, `digest`, `number`, `order`, `text` | what the others share |

The functions whose names start with `law_` state what holds of the library as
a whole: that what is written reads back, that output does not depend on the
order of input, that nothing is guessed where the platform is unknown.

`app/` is the unverified part around the library: files, the registry, time and
JSON. It hands the library plain values and carries out what it decides.
