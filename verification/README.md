# proxmox_imgctl

An interactive cloud-image template and VM bootstrapper for Proxmox VE,
with its logic verified by Verus.

- `src/` is the verified library: the size parser (`size`), the readers of
  what `qm`, `pvesm` and `pvesh` print (`pvesh`), the `qm` command lines and
  their shell quoting, with the steps that fall back to the legacy disk
  import and run a list of commands in turn (`commands`), SUMS files, checksums and the step
  function that drives a download (`download`), streaming SHA-256 and
  SHA-512 digests (`hashing`), the template and spawn flows as step
  functions (`flows`), the image catalog
  (`catalog`), the command line (`cli`), menu defaults (`choices`), the
  settings (`config`) and the text functions they share (`text`).
- `app/` is the program around it: it asks, runs the commands, talks HTTP,
  reads files and shows progress, in the order the library's step functions
  decide.
- `tests/` runs the library on concrete inputs.
