# aegis

A verified core for static and dynamic malware triage, written in Verus.

`src/` is the library, checked by Verus:

- `memory`, `memory64`: guest address spaces with quota, permissions and written-range tracking.
- `cpu`, `cpu64`, `x64`: register files, flags, and an x86-64 interpreter core over instructions that iced-x86 decodes.
- `engine`, `api`, `windows`, `network`: the 32-bit Windows machine, its API layer and synthetic network scenarios.
- `loader`, `x86`, `x86_exec`, `pe_exec`: PE32 loading (goblin reads the headers, sections and imports), 32-bit decoding with iced-x86, the 32-bit instruction core, and the PE32 run loop and run.
- `linux`, `linux_runtime`, `linux_exec`: the synthetic Linux kernel and libc layer, one-instruction steps and the run loop.
- `machine64`: 64-bit Windows threads, vectored exceptions and instruction steps.
- `provenance`, `generation`, `artifact`: data-flow labels, payload generations and captured artifacts.
- `formats`, `static_triage`: format detection by magic bytes and the object parser, section permission text, PE subsystem names, and the static triage report.
- `code`, `triage`, `yara_model`, `digest`, `text`: capability rules, string and indicator extraction, findings, hashing and text helpers.

Each public function states its result in `ensures`; laws that relate several
functions are public proof functions whose names begin with `law_`.

`app/` holds JSON types and entry points around the library. `tests/` holds the
tests.

Not part of the crate: the section, import and export readers for static
triage, the PE32+ and ELF loaders, the 64-bit Windows API layer and its run
loop, static function decoding, and YARA rule compilation and scanning.
