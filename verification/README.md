# motiongfx

A motion graphics library whose behaviour is stated in contracts and proved
with [Verus](https://github.com/verus-lang/verus).

Timelines hold tracks, tracks hold lanes of clips, and each clip moves one field
of one subject. A timeline is baked once, so that every clip knows where it
starts and ends, and then played: moving the playhead queues the clips that it
reaches, and sampling the queue gives what is to be written into the world.
Timelines can be edited while they run, with undo and redo, and saved as
documents.

## Layout

- `src/` is the library. Its functions are verified, but for the small wrappers
  around calls into other crates, whose contracts are believed.
  - `time`, `subject`, `table`, `name_table`, `text`, `seqs`: numbers, names and
    collections.
  - `action`, `sequence`, `track`, `timeline`, `pipeline`, `registry`, `world`,
    `remote`, `live`: clips, their order, and playing them.
  - `bevy_motiongfx`: the timelines of an application, its players, and the
    requests of its remote protocol.
  - `peniko_motiongfx`, `typst_motiongfx`: paths that turn into one another, and
    formulas.
- `tests/` runs the library.
- `app/` is the glue to Bevy: plugins, systems, JSON, files, and whatever takes
  floating point.

## Numbers

Times are integers, `TICKS_PER_SECOND` to the second. They stop at the ends of
their range. Parts of the way are integers too, with `PHASE_ONE` for all of it.
Values, types and functions of an application are known by number; the
application says what the numbers stand for through `SubjectSource` and
`RemoteHost`.

## Laws

Beside the contracts of the functions there are laws that speak of several of
them, as public proof functions. The `laws` modules of `track` and `timeline`
hold those of editing: it keeps clips apart, removing undoes inserting, moving
back restores. Those under `bevy_motiongfx::remote::batch` say that inserts, moves
and updates are undone by their inverses and that a refused batch of them changes
nothing (`undo_laws`), and that what was removed or cleared comes back as it
showed, under new ids (`remove_laws`, `restored_laws`, `clear_laws`), and plays as
it played (`undone_laws`). `exports_import_back` says that what was exported is
imported back, `imports_export_back` that it is then exported as it was, and
`refused_imports_restore` that a refused import leaves what was there.

Those of playing stand beside what plays. A subject that is animated again comes
back under its id, so that a field keeps its baseline (`adding_again_keeps_baseline`).
Baking again changes no segment (`baking_timelines_again_keeps_segments`). Moving
the playhead marks at most one action of a sequence (`arriving_marks`), and then
sampling writes a field once (`sampling_writes_once`). Timelines that differ in the
id of an action play the same (`relabelled_play_alike`).

Others stand beside what they are about, such as `documents_read_back`,
`stepping_back_restores` and `nothing_passes_unnoticed`.
