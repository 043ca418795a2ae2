# task_googlecloud

Manages Google Cloud Storage object names and uploads.

-   `normalize` gives every object of a bucket its NFC name.
-   `upload` uploads the files below `uploads/<bucket>`, under their NFC names.

Each run is one transaction: where any part of it fails, or a signal interrupts
it, what was done is undone, and what cannot be undone safely is reported for
manual recovery. A lock object in every bucket keeps runs apart.

## Layout

-   `src/` decides. Every operation is a sequence of steps, and each step follows
    from what came of the step before; contracts state how, and Verus proves
    them. A transaction asks the storage through a `Session`, whose record of the
    calls, in order, no other module can write. `*_laws.rs` state what holds of
    every run, whatever the other side answers.
-   `app/` performs the steps: HTTP requests, Cloud SDK commands over SSH, and
    renames relative to open directories.
-   `tests/` run the library against scripted replies and an in-memory file
    system.
