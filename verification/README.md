# Jackbox Custom Content

A mod maker for the Jackbox Party Pack 7, as a library verified with Verus and a small
command-line program around it.

- `src/` is the library. Every function in it carries a contract that Verus proves:
  - `util/`: the manifest reader/writer, which reads a JSON file node by node and passes each
    byte it reads on to a sink, so that values can be replaced or inserted on the way. Its
    model is in `manifest_spec.rs`; `manifest_laws.rs` proves that what is read is written
    back unchanged, and that an array whose items are read and written back one by one comes
    out as it went in (but for separators right before its closing bracket).
  - `content/subcontent/`: the chunks content is written as; `manifest.rs` writes an item
    into a manifest (a JSON array of objects), replacing the items of the same id.
  - `forms.rs`, `templates.rs`, `quiplash3.rs`: the forms of the content windows, and the
    Quiplash 3 round prompts built from them.
  - `mod_manager.rs`, `content_view.rs`, `mod_config.rs`, `mainmenu.rs`, `preferences.rs`: mods, their content
    and ids, the settings, and what the main window and the preferences show.
  - `content_list.rs`: the content list compiled into Rust source.
  - `json.rs`, and the few functions marked `#[verifier::external_body]` elsewhere: the calls
    into serde_json, regex and std whose contracts are trusted.
- `app/` is the command-line program: it reads and writes the files and leaves the
  decisions to the library.
- `tests/` runs the library on concrete values.
