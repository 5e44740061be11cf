# pandora_core

The logic of the Pandora Minecraft launcher that can be stated and proved, as a
Verus library:

- `fenwick` — the Fenwick tree that keeps the line counts of a scrolling text view:
  prefix sums, point updates, and finding the item that holds an offset.
- `nbt` — NBT documents held as a tree of tags in a slab: sorted
  compounds, lists, references for reading and changing tags, removal of whole
  subtrees, and structural equality.
- `lockstep` — introspection XML read with `zbus_xml`, and D-Bus type signatures
  looked up in it by interface, member and argument, and searched for across
  several documents; where the directory of XML files is taken from.
- `modrinth` — the Modrinth API types and the names and install folders of loaders.
- `interface_config`, `content` — the enums that interface settings choose from and
  their defaults, the kinds of instance content, and the order content is sorted in
  (natural order of names, through `lexical-sort`).
- `versions`, `version_order` — snapshot ids, searching a version list, and the order
  versions and loaders are offered in.
- `text_order` — string equality, the byte order that compound keys are sorted by,
  and when a natural comparison's aligned runs of digits overflow a `u64`.
- `window_queue` — messages that wait, in order, for the main window.
- `png_render`, `unique_bytes` — resize decisions and pixel order for images, the
  canvas a cape texture is normalised to, and shared byte buffers.

`tests/` runs the library; `app/` holds what touches files, the environment, the
process-wide interning table of byte buffers, serde, and floating point.
