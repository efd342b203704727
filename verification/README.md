# client

The client side of the Aeonetica game engine, as a verified library and a
thin program around it.

- `src/` is the library, verified with Verus:
  - `renderer/batch.rs`, `renderer/renderer_core.rs`, `renderer/laws.rs`:
    vertex batching — items grouped by shader, layout and depth into
    batches of bounded size with up to sixteen textures, their indices
    shifted and their texture slots written; the laws about adding,
    removing and changing items.
  - `renderer/buffer.rs`, `renderer/vertex_layout.rs`, `renderer/shader.rs`,
    `renderer/material.rs`: vertex layouts, shader data types, materials.
  - `renderer/shader_source.rs`: the shader source file format (stage
    regions, block comments dropped).
  - `renderer/texture.rs`, `renderer/sprite_sheet.rs`, `renderer/font.rs`:
    decoded images, sprite regions, bitmap fonts and glyph widths.
  - `renderer/text_area.rs`, `renderer/builtin/text_area.rs`,
    `renderer/layer_stack.rs`, `renderer/window.rs`, `events/`: text areas,
    the layer stack, window and input events.
  - `client_runtime.rs`, `networking.rs`, `client.rs`: the session state, mod paths and
    downloads with their chunk requests, packet framing and routing, the
    frame counter.
- `app/` holds what the library cannot: OpenGL and window calls, files,
  sockets, floating-point geometry.
- `tests/` runs the library on concrete values.
