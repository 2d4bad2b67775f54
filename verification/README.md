# pocket3d

The data-handling core of a small 3D engine, written in Verus: every
public function in `src/` carries a contract that the verifier proves.

- `pak`, `pak_laws`, `crc`: the `.p3dpak` archive (writer, reader, CRC-32
  integrity checks) and its round-trip laws.
- `wav`, `sound`: RIFF/WAVE parsing and the sound bank that hands out stable
  handles.
- `bsp`: GoldSrc BSP v30 loading: the byte cursor, header and lumps, WAD3
  archives and miptex decoding, the entity lump, texture resolution,
  lightmap atlas packing and blitting, face walks and collision triangles,
  and the inspector summary.
- `glb`: framing of binary glTF files; `skin`: the joint hierarchy and
  index bookkeeping of importing a skinned model.
- `keyed`, `text`, `le`: string-keyed sorted tables, string and character
  helpers, little-endian byte encodings.
- `anim`, `input`, `material`, `texture`, `render`, `round`, `gestures`,
  `handles`, `world`, `config`, `tools`: engine types and rules.

`app/` is the command-line tool around the library (`p3d bsp inspect`,
`p3d bsp build`, `p3d asset-build`) together with the floating-point
geometry, file I/O and audio backends that stay outside the verified code.
