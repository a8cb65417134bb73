# ambient_core_logic

Verified building blocks of the Ambient game engine and of its repository
tool, written in Verus.

- `component_set`, `bits`: sets of component indices over `bit-set`, and
  their serialized form.
- `attributes`, `component_registry`, `enums`: component attributes, the
  registry that gives each component path an index, and the enumerations that
  components hold as integers.
- `entity`: the data of one entity, a sparse vector of component values kept
  in step with its set of active components, and its serialized entries.
- `bindgen`, `wit`, `guest_entity`, `asset`: values on the guest/host
  interface, and entities as guests hold them.
- `shader`, `text`, `gpu`: shader modules, their dependency order and
  preprocessing (identifier replacement through `aho-corasick`), and the
  choices and sizes made when setting up the GPU.
- `client_proto`, `client`, `network`, `window`, `editor`, `golden`, `prefab`:
  the client's connection state machine and launch settings, the network
  layer's errors and checks, the golden image test's decisions, which prefab
  files to load, and small engine types.
- `paths`, `listing`, `campfire`, `new_package`: the repository tool: which
  directories are packages and examples, what it runs for each command, and
  how a new package is laid out.

`app/` holds the command line program around the library: it reads the file
system, parses arguments and runs the programs that the library's plans name.
