# carrier

The configuration logic of a lightweight virtual-machine container manager,
verified with Verus.

- `src/` — the verified library:
  - `text`: decimal numbers (reading as `str::parse` does for unsigned
    integers, writing as `to_string` does), trimming white space, splitting at
    a separator;
  - `paths`: absolute Unix paths and their number of components;
  - `strmap`: a text-keyed map that keeps its keys in insertion order;
  - `config`: the machines' and the global configuration, and registering,
    finding and deleting machines;
  - `mapping`: port and volume mappings given as `host:guest`;
  - `buildah`: the arguments handed to `buildah` and the reading of its answer;
  - `create`: the checks made before a machine is created, and its
    configuration once its container exists;
  - `host`: file names, file contents, environment and mapping texts handed
    to the host and to the machine.
- `app/` — the command-line program around it: arguments, the configuration
  file, processes, the file system and the virtual-machine runtime.
- `tests/` — tests of the library.
