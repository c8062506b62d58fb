# block-benchie

A read-only direct-I/O block device transfer-rate sampler. It reads for a fixed
time at evenly spaced points of a device and renders the measured throughput as
an SVG graph and a Markdown report.

`src/` is the library, verified with Verus:

| Module | What it holds |
| --- | --- |
| `sampling` | sample points, and which reads a sample issues |
| `run` | the size of the device, whether it can be sampled, and the order of the samples |
| `device` | the name of the device, its `/dev/disk/by-id` link, default file names |
| `path` | Unix paths as byte strings |
| `config` | the settings of a run |
| `clock` | durations and timestamps as text |
| `human` | sizes in binary units |
| `text`, `escape` | decimal numbers, columns, XML and Markdown escaping |
| `report`, `svg`, `markdown`, `console` | what a run puts out |
| `error` | what can go wrong, and how it is worded |

`app/` is the command line: arguments, files, the device itself, and the
floating-point measurements. The library gets those measurements as decimal
texts. `tests/` runs the library.
