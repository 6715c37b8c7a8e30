# Resources

The logic of a system monitor, verified with Verus: what processes use of the CPU, of memory,
of GPUs and NPUs, which application a process belongs to, and what the exporter of NPU data
tells of the system.

## Layout

| Where | What |
|---|---|
| `src/text.rs`, `src/number.rs`, `src/list.rs`, `src/path.rs`, `src/sorted_map.rs` | texts, numbers, lists, paths and ordered maps |
| `src/pattern.rs`, `src/cgroup.rs`, `src/proc_files.rs` | regular expressions, control groups and the files in `/proc/<pid>` |
| `src/units.rs`, `src/pci_slot.rs`, `src/gpu_usage.rs`, `src/npu_usage.rs`, `src/nvidia.rs` | shares of time, addresses and readings of devices |
| `src/fdinfo.rs`, `src/fd_scan.rs` | what file descriptors tell of devices, and which of them are read |
| `src/pss.rs`, `src/telemetry.rs`, `src/process_data.rs`, `src/process.rs` | what is known of a process |
| `src/app.rs`, `src/association.rs`, `src/context.rs`, `src/apps.rs`, `src/app_usage.rs`, `src/desktop.rs` | applications, and how processes go to them |
| `src/exporter.rs` | the exporter of NPU data |
| `src/link.rs`, `src/npu.rs`, `src/npu_page.rs`, `src/settings.rs`, `src/sidebar.rs`, `src/util.rs` | devices, settings and what the interface shows |
| `app/` | the exporter as a program, and reading files, sensors and clocks |
| `tests/` | the library by example |

The library holds no floating-point numbers: shares are exact fractions, and `app/` divides.
It reads no files and no clock: what was read is handed in as plain values, and what the
environment decides (the users, the number of CPUs, the answers of snapd) is an argument.

## What is trusted

Five calls are believed rather than proved, each with a contract that says what is claimed of
it: `String::push`, `String::from_utf8`, matching a regular expression, reading a section of an
INI file and reading a place of a JSON text. Of the last three only that the result depends on
the arguments alone; the functions that take such a result are exact for every value of it.
