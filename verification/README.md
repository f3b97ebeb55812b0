# minictr

A small container runtime for Linux whose decisions are verified with Verus.

`src/` is the library. It decides and performs nothing: every operation that needs
several system calls is a sequence of steps, and each step says what to do and, once
it is told what came of that, what follows. Contracts say exactly what follows which
reply; the proof functions named `law_...` say what holds whatever the system replies,
among them:

- nothing is created for a bind mount before its place was found to lie inside the
  root file system;
- a container is started only when everything was resolved and signals were taken
  over, and with the resource limits of its configuration or none;
- the cgroup is removed and signal handling is restored however the container ended;
- the status of a run is that of its workload, whatever cleaning up comes to;
- an init returns the workload's status only when every process below it has ended.

`app/` performs the steps: it reads the command line with `clap` and configuration
files with `serde_json`, and makes the system calls through `nix` and the standard
library.

Status codes are the conventional ones: 125 for a failure of the runtime, 126 for a
command that cannot be executed, 127 for one that cannot be found, 128 and the number
of the signal for a workload that a signal ended, and the workload's own otherwise.
