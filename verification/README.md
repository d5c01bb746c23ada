# cpu_load_simulator

A CPU and memory load simulator whose decisions are verified with Verus.

- `src/clock.rs`: times of day and local moments; chrono reads `HH:MM` times,
  gives the weekday of a date and writes it as `YYYY-MM-DD`.
- `src/schedule.rs`: the work schedule and `is_work_time_at`, with its laws.
- `src/meminfo.rs`: the total memory read from the text of `/proc/meminfo`.
- `src/memory.rs`: the pool of memory blocks, grown or shrunk towards a target.
- `src/cpu.rs`: the sleep at the end of each load cycle.
- `app/main.rs`: the program: configuration file, clock, threads, floating-point
  percentages and the busy loop.
