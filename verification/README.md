# Bump allocator, coroutine contexts and a green-thread scheduler

`src/` is the verified library:

- `bump`: a bump allocator over an address range. `allocate` rounds the allocation pointer up
  to the request's alignment and moves it past the block; `reset` frees everything at once.
  Proved: the exact result of every request, alignment, blocks inside the heap, blocks of any
  run of requests disjoint, capacity, and that `reset` replays a fresh allocator.
- `coroutine`: the saved-register layout of a riscv64 task, its initialisation for a first
  switch, and stack allocation with a 16-byte aligned top.
- `green_threads`: a round-robin scheduler over a thread table. Proved: the choice is the first
  ready thread after the current one, a waiting ready thread runs within `n - 1` dispatches,
  at most one thread runs, finished threads never run
  again, an entry is handed out once.
- `stack`: address rounding shared by the two.

`app/` holds what cannot be verified: the `GlobalAlloc` adapter, the register switch in
assembly, and the runtime that performs the scheduler's decisions on riscv64.
