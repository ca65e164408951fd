# atomics_and_locks

Verified models of classic synchronization primitives: spin locks, a
futex-style mutex (with and without spinning), a condition variable, a
reader-writer lock, one-shot and queue-based channels, a reference-counted
pointer, and a few small atomic patterns (lazy initialization, id
allocation, progress statistics, sequentially consistent flags).

Each primitive is a plain Rust type whose fields are the values of its shared
words. Its step functions each perform exactly one atomic step of the
protocol (a load, store, swap, compare-and-exchange or read-modify-write), so
a sequence of step calls made on behalf of several threads is one
interleaving of their steps. The operations with the familiar names (`wait`,
`notify_one`, `allocate_new_id`, `record`, `f`, ...) run their steps in a
row; `oneshot::Channel::send` and `receive`, and the write release of the
reader-writer lock (which frees the word and moves the writer wake counter
on), are single calls. Loops that wait
for other threads are split into their steps: a step function takes the phase
a thread is in and returns the next phase, a decision to block (with the
phase to resume at), or the acquired guard. Blocking and waking are reported
as decisions; the caller performs them. Guards, waiters and the halves of a
split channel carry the identity of the object they came from, and every
operation that takes one requires it to match.

`src/` holds the library and its proofs. Besides the contract of every step,
each module states the protocol's laws over a model of any number of
threads (`MutexSystem`, `RwSystem`, `CondSystem`, `SpinSystem`, `ArcState`):
mutual exclusion, reader/writer exclusion, no stranded sleeper, no lost
notification, single delivery, FIFO order, freeing on the last drop.

`app/main.rs` runs the protocols on real threads, performing each step under
a `std::sync::Mutex` and blocking on a futex word with `atomic-wait`.
