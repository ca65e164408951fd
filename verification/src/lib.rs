pub mod spinlock_guard;
pub mod spinlock_unsf;
pub mod mutex_content;
pub mod mutex_optim;
pub mod cond_var;
pub mod rwlock;
pub mod naive_channel;
pub mod oneshot;
pub mod oneshot_borrowed;
pub mod arc;
pub mod atomic_ref;
pub mod id_allocation;
pub mod id_allocation_comp_enxg;
pub mod statistics;
pub mod locking;
pub mod seq;
pub mod cell;
pub mod refcell;
pub mod hello;
