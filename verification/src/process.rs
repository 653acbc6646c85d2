//! User processes: the programs they run, how those are loaded, and how they are scheduled.

pub mod laws;
pub mod loader;
pub mod placing;
pub mod program;
pub mod running;
pub mod scheduler;
pub mod sockets;
pub mod turns;

pub use loader::{demo_load_elf, elf_load_ok, load, UserImage};
pub use program::{demo_elf, program_elf};
pub use scheduler::{
    on_timer_tick, on_user_accept, on_user_connect, on_user_exit, on_user_listen, on_user_recv,
    on_user_send, on_user_socket, on_user_spawn, on_user_wait, on_user_yield, run, spawn, Scheduler,
};
