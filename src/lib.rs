pub mod buffer;
pub mod client;
pub mod codec;
pub mod list;
pub mod login;
pub mod poll;
pub mod process;
pub mod protocol;
pub mod server;
pub mod stream;
pub mod text;
pub mod watch;
