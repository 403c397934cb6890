//! What differs between the platforms: links, sessions, volumes and start at login.
pub mod autostart;
pub mod linux;
pub mod macos;
pub mod windows;
