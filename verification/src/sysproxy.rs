//! System-proxy plans per platform. The shell performs each plan (GNOME
//! `gsettings` calls, WinINET registry writes, macOS `networksetup` calls)
//! in order and reports the outcome back where a decision depends on it.

pub mod linux;
pub mod macos;
pub mod other;
pub mod windows;
