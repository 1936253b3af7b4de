//! A Wayland desktop shell's logic, verified: its configuration, the
//! panel's gadgets and their decisions, the launcher, the exit menu, the
//! lock screen, the notification daemon and its toasts, the mixer's
//! model, the system monitor's readings and the compositor's state.
//! Drawing, the sockets, D-Bus and the files are the caller's; each
//! module says what it leaves to it.
pub mod text;
pub mod config;
pub mod notifications;
pub mod compositor;
pub mod process;
pub mod desktop;
pub mod theme;
pub mod icons;
pub mod sysmon;
pub mod procfs;
pub mod audio;
pub mod locale;
pub mod scripts;
pub mod launcher;
pub mod commands;
pub mod exiter;
pub mod toast;
pub mod custom;
pub mod locker;
pub mod gadgets;
pub mod hyprland;
pub mod readout;
pub mod sensors;
pub mod panel;
pub mod dialog;
pub mod dbus;
pub mod shell;
