//! A lightweight browser's core: the tab state machine, the IPC protocol
//! between web views and the host, the address bar editor, the ad blocker,
//! the configuration rules and the software-rendered chrome.
pub mod clock;
pub mod config;
pub mod dispatch;
pub mod engine;
pub mod fsm;
pub mod text;
pub mod ui;
pub mod ipc;
pub mod memory;
pub mod network;
