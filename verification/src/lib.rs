//! CanisLink control-plane library: the MCU UART frame protocol and its
//! emulator, the sense pipeline and presence debouncing, the mutual bond
//! graph, welfare policy, invite routing and session allocation, device
//! authentication, ICE credential minting, the in-memory stores and their
//! restoration from durable rows, the device API's request rules, and the
//! edge terminal's state machine.
pub mod mcu;
pub mod text;
pub mod protocol;
pub mod presence;
pub mod bond;
pub mod policy;
pub mod session;
pub mod auth;
pub mod ice;
pub mod store;
pub mod sense;
pub mod mcu_emu;
pub mod api;
pub mod edge;
pub mod load;
pub mod steward;
pub mod events;
pub mod signal;
