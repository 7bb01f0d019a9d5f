//! Device-side runtime core of a CANopen node: the network-management (NMT)
//! state machine with COB-ID based dispatch, the Process Data Object (PDO)
//! mapping table with its trigger policy, and the variable-bit-width payload
//! codec that packs mapped dictionary values into CAN frame payloads.

pub mod cob_map;
pub mod codec;
pub mod dict;
pub mod frame;
pub mod node;
pub mod pdo;
