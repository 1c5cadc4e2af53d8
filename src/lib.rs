//! Radio link layer of a rocketry ground station: the modem's binary frame
//! codec, telemetry text records, stream resynchronisation, salvage of
//! telemetry from broken frames, and the command acknowledgement ledger.

pub mod chunking;
pub mod clock;
pub mod codes;
pub mod fixed;
pub mod frame;
pub mod ledger;
pub mod received;
pub mod resync;
pub mod rx_packet;
pub mod salvage;
pub mod telemetry;
pub mod text;
pub mod tx_request;
pub mod tx_status;
