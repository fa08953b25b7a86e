pub mod cmd;
pub mod engine;
pub mod event;
pub mod payload;
pub mod utils;

pub use engine::{Action, Bp35c0, EventFilter, Outcome, Wait, WaitMap};
pub use event::epandesc::EPanDesc;
pub use event::{Event, EventBody, Header, Ipv6Address, RawEvent, UDPSendResult};
pub use payload::{FrameError, Payload};
pub use utils::DecodeError;
