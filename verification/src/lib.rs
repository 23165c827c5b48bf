//! Verified core of a multibeam echosounder ingest pipeline: the byte-level
//! frame format of the sonar datagram stream, a streaming frame extractor, and
//! the bounded double buffer that hands points from the producer to consumers.
pub mod bytes;
pub mod double_buffer;
pub mod frame_laws;
pub mod point_cloud;
pub mod protocol;
pub mod udp_receiver;
pub mod websocket_server;

pub use double_buffer::DoubleBuffer;
pub use point_cloud::{ping_bounds, LutColor};
pub use protocol::{
    AllFrameParser, BeamData, ParsedFrame, PingData, ProtocolError, StreamingParser, SvpData,
    SvpPoint, ETX, MSG_CLOCK, MSG_DEPTH, MSG_EXTRA_PARAM, MSG_HEAD, MSG_INSTALLATION_PARAM,
    MSG_QUALITY_FACTOR, MSG_RANGE, MSG_RUNTIME, MSG_SEABED_IMAGE, MSG_SSP, MSG_SVP, STX,
};
pub use udp_receiver::{receiver_step, ReceiverAction, UdpReceiverError};
pub use websocket_server::{batch_ping_span, ClientMessage};
