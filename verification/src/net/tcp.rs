//! TCP: segments and the connection machinery built on them.

pub mod laws;
pub mod model;
pub mod receiving;
pub mod segment;
pub mod sending;
pub mod states;
pub mod table;
pub mod tcb;
pub mod timing;

pub use model::State;
pub use segment::{
    build, checksum, Segment, SegmentView, ACK, FIN, HEADER_LEN, PROTO_TCP, PSH, RST, SYN, URG,
};
pub use table::{
    acks_sent, all_data_acked, bytes_in_flight, close, congestion_window, connection_state,
    current_rto, data_segments_sent, established_count, fast_retransmits, flush,
    flush_delayed_acks, on_segment, on_tick, open_active, open_passive, out_of_order_buffered,
    queue_send, read, receive_window, received_data, reset_connections, rtt_estimator_selftest,
    rtt_sampled, send_buffered, set_nodelay, slow_start_threshold, unclaimed, Tcp,
};
