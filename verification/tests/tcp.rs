use aether::net::tcp::model::State;
use aether::net::tcp::segment;
use aether::net::tcp::segment::Segment;
use aether::net::tcp::table;
use aether::net::tcp::table::Tcp;
use aether::net::tcp::tcb;

const CLIENT: [u8; 4] = [10, 0, 0, 1];
const SERVER: [u8; 4] = [10, 0, 0, 2];
const PORT: u16 = 80;
const LOCAL: u16 = 50000;

struct Pair {
    client: Tcp,
    server: Tcp,
}

impl Pair {
    fn to_server(&mut self, segment: &[u8], now: u64) -> Option<Vec<u8>> {
        let seg = Segment::parse(segment).unwrap();
        table::on_segment(&mut self.server, SERVER, CLIENT, &seg, now)
    }

    fn to_client(&mut self, segment: &[u8], now: u64) -> Option<Vec<u8>> {
        let seg = Segment::parse(segment).unwrap();
        table::on_segment(&mut self.client, CLIENT, SERVER, &seg, now)
    }

    fn client_state(&self) -> Option<State> {
        table::connection_state(&self.client, LOCAL, PORT)
    }

    fn server_state(&self) -> Option<State> {
        table::connection_state(&self.server, PORT, LOCAL)
    }

    fn send(&mut self, data: &[u8], now: u64) -> Vec<Vec<u8>> {
        assert!(table::queue_send(&mut self.client, LOCAL, PORT, data));
        self.flush(now)
    }

    fn flush(&mut self, now: u64) -> Vec<Vec<u8>> {
        table::flush(&mut self.client, CLIENT, now)
            .into_iter()
            .map(|(segment, ip)| {
                assert_eq!(ip, SERVER);
                segment
            })
            .collect()
    }

    /// Delivers every segment and every acknowledgement.
    fn settle(&mut self, mut segments: Vec<Vec<u8>>, now: u64) {
        loop {
            let mut acks = Vec::new();
            for s in segments.iter() {
                acks.extend(self.to_server(s, now));
            }
            for (s, _) in table::flush_delayed_acks(&mut self.server, SERVER, now + 100) {
                acks.push(s);
            }
            for a in acks.iter() {
                assert_eq!(self.to_client(a, now), None);
            }
            segments = self.flush(now);
            if segments.is_empty() {
                break;
            }
        }
    }
}

fn connected() -> Pair {
    let mut p = Pair { client: Tcp::new(), server: Tcp::new() };
    table::open_passive(&mut p.server, PORT);
    let syn = table::open_active(&mut p.client, CLIENT, SERVER, LOCAL, PORT);
    assert_eq!(p.client_state(), Some(State::SynSent));
    let syn_ack = p.to_server(&syn, 0).unwrap();
    assert_eq!(p.server_state(), Some(State::SynReceived));
    let ack = p.to_client(&syn_ack, 0).unwrap();
    assert_eq!(p.client_state(), Some(State::Established));
    assert_eq!(p.to_server(&ack, 0), None);
    assert_eq!(p.server_state(), Some(State::Established));
    p
}

#[test]
fn segment_parses_back() {
    let bytes = segment::build(CLIENT, SERVER, 1, 2, 0xFFFF_FFFF, 7, segment::PSH_ACK, 512, b"abc");
    let s = Segment::parse(&bytes).unwrap();
    assert_eq!((s.src_port, s.dst_port, s.seq, s.ack), (1, 2, 0xFFFF_FFFF, 7));
    assert_eq!((s.flags, s.window, s.payload), (0x18, 512, &b"abc"[..]));
    assert!(Segment::parse(&bytes[..19]).is_none());
    let mut short_header = bytes.clone();
    short_header[12] = 0x40;
    assert!(Segment::parse(&short_header).is_none());
}

#[test]
fn sequence_numbers_wrap() {
    assert!(tcb::seq_lt(0xFFFF_FFFF, 0));
    assert!(!tcb::seq_lt(0, 0xFFFF_FFFF));
    assert!(tcb::seq_leq(5, 5));
    assert_eq!(tcb::advance(0xFFFF_FFFF, 3), 2);
    assert_eq!(tcb::window_for(0), 8192);
    assert_eq!(tcb::window_for(8000), 192);
    assert_eq!(tcb::window_for(9000), 0);
}

#[test]
fn three_messages_open_a_connection() {
    let p = connected();
    assert_eq!(table::established_count(&p.client), 1);
    assert_eq!(table::unclaimed(&p.server, PORT, &vec![]), Some((PORT, LOCAL)));
    assert_eq!(table::unclaimed(&p.server, PORT, &vec![(PORT, LOCAL)]), None);
    assert_eq!(table::unclaimed(&p.server, 81, &vec![]), None);
}

#[test]
fn segment_to_a_closed_port_is_dropped() {
    let mut p = Pair { client: Tcp::new(), server: Tcp::new() };
    let syn = table::open_active(&mut p.client, CLIENT, SERVER, LOCAL, PORT);
    assert_eq!(p.to_server(&syn, 0), None);
    assert_eq!(p.server_state(), None);
}

#[test]
fn data_arrives_in_order() {
    let mut p = connected();
    let data: Vec<u8> = (0..3000u32).map(|i| i as u8).collect();
    let first = p.send(&data, 0);
    assert_eq!(first.len(), 1);
    assert_eq!(Segment::parse(&first[0]).unwrap().payload.len(), 1024);
    // With the headers of IPv4 and Ethernet it fits a frame.
    assert!(first[0].len() + 20 <= 1500);
    p.settle(first, 0);
    assert_eq!(table::received_data(&p.server, PORT, LOCAL), Some(data.clone()));
    assert_eq!(table::all_data_acked(&p.client, LOCAL, PORT), Some(true));
    assert_eq!(table::receive_window(&p.server, PORT, LOCAL), Some(8192 - 3000));
    assert_eq!(table::read(&mut p.server, PORT, LOCAL, 1000), Some(data[..1000].to_vec()));
    assert_eq!(table::read(&mut p.server, PORT, LOCAL, 5000), Some(data[1000..].to_vec()));
    assert_eq!(table::receive_window(&p.server, PORT, LOCAL), Some(8192));
}

#[test]
fn data_for_no_connection_is_refused() {
    let mut tcp = Tcp::new();
    assert!(!table::queue_send(&mut tcp, 1, 2, b"x"));
    assert!(!table::set_nodelay(&mut tcp, 1, 2, true));
    assert_eq!(table::read(&mut tcp, 1, 2, 10), None);
    assert_eq!(table::bytes_in_flight(&tcp, 1, 2), None);
}

#[test]
fn every_second_segment_is_acknowledged_at_once() {
    let mut p = connected();
    let opening = p.send(&[1; 1024], 0);
    p.settle(opening, 0);
    let pair = p.send(&[2; 2048], 0);
    assert_eq!(pair.len(), 2);
    assert_eq!(p.to_server(&pair[0], 0), None);
    assert!(p.to_server(&pair[1], 0).is_some());
}

#[test]
fn single_segment_is_acknowledged_after_a_while() {
    let mut p = connected();
    let one = p.send(b"x", 0);
    assert_eq!(p.to_server(&one[0], 10), None);
    assert_eq!(table::flush_delayed_acks(&mut p.server, SERVER, 14), vec![]);
    assert_eq!(table::flush_delayed_acks(&mut p.server, SERVER, 15).len(), 1);
    assert_eq!(table::flush_delayed_acks(&mut p.server, SERVER, 99), vec![]);
}

#[test]
fn small_writes_wait_for_the_acknowledgement() {
    let mut p = connected();
    let first = p.send(b"a", 0);
    assert_eq!(first.len(), 1);
    assert_eq!(p.send(b"b", 0).len(), 0);
    assert_eq!(p.send(b"c", 0).len(), 0);
    assert_eq!(table::send_buffered(&p.client, LOCAL, PORT), Some(2));
    assert!(table::set_nodelay(&mut p.client, LOCAL, PORT, true));
    let rest = p.flush(0);
    assert_eq!(rest.len(), 1);
    assert_eq!(Segment::parse(&rest[0]).unwrap().payload, b"bc");
}

#[test]
fn window_doubles_while_starting_slowly() {
    let mut p = connected();
    assert_eq!(table::congestion_window(&p.client, LOCAL, PORT), Some(1024));
    let first = p.send(&[0; 1024], 0);
    p.settle(first, 0);
    assert_eq!(table::congestion_window(&p.client, LOCAL, PORT), Some(2048));
    assert_eq!(table::slow_start_threshold(&p.client, LOCAL, PORT), Some(0xFFFF_FFFF));
}

/// A connection whose sender may have `segments` full segments in flight.
fn warmed_up(segments: u32) -> Pair {
    let mut p = connected();
    while table::congestion_window(&p.client, LOCAL, PORT).unwrap() < segments * 1024 {
        let out = p.send(&[0; 1024], 0);
        p.settle(out, 0);
        table::read(&mut p.server, PORT, LOCAL, 100_000);
    }
    p
}

#[test]
fn segments_out_of_order_are_put_in_order() {
    let mut p = warmed_up(3);
    let data: Vec<u8> = (0..3072u32).map(|i| (i / 256) as u8).collect();
    let out = p.send(&data, 0);
    assert_eq!(out.len(), 3);
    assert!(p.to_server(&out[2], 0).is_some());
    assert!(p.to_server(&out[1], 0).is_some());
    assert_eq!(table::out_of_order_buffered(&p.server), 2);
    assert_eq!(table::received_data(&p.server, PORT, LOCAL), Some(vec![]));
    let ack = p.to_server(&out[0], 0).unwrap();
    assert_eq!(table::received_data(&p.server, PORT, LOCAL), Some(data));
    p.to_client(&ack, 0);
    assert_eq!(table::bytes_in_flight(&p.client, LOCAL, PORT), Some(0));
}

#[test]
fn repeated_segment_is_not_delivered_twice() {
    let mut p = connected();
    let out = p.send(b"once", 0);
    p.to_server(&out[0], 0);
    assert!(p.to_server(&out[0], 0).is_some());
    assert_eq!(table::received_data(&p.server, PORT, LOCAL), Some(b"once".to_vec()));
}

#[test]
fn third_duplicate_acknowledgement_resends() {
    let mut p = warmed_up(5);
    let out = p.send(&[7; 5 * 1024], 0);
    assert_eq!(out.len(), 5);
    let mut replies = Vec::new();
    for s in out[1..].iter() {
        let ack = p.to_server(s, 0).unwrap();
        replies.push(p.to_client(&ack, 0));
    }
    assert_eq!(table::fast_retransmits(&p.client), 1);
    assert_eq!(replies[0], None);
    assert_eq!(replies[1], None);
    let resent = replies[2].clone().unwrap();
    assert_eq!(Segment::parse(&resent).unwrap().seq, Segment::parse(&out[0]).unwrap().seq);
    let ack = p.to_server(&resent, 0).unwrap();
    p.to_client(&ack, 0);
    assert_eq!(table::received_data(&p.server, PORT, LOCAL), Some(vec![7; 5 * 1024]));
    assert_eq!(table::all_data_acked(&p.client, LOCAL, PORT), Some(true));
}

#[test]
fn silent_peer_is_tried_again_and_given_up() {
    let mut p = connected();
    let out = p.send(b"lost", 0);
    assert_eq!(table::on_tick(&mut p.client, 14), vec![]);
    let mut now = 0;
    let mut resent = 0;
    while p.client_state() == Some(State::Established) {
        now += 1;
        for (s, ip) in table::on_tick(&mut p.client, now) {
            assert_eq!((&s, ip), (&out[0], SERVER));
            resent += 1;
        }
        assert!(now < 100_000);
    }
    assert_eq!(resent, 5);
    // Each wait is twice as long as the one before it.
    assert_eq!(now, 15 + 30 + 60 + 120 + 240 + 480);
}

#[test]
fn round_trip_time_sets_the_timeout() {
    assert!(table::rtt_estimator_selftest());
    let (srtt, rttvar, rto) = tcb::rtt_step(0, 0, false, 100);
    assert_eq!((srtt, rttvar), (800, 200));
    assert_eq!(rto, 300);
    let mut p = connected();
    assert_eq!(table::rtt_sampled(&p.client, LOCAL, PORT), Some(false));
    assert_eq!(table::current_rto(&p.client, LOCAL, PORT), Some(15));
    let out = p.send(b"x", 0);
    p.settle(out, 0);
    assert_eq!(table::rtt_sampled(&p.client, LOCAL, PORT), Some(true));
}

#[test]
fn four_messages_close_a_connection() {
    let mut p = connected();
    let (fin, ip) = table::close(&mut p.client, CLIENT, LOCAL, PORT, 0).unwrap();
    assert_eq!(ip, SERVER);
    assert_eq!(p.client_state(), Some(State::FinWait1));
    let ack = p.to_server(&fin, 0).unwrap();
    assert_eq!(p.server_state(), Some(State::CloseWait));
    assert_eq!(p.to_client(&ack, 0), None);
    assert_eq!(p.client_state(), Some(State::FinWait2));
    let (fin, _) = table::close(&mut p.server, SERVER, PORT, LOCAL, 0).unwrap();
    assert_eq!(p.server_state(), Some(State::LastAck));
    let ack = p.to_client(&fin, 0).unwrap();
    assert_eq!(p.client_state(), Some(State::TimeWait));
    p.to_server(&ack, 0);
    assert!(matches!(p.server_state(), None | Some(State::Closed)));
    table::on_tick(&mut p.client, 30);
    assert!(matches!(p.client_state(), None | Some(State::Closed)));
    table::reset_connections(&mut p.client);
    assert_eq!(table::established_count(&p.client), 0);
}

#[test]
fn full_buffer_refuses_data_and_is_probed() {
    let mut p = warmed_up(8);
    let out = p.send(&[3; 8192], 0);
    p.settle(out, 0);
    assert_eq!(table::receive_window(&p.server, PORT, LOCAL), Some(0));
    let probe = p.send(b"more", 0);
    assert_eq!(probe.len(), 1);
    assert_eq!(Segment::parse(&probe[0]).unwrap().payload, b"m");
    // The probe is refused until the application reads.
    assert!(p.to_server(&probe[0], 0).is_some());
    assert_eq!(table::received_data(&p.server, PORT, LOCAL).unwrap().len(), 8192);
    assert_eq!(table::read(&mut p.server, PORT, LOCAL, 8192), Some(vec![3; 8192]));
    p.to_server(&probe[0], 0);
    assert_eq!(table::received_data(&p.server, PORT, LOCAL), Some(b"m".to_vec()));
}

#[test]
fn held_data_stays_held_until_it_fits() {
    let mut p = connected();
    let seq = Segment::parse(&p.send(b"x", 0)[0]).unwrap().seq;
    let data = |at: u32, payload: &[u8]| {
        segment::build(CLIENT, SERVER, LOCAL, PORT, at, 0, segment::PSH, 1000, payload)
    };
    for i in 0..8u32 {
        p.to_server(&data(seq + 1000 * i, &[i as u8; 1000]), 0);
    }
    assert_eq!(table::receive_window(&p.server, PORT, LOCAL), Some(192));
    // 500 bytes behind a gap of 100: the gap fits, what was held does not.
    assert!(p.to_server(&data(seq + 8100, &[9; 500]), 0).is_some());
    p.to_server(&data(seq + 8000, &[8; 100]), 0);
    assert_eq!(table::received_data(&p.server, PORT, LOCAL).unwrap().len(), 8100);
    assert_eq!(table::receive_window(&p.server, PORT, LOCAL), Some(92));
    // Once there is room, the next segment in order takes the held data along.
    assert_eq!(table::read(&mut p.server, PORT, LOCAL, 8100).unwrap().len(), 8100);
    let ack = p.to_server(&data(seq + 8100, &[9; 1]), 0).unwrap();
    assert_eq!(Segment::parse(&ack).unwrap().ack, seq + 8600);
    assert_eq!(table::received_data(&p.server, PORT, LOCAL), Some(vec![9; 500]));
}

#[test]
fn one_acknowledgement_opens_the_window_by_one_segment() {
    let mut p = warmed_up(2);
    let before = table::congestion_window(&p.client, LOCAL, PORT).unwrap();
    let out = p.send(&[0; 2048], 0);
    assert_eq!(out.len(), 2);
    assert_eq!(p.to_server(&out[0], 0), None);
    // One acknowledgement covers both segments.
    let ack = p.to_server(&out[1], 0).unwrap();
    p.to_client(&ack, 0);
    assert_eq!(table::bytes_in_flight(&p.client, LOCAL, PORT), Some(0));
    assert_eq!(table::congestion_window(&p.client, LOCAL, PORT), Some(before + 1024));
}

#[test]
fn one_listener_answers_one_connection() {
    let mut server = Tcp::new();
    table::open_passive(&mut server, PORT);
    table::open_passive(&mut server, PORT);
    let syn = |from: u16| {
        segment::build(CLIENT, SERVER, from, PORT, 100, 0, segment::SYN, 1000, b"")
    };
    let first = syn(LOCAL);
    let seg = Segment::parse(&first).unwrap();
    let answer = table::on_segment(&mut server, SERVER, CLIENT, &seg, 0).unwrap();
    let answer = Segment::parse(&answer).unwrap();
    assert_eq!((answer.flags, answer.ack, answer.window), (segment::SYN_ACK, 101, 8192));
    // The listener is used up.
    let second = syn(LOCAL + 1);
    let seg = Segment::parse(&second).unwrap();
    assert_eq!(table::on_segment(&mut server, SERVER, CLIENT, &seg, 0), None);
    table::open_passive(&mut server, PORT);
    assert!(table::on_segment(&mut server, SERVER, CLIENT, &seg, 0).is_some());
}

#[test]
fn acknowledgement_of_unsent_data_is_ignored() {
    let mut p = connected();
    let out = p.send(b"data", 0);
    let sent = Segment::parse(&out[0]).unwrap();
    let ack = |n: u32, window: u16| {
        segment::build(SERVER, CLIENT, PORT, LOCAL, sent.ack, n, segment::ACK, window, b"")
    };
    // Neither the bytes nor the window count.
    assert_eq!(p.to_client(&ack(sent.seq + 5, 0), 0), None);
    assert_eq!(table::bytes_in_flight(&p.client, LOCAL, PORT), Some(4));
    assert_eq!(p.to_client(&ack(sent.seq + 4, 7), 0), None);
    assert_eq!(table::bytes_in_flight(&p.client, LOCAL, PORT), Some(0));
    // What is sent next keeps to the window of the last acknowledgement that counted.
    assert!(table::set_nodelay(&mut p.client, LOCAL, PORT, true));
    assert_eq!(p.to_client(&ack(sent.seq, 3), 0), None);
    let out = p.send(&[1; 10], 0);
    assert_eq!(out.len(), 1);
    assert_eq!(Segment::parse(&out[0]).unwrap().payload, &[1; 7]);
}

#[test]
fn acknowledgement_while_closing_leaves_none_owed() {
    let mut p = connected();
    let one = p.send(b"x", 0);
    let sent = Segment::parse(&one[0]).unwrap();
    assert_eq!(p.to_server(&one[0], 0), None);
    // The server owes an acknowledgement when it closes; the peer's own close draws one at once.
    let (fin, _) = table::close(&mut p.server, SERVER, PORT, LOCAL, 0).unwrap();
    let unacked = Segment::parse(&fin).unwrap().seq;
    let peer_fin = segment::build(
        CLIENT,
        SERVER,
        LOCAL,
        PORT,
        sent.seq + 1,
        unacked,
        segment::FIN_ACK,
        8192,
        b"",
    );
    let ack = p.to_server(&peer_fin, 0).unwrap();
    assert_eq!(p.server_state(), Some(State::Closing));
    assert_eq!(Segment::parse(&ack).unwrap().ack, sent.seq + 2);
    assert_eq!(table::flush_delayed_acks(&mut p.server, SERVER, 99), vec![]);
}

#[test]
fn window_grows_slowly_past_the_threshold() {
    let mut p = connected();
    // A lost segment halves the threshold and starts the window anew.
    let lost = p.send(&[1; 1024], 0);
    assert_eq!(table::on_tick(&mut p.client, 15).len(), 1);
    assert_eq!(table::slow_start_threshold(&p.client, LOCAL, PORT), Some(2048));
    assert_eq!(table::congestion_window(&p.client, LOCAL, PORT), Some(1024));
    p.settle(lost, 15);
    assert_eq!(table::congestion_window(&p.client, LOCAL, PORT), Some(2048));
    let next = p.send(&[1; 1024], 16);
    p.settle(next, 16);
    assert_eq!(table::congestion_window(&p.client, LOCAL, PORT), Some(2048 + 512));
}

#[test]
fn held_segments_are_limited() {
    let mut p = connected();
    let seq = Segment::parse(&p.send(b"x", 0)[0]).unwrap().seq;
    for i in 0..20u32 {
        let far = segment::build(
            CLIENT,
            SERVER,
            LOCAL,
            PORT,
            seq + 10 + 2 * i,
            0,
            segment::PSH,
            1000,
            b"y",
        );
        assert!(p.to_server(&far, 0).is_some());
    }
    assert_eq!(table::out_of_order_buffered(&p.server), 16);
}

#[test]
fn built_segment_has_a_valid_checksum() {
    let bytes = segment::build(CLIENT, SERVER, 1, 2, 3, 4, segment::ACK, 5, b"odd");
    assert_eq!(segment::checksum(CLIENT, SERVER, &bytes), 0);
}
