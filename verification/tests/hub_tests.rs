use click_hub::codec::ServerMessage;
use click_hub::hub::Hub;
use futures_channel::mpsc::unbounded;
use futures_channel::mpsc::UnboundedReceiver;

const CLICK: &str = "{\"type\":\"click\"}";
const PING: &str = "{\"type\":\"ping\"}";
const STAMP: &str = "2024-01-01T00:00:00+00:00";

fn recv(rx: &mut UnboundedReceiver<String>) -> Option<String> {
    match rx.try_next() {
        Ok(Some(m)) => Some(m),
        _ => None,
    }
}

#[test]
fn connect_sends_init_with_current_total() {
    let mut hub = Hub::new();
    let (tx, mut rx) = unbounded();
    let plan = hub.connect(1, tx);
    assert_eq!(plan.len(), 1);
    assert_eq!(plan[0].to, 1);
    assert!(matches!(plan[0].msg, ServerMessage::Init { total_clicks: 0 }));
    assert_eq!(recv(&mut rx), Some("{\"type\":\"init\",\"total_clicks\":0}".to_string()));
    assert_eq!(recv(&mut rx), None);
    assert!(hub.is_connected(1));
    assert_eq!(hub.current_total(), 0);
}

#[test]
fn click_acknowledges_and_broadcasts() {
    let mut hub = Hub::new();
    let (tx_a, mut rx_a) = unbounded();
    let (tx_b, mut rx_b) = unbounded();
    hub.connect(1, tx_a);
    hub.connect(2, tx_b);
    recv(&mut rx_a);
    recv(&mut rx_b);

    let plan = hub.handle_frame(1, CLICK, STAMP.to_string());
    assert_eq!(plan.len(), 2);
    assert_eq!(plan[0].to, 1);
    assert_eq!(plan[1].to, 2);
    assert_eq!(
        recv(&mut rx_a),
        Some(format!(
            "{{\"type\":\"click_response\",\"client_clicks\":1,\"total_clicks\":1,\"timestamp\":\"{}\"}}",
            STAMP
        ))
    );
    assert_eq!(recv(&mut rx_a), None);
    assert_eq!(
        recv(&mut rx_b),
        Some("{\"type\":\"global_update\",\"total_clicks\":1}".to_string())
    );
    assert_eq!(recv(&mut rx_b), None);
    assert_eq!(hub.current_total(), 1);
}

#[test]
fn two_connections_scenario() {
    let mut hub = Hub::new();
    let (tx_a, mut rx_a) = unbounded();
    let (tx_b, mut rx_b) = unbounded();
    hub.connect(1, tx_a);
    hub.connect(2, tx_b);
    recv(&mut rx_a);
    recv(&mut rx_b);

    // A clicks: A gets click_response{1,1}, B gets global_update{1}.
    hub.handle_frame(1, CLICK, STAMP.to_string());
    let a_reply = recv(&mut rx_a).unwrap();
    assert!(a_reply.contains("\"client_clicks\":1,\"total_clicks\":1"));
    assert_eq!(
        recv(&mut rx_b),
        Some("{\"type\":\"global_update\",\"total_clicks\":1}".to_string())
    );

    // B clicks: B gets click_response{1,2}, A gets global_update{2}.
    hub.handle_frame(2, CLICK, STAMP.to_string());
    let b_reply = recv(&mut rx_b).unwrap();
    assert!(b_reply.contains("\"client_clicks\":1,\"total_clicks\":2"));
    assert_eq!(
        recv(&mut rx_a),
        Some("{\"type\":\"global_update\",\"total_clicks\":2}".to_string())
    );

    // A disconnects; B clicks: B gets click_response{2,3}, nothing goes to A.
    hub.disconnect(1);
    assert!(!hub.is_connected(1));
    let plan = hub.handle_frame(2, CLICK, STAMP.to_string());
    assert_eq!(plan.len(), 1);
    assert_eq!(plan[0].to, 2);
    let b_reply = recv(&mut rx_b).unwrap();
    assert!(b_reply.contains("\"client_clicks\":2,\"total_clicks\":3"));
    assert_eq!(recv(&mut rx_a), None);
}

#[test]
fn ping_yields_exactly_one_pong_and_no_broadcast() {
    let mut hub = Hub::new();
    let (tx_a, mut rx_a) = unbounded();
    let (tx_b, mut rx_b) = unbounded();
    hub.connect(1, tx_a);
    hub.connect(2, tx_b);
    recv(&mut rx_a);
    recv(&mut rx_b);

    let plan = hub.handle_frame(1, PING, STAMP.to_string());
    assert_eq!(plan.len(), 1);
    assert_eq!(plan[0].to, 1);
    assert!(matches!(plan[0].msg, ServerMessage::Pong));
    assert_eq!(recv(&mut rx_a), Some("{\"type\":\"pong\"}".to_string()));
    assert_eq!(recv(&mut rx_a), None);
    assert_eq!(recv(&mut rx_b), None);
    assert_eq!(hub.current_total(), 0);
}

#[test]
fn malformed_frames_change_nothing() {
    let mut hub = Hub::new();
    let (tx_a, mut rx_a) = unbounded();
    let (tx_b, mut rx_b) = unbounded();
    hub.connect(1, tx_a);
    hub.connect(2, tx_b);
    recv(&mut rx_a);
    recv(&mut rx_b);

    for text in [
        "",
        "not json",
        "{\"type\":\"frobnicate\"}",
        "{\"type\":\"click\",\"extra\":true}",
        "{\"type\":\"init\",\"total_clicks\":7}",
    ] {
        let plan = hub.handle_frame(1, text, STAMP.to_string());
        assert!(plan.is_empty());
    }
    assert_eq!(recv(&mut rx_a), None);
    assert_eq!(recv(&mut rx_b), None);
    assert_eq!(hub.current_total(), 0);
    assert!(hub.is_connected(1));
    assert!(hub.is_connected(2));
}

#[test]
fn one_click_each_totals_the_connection_count() {
    let mut hub = Hub::new();
    let mut receivers = Vec::new();
    for id in 0..3u64 {
        let (tx, mut rx) = unbounded();
        hub.connect(id, tx);
        recv(&mut rx);
        receivers.push(rx);
    }
    let mut last_update = None;
    for id in 0..3u64 {
        hub.handle_frame(id, CLICK, STAMP.to_string());
        for (other, rx) in receivers.iter_mut().enumerate() {
            if other as u64 != id {
                last_update = recv(rx);
            } else {
                recv(rx);
            }
        }
    }
    assert_eq!(hub.current_total(), 3);
    assert_eq!(
        last_update,
        Some("{\"type\":\"global_update\",\"total_clicks\":3}".to_string())
    );
}

#[test]
fn interleaved_clicks_lose_nothing() {
    let mut hub = Hub::new();
    let (tx_a, mut rx_a) = unbounded();
    let (tx_b, mut rx_b) = unbounded();
    hub.connect(1, tx_a);
    hub.connect(2, tx_b);
    recv(&mut rx_a);
    recv(&mut rx_b);

    // Two connections, three clicks each, interleaved: total is 6 and each
    // connection's own count is 3, whatever the other did in between.
    for _ in 0..3 {
        hub.handle_frame(1, CLICK, STAMP.to_string());
        hub.handle_frame(2, CLICK, STAMP.to_string());
    }
    assert_eq!(hub.current_total(), 6);
    let mut a_last = None;
    while let Some(m) = recv(&mut rx_a) {
        if m.contains("click_response") {
            a_last = Some(m);
        }
    }
    assert!(a_last.unwrap().contains("\"client_clicks\":3"));
    let mut b_last = None;
    while let Some(m) = recv(&mut rx_b) {
        if m.contains("click_response") {
            b_last = Some(m);
        }
    }
    assert!(b_last.unwrap().contains("\"client_clicks\":3"));
}

#[test]
fn disconnect_forgets_the_client_but_not_the_total() {
    let mut hub = Hub::new();
    let (tx, mut rx) = unbounded();
    hub.connect(7, tx);
    recv(&mut rx);
    hub.handle_frame(7, CLICK, STAMP.to_string());
    hub.handle_frame(7, CLICK, STAMP.to_string());
    assert_eq!(hub.current_total(), 2);

    hub.disconnect(7);
    assert!(!hub.is_connected(7));
    assert_eq!(hub.current_total(), 2);

    // The same id reconnecting starts its own count afresh; the total goes on.
    let (tx2, mut rx2) = unbounded();
    hub.connect(7, tx2);
    assert_eq!(recv(&mut rx2), Some("{\"type\":\"init\",\"total_clicks\":2}".to_string()));
    hub.handle_frame(7, CLICK, STAMP.to_string());
    let reply = recv(&mut rx2).unwrap();
    assert!(reply.contains("\"client_clicks\":1,\"total_clicks\":3"));
}

#[test]
fn disconnect_of_unknown_id_is_a_no_op() {
    let mut hub = Hub::new();
    let (tx, mut rx) = unbounded();
    hub.connect(1, tx);
    recv(&mut rx);
    hub.disconnect(99);
    assert!(hub.is_connected(1));
    assert_eq!(hub.current_total(), 0);
}

#[test]
fn send_to_reports_whether_registered() {
    let mut hub = Hub::new();
    let (tx, mut rx) = unbounded();
    hub.connect(1, tx);
    recv(&mut rx);
    assert!(hub.send_to(1, "hello"));
    assert_eq!(recv(&mut rx), Some("hello".to_string()));
    assert!(!hub.send_to(2, "hello"));
}

#[test]
fn broadcast_except_skips_the_excluded_id() {
    let mut hub = Hub::new();
    let (tx_a, mut rx_a) = unbounded();
    let (tx_b, mut rx_b) = unbounded();
    let (tx_c, mut rx_c) = unbounded();
    hub.connect(1, tx_a);
    hub.connect(2, tx_b);
    hub.connect(3, tx_c);
    recv(&mut rx_a);
    recv(&mut rx_b);
    recv(&mut rx_c);
    let sent = hub.broadcast_except(2, "note");
    assert_eq!(sent, vec![1, 3]);
    assert_eq!(recv(&mut rx_a), Some("note".to_string()));
    assert_eq!(recv(&mut rx_b), None);
    assert_eq!(recv(&mut rx_c), Some("note".to_string()));
}

#[test]
fn wall_clock_stamp_round_trips() {
    let mut hub = Hub::new();
    let (tx, mut rx) = unbounded();
    hub.connect(1, tx);
    recv(&mut rx);
    let plan = hub.handle_frame_now(1, CLICK);
    assert_eq!(plan.len(), 1);
    let reply = recv(&mut rx).unwrap();
    let prefix = "{\"type\":\"click_response\",\"client_clicks\":1,\"total_clicks\":1,\"timestamp\":\"";
    assert!(reply.starts_with(prefix));
    assert!(reply.ends_with("\"}"));
    let stamp = &reply[prefix.len()..reply.len() - 2];
    assert!(chrono::DateTime::parse_from_rfc3339(stamp).is_ok());
}

#[test]
fn dropped_receiver_does_not_stop_the_broadcast() {
    let mut hub = Hub::new();
    let (tx_a, rx_a) = unbounded();
    let (tx_b, mut rx_b) = unbounded();
    hub.connect(1, tx_a);
    hub.connect(2, tx_b);
    drop(rx_a);
    recv(&mut rx_b);
    // The stale sink fails its enqueue; the other recipient still hears it.
    hub.handle_frame(2, CLICK, STAMP.to_string());
    let reply = recv(&mut rx_b).unwrap();
    assert!(reply.contains("\"client_clicks\":1,\"total_clicks\":1"));
}
