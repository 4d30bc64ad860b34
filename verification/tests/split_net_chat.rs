use relay_gate::action::{Action, Flow};
use relay_gate::chat::{login, prompt, split_words, white, ChatEvent, ChatSession};
use relay_gate::net::{announce_packet, NetSession};
use relay_gate::registry::Shared;
use relay_gate::split::{ids_fit, split_frames, Route, BUF_LEN};

fn buffer(bytes: &[u8]) -> Vec<u8> {
    let mut b = vec![0u8; BUF_LEN];
    b[..bytes.len()].copy_from_slice(bytes);
    b
}

#[test]
fn client_bytes_cut_into_frames_for_server() {
    let data = [3, 0, 9, 4, 0, 1, 2, 5, 0];
    let mut b = buffer(&data);
    let routes = split_frames(&mut b, data.len(), false);
    assert_eq!(
        routes,
        vec![Route::ToServer(vec![3, 0, 9]), Route::ToServer(vec![4, 0, 1, 2])]
    );
    // the two bytes that no frame took are moved to the front
    assert_eq!(&b[..2], &[5, 0]);
    assert_eq!(&b[2..9], &[9, 4, 0, 1, 2, 5, 0]);
}

#[test]
fn short_read_is_not_cut() {
    let mut b = buffer(&[2, 0]);
    assert!(split_frames(&mut b, 2, false).is_empty());
    assert_eq!(&b[..2], &[2, 0]);
}

#[test]
fn zero_length_stops_cutting() {
    let data = [0, 0, 1, 2, 3];
    let mut b = buffer(&data);
    assert!(split_frames(&mut b, data.len(), false).is_empty());
    assert_eq!(&b[..5], &data);
}

#[test]
fn overlong_frame_is_kept_for_later() {
    let data = [3, 0, 1, 10, 0, 1, 2];
    let mut b = buffer(&data);
    let routes = split_frames(&mut b, data.len(), false);
    assert_eq!(routes, vec![Route::ToServer(vec![3, 0, 1])]);
    assert_eq!(&b[..4], &[10, 0, 1, 2]);
}

#[test]
fn server_frames_route_by_or_of_id_bytes() {
    let data = [6, 0, 5, 0, 0, 0, 7, 0, 1, 2, 0, 0, 9];
    let mut b = buffer(&data);
    let routes = split_frames(&mut b, data.len(), true);
    assert_eq!(
        routes,
        vec![
            Route::ToClient(5, vec![6, 0, 5, 0, 0, 0]),
            Route::ToClient(3, vec![7, 0, 1, 2, 0, 0, 9])
        ]
    );
}

#[test]
fn announced_id_below_256_routes_back_but_256_does_not() {
    let a = announce_packet(5);
    let mut b = buffer(&a[..6]);
    assert_eq!(split_frames(&mut b, 6, true), vec![Route::ToClient(5, a[..6].to_vec())]);
    let a = announce_packet(256);
    let mut b = buffer(&a[..6]);
    assert_eq!(split_frames(&mut b, 6, true), vec![Route::ToClient(1, a[..6].to_vec())]);
}

#[test]
fn ids_fit_detects_reads_past_the_buffer() {
    let mut b = vec![0u8; BUF_LEN];
    // frames of two bytes each up to the end: the last ones start within
    // five bytes of the end
    for k in 0..BUF_LEN {
        b[k] = if k % 2 == 0 { 2 } else { 0 };
    }
    assert!(!ids_fit(&b, BUF_LEN));
    assert!(ids_fit(&b, 100));
    let data = [6, 0, 5, 0, 0, 0];
    assert!(ids_fit(&buffer(&data), 6));
}

#[test]
fn announcement_packet() {
    let p = announce_packet(0x01020304);
    assert_eq!(p.len(), 64);
    assert_eq!(&p[..6], &[6, 0, 4, 3, 2, 1]);
    assert!(p[6..].iter().all(|&x| x == 0));
}

#[test]
fn net_session_decisions() {
    let s = NetSession::new(0);
    assert!(s.is_server);
    assert!(!s.exchanges(0));
    assert!(s.exchanges(1));
    let c = NetSession::new(2);
    assert!(!c.is_server);
    assert!(c.exchanges(0));
    assert!(c.read_ends(None));
    assert!(c.read_ends(Some(0)));
    assert!(!c.read_ends(Some(3)));
}

#[test]
fn words_of_login_lines() {
    assert_eq!(split_words("  alice \t lobby\r\n"), vec!["alice", "lobby"]);
    assert_eq!(split_words("a\u{3000}b\u{85}c"), vec!["a", "b", "c"]);
    assert!(split_words(" \t ").is_empty());
    assert_eq!(split_words("x"), vec!["x"]);
    assert!(white('\u{a0}'));
    assert!(!white('\u{200b}'));
}

#[test]
fn client_login_and_lines() {
    let w = split_words("alice lobby");
    let (s, join) = login(9, &w);
    assert!(!s.is_server);
    assert_eq!(s.username, "alice");
    assert_eq!(
        join,
        Action::ToServers("alice has joined the chat, send msg to lobby".to_string())
    );
    let (acts, flow) = s.step(ChatEvent::Line("hi".to_string()));
    assert_eq!(acts, vec![Action::ToServers(" alice: hi".to_string())]);
    assert_eq!(flow, Flow::Continue);
}

#[test]
fn server_login_and_lines() {
    let w = split_words("is_server lobby");
    let (s, join) = login(1, &w);
    assert!(s.is_server);
    assert_eq!(s.username, "lobby");
    assert_eq!(
        join,
        Action::ToClient(1, "lobby has joined the chat\u{ff0c} is server lobby ".to_string())
    );
    let (acts, _) = s.step(ChatEvent::Line("news".to_string()));
    assert_eq!(acts, vec![Action::ToAllClients(" lobby: news".to_string())]);
}

#[test]
fn chat_other_events() {
    let s = ChatSession { id: 2, is_server: false, username: "bob".to_string() };
    let (acts, _) = s.step(ChatEvent::Received("x".to_string()));
    assert_eq!(acts, vec![Action::Write("x".to_string())]);
    assert_eq!(s.step(ChatEvent::SendFailed), (vec![], Flow::Fail));
    assert_eq!(s.step(ChatEvent::LineError), (vec![], Flow::Continue));
    assert_eq!(s.step(ChatEvent::End), (vec![], Flow::Continue));
    assert_eq!(prompt(), "Please enter your username:");
}

#[test]
fn peer_table() {
    let mut t: Shared<u32> = Shared::new();
    t.register(false, 5, 0, 50);
    t.register(true, 0, 1, 10);
    t.register(false, 6, 0, 60);
    assert_eq!(t.client(5), Some(&50));
    assert_eq!(t.server(1), Some(&10));
    let mut ids = t.client_ids();
    ids.sort();
    assert_eq!(ids, vec![5, 6]);
    assert_eq!(t.server_keys(), vec![1]);
    t.register(false, 5, 0, 55);
    assert_eq!(t.client(5), Some(&55));
    t.forget_client(5);
    assert_eq!(t.client(5), None);
    t.forget_server(1);
    assert!(t.server_keys().is_empty());
    assert_eq!(t.client_ids(), vec![6]);
}
