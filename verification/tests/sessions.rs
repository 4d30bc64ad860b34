use relay_gate::action::{Action, Flow};
use relay_gate::center::{id_packet, CenterEvent, CenterSession};
use relay_gate::codec::i64_to_field;
use relay_gate::packets::{client_data_packet, client_left_packet};
use relay_gate::relay::{no_delay_requested, Flavor, RelayEvent, RelaySession};

fn client(flavor: Flavor) -> RelaySession {
    RelaySession { peer_id: 3, is_server: false, flavor }
}

fn server(flavor: Flavor) -> RelaySession {
    RelaySession { peer_id: 1, is_server: true, flavor }
}

#[test]
fn client_frame_goes_to_servers_as_data_packet() {
    let (acts, flow) = client(Flavor::Announcing).step(RelayEvent::Frame(vec![1, 2]));
    assert_eq!(acts, vec![Action::ToServers(client_data_packet(3, &[1, 2]))]);
    assert_eq!(flow, Flow::Continue);
}

#[test]
fn server_frame_goes_to_named_client() {
    let mut m = i64_to_field(3);
    m.extend_from_slice(&[5, 6]);
    let (acts, flow) = server(Flavor::Announcing).step(RelayEvent::Frame(m));
    assert_eq!(acts, vec![Action::ToClient(3, vec![5, 6])]);
    assert_eq!(flow, Flow::Continue);
}

#[test]
fn reply_echoing_data_header_reaches_sender() {
    let packet = client_data_packet(3, &[9]);
    let (acts, _) = server(Flavor::Announcing).step(RelayEvent::Frame(packet.clone()));
    assert_eq!(acts, vec![Action::ToClient(3, packet[8..].to_vec())]);
}

#[test]
fn received_message_is_written() {
    let (acts, flow) = client(Flavor::Announcing).step(RelayEvent::Received(vec![1, 2, 3]));
    assert_eq!(acts, vec![Action::Write(vec![1, 2, 3])]);
    assert_eq!(flow, Flow::Continue);
}

#[test]
fn empty_message_closes_client_and_announces_leaving() {
    let (acts, flow) = client(Flavor::Announcing).step(RelayEvent::Received(vec![]));
    assert_eq!(
        acts,
        vec![
            Action::Shutdown,
            Action::ToServers(client_left_packet(3)),
            Action::ForgetClient(3)
        ]
    );
    assert_eq!(flow, Flow::Stop);
}

#[test]
fn empty_message_to_server_connection_tells_clients() {
    let (acts, flow) = server(Flavor::Announcing).step(RelayEvent::Received(vec![]));
    assert_eq!(
        acts,
        vec![Action::Shutdown, Action::ToAllClients(vec![]), Action::ForgetServer]
    );
    assert_eq!(flow, Flow::Stop);
}

#[test]
fn close_notice_drops_client_quietly() {
    let (acts, flow) = client(Flavor::Announcing).step(RelayEvent::Received(vec![0, 0, 0, 0, 3 ^ 0xcf]));
    assert_eq!(
        acts,
        vec![Action::ForgetClient(3), Action::Close, Action::Shutdown]
    );
    assert_eq!(flow, Flow::Stop);
}

#[test]
fn close_notice_to_server_connection_is_written() {
    let m = vec![0, 0, 0, 0, 3 ^ 0xcf];
    let (acts, _) = server(Flavor::Announcing).step(RelayEvent::Received(m.clone()));
    assert_eq!(acts, vec![Action::Write(m)]);
}

#[test]
fn failed_write_to_client() {
    let (acts, flow) = client(Flavor::Announcing).step(RelayEvent::SendFailed);
    assert_eq!(
        acts,
        vec![
            Action::ToServers(client_left_packet(3)),
            Action::ForgetClient(3),
            Action::Close,
            Action::Shutdown
        ]
    );
    assert_eq!(flow, Flow::Fail);
    let (acts, flow) = client(Flavor::Quiet).step(RelayEvent::SendFailed);
    assert_eq!(
        acts,
        vec![Action::ForgetClient(3), Action::Close, Action::Shutdown]
    );
    assert_eq!(flow, Flow::Fail);
}

#[test]
fn failed_write_to_server() {
    let (acts, flow) = server(Flavor::Announcing).step(RelayEvent::SendFailed);
    assert_eq!(acts, vec![Action::Close, Action::Shutdown]);
    assert_eq!(flow, Flow::Fail);
}

#[test]
fn stream_end() {
    let (acts, flow) = client(Flavor::Quiet).step(RelayEvent::End);
    assert_eq!(
        acts,
        vec![Action::ToServers(client_left_packet(3)), Action::ForgetClient(3)]
    );
    assert_eq!(flow, Flow::Stop);
    let (acts, flow) = server(Flavor::Quiet).step(RelayEvent::End);
    assert_eq!(acts, vec![Action::ToAllClients(vec![]), Action::ForgetServer]);
    assert_eq!(flow, Flow::Stop);
}

#[test]
fn no_delay_argument() {
    assert!(no_delay_requested("--tcp=nodelay"));
    assert!(no_delay_requested("nodelay"));
    assert!(!no_delay_requested("--tcp=delay"));
    assert!(!no_delay_requested("delay"));
    assert!(!no_delay_requested(""));
}

#[test]
fn center_announcement_and_routing() {
    assert_eq!(id_packet(0x01020304), vec![4, 3, 2, 1]);
    let s = CenterSession::new(0);
    assert!(s.is_server);
    let mut m = id_packet(7);
    m.push(99);
    let (acts, flow) = s.step(CenterEvent::Frame(m.clone()));
    assert_eq!(acts, vec![Action::ToClient(7, m)]);
    assert_eq!(flow, Flow::Continue);
}

#[test]
fn center_client_events() {
    let s = CenterSession::new(4);
    assert!(!s.is_server);
    let (acts, _) = s.step(CenterEvent::Frame(vec![1]));
    assert_eq!(acts, vec![Action::ToServers(vec![1])]);
    let (acts, _) = s.step(CenterEvent::Received(vec![2]));
    assert_eq!(acts, vec![Action::Write(vec![2])]);
    let (acts, flow) = s.step(CenterEvent::SendFailed);
    assert!(acts.is_empty());
    assert_eq!(flow, Flow::Fail);
    let (acts, flow) = s.step(CenterEvent::End);
    assert!(acts.is_empty());
    assert_eq!(flow, Flow::Stop);
}
