use ritual::config::Config;
use ritual::message::{convert_messages_to_bytes, Message};
use ritual::server::{
    accept_connection, hand_on, Connection, ConnectionList, ServerError, INTAKE_QUEUE_CAPACITY,
    MAX_CONNECTIONS,
};

#[derive(Debug)]
struct Pipe {
    severed: bool,
    received: Vec<u8>,
}

impl Pipe {
    fn open() -> Pipe {
        Pipe { severed: false, received: Vec::new() }
    }

    fn severed() -> Pipe {
        Pipe { severed: true, received: Vec::new() }
    }

    fn write_all(&mut self, data: &[u8]) -> Result<(), String> {
        if self.severed {
            Err(String::from("broken pipe"))
        } else {
            self.received.extend_from_slice(data);
            Ok(())
        }
    }
}

fn broadcast(list: &mut ConnectionList<Pipe>, data: &[u8]) -> Vec<ServerError> {
    let mut outcomes: Vec<Result<(), String>> = Vec::new();
    for index in 0..list.len() {
        let stream = list.stream_mut(index).expect("in range");
        outcomes.push(stream.write_all(data));
    }
    list.complete_broadcast(outcomes)
}

fn addresses(list: &ConnectionList<Pipe>) -> Vec<String> {
    (0..list.len()).map(|i| String::from(list.get(i).expect("in range").address())).collect()
}

fn full() -> ConnectionList<Pipe> {
    let mut list = ConnectionList::new();
    for number in 0..5 {
        let address = format!("10.0.0.1:{}", number);
        assert!(list.recieve_connection(Connection::new(Pipe::open(), &address)));
    }
    list
}

#[test]
fn registry_holds_five() {
    assert_eq!(MAX_CONNECTIONS, 5);
}

#[test]
fn intake_queue_holds_five() {
    assert_eq!(INTAKE_QUEUE_CAPACITY, 5);
}

#[test]
fn accepted_client_becomes_an_open_connection() {
    let made = accept_connection(Ok((Pipe::open(), String::from("10.1.1.1:80"))));
    let connection = made.expect("the client was accepted");
    assert!(*connection.is_open());
    assert_eq!(connection.address(), "10.1.1.1:80");
}

#[test]
fn failed_accept_ends_the_listener() {
    let made: Result<Connection<Pipe>, ServerError> =
        accept_connection(Err(String::from("too many open files")));
    match made {
        Err(ServerError::StartupError(cause)) => assert_eq!(cause, "too many open files"),
        other => panic!("expected a startup error, got {:?}", other),
    }
}

#[test]
fn closed_intake_ends_the_listener() {
    assert!(hand_on(Ok(())).is_ok());
    match hand_on(Err(String::from("channel closed"))) {
        Err(ServerError::SendError(cause)) => assert_eq!(cause, "channel closed"),
        other => panic!("expected a send error, got {:?}", other),
    }
}

#[test]
fn registry_begins_empty() {
    let list: ConnectionList<Pipe> = ConnectionList::new();
    assert_eq!(list.len(), 0);
    assert!(list.get(0).is_none());
}

#[test]
fn connection_begins_open() {
    let connection = Connection::new(Pipe::open(), "127.0.0.1:4000");
    assert!(*connection.is_open());
    assert_eq!(connection.address(), "127.0.0.1:4000");
    assert!(!connection.stream().severed);
}

#[test]
fn stream_beyond_the_registry_is_none() {
    let mut list = full();
    assert!(list.stream_mut(5).is_none());
    assert!(list.stream_mut(usize::MAX).is_none());
    assert!(list.stream_mut(4).is_some());
    assert_eq!(list.len(), 5);
}

#[test]
fn connections_are_kept_in_order() {
    let list = full();
    assert_eq!(list.len(), 5);
    assert_eq!(
        addresses(&list),
        vec!["10.0.0.1:0", "10.0.0.1:1", "10.0.0.1:2", "10.0.0.1:3", "10.0.0.1:4"]
    );
}

#[test]
fn sixth_connection_is_turned_away() {
    let mut list = full();
    let taken = list.recieve_connection(Connection::new(Pipe::open(), "10.0.0.9:9"));
    assert!(!taken);
    assert_eq!(list.len(), 5);
    assert_eq!(
        addresses(&list),
        vec!["10.0.0.1:0", "10.0.0.1:1", "10.0.0.1:2", "10.0.0.1:3", "10.0.0.1:4"]
    );
    assert!(!list.recieve_connection(Connection::new(Pipe::open(), "10.0.0.9:10")));
    assert_eq!(list.len(), 5);
}

#[test]
fn place_is_free_again_after_a_connection_left() {
    let mut list = full();
    list.stream_mut(2).expect("in range").severed = true;
    broadcast(&mut list, &[1]);
    assert_eq!(list.len(), 4);
    assert!(list.recieve_connection(Connection::new(Pipe::open(), "10.0.0.9:9")));
    assert_eq!(list.len(), 5);
    assert_eq!(addresses(&list)[4], "10.0.0.9:9");
}

#[test]
fn failed_write_closes_the_connection() {
    let mut connection = Connection::new(Pipe::open(), "127.0.0.1:4000");
    assert!(connection.write(Ok(())).is_ok());
    assert!(*connection.is_open());
    match connection.write(Err(String::from("connection reset"))) {
        Err(ServerError::ConnectionError(cause, address)) => {
            assert_eq!(cause, "connection reset");
            assert_eq!(address, "127.0.0.1:4000");
        },
        other => panic!("expected a connection error, got {:?}", other),
    }
    assert!(!*connection.is_open());
    assert!(connection.write(Ok(())).is_ok());
    assert!(!*connection.is_open());
}

#[test]
fn one_failure_removes_one_connection() {
    let mut list = full();
    list.stream_mut(1).expect("in range").severed = true;
    let errors = broadcast(&mut list, &[1, 2, 3]);
    assert_eq!(errors.len(), 1);
    match &errors[0] {
        ServerError::ConnectionError(cause, address) => {
            assert_eq!(cause, "broken pipe");
            assert_eq!(address, "10.0.0.1:1");
        },
        other => panic!("expected a connection error, got {:?}", other),
    }
    assert_eq!(addresses(&list), vec!["10.0.0.1:0", "10.0.0.1:2", "10.0.0.1:3", "10.0.0.1:4"]);
    for index in 0..list.len() {
        let connection = list.get(index).expect("in range");
        assert!(*connection.is_open());
        assert_eq!(connection.stream().received, vec![1, 2, 3]);
    }
}

#[test]
fn broadcast_without_failure_removes_none() {
    let mut list = full();
    let errors = broadcast(&mut list, &[7]);
    assert!(errors.is_empty());
    assert_eq!(list.len(), 5);
    let errors = broadcast(&mut list, &[8]);
    assert!(errors.is_empty());
    for index in 0..list.len() {
        assert_eq!(list.get(index).expect("in range").stream().received, vec![7, 8]);
    }
}

#[test]
fn every_failure_is_reported_in_order() {
    let mut list = full();
    list.stream_mut(0).expect("in range").severed = true;
    list.stream_mut(4).expect("in range").severed = true;
    let errors = broadcast(&mut list, &[1]);
    assert_eq!(errors.len(), 2);
    assert_eq!(
        errors[0].describe(),
        "Server ran into a connection error: broken pipe\n Address of connection: 10.0.0.1:0"
    );
    assert_eq!(
        errors[1].describe(),
        "Server ran into a connection error: broken pipe\n Address of connection: 10.0.0.1:4"
    );
    assert_eq!(addresses(&list), vec!["10.0.0.1:1", "10.0.0.1:2", "10.0.0.1:3"]);
}

#[test]
fn severed_connection_is_purged_and_the_other_gets_the_buffer() {
    let mut list = ConnectionList::new();
    assert!(list.recieve_connection(Connection::new(Pipe::severed(), "10.0.0.1:1")));
    assert!(list.recieve_connection(Connection::new(Pipe::open(), "10.0.0.2:2")));
    let buffer = convert_messages_to_bytes(vec![Message::frame(Vec::new(), 16, 0)]);
    let data: Vec<u8> = buffer[..10].to_vec();
    assert_eq!(data.len(), 10);
    let errors = broadcast(&mut list, &data);
    assert_eq!(errors.len(), 1);
    assert_eq!(list.len(), 1);
    let left = list.get(0).expect("one connection is left");
    assert_eq!(left.address(), "10.0.0.2:2");
    assert!(*left.is_open());
    assert_eq!(left.stream().received, data);
}

#[test]
fn outcomes_beyond_the_registry_are_passed_over() {
    let mut list = ConnectionList::new();
    assert!(list.recieve_connection(Connection::new(Pipe::open(), "a:1")));
    let errors = list.complete_broadcast(vec![Ok(()), Err(String::from("nobody"))]);
    assert!(errors.is_empty());
    assert_eq!(list.len(), 1);
}

#[test]
fn connections_without_outcome_stay() {
    let mut list = ConnectionList::new();
    assert!(list.recieve_connection(Connection::new(Pipe::open(), "a:1")));
    assert!(list.recieve_connection(Connection::new(Pipe::open(), "b:2")));
    let errors = list.complete_broadcast(vec![Err(String::from("reset"))]);
    assert_eq!(errors.len(), 1);
    assert_eq!(addresses(&list), vec!["b:2"]);
}

#[test]
fn purge_of_open_connections_removes_none() {
    let mut list = full();
    list.purge();
    assert_eq!(list.len(), 5);
}

#[test]
fn server_errors_in_words() {
    assert_eq!(
        ServerError::StartupError(String::from("address in use")).describe(),
        "Server ran into an error on startup: address in use"
    );
    assert_eq!(
        ServerError::SendError(String::from("channel closed")).describe(),
        "Server ran into a send error: channel closed\n"
    );
    assert_eq!(
        ServerError::ConnectionError(String::from("reset"), String::from("1.2.3.4:5")).describe(),
        "Server ran into a connection error: reset\n Address of connection: 1.2.3.4:5"
    );
}

#[test]
fn config_holds_address_and_directory() {
    let config = Config {
        server_address: String::from("127.0.0.1:52324"),
        project_directory: String::from("/data/project"),
    };
    let copy = config.clone();
    assert_eq!(copy.server_address, "127.0.0.1:52324");
    assert_eq!(copy.project_directory, "/data/project");
}
