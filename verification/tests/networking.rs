use bonsaidb::connection::SessionId;
use bonsaidb::error::Error;
use bonsaidb::networking::{
    check_protocol_version, read_frame, write_frame, Api, Compact, CreateUser, Error as NetworkingError,
    ListDatabases, MessageReceived, Payload, QueryWithDocs, CURRENT_PROTOCOL_VERSION,
};
use bonsaidb::schema::Name;

fn payloads() -> Vec<Payload> {
    vec![
        Payload { session_id: None, id: None, name: Name::from("MessageReceived"), value: Ok(vec![]) },
        Payload {
            session_id: Some(SessionId(u64::MAX)),
            id: Some(u32::MAX),
            name: Name::from("Get"),
            value: Ok(vec![0, 1, 2, 255]),
        },
        Payload {
            session_id: Some(SessionId(0)),
            id: Some(0),
            name: Name::from("Größe"),
            value: Err(Error::ApiNotRegistered(String::from("Größe"))),
        },
        Payload {
            session_id: None,
            id: Some(7),
            name: Name::from("ApplyTransaction"),
            value: Err(Error::DocumentConflict(String::from("khonsulabs.users"), vec![0, 0, 1])),
        },
        Payload {
            session_id: None,
            id: Some(8),
            name: Name::from("Authenticate"),
            value: Err(Error::PermissionDenied(String::from("Get"), String::from("d"))),
        },
    ]
}

#[test]
fn payloads_round_trip() {
    for payload in payloads() {
        let bytes = payload.encode();
        assert_eq!(Payload::decode(&bytes), Some(payload));
        let mut longer = bytes.clone();
        longer.push(0);
        assert_eq!(Payload::decode(&longer), None);
        assert_eq!(Payload::decode(&bytes[..bytes.len() - 1]), None);
    }
}

#[test]
fn every_error_round_trips() {
    let errors = vec![
        Error::InvalidName(String::from("a b")),
        Error::DocumentIdTooLong,
        Error::SchemaNotRegistered(String::from("a.b")),
        Error::CollectionNotFound,
        Error::ViewNotFound,
        Error::DatabaseNotFound(String::from("d")),
        Error::DatabaseNameAlreadyTaken(String::from("d")),
        Error::InvalidDatabaseName(String::from("|")),
        Error::DocumentNotFound(String::from("c"), vec![1]),
        Error::DocumentConflict(String::from("c"), vec![]),
        Error::UniqueKeyViolation(String::from("v"), vec![1, 2]),
        Error::Disconnected,
        Error::UnexpectedResponse(String::from("x")),
        Error::ProtocolVersionMismatch,
        Error::ApiNotRegistered(String::from("n")),
        Error::InvalidCredentials,
        Error::PermissionDenied(String::from("a"), String::new()),
        Error::SessionExpired,
        Error::UserNotFound,
        Error::Database(String::from("detail")),
        Error::Other(String::new()),
        Error::RoleNotFound,
        Error::PermissionGroupNotFound,
        Error::SubscriberNotFound,
    ];
    for (kind, error) in errors.into_iter().enumerate() {
        assert_eq!(error.kind() as usize, kind);
        let mut bytes = vec![9u8];
        error.write(&mut bytes);
        assert_eq!(&bytes[1..5], &(kind as u32).to_le_bytes());
        let end = bytes.len();
        assert_eq!(Error::read(&bytes, 1), Some((error, end)));
    }
}

#[test]
fn an_error_carries_nothing_that_its_kind_has_no_place_for() {
    let mut bytes = Vec::new();
    Error::Disconnected.write(&mut bytes);
    assert_eq!(bytes, vec![11, 0, 0, 0, 0, 0, 0, 0, 0, 0, 0, 0, 0, 0, 0, 0, 0, 0, 0, 0]);
    let mut with_text = bytes.clone();
    with_text[4] = 1;
    with_text.insert(12, b'x');
    assert_eq!(Error::read(&with_text, 0), None);
    let mut unknown = bytes.clone();
    unknown[0] = 24;
    assert_eq!(Error::read(&unknown, 0), None);
    let mut bad_text = Vec::new();
    Error::Other(String::from("a")).write(&mut bad_text);
    bad_text[12] = 0xff;
    assert_eq!(Error::read(&bad_text, 0), None);
}

#[test]
fn frames_carry_their_length_in_front() {
    let mut stream = Vec::new();
    assert!(write_frame(&mut stream, b"hello"));
    assert!(write_frame(&mut stream, b""));
    assert!(write_frame(&mut stream, b"!"));
    assert_eq!(stream, vec![5, 0, 0, 0, b'h', b'e', b'l', b'l', b'o', 0, 0, 0, 0, 1, 0, 0, 0, b'!']);
    let (first, next) = read_frame(&stream, 0).unwrap();
    assert_eq!((first.as_slice(), next), (&b"hello"[..], 9));
    let (second, next) = read_frame(&stream, next).unwrap();
    assert_eq!((second.as_slice(), next), (&b""[..], 13));
    let (third, next) = read_frame(&stream, next).unwrap();
    assert_eq!((third.as_slice(), next), (&b"!"[..], 18));
    assert_eq!(read_frame(&stream, next), None);
    assert_eq!(read_frame(&stream[..8], 0), None);
    assert_eq!(read_frame(&stream[..3], 0), None);
}

#[test]
fn a_payload_travels_in_a_frame() {
    for payload in payloads() {
        let mut stream = vec![];
        assert!(write_frame(&mut stream, &payload.encode()));
        let (content, end) = read_frame(&stream, 0).unwrap();
        assert_eq!(end, stream.len());
        assert_eq!(Payload::decode(&content), Some(payload));
    }
}

#[test]
fn the_protocol_version_must_match() {
    assert_eq!(CURRENT_PROTOCOL_VERSION, "bonsai/pre/0");
    assert_eq!(check_protocol_version("bonsai/pre/0"), Ok(()));
    assert_eq!(check_protocol_version("bonsai/pre/1"), Err(Error::ProtocolVersionMismatch));
    assert_eq!(check_protocol_version(""), Err(Error::ProtocolVersionMismatch));
}

#[test]
fn requests_travel_under_their_names() {
    assert_eq!(ListDatabases::name().as_str(), "ListDatabases");
    assert_eq!(CreateUser::name().as_str(), "CreateUser");
    assert_eq!(QueryWithDocs::name().as_str(), "QueryWithDocs");
    assert_eq!(MessageReceived::name().as_str(), "MessageReceived");
    assert_eq!(Compact::name().as_str(), "Compact");
}

#[test]
fn networking_errors_say_what_went_wrong() {
    assert_eq!(NetworkingError::Disconnected.to_string(), "unexpected disconnection");
    assert_eq!(
        NetworkingError::UnexpectedResponse(String::from("ping")).to_string(),
        "unexpected response: ping"
    );
    assert_eq!(NetworkingError::Disconnected.into_error(), Error::Disconnected);
    assert_eq!(
        NetworkingError::UnexpectedResponse(String::from("x")).into_error(),
        Error::UnexpectedResponse(String::from("x"))
    );
}

#[test]
fn a_payload_is_laid_out_field_by_field() {
    let payload = Payload {
        session_id: Some(SessionId(5)),
        id: Some(7),
        name: Name::from("Get"),
        value: Ok(vec![1, 2, 3]),
    };
    let mut expected: Vec<u8> = vec![1];
    expected.extend(5u64.to_le_bytes());
    expected.push(1);
    expected.extend(7u32.to_le_bytes());
    expected.extend(3u64.to_le_bytes());
    expected.extend(b"Get");
    expected.extend(0u32.to_le_bytes());
    expected.extend(3u64.to_le_bytes());
    expected.extend([1u8, 2, 3]);
    assert_eq!(payload.encode(), expected);
    let fields: (Option<u64>, Option<u32>, String, Result<Vec<u8>, u8>) =
        (Some(5), Some(7), String::from("Get"), Ok(vec![1, 2, 3]));
    assert_eq!(payload.encode(), bincode::serialize(&fields).unwrap());
    let push = Payload { session_id: None, id: None, name: Name::from("MessageReceived"), value: Ok(vec![]) };
    let fields: (Option<u64>, Option<u32>, String, Result<Vec<u8>, u8>) =
        (None, None, String::from("MessageReceived"), Ok(vec![]));
    assert_eq!(push.encode(), bincode::serialize(&fields).unwrap());
}
