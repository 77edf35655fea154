use bonsaidb::connection::SessionId;
use bonsaidb::error::Error;
use bonsaidb::multiplexer::{response_to, Arrival, Outstanding};
use bonsaidb::networking::Payload;
use bonsaidb::schema::Name;

#[test]
fn responses_are_matched_to_their_requests_by_id() {
    let mut client = Outstanding::new();
    let first = client.request(Some(SessionId(4)), Name::from("Get"), vec![1]).unwrap();
    let second = client.request(None, Name::from("List"), vec![2]).unwrap();
    assert_eq!(first.id, Some(0));
    assert_eq!(second.id, Some(1));
    assert_eq!(first.session_id, Some(SessionId(4)));
    assert_eq!(first.value, Ok(vec![1]));
    assert_eq!(client.len(), 2);

    let second_response = response_to(&second, Ok(vec![20])).unwrap();
    let first_response = response_to(&first, Err(Error::CollectionNotFound)).unwrap();
    assert_eq!(second_response.id, second.id);
    assert_eq!(first_response.name, Name::from("Get"));
    assert_eq!(first_response.session_id, Some(SessionId(4)));

    assert_eq!(
        client.arrive(second_response),
        Ok(Arrival::Response(Name::from("List"), Ok(vec![20])))
    );
    assert_eq!(
        client.arrive(first_response),
        Ok(Arrival::Response(Name::from("Get"), Err(Error::CollectionNotFound)))
    );
    assert_eq!(client.len(), 0);
}

#[test]
fn a_response_to_nothing_is_unexpected() {
    let mut client = Outstanding::new();
    let request = client.request(None, Name::from("Get"), vec![]).unwrap();
    let response = response_to(&request, Ok(vec![])).unwrap();
    let stray = Payload { id: Some(9), ..response_to(&request, Ok(vec![])).unwrap() };
    assert_eq!(client.arrive(stray), Err(Error::UnexpectedResponse(String::from("Get"))));
    assert!(client.arrive(response).is_ok());
    let again = response_to(&request, Ok(vec![])).unwrap();
    assert_eq!(client.arrive(again), Err(Error::UnexpectedResponse(String::from("Get"))));
}

#[test]
fn a_payload_without_an_id_expects_no_response() {
    let mut client = Outstanding::new();
    let push = Payload {
        session_id: None,
        id: None,
        name: Name::from("MessageReceived"),
        value: Ok(vec![7]),
    };
    assert_eq!(response_to(&push, Ok(vec![])), None);
    assert_eq!(client.arrive(push), Ok(Arrival::Push(Name::from("MessageReceived"), Ok(vec![7]))));
}

#[test]
fn ids_in_use_are_passed_over() {
    let mut client = Outstanding::new();
    let a = client.request(None, Name::from("A"), vec![]).unwrap();
    let b = client.request(None, Name::from("B"), vec![]).unwrap();
    let c = client.request(None, Name::from("C"), vec![]).unwrap();
    assert_eq!((a.id, b.id, c.id), (Some(0), Some(1), Some(2)));
    client.arrive(response_to(&b, Ok(vec![])).unwrap()).unwrap();
    let d = client.request(None, Name::from("D"), vec![]).unwrap();
    assert_eq!(d.id, Some(3));
    assert_eq!(client.len(), 3);
}
