use restful_records::fetch::{fetch_outcome, FetchError};

const BODY: &str = "{\"id\":\"7\",\"name\":\"Apple MacBook Pro 16\",\"data\":{\"year\":2019,\"price\":1849.99,\"CPU model\":\"Intel Core i9\",\"Hard disk size\":\"1 TB\"}}";

#[test]
fn success_status_and_valid_body_yield_the_resource() {
    let d = fetch_outcome(200, BODY).unwrap();
    assert_eq!(d.id, "7");
    assert_eq!(d.name, "Apple MacBook Pro 16");
    assert_eq!(d.data.year, 2019);
    assert_eq!(d.data.cpu, "Intel Core i9");
}

#[test]
fn non_success_status_fails_whatever_the_body_holds() {
    assert_eq!(fetch_outcome(404, BODY).unwrap_err(), FetchError::Status(404));
    assert_eq!(fetch_outcome(500, "").unwrap_err(), FetchError::Status(500));
    assert_eq!(fetch_outcome(301, "not json at all").unwrap_err(), FetchError::Status(301));
}

#[test]
fn status_boundaries() {
    assert!(fetch_outcome(200, BODY).is_ok());
    assert!(fetch_outcome(299, BODY).is_ok());
    assert_eq!(fetch_outcome(199, BODY).unwrap_err(), FetchError::Status(199));
    assert_eq!(fetch_outcome(300, BODY).unwrap_err(), FetchError::Status(300));
}

#[test]
fn success_status_with_a_bad_body_is_a_body_error() {
    assert_eq!(fetch_outcome(200, "{}").unwrap_err(), FetchError::Body);
    let missing = "{\"id\":\"7\",\"name\":\"n\",\"data\":{\"year\":2019,\"price\":1,\"Hard disk size\":\"h\"}}";
    assert_eq!(fetch_outcome(200, missing).unwrap_err(), FetchError::Body);
}
