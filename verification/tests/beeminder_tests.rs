use beebot::beeminder::{
    build_datapoint_request, build_goal_request, classify_get_response, classify_post_response,
    datapoint_url, fetch_error_message, goal_url, status_is_success, submit_error_message,
    Datapoint, FetchError, Goal, SubmitError,
};
use beebot::dates::LocalDate;
use beebot::parse::parse_value;
use beebot::Settings;

fn settings() -> Settings {
    Settings {
        beeminder_username: "alice".to_string(),
        beeminder_goal: "pushups".to_string(),
        beeminder_auth_token: "SECRET-REDACTED".to_string(),
        matrix_homeserver_url: "https://matrix.example.org".to_string(),
        matrix_username: "bot".to_string(),
        matrix_password: "SECRET-REDACTED".to_string(),
    }
}

fn sample_point() -> Datapoint {
    Datapoint {
        id: "abc123".to_string(),
        timestamp: 1700000000,
        daystamp: "20231114".to_string(),
        value: "42.5".to_string(),
        comment: None,
        updated_at: 1700000001,
        request_id: Some("BOT_2023-11-14".to_string()),
    }
}

#[test]
fn service_urls() {
    let s = settings();
    assert_eq!(
        datapoint_url(&s),
        "https://www.beeminder.com/api/v1/users/alice/goals/pushups/datapoints.json"
    );
    assert_eq!(
        goal_url(&s),
        "https://www.beeminder.com/api/v1/users/alice/goals/pushups.json"
    );
}

#[test]
fn success_statuses_are_the_2xx_class() {
    assert!(!status_is_success(199));
    assert!(status_is_success(200));
    assert!(status_is_success(201));
    assert!(status_is_success(299));
    assert!(!status_is_success(300));
    assert!(!status_is_success(404));
    assert!(!status_is_success(500));
}

#[test]
fn post_response_classification() {
    let ok = classify_post_response(200, "200 OK".to_string(), Some(sample_point()));
    match ok {
        Ok(p) => assert_eq!(p.id, "abc123"),
        Err(_) => panic!("a success status with a body must confirm the point"),
    }
    let bad_status = classify_post_response(
        500,
        "500 Internal Server Error".to_string(),
        Some(sample_point()),
    );
    match bad_status {
        Err(SubmitError::BadStatus(t)) => assert_eq!(t, "500 Internal Server Error"),
        _ => panic!("a non-success status must be reported as such"),
    }
    let bad_body = classify_post_response(201, "201 Created".to_string(), None);
    assert!(matches!(bad_body, Err(SubmitError::BadBody)));
}

#[test]
fn get_response_classification() {
    let goal = Goal {
        slug: "pushups".to_string(),
        graph_url: "https://x/g.svg".to_string(),
        safe_buf: 3,
    };
    let ok = classify_get_response(200, "200 OK".to_string(), Some(goal));
    match ok {
        Ok(g) => {
            assert_eq!(g.slug, "pushups");
            assert_eq!(g.safe_buf, 3);
        },
        Err(_) => panic!("a success status with a body must yield the goal"),
    }
    let bad_status = classify_get_response(404, "404 Not Found".to_string(), None);
    match bad_status {
        Err(FetchError::BadStatus(t)) => assert_eq!(t, "404 Not Found"),
        _ => panic!("a non-success status must be reported as such"),
    }
    let bad_body = classify_get_response(200, "200 OK".to_string(), None);
    assert!(matches!(bad_body, Err(FetchError::BadBody)));
}

#[test]
fn error_descriptions() {
    assert_eq!(
        submit_error_message(&SubmitError::PostFailed),
        "Failed to POST to Beeminder"
    );
    assert_eq!(
        submit_error_message(&SubmitError::BadStatus("500 Internal Server Error".to_string())),
        "Failed to POST to Beeminder. Returned: 500 Internal Server Error"
    );
    assert_eq!(
        submit_error_message(&SubmitError::BadBody),
        "Failed to deserialize response"
    );
    assert_eq!(
        fetch_error_message(&FetchError::GetFailed),
        "Failed to GET Beeminder"
    );
    assert_eq!(
        fetch_error_message(&FetchError::BadStatus("502 Bad Gateway".to_string())),
        "Failed to GET Beeminder. Returned: 502 Bad Gateway"
    );
    assert_eq!(
        fetch_error_message(&FetchError::BadBody),
        "Failed to deserialize response"
    );
}

#[test]
fn datapoint_request_carries_value_key_and_credential() {
    let s = settings();
    let m = match parse_value(" 42.5 ") {
        Ok(m) => m,
        Err(_) => panic!("the sample value must parse"),
    };
    let date = LocalDate { year: 2024, month: 3, day: 7 };
    let req = build_datapoint_request(&s, m, &date);
    assert_eq!(req.value.text, "42.5");
    assert!(req.comment.is_none());
    assert!(req.timestamp.is_none());
    assert!(req.daystamp.is_none());
    assert_eq!(req.request_id, Some("BOT_2024-03-07".to_string()));
    assert_eq!(req.auth_token, "SECRET-REDACTED");
}

#[test]
fn goal_request_carries_the_credential() {
    let s = settings();
    let req = build_goal_request(&s);
    assert_eq!(req.auth_token, "SECRET-REDACTED");
}
