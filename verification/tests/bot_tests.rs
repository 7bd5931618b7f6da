use beebot::beeminder::{Datapoint, FetchError, Goal, SubmitError};
use beebot::bot::{Action, Bot, Event, ProtocolState, PAUSE_MILLIS};
use beebot::dates::LocalDate;
use beebot::Settings;

fn settings() -> Settings {
    Settings {
        beeminder_username: "alice".to_string(),
        beeminder_goal: "pushups".to_string(),
        beeminder_auth_token: "SECRET-REDACTED".to_string(),
        matrix_homeserver_url: "https://matrix.example.org".to_string(),
        matrix_username: "bot".to_string(),
        matrix_password: "SECRET-REDACTED".to_string(),
    }
}

fn date() -> LocalDate {
    LocalDate { year: 2024, month: 3, day: 7 }
}

fn sample_point() -> Datapoint {
    Datapoint {
        id: "abc123".to_string(),
        timestamp: 1700000000,
        daystamp: "20240307".to_string(),
        value: "42.5".to_string(),
        comment: None,
        updated_at: 1700000001,
        request_id: Some("BOT_2024-03-07".to_string()),
    }
}

#[test]
fn scenario_full_success() {
    // " 42.5 " is measured, submitted, acknowledged; after the pause the goal
    // is read and its buffer reported with the graph as a link
    let bot = Bot::new(settings());
    let (state, action) = bot.begin(" 42.5 ", &date());
    assert_eq!(state, ProtocolState::AwaitingSubmit);
    let req = match action {
        Some(Action::SubmitDatapoint(r)) => r,
        _ => panic!("the cycle must open with a submission"),
    };
    assert_eq!(req.value.text, "42.5");
    assert_eq!(req.request_id, Some("BOT_2024-03-07".to_string()));
    assert_eq!(req.auth_token, "SECRET-REDACTED");

    let (state, action) = bot.on_event(state, Event::SubmitSucceeded(sample_point()));
    assert_eq!(state, ProtocolState::AwaitingAck);
    match action {
        Some(Action::SendPlain(t)) => assert_eq!(
            t,
            "Uploaded new datapoint to Beeminder. Waiting to get new goal stats..."
        ),
        _ => panic!("a successful submission must be acknowledged"),
    }

    let (state, action) = bot.on_event(state, Event::SendSucceeded);
    assert_eq!(state, ProtocolState::AwaitingPause);
    match action {
        Some(Action::Pause(ms)) => assert_eq!(ms, PAUSE_MILLIS),
        _ => panic!("after the acknowledgment the cycle must pause"),
    }
    assert_eq!(PAUSE_MILLIS, 30000);

    let (state, action) = bot.on_event(state, Event::PauseElapsed);
    assert_eq!(state, ProtocolState::AwaitingFetch);
    match action {
        Some(Action::FetchGoal(q)) => assert_eq!(q.auth_token, "SECRET-REDACTED"),
        _ => panic!("after the pause the goal must be read"),
    }

    let goal = Goal {
        slug: "pushups".to_string(),
        graph_url: "https://x/g.svg".to_string(),
        safe_buf: 3,
    };
    let (state, action) = bot.on_event(state, Event::FetchSucceeded(goal));
    assert_eq!(state, ProtocolState::AwaitingReportSend);
    match action {
        Some(Action::SendFormatted(plain, html)) => {
            assert_eq!(
                plain,
                "You have 3 days of buffer. See the graph at https://x/g.svg"
            );
            assert_eq!(
                html,
                "You have 3 days of buffer. See <a href=\"https://x/g.svg\">the graph</a> for more."
            );
            assert!(plain.contains("3") && plain.contains("https://x/g.svg"));
        },
        _ => panic!("a fetched goal must be reported in both forms"),
    }

    let (state, action) = bot.on_event(state, Event::SendSucceeded);
    assert_eq!(state, ProtocolState::Finished);
    assert!(action.is_none());
}

#[test]
fn scenario_non_numeric_message_is_dropped() {
    // "hello" fails to parse: no reply, no service call
    let bot = Bot::new(settings());
    let (state, action) = bot.begin("hello", &date());
    assert_eq!(state, ProtocolState::Finished);
    assert!(action.is_none());
}

#[test]
fn scenario_submission_rejected_by_service() {
    // "10" parses, but the service answers 500: exactly one failure reply,
    // no pause and no goal read
    let bot = Bot::new(settings());
    let (state, action) = bot.begin("10", &date());
    assert_eq!(state, ProtocolState::AwaitingSubmit);
    assert!(matches!(action, Some(Action::SubmitDatapoint(_))));

    let failure = SubmitError::BadStatus("500 Internal Server Error".to_string());
    let (state, action) = bot.on_event(state, Event::SubmitFailed(failure));
    assert_eq!(state, ProtocolState::AwaitingFailureSend);
    match action {
        Some(Action::SendPlain(t)) => assert_eq!(
            t,
            "Failed to update Beeminder: Failed to POST to Beeminder. Returned: 500 Internal Server Error"
        ),
        _ => panic!("a failed submission must be reported to the room"),
    }

    let (state, action) = bot.on_event(state, Event::SendSucceeded);
    assert_eq!(state, ProtocolState::Finished);
    assert!(action.is_none());
}

#[test]
fn ack_send_failure_ends_the_cycle() {
    let bot = Bot::new(settings());
    let (state, _) = bot.begin("10", &date());
    let (state, _) = bot.on_event(state, Event::SubmitSucceeded(sample_point()));
    let (state, action) = bot.on_event(state, Event::SendFailed);
    assert_eq!(state, ProtocolState::Finished);
    assert!(matches!(action, Some(Action::LogSendFailure)));
}

#[test]
fn fetch_failure_is_reported() {
    let bot = Bot::new(settings());
    let (state, _) = bot.begin("10", &date());
    let (state, _) = bot.on_event(state, Event::SubmitSucceeded(sample_point()));
    let (state, _) = bot.on_event(state, Event::SendSucceeded);
    let (state, _) = bot.on_event(state, Event::PauseElapsed);
    let failure = FetchError::BadStatus("502 Bad Gateway".to_string());
    let (state, action) = bot.on_event(state, Event::FetchFailed(failure));
    assert_eq!(state, ProtocolState::AwaitingFailureSend);
    match action {
        Some(Action::SendPlain(t)) => assert_eq!(
            t,
            "Failed to get goal details: Failed to GET Beeminder. Returned: 502 Bad Gateway"
        ),
        _ => panic!("a failed goal read must be reported to the room"),
    }
    let (state, action) = bot.on_event(state, Event::SendFailed);
    assert_eq!(state, ProtocolState::Finished);
    assert!(matches!(action, Some(Action::LogSendFailure)));
}

#[test]
fn report_send_failure_is_only_logged() {
    let bot = Bot::new(settings());
    let goal = Goal {
        slug: "pushups".to_string(),
        graph_url: "https://x/g.svg".to_string(),
        safe_buf: 0,
    };
    let (state, _) = bot.begin("10", &date());
    let (state, _) = bot.on_event(state, Event::SubmitSucceeded(sample_point()));
    let (state, _) = bot.on_event(state, Event::SendSucceeded);
    let (state, _) = bot.on_event(state, Event::PauseElapsed);
    let (state, action) = bot.on_event(state, Event::FetchSucceeded(goal));
    match action {
        Some(Action::SendFormatted(plain, _)) => {
            assert_eq!(plain, "You have 0 days of buffer. See the graph at https://x/g.svg")
        },
        _ => panic!("a fetched goal must be reported"),
    }
    let (state, action) = bot.on_event(state, Event::SendFailed);
    assert_eq!(state, ProtocolState::Finished);
    assert!(matches!(action, Some(Action::LogSendFailure)));
}

#[test]
fn begin_today_uses_todays_key() {
    let bot = Bot::new(settings());
    let before = chrono::Local::now().format("BOT_%Y-%m-%d").to_string();
    let (state, action) = bot.begin_today("42.5");
    let after = chrono::Local::now().format("BOT_%Y-%m-%d").to_string();
    assert_eq!(state, ProtocolState::AwaitingSubmit);
    match action {
        Some(Action::SubmitDatapoint(req)) => {
            let key = req.request_id.unwrap_or_default();
            assert!(key == before || key == after, "key {:?} is not today's", key);
        },
        _ => panic!("the cycle must open with a submission"),
    }
}

#[test]
fn negative_buffer_is_reported_as_written() {
    let bot = Bot::new(settings());
    let goal = Goal {
        slug: "pushups".to_string(),
        graph_url: "https://x/g.svg".to_string(),
        safe_buf: -2,
    };
    let (state, _) = bot.begin("10", &date());
    let (state, _) = bot.on_event(state, Event::SubmitSucceeded(sample_point()));
    let (state, _) = bot.on_event(state, Event::SendSucceeded);
    let (state, _) = bot.on_event(state, Event::PauseElapsed);
    let (_, action) = bot.on_event(state, Event::FetchSucceeded(goal));
    match action {
        Some(Action::SendFormatted(plain, html)) => {
            assert_eq!(plain, "You have -2 days of buffer. See the graph at https://x/g.svg");
            assert_eq!(
                html,
                "You have -2 days of buffer. See <a href=\"https://x/g.svg\">the graph</a> for more."
            );
        },
        _ => panic!("a fetched goal must be reported"),
    }
}
