use epar::error::ErrorKind;
use epar::session::{Action, Event, Session, Stage};

/// A transport that answers from a script and counts what it is asked.
struct Stub {
    connect: bool,
    login: bool,
    select: bool,
    search: Option<Vec<u32>>,
    messages: Vec<(u32, Option<Vec<Option<&'static str>>>)>,
    logout: bool,
    asked: Vec<Action>,
}

impl Stub {
    fn new() -> Stub {
        Stub {
            connect: true,
            login: true,
            select: true,
            search: Some(Vec::new()),
            messages: Vec::new(),
            logout: true,
            asked: Vec::new(),
        }
    }

    fn flag(ok: bool) -> Event {
        if ok {
            Event::Done
        } else {
            Event::Failed
        }
    }

    fn perform(&mut self, action: Action) -> Event {
        self.asked.push(action);
        match action {
            Action::Connect => Stub::flag(self.connect),
            Action::Login => Stub::flag(self.login),
            Action::Select => Stub::flag(self.select),
            Action::Search => match &self.search {
                Some(ids) => Event::Found(ids.clone()),
                None => Event::Failed,
            },
            Action::Fetch(id) => {
                for (known, answer) in &self.messages {
                    if *known == id {
                        return match answer {
                            Some(items) => Event::Fetched(
                                items.iter().map(|item| item.map(|s| s.to_string())).collect(),
                            ),
                            None => Event::Failed,
                        };
                    }
                }
                Event::Fetched(Vec::new())
            }
            Action::Logout => Stub::flag(self.logout),
            Action::Finish => unreachable!(),
        }
    }

    fn count(&self, wanted: Action) -> usize {
        self.asked.iter().filter(|a| **a == wanted).count()
    }
}

fn drive(stub: &mut Stub) -> Result<Vec<String>, ErrorKind> {
    let mut session = Session::begin();
    let mut steps = 0;
    loop {
        let action = session.pending();
        if action == Action::Finish {
            break;
        }
        let event = stub.perform(action);
        session = session.advance(event);
        steps += 1;
        assert!(steps < 1000);
    }
    assert_eq!(session.stage(), Stage::Finished);
    session.outcome().unwrap()
}

#[test]
fn a_session_asks_in_order() {
    let mut stub = Stub::new();
    stub.search = Some(vec![4, 9]);
    stub.messages = vec![(4, Some(vec![Some("four")])), (9, Some(vec![Some("nine")]))];
    let bodies = drive(&mut stub).unwrap();
    assert_eq!(bodies, vec!["four".to_string(), "nine".to_string()]);
    assert_eq!(
        stub.asked,
        vec![
            Action::Connect,
            Action::Login,
            Action::Select,
            Action::Search,
            Action::Fetch(4),
            Action::Fetch(9),
            Action::Logout,
        ]
    );
}

#[test]
fn a_failed_login_gives_no_body() {
    let mut stub = Stub::new();
    stub.login = false;
    stub.search = Some(vec![1]);
    stub.messages = vec![(1, Some(vec![Some("never read")]))];
    assert_eq!(drive(&mut stub), Err(ErrorKind::AuthenticationFailed));
    assert_eq!(stub.asked, vec![Action::Connect, Action::Login, Action::Logout]);
}

#[test]
fn a_message_without_a_body_is_passed_over() {
    let mut stub = Stub::new();
    stub.search = Some(vec![1, 2, 3]);
    stub.messages = vec![
        (1, Some(vec![Some("first")])),
        (2, Some(vec![None])),
        (3, Some(vec![Some("third")])),
    ];
    let bodies = drive(&mut stub).unwrap();
    assert_eq!(bodies, vec!["first".to_string(), "third".to_string()]);
}

#[test]
fn a_fetch_that_fails_is_passed_over() {
    let mut stub = Stub::new();
    stub.search = Some(vec![1, 2, 3]);
    stub.messages =
        vec![(1, Some(vec![Some("first")])), (2, None), (3, Some(vec![Some("third")]))];
    let bodies = drive(&mut stub).unwrap();
    assert_eq!(bodies, vec!["first".to_string(), "third".to_string()]);
    assert_eq!(stub.count(Action::Fetch(2)), 1);
    assert_eq!(stub.count(Action::Fetch(3)), 1);
}

#[test]
fn a_fetch_that_brings_nothing_is_passed_over() {
    let mut stub = Stub::new();
    stub.search = Some(vec![1, 2]);
    stub.messages = vec![(1, Some(vec![])), (2, Some(vec![Some("second")]))];
    assert_eq!(drive(&mut stub).unwrap(), vec!["second".to_string()]);
}

#[test]
fn a_fetch_may_bring_several_messages() {
    let mut stub = Stub::new();
    stub.search = Some(vec![7]);
    stub.messages = vec![(7, Some(vec![Some("a"), None, Some("b")]))];
    assert_eq!(drive(&mut stub).unwrap(), vec!["a".to_string(), "b".to_string()]);
}

#[test]
fn the_bodies_keep_the_order_of_the_search() {
    let mut stub = Stub::new();
    stub.search = Some(vec![30, 10, 20]);
    stub.messages = vec![
        (10, Some(vec![Some("ten")])),
        (20, Some(vec![Some("twenty")])),
        (30, Some(vec![Some("thirty")])),
    ];
    assert_eq!(
        drive(&mut stub).unwrap(),
        vec!["thirty".to_string(), "ten".to_string(), "twenty".to_string()]
    );
}

#[test]
fn a_search_that_finds_nothing_succeeds_with_nothing() {
    let mut stub = Stub::new();
    assert_eq!(drive(&mut stub), Ok(Vec::new()));
    assert_eq!(
        stub.asked,
        vec![Action::Connect, Action::Login, Action::Select, Action::Search, Action::Logout]
    );
}

#[test]
fn each_request_has_its_failure() {
    let mut stub = Stub::new();
    stub.connect = false;
    assert_eq!(drive(&mut stub), Err(ErrorKind::ConnectionFailed));
    assert_eq!(stub.asked, vec![Action::Connect, Action::Logout]);

    let mut stub = Stub::new();
    stub.select = false;
    assert_eq!(drive(&mut stub), Err(ErrorKind::MailboxUnavailable));
    assert_eq!(stub.asked, vec![Action::Connect, Action::Login, Action::Select, Action::Logout]);

    let mut stub = Stub::new();
    stub.search = None;
    assert_eq!(drive(&mut stub), Err(ErrorKind::SearchFailed));
    assert_eq!(
        stub.asked,
        vec![Action::Connect, Action::Login, Action::Select, Action::Search, Action::Logout]
    );
}

#[test]
fn the_session_is_closed_once_on_every_path() {
    for failing in 0..6 {
        let mut stub = Stub::new();
        stub.search = Some(vec![1, 2]);
        stub.messages = vec![(1, Some(vec![Some("one")])), (2, Some(vec![Some("two")]))];
        match failing {
            0 => stub.connect = false,
            1 => stub.login = false,
            2 => stub.select = false,
            3 => stub.search = None,
            4 => stub.messages[0].1 = None,
            _ => {}
        }
        let _ = drive(&mut stub);
        assert_eq!(stub.count(Action::Logout), 1);
        assert_eq!(stub.asked.last(), Some(&Action::Logout));
    }
}

#[test]
fn a_failed_closing_does_not_hide_the_result() {
    let mut stub = Stub::new();
    stub.logout = false;
    stub.search = Some(vec![1]);
    stub.messages = vec![(1, Some(vec![Some("one")]))];
    assert_eq!(drive(&mut stub), Ok(vec!["one".to_string()]));

    let mut stub = Stub::new();
    stub.logout = false;
    stub.login = false;
    assert_eq!(drive(&mut stub), Err(ErrorKind::AuthenticationFailed));
    assert_eq!(stub.count(Action::Logout), 1);
}

#[test]
fn an_answer_of_the_wrong_kind_counts_as_a_failure() {
    let session = Session::begin().advance(Event::Found(vec![1]));
    assert_eq!(session.pending(), Action::Logout);
    let session = session.advance(Event::Done);
    assert_eq!(session.outcome(), Some(Err(ErrorKind::ConnectionFailed)));

    let session = Session::begin()
        .advance(Event::Done)
        .advance(Event::Done)
        .advance(Event::Done)
        .advance(Event::Done);
    assert_eq!(session.pending(), Action::Logout);
    assert_eq!(session.advance(Event::Done).outcome(), Some(Err(ErrorKind::SearchFailed)));
}

#[test]
fn there_is_no_outcome_before_the_end() {
    assert_eq!(Session::begin().outcome(), None);
    let session = Session::begin().advance(Event::Failed);
    assert_eq!(session.stage(), Stage::Closing);
    assert_eq!(session.outcome(), None);
}

#[test]
fn a_finished_session_stays_as_it_is() {
    let session = Session::begin()
        .advance(Event::Done)
        .advance(Event::Done)
        .advance(Event::Done)
        .advance(Event::Found(vec![5]))
        .advance(Event::Fetched(vec![Some("five".to_string())]))
        .advance(Event::Done);
    assert_eq!(session.pending(), Action::Finish);
    let session = session.advance(Event::Fetched(vec![Some("late".to_string())]));
    assert_eq!(session.pending(), Action::Finish);
    assert_eq!(session.outcome(), Some(Ok(vec!["five".to_string()])));
}

#[test]
fn every_kind_has_a_message_of_its_own() {
    let kinds = [
        ErrorKind::ConfigError,
        ErrorKind::ConnectionFailed,
        ErrorKind::AuthenticationFailed,
        ErrorKind::MailboxUnavailable,
        ErrorKind::SearchFailed,
        ErrorKind::FetchFailed,
        ErrorKind::IOError,
    ];
    for (i, a) in kinds.iter().enumerate() {
        assert!(!a.message().is_empty());
        for b in &kinds[i + 1..] {
            assert_ne!(a.message(), b.message());
        }
    }
    assert_eq!(ErrorKind::AuthenticationFailed.message(), "the mail server refused the login");
}
