//! The decisions of a mail session. The session itself is run elsewhere:
//! whoever holds the connection asks which request is pending, performs it,
//! and hands back what the server answered. What is decided here is the order
//! of the requests, what a failure of each means, which bodies are kept, and
//! that the session is always closed.

use crate::error::ErrorKind;
use crate::text::strings;
use vstd::prelude::*;

verus! {

/// How far a session has come.
#[derive(Clone, Copy, PartialEq, Eq, Structural, Debug)]
pub enum Stage {
    /// The connection is being set up.
    Connecting,
    /// The account is being logged in.
    Authenticating,
    /// The mailbox is being opened.
    Selecting,
    /// The search is under way.
    Searching,
    /// The messages found are being fetched, one at a time.
    Fetching,
    /// The session is being closed.
    Closing,
    /// Nothing is left to do.
    Finished,
}

/// The request that a session asks for next.
#[derive(Clone, Copy, PartialEq, Eq, Structural, Debug)]
pub enum Action {
    /// Open the encrypted connection, checking the server's certificate
    /// against its name.
    Connect,
    /// Log in with the account and its credential.
    Login,
    /// Open the mailbox.
    Select,
    /// Search the mailbox by subject.
    Search,
    /// Fetch the whole message with this identifier.
    Fetch(u32),
    /// Close the session.
    Logout,
    /// Stop: the session is over.
    Finish,
}

/// What came back for a request, as a mathematical value.
pub enum EventView {
    /// The request succeeded and brought nothing.
    Done,
    /// The request failed.
    Failed,
    /// The search succeeded with these identifiers, in the server's order.
    Found(Seq<u32>),
    /// The fetch succeeded with these messages; one without a body shows as
    /// `None`.
    Fetched(Seq<Option<Seq<char>>>),
}

/// A session as a mathematical value.
pub struct SessionView {
    /// How far the session has come.
    pub stage: Stage,
    /// The identifiers that the search brought.
    pub ids: Seq<u32>,
    /// How many of them have been dealt with.
    pub cursor: int,
    /// The bodies kept so far, in the order in which they came.
    pub bodies: Seq<Seq<char>>,
    /// The failure that ended the work, if one did.
    pub failure: Option<ErrorKind>,
}

/// The bodies among `items`, in order: the messages without one are passed
/// over.
pub open spec fn present(items: Seq<Option<Seq<char>>>) -> Seq<Seq<char>>
    decreases items.len(),
{
    if items.len() == 0 {
        Seq::empty()
    } else {
        match items.last() {
            Some(body) => present(items.drop_last()).push(body),
            None => present(items.drop_last()),
        }
    }
}

/// A session before its first request.
pub open spec fn initial() -> SessionView {
    SessionView {
        stage: Stage::Connecting,
        ids: Seq::empty(),
        cursor: 0,
        bodies: Seq::empty(),
        failure: None,
    }
}

/// What holds of every session: the cursor lies within the identifiers, a
/// fetch is pending only while an identifier is left, nothing was found or
/// kept before the search, and a failure leaves only the closing.
pub open spec fn valid(s: SessionView) -> bool {
    &&& 0 <= s.cursor <= s.ids.len()
    &&& s.stage == Stage::Fetching ==> s.cursor < s.ids.len()
    &&& (s.stage == Stage::Closing || s.stage == Stage::Finished) ==> (s.failure is Some
        || s.cursor == s.ids.len())
    &&& s.failure is Some ==> (s.stage == Stage::Closing || s.stage == Stage::Finished)
        && s.bodies.len() == 0
    &&& (s.stage == Stage::Connecting || s.stage == Stage::Authenticating || s.stage
        == Stage::Selecting || s.stage == Stage::Searching) ==> s.ids.len() == 0 && s.bodies.len()
        == 0
}

/// The request that is pending in `s`.
pub open spec fn pending(s: SessionView) -> Action {
    match s.stage {
        Stage::Connecting => Action::Connect,
        Stage::Authenticating => Action::Login,
        Stage::Selecting => Action::Select,
        Stage::Searching => Action::Search,
        Stage::Fetching => Action::Fetch(s.ids[s.cursor]),
        Stage::Closing => Action::Logout,
        Stage::Finished => Action::Finish,
    }
}

/// `s` after the failure `kind` ended its work: only the closing is left,
/// and no body is handed on.
pub open spec fn failed(s: SessionView, kind: ErrorKind) -> SessionView {
    SessionView { stage: Stage::Closing, bodies: Seq::empty(), failure: Some(kind), ..s }
}

/// `s` after one more identifier was dealt with, with `kept` added to the
/// bodies: the next fetch, or the closing after the last one.
pub open spec fn fetched(s: SessionView, kept: Seq<Seq<char>>) -> SessionView {
    SessionView {
        stage: if s.cursor + 1 < s.ids.len() {
            Stage::Fetching
        } else {
            Stage::Closing
        },
        cursor: s.cursor + 1,
        bodies: s.bodies + kept,
        ..s
    }
}

/// The session that follows `s` when `event` answers its pending request.
///
/// Each request before the fetches must succeed, or the session fails with
/// the kind of that request. A fetch that fails or brings no body is passed
/// over. Whatever failed, the closing comes next, and its answer changes
/// nothing but the stage.
pub open spec fn step(s: SessionView, event: EventView) -> SessionView {
    match s.stage {
        Stage::Connecting => match event {
            EventView::Done => SessionView { stage: Stage::Authenticating, ..s },
            _ => failed(s, ErrorKind::ConnectionFailed),
        },
        Stage::Authenticating => match event {
            EventView::Done => SessionView { stage: Stage::Selecting, ..s },
            _ => failed(s, ErrorKind::AuthenticationFailed),
        },
        Stage::Selecting => match event {
            EventView::Done => SessionView { stage: Stage::Searching, ..s },
            _ => failed(s, ErrorKind::MailboxUnavailable),
        },
        Stage::Searching => match event {
            EventView::Found(ids) => SessionView {
                stage: if ids.len() > 0 {
                    Stage::Fetching
                } else {
                    Stage::Closing
                },
                ids: ids,
                cursor: 0,
                ..s
            },
            _ => failed(s, ErrorKind::SearchFailed),
        },
        Stage::Fetching => match event {
            EventView::Fetched(items) => fetched(s, present(items)),
            _ => fetched(s, Seq::empty()),
        },
        Stage::Closing => SessionView { stage: Stage::Finished, ..s },
        Stage::Finished => s,
    }
}

/// What came back for a request.
pub enum Event {
    /// The request succeeded and brought nothing.
    Done,
    /// The request failed.
    Failed,
    /// The search succeeded with these identifiers, in the server's order.
    Found(Vec<u32>),
    /// The fetch succeeded with these messages; one without a body shows as
    /// `None`.
    Fetched(Vec<Option<String>>),
}

/// The text of each message of `items` that has a body.
pub open spec fn item_texts(items: Seq<Option<String>>) -> Seq<Option<Seq<char>>> {
    items.map_values(
        |item: Option<String>|
            match item {
                Some(body) => Some(body@),
                None => None,
            },
    )
}

impl View for Event {
    type V = EventView;

    open spec fn view(&self) -> EventView {
        match self {
            Event::Done => EventView::Done,
            Event::Failed => EventView::Failed,
            Event::Found(ids) => EventView::Found(ids@),
            Event::Fetched(items) => EventView::Fetched(item_texts(items@)),
        }
    }
}

/// A mail session: what it has done, what it has kept, and whether it failed.
pub struct Session {
    stage: Stage,
    ids: Vec<u32>,
    cursor: usize,
    bodies: Vec<String>,
    failure: Option<ErrorKind>,
}

/// Adds to `bodies` the bodies among `items`, in order.
fn keep_present(bodies: &mut Vec<String>, items: &Vec<Option<String>>)
    ensures
        strings(final(bodies)@) == strings(old(bodies)@) + present(item_texts(items@)),
{
    let mut i: usize = 0;
    assert(item_texts(items@).take(0) =~= Seq::empty());
    assert(strings(bodies@) =~= strings(old(bodies)@) + present(item_texts(items@).take(0)));
    while i < items.len()
        invariant
            i <= items.len(),
            strings(bodies@) == strings(old(bodies)@) + present(item_texts(items@).take(i as int)),
        decreases items.len() - i,
    {
        proof {
            let longer = item_texts(items@).take(i + 1);
            assert(longer.drop_last() =~= item_texts(items@).take(i as int));
            assert(longer.last() == item_texts(items@)[i as int]);
        }
        let ghost before = bodies@;
        match &items[i] {
            Some(body) => {
                bodies.push(body.clone());
                assert(strings(bodies@) =~= strings(before).push(body@));
                assert(present(item_texts(items@).take(i + 1)) == present(
                    item_texts(items@).take(i as int),
                ).push(body@));
            },
            None => {},
        }
        i += 1;
    }
    assert(item_texts(items@).take(i as int) =~= item_texts(items@));
}

impl Session {
    #[verifier::type_invariant]
    spec fn well_formed(&self) -> bool {
        valid(self@)
    }

    /// The session as a mathematical value.
    pub closed spec fn view(&self) -> SessionView {
        SessionView {
            stage: self.stage,
            ids: self.ids@,
            cursor: self.cursor as int,
            bodies: strings(self.bodies@),
            failure: self.failure,
        }
    }

    /// A session before its first request.
    pub fn begin() -> (s: Session)
        ensures
            s@ == initial(),
    {
        let s = Session {
            stage: Stage::Connecting,
            ids: Vec::new(),
            cursor: 0,
            bodies: Vec::new(),
            failure: None,
        };
        assert(s@.bodies =~= Seq::empty());
        s
    }

    /// How far the session has come.
    pub fn stage(&self) -> (stage: Stage)
        ensures
            stage == self@.stage,
    {
        self.stage
    }

    /// The request to perform next.
    pub fn pending(&self) -> (action: Action)
        ensures
            action == pending(self@),
    {
        proof {
            use_type_invariant(self);
        }
        match self.stage {
            Stage::Connecting => Action::Connect,
            Stage::Authenticating => Action::Login,
            Stage::Selecting => Action::Select,
            Stage::Searching => Action::Search,
            Stage::Fetching => Action::Fetch(self.ids[self.cursor]),
            Stage::Closing => Action::Logout,
            Stage::Finished => Action::Finish,
        }
    }

    /// The session after the failure `kind`.
    fn fail(self, kind: ErrorKind) -> (next: Session)
        ensures
            next@ == failed(self@, kind),
    {
        proof {
            use_type_invariant(&self);
        }
        let Session { ids, cursor, .. } = self;
        let next = Session {
            stage: Stage::Closing,
            ids,
            cursor,
            bodies: Vec::new(),
            failure: Some(kind),
        };
        assert(next@.bodies =~= Seq::empty());
        next
    }

    /// The session after `event` answered its pending request.
    pub fn advance(self, event: Event) -> (next: Session)
        ensures
            next@ == step(self@, event@),
    {
        proof {
            use_type_invariant(&self);
        }
        match self.stage {
            Stage::Connecting => match event {
                Event::Done => self.proceed(Stage::Authenticating),
                _ => self.fail(ErrorKind::ConnectionFailed),
            },
            Stage::Authenticating => match event {
                Event::Done => self.proceed(Stage::Selecting),
                _ => self.fail(ErrorKind::AuthenticationFailed),
            },
            Stage::Selecting => match event {
                Event::Done => self.proceed(Stage::Searching),
                _ => self.fail(ErrorKind::MailboxUnavailable),
            },
            Stage::Searching => match event {
                Event::Found(found) => {
                    let Session { bodies, failure, .. } = self;
                    let stage = if found.len() > 0 {
                        Stage::Fetching
                    } else {
                        Stage::Closing
                    };
                    Session { stage, ids: found, cursor: 0, bodies, failure }
                },
                _ => self.fail(ErrorKind::SearchFailed),
            },
            Stage::Fetching => {
                let Session { ids, cursor, mut bodies, failure, .. } = self;
                assert(cursor < ids.len());
                match event {
                    Event::Fetched(items) => {
                        keep_present(&mut bodies, &items);
                    },
                    _ => {
                        assert(strings(bodies@) =~= strings(bodies@) + Seq::empty());
                    },
                }
                let stage = if cursor + 1 < ids.len() {
                    Stage::Fetching
                } else {
                    Stage::Closing
                };
                Session { stage, ids, cursor: cursor + 1, bodies, failure }
            },
            Stage::Closing => self.proceed(Stage::Finished),
            Stage::Finished => self,
        }
    }

    /// The session at another stage, with everything else as it was.
    fn proceed(self, stage: Stage) -> (next: Session)
        requires
            valid(SessionView { stage, ..self@ }),
        ensures
            next@ == (SessionView { stage, ..self@ }),
    {
        let Session { ids, cursor, bodies, failure, .. } = self;
        Session { stage, ids, cursor, bodies, failure }
    }

    /// How the session ended: the bodies kept, in the order in which they
    /// came, or the failure that ended the work. `None` while the session is
    /// not yet over.
    pub fn outcome(self) -> (result: Option<Result<Vec<String>, ErrorKind>>)
        ensures
            self@.stage != Stage::Finished <==> result is None,
            self@.stage == Stage::Finished ==> match result {
                Some(Ok(bodies)) => self@.failure is None && strings(bodies@) == self@.bodies,
                Some(Err(kind)) => self@.failure == Some(kind),
                None => false,
            },
    {
        let Session { stage, bodies, failure, .. } = self;
        match stage {
            Stage::Finished => match failure {
                Some(kind) => Some(Err(kind)),
                None => Some(Ok(bodies)),
            },
            _ => None,
        }
    }
}

/// The session that `s` becomes when `events` answer its requests, one after
/// another.
pub open spec fn run(s: SessionView, events: Seq<EventView>) -> SessionView
    decreases events.len(),
{
    if events.len() == 0 {
        s
    } else {
        step(run(s, events.drop_last()), events.last())
    }
}

/// How many of `events` answered a request to close the session.
pub open spec fn logouts(s: SessionView, events: Seq<EventView>) -> nat
    decreases events.len(),
{
    if events.len() == 0 {
        0
    } else if pending(run(s, events.drop_last())) == Action::Logout {
        logouts(s, events.drop_last()) + 1
    } else {
        logouts(s, events.drop_last())
    }
}

/// The position of a stage in the order of a session.
pub open spec fn rank(stage: Stage) -> nat {
    match stage {
        Stage::Connecting => 0,
        Stage::Authenticating => 1,
        Stage::Selecting => 2,
        Stage::Searching => 3,
        Stage::Fetching => 4,
        Stage::Closing => 5,
        Stage::Finished => 6,
    }
}

/// The bodies that a series of answers to fetches brings, in order: those of
/// each fetch that succeeded, nothing for one that failed.
pub open spec fn harvest(replies: Seq<EventView>) -> Seq<Seq<char>>
    decreases replies.len(),
{
    if replies.len() == 0 {
        Seq::empty()
    } else {
        harvest(replies.drop_last()) + (match replies.last() {
            EventView::Fetched(items) => present(items),
            _ => Seq::empty(),
        })
    }
}

/// Whatever answers a request, a valid session stays valid.
pub proof fn lemma_step_keeps_valid(s: SessionView, event: EventView)
    requires
        valid(s),
    ensures
        valid(step(s, event)),
{
}

/// Every session that began at the beginning is valid.
pub proof fn lemma_run_keeps_valid(events: Seq<EventView>)
    ensures
        valid(run(initial(), events)),
    decreases events.len(),
{
    if events.len() > 0 {
        lemma_run_keeps_valid(events.drop_last());
        lemma_step_keeps_valid(run(initial(), events.drop_last()), events.last());
    }
}

/// Every answer brings a session that is not over nearer to its end: to a
/// later stage, or to the next identifier.
pub proof fn lemma_step_makes_progress(s: SessionView, event: EventView)
    requires
        valid(s),
        s.stage != Stage::Finished,
    ensures
        rank(step(s, event).stage) > rank(s.stage) || (step(s, event).stage == s.stage
            && step(s, event).ids == s.ids && s.ids.len() - step(s, event).cursor < s.ids.len()
            - s.cursor),
{
}

/// The session is closed exactly once: whatever the answers were, a session
/// that is over has asked for the closing once, and one that is not over has
/// not asked for it yet or is waiting for its answer.
pub proof fn lemma_closed_exactly_once(events: Seq<EventView>)
    ensures
        run(initial(), events).stage == Stage::Finished ==> logouts(initial(), events) == 1,
        run(initial(), events).stage != Stage::Finished ==> logouts(initial(), events) == 0,
    decreases events.len(),
{
    if events.len() > 0 {
        lemma_closed_exactly_once(events.drop_last());
    }
}

/// A session that is not over comes to the closing: the pending request of
/// a session is the closing exactly at the one stage before its end.
pub proof fn lemma_finished_only_through_closing(s: SessionView, event: EventView)
    requires
        s.stage != Stage::Finished,
    ensures
        step(s, event).stage == Stage::Finished <==> pending(s) == Action::Logout,
{
}

/// A login that fails ends the work with `AuthenticationFailed`: from then
/// on no body is kept, the failure stays whatever follows, and nothing is
/// asked for but the closing.
pub proof fn lemma_failed_login(events: Seq<EventView>)
    requires
        events.len() >= 2,
        events[0] == EventView::Done,
        events[1] != EventView::Done,
    ensures
        run(initial(), events).failure == Some(ErrorKind::AuthenticationFailed),
        run(initial(), events).bodies == Seq::<Seq<char>>::empty(),
        pending(run(initial(), events)) == Action::Logout || pending(run(initial(), events))
            == Action::Finish,
    decreases events.len(),
{
    if events.len() == 2 {
        let none = events.drop_last().drop_last();
        assert(none.len() == 0);
        assert(run(initial(), none) == initial());
        assert(events.drop_last().last() == events[0]);
        assert(run(initial(), events.drop_last()) == step(initial(), events[0]));
        assert(run(initial(), events) == step(step(initial(), events[0]), events[1]));
    } else {
        let before = events.drop_last();
        assert(before[0] == events[0]);
        assert(before[1] == events[1]);
        lemma_failed_login(before);
    }
}

/// The answers that bring a session to its first fetch: the connection, the
/// login and the opening of the mailbox succeed, and the search finds `ids`.
pub open spec fn opening(ids: Seq<u32>) -> Seq<EventView> {
    seq![EventView::Done, EventView::Done, EventView::Done, EventView::Found(ids)]
}

/// The bodies are kept as they come: after a search that found `ids` and
/// answers to the first few fetches, the session holds the bodies that those
/// fetches brought, in their order, and has passed over every fetch that
/// failed or brought no body.
pub proof fn lemma_bodies_in_fetch_order(ids: Seq<u32>, replies: Seq<EventView>)
    requires
        replies.len() <= ids.len(),
    ensures
        run(initial(), opening(ids) + replies).bodies == harvest(replies),
        run(initial(), opening(ids) + replies).failure is None,
        run(initial(), opening(ids) + replies).ids == ids,
        run(initial(), opening(ids) + replies).cursor == replies.len(),
        run(initial(), opening(ids) + replies).stage == (if replies.len() < ids.len() {
            Stage::Fetching
        } else {
            Stage::Closing
        }),
    decreases replies.len(),
{
    if replies.len() == 0 {
        let all = opening(ids);
        assert(all + replies =~= all);
        let three = all.drop_last();
        let two = three.drop_last();
        let one = two.drop_last();
        assert(one.drop_last().len() == 0);
        assert(run(initial(), one.drop_last()) == initial());
        assert(one.last() == all[0] && two.last() == all[1] && three.last() == all[2]);
        assert(run(initial(), one) == step(initial(), EventView::Done));
        assert(run(initial(), two) == step(run(initial(), one), EventView::Done));
        assert(run(initial(), three) == step(run(initial(), two), EventView::Done));
        assert(run(initial(), all) == step(run(initial(), three), EventView::Found(ids)));
        assert(run(initial(), all).bodies =~= harvest(replies));
    } else {
        let before = replies.drop_last();
        lemma_bodies_in_fetch_order(ids, before);
        assert((opening(ids) + replies).drop_last() =~= opening(ids) + before);
        assert((opening(ids) + replies).last() == replies.last());
    }
}

/// A session in which nothing but fetches fails brings every body: when the
/// search found `ids`, each fetch was answered and the closing too, the
/// session is over without a failure and holds the bodies that the fetches
/// brought, in their order.
pub proof fn lemma_whole_session(ids: Seq<u32>, replies: Seq<EventView>, last: EventView)
    requires
        replies.len() == ids.len(),
    ensures
        run(initial(), (opening(ids) + replies).push(last)).stage == Stage::Finished,
        run(initial(), (opening(ids) + replies).push(last)).failure is None,
        run(initial(), (opening(ids) + replies).push(last)).bodies == harvest(replies),
{
    lemma_bodies_in_fetch_order(ids, replies);
    let all = (opening(ids) + replies).push(last);
    assert(all.drop_last() =~= opening(ids) + replies);
    assert(all.last() == last);
}

} // verus!
