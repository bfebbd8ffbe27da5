use vstd::prelude::*;

use crate::codec::spec_decode;
use crate::codec::spec_encode;
use crate::hub::published;
use crate::hub::recv_lagged;
use crate::hub::HubView;
use crate::message::ChatMessage;
use crate::message::ChatMessageView;
use crate::message::MessageType;
use crate::registry::Registry;

verus! {

// One session walks AwaitingUsername -> Active -> Closing -> Closed.
// The decisions of the session — what a line of input means, what gets
// published, what gets written back — live here; the sockets and the
// task plumbing around them do not.

pub open spec fn is_space(c: char) -> bool {
    c == ' ' || c == '\t' || c == '\r' || c == '\n'
}

pub open spec fn trim_start_spec(s: Seq<char>) -> Seq<char>
    decreases s.len(),
{
    if s.len() > 0 && is_space(s[0]) {
        trim_start_spec(s.skip(1))
    } else {
        s
    }
}

pub open spec fn trim_end_spec(s: Seq<char>) -> Seq<char>
    decreases s.len(),
{
    if s.len() > 0 && is_space(s[s.len() - 1]) {
        trim_end_spec(s.drop_last())
    } else {
        s
    }
}

/// A line with its surrounding whitespace dropped.
pub open spec fn trim_spec(s: Seq<char>) -> Seq<char> {
    trim_end_spec(trim_start_spec(s))
}

fn is_space_exec(c: char) -> (r: bool)
    ensures
        r == is_space(c),
{
    c == ' ' || c == '\t' || c == '\r' || c == '\n'
}

/// Drops the surrounding whitespace off a line.
pub fn trim_line(s: &str) -> (r: String)
    ensures
        r@ == trim_spec(s@),
{
    let n = s.unicode_len();
    let mut a: usize = 0;
    proof {
        assert(s@.skip(0) =~= s@);
    }
    while a < n && is_space_exec(s.get_char(a))
        invariant
            a <= n,
            n == s@.len(),
            trim_start_spec(s@) == trim_start_spec(s@.skip(a as int)),
        decreases n - a,
    {
        proof {
            assert(s@.skip(a as int)[0] == s@[a as int]);
            assert(s@.skip(a as int).skip(1) =~= s@.skip(a as int + 1));
        }
        a = a + 1;
    }
    proof {
        if a < n {
            assert(s@.skip(a as int)[0] == s@[a as int]);
        }
        assert(trim_start_spec(s@.skip(a as int)) == s@.skip(a as int));
        assert(s@.skip(a as int) =~= s@.subrange(a as int, n as int));
    }
    let mut b: usize = n;
    while b > a && is_space_exec(s.get_char(b - 1))
        invariant
            a <= b <= n,
            n == s@.len(),
            trim_end_spec(s@.skip(a as int)) == trim_end_spec(s@.subrange(a as int, b as int)),
        decreases b,
    {
        proof {
            let t = s@.subrange(a as int, b as int);
            assert(t[t.len() - 1] == s@[b as int - 1]);
            assert(t.drop_last() =~= s@.subrange(a as int, b as int - 1));
        }
        b = b - 1;
    }
    proof {
        let t = s@.subrange(a as int, b as int);
        if b > a {
            assert(t[t.len() - 1] == s@[b as int - 1]);
        }
        assert(trim_end_spec(t) == t);
    }
    let out = s.substring_char(a, b);
    out.to_owned()
}

/// The notice a refused connection is sent before it is closed.
pub open spec fn rejection_text() -> Seq<char> {
    "Username cannot be empty!"@
}

/// The payload of the Join envelope announcing a user.
pub open spec fn join_text(u: Seq<char>) -> Seq<char> {
    u + " joined the chat!"@
}

/// The payload of the Leave envelope announcing a departure.
pub open spec fn leave_text(u: Seq<char>) -> Seq<char> {
    u + " left the chat!"@
}

/// The payload of the welcome envelope sent to the new user alone.
pub open spec fn welcome_text(u: Seq<char>) -> Seq<char> {
    "Welcome to the chat,"@ + u + "! Type 'quit' to exit"@
}

#[derive(Clone, Copy, Debug, PartialEq, Eq, Structural)]
pub enum SessionState {
    AwaitingUsername,
    Active,
    Closing,
    Closed,
}

/// Mathematical image of a session: where it stands and under which
/// name, once one was accepted.
pub struct SessionView {
    pub state: SessionState,
    pub username: Option<Seq<char>>,
}

/// What the username line decides.
pub enum StartOutcome {
    /// The candidate name was empty after trimming: the session closes
    /// without registering or broadcasting anything, after writing this
    /// one rejection notice.
    Rejected(String),
    /// The name was accepted: the first envelope is the Join to
    /// broadcast, the second the welcome for this client alone.
    Started(ChatMessage, ChatMessage),
}

/// What one inbound line decides.
pub enum InboundAction {
    /// An empty line: nothing happens.
    Ignore,
    /// The quit command: the inbound loop stops; the Leave envelope is
    /// published later, once, by `begin_close`.
    Quit,
    /// Ordinary text: broadcast this envelope to the hub.
    Broadcast(ChatMessage),
}

/// The lifecycle of one accepted connection, from username intake to
/// cleanup.
pub struct Session {
    state: SessionState,
    username: Option<String>,
}

impl View for Session {
    type V = SessionView;

    closed spec fn view(&self) -> SessionView {
        SessionView { state: self.state, username: self.username.deep_view() }
    }
}

impl Session {
    /// A name is held exactly from the moment one is accepted.
    pub closed spec fn inv(&self) -> bool {
        &&& self.state == SessionState::AwaitingUsername ==> self.username is None
        &&& self.state == SessionState::Active ==> self.username is Some
        &&& self.state == SessionState::Closing ==> self.username is Some
    }

    /// Where the session stands in its lifecycle.
    pub fn state(&self) -> (r: SessionState)
        ensures
            r == self@.state,
    {
        self.state
    }

    /// A fresh session, waiting for the one username line.
    pub fn new() -> (r: Session)
        ensures
            r.inv(),
            r@.state == SessionState::AwaitingUsername,
            r@.username is None,
    {
        Session { state: SessionState::AwaitingUsername, username: None }
    }

    /// Reads the candidate username. Empty after trimming: the session is
    /// refused and closes without side effects. Otherwise it turns
    /// active under the trimmed name and hands back the Join envelope to
    /// broadcast and the welcome envelope for this client alone.
    pub fn start(&mut self, line: &str) -> (out: StartOutcome)
        requires
            old(self).inv(),
            old(self)@.state == SessionState::AwaitingUsername,
        ensures
            final(self).inv(),
            trim_spec(line@).len() == 0 ==> (final(self)@.state == SessionState::Closed
                && final(self)@.username is None && (out matches StartOutcome::Rejected(t)
                && t@ == rejection_text())),
            trim_spec(line@).len() > 0 ==> (final(self)@.state == SessionState::Active
                && final(self)@.username == Some(trim_spec(line@)) && (out matches
                StartOutcome::Started(join, welcome) && join@.username == trim_spec(line@)
                && join@.message_type == MessageType::Join && join@.content == join_text(
                trim_spec(line@),
            ) && welcome@.username == "System"@ && welcome@.message_type == MessageType::System
                && welcome@.content == welcome_text(trim_spec(line@)))),
    {
        let name = trim_line(line);
        if name.as_str().unicode_len() == 0 {
            self.state = SessionState::Closed;
            StartOutcome::Rejected("Username cannot be empty!".to_owned())
        } else {
            let mut jt = name.clone();
            jt.append(" joined the chat!");
            let join = ChatMessage::new(name.clone(), jt, MessageType::Join);
            let mut wt = "Welcome to the chat,".to_owned();
            wt.append(name.as_str());
            wt.append("! Type 'quit' to exit");
            let welcome = ChatMessage::new("System".to_owned(), wt, MessageType::System);
            self.username = Some(name);
            self.state = SessionState::Active;
            StartOutcome::Started(join, welcome)
        }
    }

    /// Decides one inbound line of an active session: empty lines are
    /// ignored, the quit command stops the inbound loop, and anything
    /// else becomes a Text envelope under this session's name.
    pub fn handle_inbound(&self, line: &str) -> (act: InboundAction)
        requires
            self.inv(),
            self@.state == SessionState::Active,
        ensures
            trim_spec(line@) == "/quit"@ ==> act is Quit,
            trim_spec(line@).len() == 0 ==> act is Ignore,
            trim_spec(line@).len() > 0 && trim_spec(line@) != "/quit"@ ==> (act matches
                InboundAction::Broadcast(m) && Some(m@.username) == self@.username && m@.content
                == trim_spec(line@) && m@.message_type == MessageType::Text),
    {
        proof {
            reveal_strlit("/quit");
        }
        let t = trim_line(line);
        let quit = "/quit".to_owned();
        if t == quit {
            InboundAction::Quit
        } else if t.as_str().unicode_len() == 0 {
            InboundAction::Ignore
        } else {
            let name = match &self.username {
                Some(u) => u.clone(),
                None => vstd::pervasive::unreached(),
            };
            InboundAction::Broadcast(ChatMessage::new(name, t, MessageType::Text))
        }
    }

    /// Stops an active session: hands back the one Leave envelope to
    /// publish and moves to Closing, from where the session can never
    /// turn active again — so the Leave is published exactly once.
    pub fn begin_close(&mut self) -> (leave: ChatMessage)
        requires
            old(self).inv(),
            old(self)@.state == SessionState::Active,
        ensures
            final(self).inv(),
            final(self)@.state == SessionState::Closing,
            final(self)@.username == old(self)@.username,
            Some(leave@.username) == old(self)@.username,
            leave@.message_type == MessageType::Leave,
            (old(self)@.username matches Some(u) && leave@.content == leave_text(u)),
    {
        let name = match &self.username {
            Some(u) => u.clone(),
            None => vstd::pervasive::unreached(),
        };
        let mut lt = name.clone();
        lt.append(" left the chat!");
        self.state = SessionState::Closing;
        ChatMessage::new(name, lt, MessageType::Leave)
    }

    /// Final cleanup: the username leaves the registry unconditionally —
    /// a no-op when it was already gone — and the session is closed.
    pub fn finish(&mut self, registry: &mut Registry)
        requires
            old(self).inv(),
            old(registry).inv(),
            old(self)@.state == SessionState::Closing,
        ensures
            final(self).inv(),
            final(registry).inv(),
            final(self)@.state == SessionState::Closed,
            final(self)@.username == old(self)@.username,
            (old(self)@.username matches Some(u) ==> final(registry)@ == old(registry)@.remove(u)
                && !final(registry)@.dom().contains(u)),
    {
        match &self.username {
            Some(u) => {
                registry.remove(u);
            },
            None => {},
        }
        self.state = SessionState::Closed;
    }
}

/// What the outbound loop does with one raw record received from the
/// hub: a line that is not a protocol message is skipped; an envelope
/// whose origin is this session's own user is not echoed back; any other
/// envelope is written out unchanged.
pub open spec fn forward_decision(me: Seq<char>, raw: Seq<char>) -> Option<Seq<char>> {
    match spec_decode(raw) {
        None => None,
        Some(m) => if m.username == me {
            None
        } else {
            Some(raw)
        },
    }
}

/// Decides one received record for the outbound loop of the user `me`.
pub fn outbound_line(me: &String, raw: &str) -> (r: Option<String>)
    ensures
        match r {
            Some(s) => forward_decision(me@, raw@) == Some(s@),
            None => forward_decision(me@, raw@) is None,
        },
{
    match ChatMessage::from_json(raw) {
        Err(_) => None,
        Ok(m) => {
            if m.username == *me {
                None
            } else {
                Some(raw.to_owned())
            }
        },
    }
}

/// Join visibility law: when a session that has just turned active under
/// name `me` publishes its Join envelope, a subscriber that was already
/// subscribed receives exactly that record next — not a loss, not a
/// replay — and the outbound filter forwards it to every user other than
/// `me` while never echoing it back to `me` itself.
pub proof fn lemma_join_visibility(j: ChatMessageView, h: HubView, c: nat, other: Seq<char>)
    requires
        j.message_type == MessageType::Join,
        h.capacity >= 1,
        c == h.log.len(),
        other != j.username,
    ensures
        !recv_lagged(published(h, spec_encode(j)), c),
        published(h, spec_encode(j)).log[c as int] == spec_encode(j),
        forward_decision(j.username, spec_encode(j)) is None,
        forward_decision(other, spec_encode(j)) == Some(spec_encode(j)),
{
    crate::hub::lemma_publish_then_receive(h, spec_encode(j), c);
    crate::codec::lemma_round_trip(j);
}

/// Text relay law: a Text envelope sent by one user decodes, at every
/// other user's outbound filter, back to an envelope with that origin,
/// Text kind and the sent payload, and is forwarded verbatim; the
/// sender's own filter drops it.
pub proof fn lemma_text_relay(m: ChatMessageView, other: Seq<char>)
    requires
        m.message_type == MessageType::Text,
        other != m.username,
    ensures
        spec_decode(spec_encode(m)) == Some(m),
        forward_decision(other, spec_encode(m)) == Some(spec_encode(m)),
        forward_decision(m.username, spec_encode(m)) is None,
{
    crate::codec::lemma_round_trip(m);
}

/// Quit cleanup law: once the departing username is removed, the
/// registry no longer contains it, whether or not it was present.
pub proof fn lemma_quit_cleanup(reg: Map<Seq<char>, u64>, u: Seq<char>)
    ensures
        !reg.remove(u).dom().contains(u),
{
}

} // verus!
