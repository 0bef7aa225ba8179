//! The session: what one connection does with what its client sends.
//!
//! A session owns the stroke in progress. The caller decodes what the
//! transport delivers and hands it in as a [`WsEvent`]; the session updates
//! the stroke and answers with a [`WsAction`], the one thing the caller has
//! to do next. Notifications from the hub are turned into wire messages by
//! [`process_gs_msg`].

use vstd::prelude::*;
use crate::color::{
    color_text, color_value, format_color, is_color_text, lemma_color_round_trip, parse_color,
};
use crate::gen_server::{ClientId, GSMsg, HubState, Msg};
use crate::line::{is_selection, lemma_selection_in_bounds, simplified, Line, Point};
use crate::rounds::addressed;

verus! {

/// Why a message was not acted on.
#[derive(Clone, Copy, Debug, PartialEq, Eq, Structural)]
pub enum SessionError {
    /// The payload could not be decoded.
    MalformedMessage,
    /// A colour was not `#` and six hexadecimal digits.
    ColorFormat,
    /// The client sent what only the server may send, or committed a stroke
    /// of fewer than two points.
    ProtocolViolation,
}

/// A message of the wire protocol, decoded.
///
/// Coordinates are the bit patterns of single-precision floats, colours are
/// still text.
#[derive(Debug, PartialEq, Eq)]
pub enum JMsg {
    /// Either way: clear the canvas.
    Clear,
    /// From the client: begin a stroke here.
    MoveTo { x: u32, y: u32, color: String },
    /// From the client: extend the stroke to here.
    LineTo { x: u32, y: u32, color: String },
    /// From the client: commit the stroke.
    Stroke,
    /// From the server: a committed stroke.
    Line { line: Vec<(u32, u32, String)> },
}

/// The mathematical content of a [`JMsg`].
pub enum Wire {
    Clear,
    MoveTo { x: u32, y: u32, color: Seq<char> },
    LineTo { x: u32, y: u32, color: Seq<char> },
    Stroke,
    Line { line: Seq<(u32, u32, Seq<char>)> },
}

impl View for JMsg {
    type V = Wire;

    open spec fn view(&self) -> Wire {
        match *self {
            JMsg::Clear => Wire::Clear,
            JMsg::MoveTo { x, y, color } => Wire::MoveTo { x, y, color: color@ },
            JMsg::LineTo { x, y, color } => Wire::LineTo { x, y, color: color@ },
            JMsg::Stroke => Wire::Stroke,
            JMsg::Line { line } => Wire::Line {
                line: Seq::new(line@.len(), |i: int| (line@[i].0, line@[i].1, line@[i].2@)),
            },
        }
    }
}

/// What the transport delivered, as far as the session cares.
#[derive(Debug, PartialEq, Eq)]
pub enum WsEvent {
    /// A text message that decoded to a protocol message.
    Json(JMsg),
    /// A text message that did not decode.
    Malformed,
    /// The close notification.
    Close,
    /// Any other kind of transport message.
    Other,
}

/// What the caller has to do after an event.
#[derive(Debug, PartialEq, Eq)]
pub enum WsAction {
    /// Nothing.
    Idle,
    /// Submit this request to the hub.
    Submit(GSMsg),
    /// Simplify this raw stroke, which has two or more points, and submit
    /// the result to the hub as a `NewLine`.
    Commit(Line),
    /// Log this and go on.
    Report(SessionError),
    /// Submit this request to the hub and end the session.
    Leave(GSMsg),
}

/// The mathematical content of a [`WsAction`].
pub enum Act {
    Idle,
    Submit(Msg),
    Commit(Seq<Point>),
    Report(SessionError),
    Leave(Msg),
}

impl View for WsAction {
    type V = Act;

    open spec fn view(&self) -> Act {
        match *self {
            WsAction::Idle => Act::Idle,
            WsAction::Submit(msg) => Act::Submit(msg@),
            WsAction::Commit(line) => Act::Commit(line@),
            WsAction::Report(err) => Act::Report(err),
            WsAction::Leave(msg) => Act::Leave(msg@),
        }
    }
}

/// The stroke in progress after the client message `msg`.
///
/// `clear` and `stroke` empty it, whether or not the stroke could be
/// committed. `moveTo` restarts it at the given point and `lineTo` extends
/// it by the given point, unless the colour is ill-written: then the
/// message is dropped and the stroke stays as it was. A `line` message
/// leaves it alone.
pub open spec fn buffer_after(line: Seq<Point>, msg: Wire) -> Seq<Point> {
    match msg {
        Wire::Clear => Seq::empty(),
        Wire::MoveTo { x, y, color } => if is_color_text(color) {
            seq![Point { x, y, color: color_value(color) as u32 }]
        } else {
            line
        },
        Wire::LineTo { x, y, color } => if is_color_text(color) {
            line.push(Point { x, y, color: color_value(color) as u32 })
        } else {
            line
        },
        Wire::Stroke => Seq::empty(),
        Wire::Line { .. } => line,
    }
}

/// The answer to the client message `msg` when `line` is the stroke in
/// progress.
///
/// `clear` is passed on to the hub. `moveTo` and `lineTo` ask for nothing,
/// and fail on an ill-written colour. `stroke` hands out the stroke for
/// committing if it has two or more points, and is a protocol violation
/// otherwise. `line` is the server's to send: a protocol violation.
pub open spec fn answer(line: Seq<Point>, msg: Wire) -> Result<Act, SessionError> {
    match msg {
        Wire::Clear => Ok(Act::Submit(Msg::Clear)),
        Wire::MoveTo { color, .. } => if is_color_text(color) {
            Ok(Act::Idle)
        } else {
            Err(SessionError::ColorFormat)
        },
        Wire::LineTo { color, .. } => if is_color_text(color) {
            Ok(Act::Idle)
        } else {
            Err(SessionError::ColorFormat)
        },
        Wire::Stroke => if line.len() >= 2 {
            Ok(Act::Commit(line))
        } else {
            Err(SessionError::ProtocolViolation)
        },
        Wire::Line { .. } => Err(SessionError::ProtocolViolation),
    }
}

/// The mathematical content of what [`handle_ws_msg`] returns.
pub open spec fn answer_view(res: Result<WsAction, SessionError>) -> Result<Act, SessionError> {
    match res {
        Ok(action) => Ok(action@),
        Err(err) => Err(err),
    }
}

/// Applies one client message to the stroke in progress.
///
/// Afterwards the stroke is [`buffer_after`] and the result is [`answer`].
pub fn handle_ws_msg(line: &mut Line, msg: JMsg) -> (res: Result<WsAction, SessionError>)
    ensures
        final(line)@ == buffer_after(old(line)@, msg@),
        answer_view(res) == answer(old(line)@, msg@),
{
    match msg {
        JMsg::Clear => {
            line.clear();
            Ok(WsAction::Submit(GSMsg::Clear))
        },
        JMsg::MoveTo { x, y, color } => {
            match parse_color(color) {
                Ok(c) => {
                    line.clear();
                    line.push(Point { x, y, color: c });
                    assert(line@ =~= seq![Point { x, y, color: c }]);
                    Ok(WsAction::Idle)
                },
                Err(err) => Err(err),
            }
        },
        JMsg::LineTo { x, y, color } => {
            match parse_color(color) {
                Ok(c) => {
                    line.push(Point { x, y, color: c });
                    Ok(WsAction::Idle)
                },
                Err(err) => Err(err),
            }
        },
        JMsg::Stroke => {
            if line.len() >= 2 {
                let mut raw: Line = Vec::new();
                core::mem::swap(line, &mut raw);
                Ok(WsAction::Commit(raw))
            } else {
                line.clear();
                Err(SessionError::ProtocolViolation)
            }
        },
        JMsg::Line { .. } => Err(SessionError::ProtocolViolation),
    }
}

/// The wire form of the stroke `line`: point for point, each colour
/// written out.
pub open spec fn line_wire(line: Seq<Point>) -> Wire {
    Wire::Line { line: Seq::new(line.len(), |i: int| (line[i].x, line[i].y, color_text(line[i].color))) }
}

/// Encodes a committed stroke as the `line` message of the wire.
pub fn line_to_json(line: &Line) -> (msg: JMsg)
    ensures
        msg@ == line_wire(line@),
{
    let mut wire: Vec<(u32, u32, String)> = Vec::new();
    let mut i: usize = 0;
    while i < line.len()
        invariant
            0 <= i <= line.len(),
            wire.len() == i,
            forall|k: int|
                0 <= k < i ==> wire[k].0 == line[k].x && wire[k].1 == line[k].y && wire[k].2@
                    == color_text(line[k].color),
        decreases line.len() - i,
    {
        let p: Point = line[i];
        wire.push((p.x, p.y, format_color(p.color)));
        i += 1;
    }
    let msg = JMsg::Line { line: wire };
    assert(msg@->Line_line =~= line_wire(line@)->Line_line);
    msg
}

/// What a notification from the hub puts on the wire.
///
/// A stroke becomes a `line` message and a clear a `clear` message. The
/// other two kinds never leave the hub; should one arrive, nothing is
/// written.
pub open spec fn notice(msg: Msg) -> Option<Wire> {
    match msg {
        Msg::NewLine(line) => Some(line_wire(line)),
        Msg::Clear => Some(Wire::Clear),
        _ => None,
    }
}

/// The mathematical content of what [`process_gs_msg`] returns.
pub open spec fn notice_view(out: Option<JMsg>) -> Option<Wire> {
    match out {
        Some(msg) => Some(msg@),
        None => None,
    }
}

/// Turns a notification from the hub into the message to write to the
/// client, if there is one to write.
pub fn process_gs_msg(msg: &GSMsg) -> (out: Option<JMsg>)
    ensures
        notice_view(out) == notice(msg@),
{
    match msg {
        GSMsg::NewLine(line) => Some(line_to_json(line)),
        GSMsg::Clear => Some(JMsg::Clear),
        _ => None,
    }
}

/// The mathematical content of a [`WsEvent`].
pub enum Incoming {
    Json(Wire),
    Malformed,
    Close,
    Other,
}

impl View for WsEvent {
    type V = Incoming;

    open spec fn view(&self) -> Incoming {
        match *self {
            WsEvent::Json(msg) => Incoming::Json(msg@),
            WsEvent::Malformed => Incoming::Malformed,
            WsEvent::Close => Incoming::Close,
            WsEvent::Other => Incoming::Other,
        }
    }
}

/// What a session knows: whose it is, the stroke in progress, and whether
/// the hub has been told that the client is gone.
pub struct SessionState {
    pub who: ClientId,
    pub line: Seq<Point>,
    pub departed: bool,
}

impl SessionState {
    /// A fresh session for `who`: no stroke yet, and not departed.
    pub open spec fn start(who: ClientId) -> SessionState {
        SessionState { who, line: Seq::empty(), departed: false }
    }

    /// The state after the transport event `ev`.
    ///
    /// A protocol message acts on the stroke in progress as
    /// [`buffer_after`] says; the close notification marks the session
    /// departed; nothing else changes anything.
    pub open spec fn after(self, ev: Incoming) -> SessionState {
        match ev {
            Incoming::Json(msg) => SessionState { line: buffer_after(self.line, msg), ..self },
            Incoming::Close => SessionState { departed: true, ..self },
            _ => self,
        }
    }

    /// What the transport event `ev` asks of the caller.
    ///
    /// A protocol message asks for its [`answer`], or for a report of the
    /// error in its place. The close notification asks to take leave of
    /// the hub. Whatever else arrives is reported as malformed and
    /// otherwise ignored.
    pub open spec fn action(self, ev: Incoming) -> Act {
        match ev {
            Incoming::Json(msg) => match answer(self.line, msg) {
                Ok(act) => act,
                Err(err) => Act::Report(err),
            },
            Incoming::Close => Act::Leave(Msg::DeleteClient(self.who)),
            _ => Act::Report(SessionError::MalformedMessage),
        }
    }

    /// The request that is still owed to the hub when the session ends: the
    /// notice of departure, unless it has been given already.
    pub open spec fn farewell(self) -> Option<Msg> {
        if self.departed {
            None
        } else {
            Some(Msg::DeleteClient(self.who))
        }
    }
}

/// The session of one connection.
pub struct Session {
    who: ClientId,
    line: Line,
    departed: bool,
}

impl View for Session {
    type V = SessionState;

    closed spec fn view(&self) -> SessionState {
        SessionState { who: self.who, line: self.line@, departed: self.departed }
    }
}

/// The mathematical content of an optional request.
pub open spec fn request_view(req: Option<GSMsg>) -> Option<Msg> {
    match req {
        Some(msg) => Some(msg@),
        None => None,
    }
}

impl Session {
    /// Opens the session of client `who` and gives the request that
    /// announces it to the hub.
    pub fn new(who: ClientId) -> (opened: (Session, GSMsg))
        ensures
            opened.0@ == SessionState::start(who),
            opened.1@ == Msg::NewClient(who),
    {
        (Session { who, line: Vec::new(), departed: false }, GSMsg::NewClient(who))
    }

    /// Takes one event from the transport.
    ///
    /// The session moves as [`SessionState::after`] says and the result is
    /// [`SessionState::action`] of the state before.
    pub fn process_ws_msg(&mut self, msg: WsEvent) -> (action: WsAction)
        ensures
            final(self)@ == old(self)@.after(msg@),
            action@ == old(self)@.action(msg@),
    {
        match msg {
            WsEvent::Json(json) => match handle_ws_msg(&mut self.line, json) {
                Ok(action) => action,
                Err(err) => WsAction::Report(err),
            },
            WsEvent::Close => {
                self.departed = true;
                WsAction::Leave(GSMsg::DeleteClient(self.who))
            },
            WsEvent::Malformed => WsAction::Report(SessionError::MalformedMessage),
            WsEvent::Other => WsAction::Report(SessionError::MalformedMessage),
        }
    }

    /// Ends the session, on whatever path: gives the notice of departure
    /// that the hub is still owed, and none if it has been given.
    pub fn leave(&mut self) -> (req: Option<GSMsg>)
        ensures
            request_view(req) == old(self)@.farewell(),
            final(self)@ == (SessionState { departed: true, ..old(self)@ }),
    {
        if self.departed {
            None
        } else {
            self.departed = true;
            Some(GSMsg::DeleteClient(self.who))
        }
    }

    /// The client whose session this is.
    pub fn who(&self) -> (id: ClientId)
        ensures
            id == self@.who,
    {
        self.who
    }

    /// How many points the stroke in progress has.
    pub fn pending(&self) -> (n: usize)
        ensures
            n == self@.line.len(),
    {
        self.line.len()
    }
}

/// A committed stroke reaches every registered client as it was drawn.
///
/// Let `line` be a stroke in progress that a `stroke` message commits, and
/// `stroke` what simplification makes of it, whatever vertices the
/// geometry pass kept. Then `stroke` has two or more points and the ends of
/// `line`; the hub appends it to its history and addresses it to every
/// registered client; and the `line` message that such a client is written
/// shows the colour of the first point of `line` on every point.
pub proof fn lemma_commit_reaches_clients(
    line: Seq<Point>,
    kept: Seq<usize>,
    hub: HubState,
    c: ClientId,
)
    requires
        line.len() <= usize::MAX,
        answer(line, Wire::Stroke) is Ok,
        hub.clients.contains(c),
    ensures
        ({
            let stroke = simplified(line, kept);
            let request = Msg::NewLine(stroke);
            &&& answer(line, Wire::Stroke) == Ok::<Act, SessionError>(Act::Commit(line))
            &&& stroke.len() >= 2
            &&& stroke[0].x == line[0].x && stroke[0].y == line[0].y
            &&& stroke.last().x == line.last().x && stroke.last().y == line.last().y
            &&& hub.next(request).lines == hub.lines.push(stroke)
            &&& addressed(hub.plan(request), c) == seq![request]
            &&& notice(request) == Some(line_wire(stroke))
            &&& forall|i: int|
                0 <= i < stroke.len() ==> (#[trigger] line_wire(stroke)->Line_line[i]).2
                    == color_text(line[0].color)
        }),
{
    if is_selection(kept, line.len()) {
        lemma_selection_in_bounds(kept, line.len());
    }
    let stroke = simplified(line, kept);
    assert(hub.clients.contains(c));
    assert(addressed(hub.plan(Msg::NewLine(stroke)), c) =~= seq![Msg::NewLine(stroke)]);
}

/// The events of a client that draws: a `moveTo` to the first of `points`
/// and a `lineTo` to each of the others, every one with its colour written
/// out.
pub open spec fn drawing(points: Seq<Point>) -> Seq<Incoming>
    recommends
        points.len() >= 1,
{
    Seq::new(
        points.len(),
        |i: int|
            if i == 0 {
                Incoming::Json(
                    Wire::MoveTo { x: points[i].x, y: points[i].y, color: color_text(points[i].color) },
                )
            } else {
                Incoming::Json(
                    Wire::LineTo { x: points[i].x, y: points[i].y, color: color_text(points[i].color) },
                )
            },
    )
}

impl SessionState {
    /// The state after the events of `events`, first to last.
    pub open spec fn run(self, events: Seq<Incoming>) -> SessionState
        decreases events.len(),
    {
        if events.len() == 0 {
            self
        } else {
            self.run(events.drop_last()).after(events.last())
        }
    }
}

/// What a client draws is what its session commits.
///
/// Whatever the session held before, once the client has drawn `points`
/// in colours of 24 bits, the stroke in progress is `points`; a `stroke`
/// message then hands out exactly these points if there are two or more of
/// them, is reported as a protocol violation if there is one, and empties
/// the stroke in progress either way.
pub proof fn lemma_stroke_commits_the_drawing(s: SessionState, points: Seq<Point>)
    requires
        points.len() >= 1,
        forall|i: int| 0 <= i < points.len() ==> (#[trigger] points[i]).color <= 0xff_ffff,
    ensures
        s.run(drawing(points)).line == points,
        points.len() >= 2 ==> s.run(drawing(points)).action(Incoming::Json(Wire::Stroke))
            == Act::Commit(points),
        points.len() == 1 ==> s.run(drawing(points)).action(Incoming::Json(Wire::Stroke))
            == Act::Report(SessionError::ProtocolViolation),
        s.run(drawing(points)).after(Incoming::Json(Wire::Stroke)).line == Seq::<Point>::empty(),
    decreases points.len(),
{
    let events = drawing(points);
    let last = points.last();
    lemma_color_round_trip(last.color);
    assert(events.last() == events[points.len() - 1]);
    if points.len() == 1 {
        assert(events.drop_last() =~= Seq::empty());
        assert(s.run(events.drop_last()) == s);
        assert(s.run(events).line =~= points);
    } else {
        let front = points.drop_last();
        assert(events.drop_last() =~= drawing(front));
        assert forall|i: int| 0 <= i < front.len() implies (#[trigger] front[i]).color
            <= 0xff_ffff by {
            assert(front[i] == points[i]);
        }
        lemma_stroke_commits_the_drawing(s, front);
        assert(front.push(last) =~= points);
        assert(s.run(events).line =~= points);
    }
}

} // verus!
