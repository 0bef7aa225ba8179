use geo::SimplifyIdx;
use lj_sketch::gen_server::{ClientId, GSMsg, Hub, HubAction};
use lj_sketch::line::{simplify_line, Line, Point, TOLERANCE};
use lj_sketch::ws_client::{
    handle_ws_msg, line_to_json, process_gs_msg, JMsg, Session, SessionError, WsAction, WsEvent,
};

fn pt(x: f32, y: f32, color: u32) -> Point {
    Point { x: x.to_bits(), y: y.to_bits(), color }
}

fn move_to(x: f32, y: f32, color: &str) -> JMsg {
    JMsg::MoveTo { x: x.to_bits(), y: y.to_bits(), color: String::from(color) }
}

fn line_to(x: f32, y: f32, color: &str) -> JMsg {
    JMsg::LineTo { x: x.to_bits(), y: y.to_bits(), color: String::from(color) }
}

fn wire(x: f32, y: f32, color: &str) -> (u32, u32, String) {
    (x.to_bits(), y.to_bits(), String::from(color))
}

fn kept_vertices(line: &Line) -> Vec<usize> {
    let path: geo::LineString<f64> = line
        .iter()
        .map(|p| (f32::from_bits(p.x) as f64, f32::from_bits(p.y) as f64))
        .collect();
    path.simplify_idx(&f64::from(TOLERANCE))
}

/// Carries out a session's action against the hub, as a caller would, and
/// returns what the hub sent to each client.
fn carry_out(hub: &mut Hub, action: WsAction) -> Vec<(ClientId, GSMsg)> {
    let request = match action {
        WsAction::Submit(req) | WsAction::Leave(req) => req,
        WsAction::Commit(raw) => GSMsg::NewLine(simplify_line(&raw, &kept_vertices(&raw))),
        WsAction::Idle | WsAction::Report(_) => return vec![],
    };
    submit(hub, request)
}

fn submit(hub: &mut Hub, request: GSMsg) -> Vec<(ClientId, GSMsg)> {
    let mut sent = vec![];
    match hub.handle(request) {
        HubAction::Idle => {}
        HubAction::Replay { client, lines } => {
            for line in lines {
                sent.push((client, GSMsg::NewLine(line)));
            }
            hub.register(client, true);
        }
        HubAction::Broadcast { to, msg } => {
            for id in to {
                sent.push((id, msg.clone()));
            }
            hub.prune(&vec![]);
        }
    }
    sent
}

#[test]
fn clear_message_clears_buffer_and_asks_hub() {
    let mut line = vec![pt(1.0, 1.0, 1), pt(2.0, 2.0, 1)];
    assert_eq!(handle_ws_msg(&mut line, JMsg::Clear), Ok(WsAction::Submit(GSMsg::Clear)));
    assert_eq!(line, vec![]);
}

#[test]
fn move_to_restarts_the_stroke() {
    let mut line = vec![pt(1.0, 1.0, 1), pt(2.0, 2.0, 1), pt(3.0, 3.0, 1)];
    assert_eq!(handle_ws_msg(&mut line, move_to(9.0, 8.0, "#00ff00")), Ok(WsAction::Idle));
    assert_eq!(line, vec![pt(9.0, 8.0, 0x00ff00)]);
}

#[test]
fn line_to_extends_the_stroke() {
    let mut line = vec![pt(1.0, 1.0, 1)];
    assert_eq!(handle_ws_msg(&mut line, line_to(2.5, -3.0, "#0000FF")), Ok(WsAction::Idle));
    assert_eq!(line, vec![pt(1.0, 1.0, 1), pt(2.5, -3.0, 0x0000ff)]);
    let mut fresh: Line = vec![];
    assert_eq!(handle_ws_msg(&mut fresh, line_to(0.0, 0.0, "#000001")), Ok(WsAction::Idle));
    assert_eq!(fresh, vec![pt(0.0, 0.0, 1)]);
}

#[test]
fn bad_colour_leaves_buffer_alone() {
    let before = vec![pt(1.0, 1.0, 1), pt(2.0, 2.0, 1)];
    for bad in ["", "red", "#12345", "#1234567", "1234567", "#12345z", "#+12345"] {
        let mut line = before.clone();
        assert_eq!(
            handle_ws_msg(&mut line, line_to(5.0, 5.0, bad)),
            Err(SessionError::ColorFormat)
        );
        assert_eq!(line, before);
        assert_eq!(
            handle_ws_msg(&mut line, move_to(5.0, 5.0, bad)),
            Err(SessionError::ColorFormat)
        );
        assert_eq!(line, before);
    }
}

#[test]
fn stroke_hands_out_the_buffer_and_empties_it() {
    let raw = vec![pt(0.0, 0.0, 2), pt(1.0, 0.0, 2), pt(2.0, 0.0, 2)];
    let mut line = raw.clone();
    assert_eq!(handle_ws_msg(&mut line, JMsg::Stroke), Ok(WsAction::Commit(raw)));
    assert_eq!(line, vec![]);
    let two = vec![pt(0.0, 0.0, 2), pt(1.0, 0.0, 2)];
    let mut line = two.clone();
    assert_eq!(handle_ws_msg(&mut line, JMsg::Stroke), Ok(WsAction::Commit(two)));
    assert_eq!(line, vec![]);
}

#[test]
fn short_stroke_is_rejected_and_buffer_cleared() {
    let mut line = vec![pt(0.0, 0.0, 2)];
    assert_eq!(handle_ws_msg(&mut line, JMsg::Stroke), Err(SessionError::ProtocolViolation));
    assert_eq!(line, vec![]);
    assert_eq!(handle_ws_msg(&mut line, JMsg::Stroke), Err(SessionError::ProtocolViolation));
    assert_eq!(line, vec![]);
}

#[test]
fn line_message_from_client_is_a_violation() {
    let before = vec![pt(0.0, 0.0, 2), pt(1.0, 1.0, 2)];
    let mut line = before.clone();
    let msg = JMsg::Line { line: vec![wire(0.0, 0.0, "#000000"), wire(1.0, 1.0, "#000000")] };
    assert_eq!(handle_ws_msg(&mut line, msg), Err(SessionError::ProtocolViolation));
    assert_eq!(line, before);
}

#[test]
fn line_to_json_writes_colours_out() {
    let line = vec![pt(0.0, 0.5, 0xff0000), pt(10.0, -1.0, 0x00000a), pt(2.0, 3.0, 0x1abcdef)];
    assert_eq!(
        line_to_json(&line),
        JMsg::Line {
            line: vec![
                wire(0.0, 0.5, "#ff0000"),
                wire(10.0, -1.0, "#00000a"),
                wire(2.0, 3.0, "#1abcdef"),
            ]
        }
    );
    assert_eq!(line_to_json(&vec![]), JMsg::Line { line: vec![] });
}

#[test]
fn hub_notifications_become_wire_messages() {
    let line = vec![pt(0.0, 0.0, 0x123456), pt(1.0, 1.0, 0x123456)];
    assert_eq!(
        process_gs_msg(&GSMsg::NewLine(line)),
        Some(JMsg::Line { line: vec![wire(0.0, 0.0, "#123456"), wire(1.0, 1.0, "#123456")] })
    );
    assert_eq!(process_gs_msg(&GSMsg::Clear), Some(JMsg::Clear));
    assert_eq!(process_gs_msg(&GSMsg::NewClient(1)), None);
    assert_eq!(process_gs_msg(&GSMsg::DeleteClient(1)), None);
}

#[test]
fn session_opens_with_new_client_request() {
    let (session, hello) = Session::new(17);
    assert_eq!(hello, GSMsg::NewClient(17));
    assert_eq!(session.who(), 17);
    assert_eq!(session.pending(), 0);
}

#[test]
fn session_reports_what_it_cannot_use() {
    let (mut session, _) = Session::new(1);
    session.process_ws_msg(WsEvent::Json(move_to(0.0, 0.0, "#000000")));
    assert_eq!(
        session.process_ws_msg(WsEvent::Malformed),
        WsAction::Report(SessionError::MalformedMessage)
    );
    assert_eq!(
        session.process_ws_msg(WsEvent::Other),
        WsAction::Report(SessionError::MalformedMessage)
    );
    assert_eq!(
        session.process_ws_msg(WsEvent::Json(line_to(1.0, 1.0, "nope"))),
        WsAction::Report(SessionError::ColorFormat)
    );
    assert_eq!(
        session.process_ws_msg(WsEvent::Json(JMsg::Line { line: vec![] })),
        WsAction::Report(SessionError::ProtocolViolation)
    );
    assert_eq!(session.pending(), 1);
}

#[test]
fn close_takes_leave_once() {
    let (mut session, _) = Session::new(5);
    assert_eq!(
        session.process_ws_msg(WsEvent::Close),
        WsAction::Leave(GSMsg::DeleteClient(5))
    );
    assert_eq!(session.leave(), None);
}

#[test]
fn abnormal_exit_still_notifies_hub_once() {
    let (mut session, _) = Session::new(6);
    session.process_ws_msg(WsEvent::Json(move_to(0.0, 0.0, "#000000")));
    assert_eq!(session.leave(), Some(GSMsg::DeleteClient(6)));
    assert_eq!(session.leave(), None);
}

#[test]
fn red_stroke_reaches_second_client() {
    let mut hub = Hub::new();
    let (mut a, hello_a) = Session::new(1);
    let (_b, hello_b) = Session::new(2);
    assert_eq!(submit(&mut hub, hello_a), vec![]);
    assert_eq!(submit(&mut hub, hello_b), vec![]);

    for msg in [
        move_to(0.0, 0.0, "#ff0000"),
        line_to(10.0, 0.0, "#ff0000"),
        line_to(10.0, 10.0, "#ff0000"),
    ] {
        let action = a.process_ws_msg(WsEvent::Json(msg));
        assert_eq!(action, WsAction::Idle);
    }
    assert_eq!(a.pending(), 3);
    let action = a.process_ws_msg(WsEvent::Json(JMsg::Stroke));
    assert_eq!(a.pending(), 0);
    let sent = carry_out(&mut hub, action);

    // the hub holds one red stroke of at most three points
    let history = hub.lines();
    assert_eq!(history.len(), 1);
    assert!(history[0].len() >= 2 && history[0].len() <= 3);
    assert!(history[0].iter().all(|p| p.color == 0xff0000));

    // both clients are sent it; the second one writes a `line` message with
    // the same ends and red on every point
    assert_eq!(sent.len(), 2);
    assert_eq!(sent[0].0, 1);
    assert_eq!(sent[1].0, 2);
    let written = process_gs_msg(&sent[1].1);
    match written {
        Some(JMsg::Line { line }) => {
            assert_eq!(line[0], wire(0.0, 0.0, "#ff0000"));
            assert_eq!(line[line.len() - 1], wire(10.0, 10.0, "#ff0000"));
            assert!(line.iter().all(|p| p.2 == "#ff0000"));
            assert_eq!(
                line,
                vec![
                    wire(0.0, 0.0, "#ff0000"),
                    wire(10.0, 0.0, "#ff0000"),
                    wire(10.0, 10.0, "#ff0000"),
                ]
            );
        }
        other => panic!("expected a line message, got {:?}", other),
    }
}

#[test]
fn one_point_stroke_never_reaches_hub() {
    let mut hub = Hub::new();
    let (mut a, hello) = Session::new(1);
    submit(&mut hub, hello);
    assert_eq!(a.process_ws_msg(WsEvent::Json(move_to(0.0, 0.0, "#000000"))), WsAction::Idle);
    let action = a.process_ws_msg(WsEvent::Json(JMsg::Stroke));
    assert_eq!(action, WsAction::Report(SessionError::ProtocolViolation));
    assert_eq!(a.pending(), 0);
    assert_eq!(carry_out(&mut hub, action), vec![]);
    assert_eq!(hub.lines(), Vec::<Line>::new());
}

#[test]
fn clear_from_one_client_reaches_all() {
    let mut hub = Hub::new();
    let (mut a, hello_a) = Session::new(1);
    let (_b, hello_b) = Session::new(2);
    submit(&mut hub, hello_a);
    submit(&mut hub, hello_b);
    submit(&mut hub, GSMsg::NewLine(vec![pt(0.0, 0.0, 1), pt(9.0, 9.0, 1)]));
    a.process_ws_msg(WsEvent::Json(move_to(1.0, 1.0, "#000000")));

    let action = a.process_ws_msg(WsEvent::Json(JMsg::Clear));
    assert_eq!(action, WsAction::Submit(GSMsg::Clear));
    assert_eq!(a.pending(), 0);
    let sent = carry_out(&mut hub, action);
    assert_eq!(sent, vec![(1, GSMsg::Clear), (2, GSMsg::Clear)]);
    assert_eq!(process_gs_msg(&sent[0].1), Some(JMsg::Clear));
    assert_eq!(hub.lines(), Vec::<Line>::new());

    let (_c, hello_c) = Session::new(3);
    assert_eq!(submit(&mut hub, hello_c), vec![]);
    assert_eq!(hub.clients(), vec![1, 2, 3]);
}

#[test]
fn closing_session_leaves_the_registry() {
    let mut hub = Hub::new();
    let (mut a, hello_a) = Session::new(1);
    let (_b, hello_b) = Session::new(2);
    submit(&mut hub, hello_a);
    submit(&mut hub, hello_b);
    let action = a.process_ws_msg(WsEvent::Close);
    carry_out(&mut hub, action);
    assert_eq!(hub.clients(), vec![2]);
}
