use minitools::chat_client::{chat_window, ChatClient, InputAction, InputEvent, Rect};
use minitools::chat_server::{
    client_step, ClientStep, Message, ReadOutcome, Sensitive, CLIENT_BUFFER_LEN,
};

#[test]
fn sensitive_is_redacted() {
    let s = Sensitive::new(42);
    assert_eq!(s.display_text("42"), "[REDACTED]\n");
    assert!(!s.reveals_inner());
    assert_eq!(*s.inner(), 42);
}

#[test]
fn client_step_forwards_read_bytes() {
    let mut buffer = vec![0u8; CLIENT_BUFFER_LEN];
    buffer[0] = b'h';
    buffer[1] = b'i';
    match client_step(ReadOutcome::Received(2), &buffer) {
        ClientStep::Forward(Message::NewMessage(bytes)) => assert_eq!(bytes, b"hi".to_vec()),
        _ => panic!("expected a new message"),
    }
    match client_step(ReadOutcome::Received(0), &buffer) {
        ClientStep::Forward(Message::NewMessage(bytes)) => assert!(bytes.is_empty()),
        _ => panic!("expected a new message"),
    }
    assert!(matches!(client_step(ReadOutcome::Failed, &buffer), ClientStep::Disconnect));
}


fn lines(v: &[&str]) -> Vec<String> {
    v.iter().map(|s| s.to_string()).collect()
}

#[test]
fn chat_window_shows_last_lines_clipped() {
    let chat = lines(&["one", "two", "three", "four", "five"]);
    let p = chat_window(&chat, Rect { x: 2, y: 1, h: 3, w: 4 });
    let got: Vec<(u16, u16, Vec<u8>)> = p.into_iter().map(|p| (p.x, p.y, p.bytes)).collect();
    assert_eq!(
        got,
        vec![(2, 1, b"thre".to_vec()), (2, 2, b"four".to_vec()), (2, 3, b"five".to_vec())]
    );
    let p = chat_window(&lines(&["a"]), Rect { x: 0, y: 0, h: 3, w: 10 });
    assert_eq!(p.len(), 1);
    assert_eq!(p[0].bytes, b"a".to_vec());
}

#[test]
fn client_typing_and_sending() {
    let mut c = ChatClient::new(5, 4);
    assert_eq!(c.bar, "-----");
    assert!(matches!(c.handle_input(InputEvent::Char('h', false)), InputAction::Continue));
    assert!(matches!(c.handle_input(InputEvent::Char('é', false)), InputAction::Continue));
    assert_eq!(c.prompt, "hé");
    match c.handle_input(InputEvent::Enter) {
        InputAction::Send(bytes) => assert_eq!(bytes, "hé".as_bytes().to_vec()),
        _ => panic!("expected a send"),
    }
    assert_eq!(c.prompt, "");
    assert_eq!(c.chat, lines(&["hé"]));
    c.receive("hello there".to_string());
    assert!(matches!(c.handle_input(InputEvent::Resize(3, 3)), InputAction::Continue));
    assert_eq!(c.bar, "---");
    assert!(matches!(c.handle_input(InputEvent::Other), InputAction::Continue));
    assert!(matches!(c.handle_input(InputEvent::Char('c', true)), InputAction::Quit));
    c.handle_input(InputEvent::Char('x', false));
    let f = c.frame();
    assert_eq!(f.chat.len(), 1);
    assert_eq!((f.chat[0].x, f.chat[0].y), (0, 0));
    assert_eq!(f.chat[0].bytes, b"hel".to_vec());
    assert_eq!((f.bar.x, f.bar.y, f.bar.bytes.clone()), (0, 1, b"---".to_vec()));
    assert_eq!((f.prompt.x, f.prompt.y, f.prompt.bytes.clone()), (0, 2, b"x".to_vec()));
}
