use chat_relay::input::App;
use chat_relay::message::ChatMessage;

fn typed(app: &mut App, text: &str) {
    for c in text.chars() {
        app.enter_char(c);
    }
}

#[test]
fn typing_inserts_at_the_cursor() {
    let mut app = App::new("me".to_string());
    typed(&mut app, "hllo");
    assert_eq!(app.cursor(), 4);
    app.move_cursor_left();
    app.move_cursor_left();
    app.move_cursor_left();
    app.enter_char('e');
    assert_eq!(app.input(), "hello");
    assert_eq!(app.cursor(), 2);
}

#[test]
fn cursor_stops_at_both_ends() {
    let mut app = App::new("me".to_string());
    app.move_cursor_left();
    assert_eq!(app.cursor(), 0);
    typed(&mut app, "ab");
    app.move_cursor_right();
    assert_eq!(app.cursor(), 2);
    assert_eq!(app.clamp_cursor(9), 2);
    assert_eq!(app.clamp_cursor(1), 1);
}

#[test]
fn delete_removes_left_of_cursor() {
    let mut app = App::new("me".to_string());
    typed(&mut app, "añb");
    app.move_cursor_left();
    app.delete_char();
    assert_eq!(app.input(), "ab");
    assert_eq!(app.cursor(), 1);
    app.move_cursor_left();
    app.delete_char();
    assert_eq!(app.input(), "ab");
    assert_eq!(app.cursor(), 0);
}

#[test]
fn submit_hands_back_message_and_clears_line() {
    let mut app = App::new("brave-fox".to_string());
    typed(&mut app, "hi all");
    app.move_cursor_left();
    let m = app.submit_message();
    assert_eq!(m.username, "brave-fox");
    assert_eq!(m.content, "hi all");
    assert_eq!(app.input(), "");
    assert_eq!(app.cursor(), 0);
    assert_eq!(app.messages(), &vec!["brave-fox: hi all".to_string()]);
    assert_eq!(app.username(), "brave-fox");
}

#[test]
fn received_messages_join_the_history() {
    let mut app = App::new("me".to_string());
    app.receive_message(&ChatMessage::new("x".to_string(), "y".to_string()));
    app.receive_message(&ChatMessage::default());
    assert_eq!(app.messages(), &vec!["x: y".to_string(), ": ".to_string()]);
}
