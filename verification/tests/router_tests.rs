use desubot::router::{code_delivery, count_lines, handle, route_text, Action, CodeDelivery, Command, MessageKind};
use desubot::text::chars_of;

fn route(t: &str) -> Command {
    route_text(t, "desubot")
}

#[test]
fn exact_commands() {
    assert!(matches!(route("/top"), Command::Top));
    assert!(matches!(route("/stat"), Command::Top));
    assert!(matches!(route("/markov_all"), Command::MarkovAll));
    assert!(matches!(route("/markov"), Command::Markov));
    assert!(matches!(route("/scheme"), Command::Scheme));
    assert!(matches!(route("/schema"), Command::Scheme));
    assert!(matches!(route("/omedeto"), Command::Omedeto));
}

#[test]
fn bot_name_taken_out() {
    assert!(matches!(route("/top@desubot"), Command::Top));
    assert!(matches!(route("/markov@desubot"), Command::Markov));
    assert!(matches!(route("/top@otherbot"), Command::Sentence));
}

#[test]
fn here_anywhere() {
    assert!(matches!(route("hey /here now"), Command::Here));
    assert!(matches!(route("@here"), Command::Here));
    assert!(matches!(route("а ну /хере"), Command::Here));
    assert!(matches!(route("@хере"), Command::Here));
    assert!(matches!(route("\"хере"), Command::Here));
    assert!(route("x /here").stores_sentence());
}

#[test]
fn sql_and_code_data() {
    match route("/sql select 1") {
        Command::Sql(d) => assert_eq!(d, "select 1"),
        _ => panic!(),
    }
    match route("/sql@desubot select 1") {
        Command::Sql(d) => assert_eq!(d, "select 1"),
        _ => panic!(),
    }
    match route("/code fn main() {}\n#rust") {
        Command::Code(d) => assert_eq!(d, " fn main() {}\n#rust"),
        _ => panic!(),
    }
    // /code wins over a mention of everybody
    assert!(matches!(route("/code /here"), Command::Code(_)));
}

#[test]
fn plain_text_stored() {
    let c = route("just talking");
    assert!(matches!(c, Command::Sentence));
    assert!(c.stores_sentence());
    assert!(!route("/top").stores_sentence());
    assert!(matches!(route("/top please"), Command::Sentence));
}

#[test]
fn message_kinds() {
    assert!(matches!(handle(MessageKind::Text("/top".to_string()), "b"), Action::Command(Command::Top)));
    for k in [MessageKind::Photo, MessageKind::Document, MessageKind::Sticker, MessageKind::Voice, MessageKind::Video, MessageKind::VideoNote] {
        assert!(matches!(handle(k, "b"), Action::SaveFiles));
    }
    assert!(matches!(handle(MessageKind::Other, "b"), Action::Ignore));
}

#[test]
fn lines_counted_like_std() {
    for t in ["", "a", "a\n", "a\nb", "\n", "a\n\n", "a\r\nb\r\n"] {
        assert_eq!(count_lines(&chars_of(t)), t.lines().count());
    }
}

#[test]
fn code_delivery_by_size() {
    assert!(matches!(code_delivery("x"), CodeDelivery::Photo));
    let eighty = "l\n".repeat(80);
    assert!(matches!(code_delivery(&eighty), CodeDelivery::Photo));
    let more = "l\n".repeat(81);
    assert!(matches!(code_delivery(&more), CodeDelivery::Document));
    let long = "x".repeat(4001);
    assert!(matches!(code_delivery(&long), CodeDelivery::Help));
    let edge = "x".repeat(4000);
    assert!(matches!(code_delivery(&edge), CodeDelivery::Photo));
}
