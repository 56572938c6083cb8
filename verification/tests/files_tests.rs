use desubot::files::{download_url, file_extension, file_path, media_directory, prepare_file};
use desubot::router::MessageKind;

#[test]
fn directories() {
    assert_eq!(media_directory(&MessageKind::Photo), "photo");
    assert_eq!(media_directory(&MessageKind::Document), "doc");
    assert_eq!(media_directory(&MessageKind::Voice), "voice");
    assert_eq!(media_directory(&MessageKind::Video), "video");
    assert_eq!(media_directory(&MessageKind::VideoNote), "video");
    assert_eq!(media_directory(&MessageKind::Sticker), "sticker");
    assert_eq!(media_directory(&MessageKind::Other), "docs");
}

#[test]
fn extensions() {
    assert_eq!(file_extension(&Some("file_12.jpg".to_string())), "jpg");
    assert_eq!(file_extension(&Some("a.tar.gz".to_string())), "gz");
    assert_eq!(file_extension(&Some("noext".to_string())), "noext");
    assert_eq!(file_extension(&Some("".to_string())), "bin");
    assert_eq!(file_extension(&None), "bin");
    assert_eq!(file_extension(&Some("dot.".to_string())), "");
}

#[test]
fn urls_and_paths() {
    assert_eq!(download_url("T0K", "photos/f.jpg"), "https://api.telegram.org/file/botT0K/photos/f.jpg");
    assert_eq!(file_path("photo", "Chat", -42, "id", "jpg"), "photo/Chat_-42_id.jpg");
}

#[test]
fn prepared_file() {
    let f = prepare_file(&MessageKind::Voice, "Chat", 7, &Some("v.oga".to_string()), &b"abc".to_vec());
    assert_eq!(f.hash, "a9993e364706816aba3e25717850c26c9cd0d89d");
    assert!(f.path.starts_with("voice/Chat_7_"));
    assert!(f.path.ends_with(".oga"));
    let id = &f.path["voice/Chat_7_".len()..f.path.len() - ".oga".len()];
    assert_eq!(id.len(), 36);
    assert_eq!(id.matches('-').count(), 4);
    let g = prepare_file(&MessageKind::Voice, "Chat", 7, &None, &b"".to_vec());
    assert_eq!(g.hash, "da39a3ee5e6b4b0d3255bfef95601890afd80709");
    assert!(g.path.ends_with(".bin"));
    assert_ne!(f.path, g.path);
}
