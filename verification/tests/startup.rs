use org_sync::frame::{frame, read_length};
use org_sync::netcommand::Command;
use org_sync::netexchange::{
    unframe, ExchangeError, FileExchangeCodec, FileExchangeProtocol, FileRequest, FileResponse, REQUEST_LIMIT,
    RESPONSE_LIMIT,
};
use org_sync::onload::{default_config, expand_home, onload, push_command, watched_dirs, PushPath};
use org_sync::types::Config;
use org_sync::watcher::{ChangeKind, WatcherSender};

#[test]
fn default_configuration() {
    let c = default_config();
    assert_eq!(c.version, "~/.version");
    assert_eq!(c.listen, "127.0.0.1/tcp/6234");
    assert_eq!(c.paths, vec!["~/org-sync-test/".to_string()]);
}

#[test]
fn home_is_put_in_for_every_tilde() {
    assert_eq!(expand_home(&"~/org/".to_string(), &"/home/u".to_string()), "/home/u/org/");
    assert_eq!(expand_home(&"~/a/~".to_string(), &"/h".to_string()), "/h/a//h");
    assert_eq!(expand_home(&"/abs".to_string(), &"/h".to_string()), "/abs");
}

#[test]
fn onload_without_configuration_uses_the_default() {
    let (config, dirs) = onload(None, &"/home/u".to_string());
    assert_eq!(config.paths, vec!["~/org-sync-test/".to_string()]);
    assert_eq!(dirs, vec!["/home/u/org-sync-test/".to_string()]);
}

#[test]
fn onload_with_configuration_keeps_it() {
    let given = Config {
        version: "v".to_string(),
        listen: "l".to_string(),
        paths: vec!["~/org/".to_string(), "/srv/roam".to_string()],
    };
    let (config, dirs) = onload(Some(given), &"/home/u".to_string());
    assert_eq!(config.version, "v");
    assert_eq!(config.listen, "l");
    assert_eq!(dirs, vec!["/home/u/org/".to_string(), "/srv/roam".to_string()]);
}

#[test]
fn only_directories_are_watched() {
    let candidates = vec!["/a".to_string(), "/b".to_string(), "/c".to_string()];
    assert_eq!(watched_dirs(&candidates, &vec![true, false, true]), vec!["/a".to_string(), "/c".to_string()]);
    assert_eq!(watched_dirs(&candidates, &vec![true]), vec!["/a".to_string()]);
    assert_eq!(watched_dirs(&vec![], &vec![true]), Vec::<String>::new());
}

#[test]
fn push_command_names_the_path_that_was_given() {
    assert_eq!(push_command(PushPath::Push { path: None }).Push, None);
    assert_eq!(
        push_command(PushPath::Push { path: Some("/notes/a.txt".to_string()) }).Push,
        Some("/notes/a.txt".to_string())
    );
    assert_eq!(push_command(PushPath::Push { path: Some("all".to_string()) }).Push, Some("all".to_string()));
}

#[test]
fn watcher_passes_file_changes_on() {
    let w = WatcherSender();
    let paths = vec!["/h/a.txt".to_string(), "/h/b.txt".to_string()];
    assert!(matches!(w.watch(ChangeKind::CreateFile, &paths), Some(Command::EditFileAdd { path }) if path == "/h/a.txt"));
    assert!(matches!(w.watch(ChangeKind::RemoveFile, &paths), Some(Command::EditFileDelete { path }) if path == "/h/a.txt"));
    assert!(matches!(w.watch(ChangeKind::ModifyContent, &paths), Some(Command::EditFileChange { path }) if path == "/h/a.txt"));
    assert!(w.watch(ChangeKind::Other, &paths).is_none());
    assert!(w.watch(ChangeKind::CreateFile, &vec![]).is_none());
}

#[test]
fn exchange_frames_by_length() {
    let codec = FileExchangeCodec();
    assert_eq!(codec.write_request(FileRequest(vec![1, 2])), vec![2, 1, 2]);
    assert_eq!(codec.write_response(FileResponse(vec![9])), vec![1, 9]);
    assert_eq!(codec.read_request(vec![2, 1, 2]), Ok(FileRequest(vec![1, 2])));
    assert_eq!(codec.read_response(vec![1, 9]), Ok(FileResponse(vec![9])));
    // What follows the frame is not looked at.
    assert_eq!(codec.read_request(vec![1, 7, 9]), Ok(FileRequest(vec![7])));
    assert_eq!(FileExchangeProtocol().protocol_name(), "/file-exchange/1");
    assert_eq!(REQUEST_LIMIT, 1_000_000);
    assert_eq!(RESPONSE_LIMIT, 500_000_000);
}

#[test]
fn exchange_length_prefix_has_seven_bits_to_the_byte() {
    assert_eq!(frame(&vec![0; 127])[..1], [127]);
    assert_eq!(frame(&vec![0; 128])[..2], [0x80, 0x01]);
    assert_eq!(frame(&vec![0; 300])[..2], [0xac, 0x02]);
    assert_eq!(frame(&vec![0; 16384])[..3], [0x80, 0x80, 0x01]);
    assert_eq!(frame(&vec![0; 300]).len(), 302);
    assert_eq!(read_length(&[0xac, 0x02, 5]), Some((300, 2)));
    assert_eq!(read_length(&[0]), Some((0, 1)));
    assert_eq!(read_length(&[0xff, 0xff, 0xff, 0xff, 0xff, 0xff, 0xff, 0xff, 0xff, 0x01]), Some((usize::MAX, 10)));
    // Beyond the range, not minimal, or cut short.
    assert_eq!(read_length(&[0xff, 0xff, 0xff, 0xff, 0xff, 0xff, 0xff, 0xff, 0xff, 0x02]), None);
    assert_eq!(read_length(&[0x80, 0x80, 0x80, 0x80, 0x80, 0x80, 0x80, 0x80, 0x80, 0x80, 0x01]), None);
    assert_eq!(read_length(&[0x80, 0x00]), None);
    assert_eq!(read_length(&[0x80]), None);
    assert_eq!(read_length(&[]), None);
}

#[test]
fn exchange_round_trip() {
    let codec = FileExchangeCodec();
    for len in [1usize, 2, 127, 128, 129, 300, 16383, 16384, REQUEST_LIMIT] {
        let payload: Vec<u8> = (0..len).map(|i| (i % 251) as u8).collect();
        let stream = codec.write_request(FileRequest(payload.clone()));
        assert_eq!(codec.read_request(stream), Ok(FileRequest(payload)));
    }
}

#[test]
fn exchange_refusals() {
    let codec = FileExchangeCodec();
    assert_eq!(codec.read_request(vec![]), Err(ExchangeError::BadPrefix));
    assert_eq!(codec.read_request(vec![0x80, 0x00]), Err(ExchangeError::BadPrefix));
    assert_eq!(codec.read_request(vec![0]), Err(ExchangeError::UnexpectedEof));
    assert_eq!(codec.read_response(vec![0]), Err(ExchangeError::UnexpectedEof));
    assert_eq!(codec.read_request(vec![3, 1, 2]), Err(ExchangeError::UnexpectedEof));
    let too_long = codec.write_response(FileResponse(vec![0; REQUEST_LIMIT + 1]));
    assert_eq!(codec.read_request(too_long.clone()), Err(ExchangeError::TooLong));
    assert_eq!(codec.read_response(too_long), Ok(FileResponse(vec![0; REQUEST_LIMIT + 1])));
    assert_eq!(unframe(&vec![2, 1, 2], 1), Err(ExchangeError::TooLong));
    assert_eq!(unframe(&vec![2, 1, 2], 2), Ok(vec![1, 2]));
}
