use json_gen::error::GenErrorType;
use json_gen::sender::file::{FileSender, FolderSender, PathState, Preparation};

#[test]
fn file_sender_test() {
    let document = "test".to_string();
    let sender = FileSender::new(r#"C:\projects\json-generator\jsons\test.txt"#.to_string());
    let written: Result<(), String> = if document.is_empty() { Err("nothing".to_string()) } else { Ok(()) };
    match sender.sent(written) {
        Ok(_) => (),
        Err(_) => panic!("!"),
    }
}

#[test]
fn folder_sender_test() {
    let document = "test!!".to_string();
    let mut sender = FolderSender::new(r#"C:\projects\json-generator\jsons\t"#.to_string());
    let written: Result<(), String> = if document.is_empty() { Err("nothing".to_string()) } else { Ok(()) };
    match sender.sent(written) {
        Ok(_) => (),
        Err(_) => panic!("!"),
    }
}

#[test]
fn folder_files_are_numbered_from_zero_in_order() {
    let mut sender = FolderSender::new("out".to_string());
    assert_eq!(sender.folder(), "out");
    assert_eq!(sender.saved(), 0);
    assert_eq!(sender.file_name(), "json_0.json");
    assert_eq!(sender.sent(Ok(())).unwrap(), "the item 0 has been saved in the folder: out");
    assert_eq!(sender.file_name(), "json_1.json");
    assert_eq!(sender.sent(Ok(())).unwrap(), "the item 1 has been saved in the folder: out");
    assert_eq!(sender.file_name(), "json_2.json");
    assert_eq!(sender.saved(), 2);
}

#[test]
fn a_failed_write_does_not_advance_the_number() {
    let mut sender = FolderSender::new("out".to_string());
    sender.sent(Ok(())).unwrap();
    let e = sender.sent(Err("disk full".to_string())).unwrap_err();
    assert_eq!(e.tpe(), GenErrorType::Sender);
    assert_eq!(e.reason(), "error while appending to a file: disk full");
    assert_eq!(sender.saved(), 1);
    assert_eq!(sender.file_name(), "json_1.json");
    sender.sent(Ok(())).unwrap();
    assert_eq!(sender.file_name(), "json_2.json");
}

#[test]
fn the_tenth_and_later_files_have_longer_names() {
    let mut sender = FolderSender::new("d".to_string());
    for _ in 0..12 {
        sender.sent(Ok(())).unwrap();
    }
    assert_eq!(sender.file_name(), "json_12.json");
}

#[test]
fn a_folder_destination_wants_a_folder() {
    assert_eq!(FolderSender::prepare("p", PathState::Directory).unwrap(), Preparation::Ready);
    assert_eq!(FolderSender::prepare("p", PathState::Missing).unwrap(), Preparation::Create);
    let e = FolderSender::prepare("p", PathState::File).unwrap_err();
    assert_eq!(e.tpe(), GenErrorType::Sender);
    assert_eq!(e.reason(), "the output path p to the file should point to a folder.");
}

#[test]
fn a_file_destination_wants_a_file() {
    assert_eq!(FileSender::prepare("p", PathState::File).unwrap(), Preparation::Ready);
    assert_eq!(FileSender::prepare("p", PathState::Missing).unwrap(), Preparation::Create);
    let e = FileSender::prepare("p", PathState::Directory).unwrap_err();
    assert_eq!(e.tpe(), GenErrorType::Sender);
    assert_eq!(e.reason(), "the output path p should point to a file not to a folder.");
}

#[test]
fn a_file_destination_reports_each_write() {
    let sender = FileSender::new("all.json".to_string());
    assert_eq!(sender.file(), "all.json");
    assert_eq!(sender.sent(Ok(())).unwrap(), "the item has been saved to the file: all.json");
    let e = sender.sent(Err("denied".to_string())).unwrap_err();
    assert_eq!(e.tpe(), GenErrorType::Sender);
    assert_eq!(e.reason(), "error occurred while appending to the file: denied");
}
