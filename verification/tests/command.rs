use fetefoto::command::init::{Init, InitError};
use fetefoto::command::mount::{Mount, MountError};
use fetefoto::command::scan::{ImageBatch, Scan, ScanError, BATCH_SIZE};
use fetefoto::command::{CommandError, CommandManager, CommandStep, ConfigData};
use fetefoto::image::Image;

// The configuration files of the original test data, written out.
const CORRECT_CONFIG: &str = "db_location: /some/path";
const EMPTY_CONFIG: &str = "";
const EXTRA_CONFIG: &str = "db_location: /some/path\nsome_other_key: value";

#[test]
fn read_correct_config() {
    let config_data = CommandManager::get_config(CORRECT_CONFIG);
    if let Some(location) = config_data.db_location {
        let true_path = String::from("/some/path");
        assert!(location == true_path);
    } else {
        panic!("db_config was None");
    }
}

#[test]
fn read_empty_config() {
    let config_data = CommandManager::get_config(EMPTY_CONFIG);
    if let Some(_location) = config_data.db_location {
        panic!()
    }
}

#[test]
#[should_panic]
fn read_config_with_extra_entry() {
    ConfigData::parse_config(EXTRA_CONFIG).expect("Parse error");
}

#[test]
fn config_blanks_and_later_entries() {
    let d = ConfigData::parse_config("\n  db_location :  /a  \r\n\t\ndb_location:/b\n").unwrap();
    assert_eq!(d.db_location.as_deref(), Some("/b"));
    let d = ConfigData::parse_config("   \n\n").unwrap();
    assert_eq!(d.db_location, None);
}

#[test]
fn config_refused_lines() {
    for bad in [
        "db_location",
        "db_location:",
        "db_location:   ",
        "db_location /x",
        "location: /x",
        "db_locationx: /x",
        "x\ndb_location: /y",
    ] {
        assert!(ConfigData::parse_config(bad).is_none(), "accepted {:?}", bad);
    }
}

#[test]
fn config_text_is_read_back() {
    for p in ["/some/path", "relative/db file.db", "C:\\data\\fetefoto.db", "/données/照片.db"] {
        let d = ConfigData { db_location: Some(String::from(p)) };
        let text = CommandManager::set_config(&d);
        assert_eq!(text, format!("db_location: {}", p));
        let back = ConfigData::parse_config(&text).unwrap();
        assert_eq!(back.db_location.as_deref(), Some(p));
    }
}

#[test]
fn create_command_from_correct_passed_dir() {
    let input_path_string = "persistent_test_data/config_test/correct".to_owned();
    // the directory exists
    let dir_data = Init::create(Some(input_path_string.clone()), true, None).unwrap();
    assert!(dir_data.dir() == input_path_string);
}

#[test]
fn read_nonexistent_passed_dir() {
    let input_path_string = "test/config_test/dir_does_not_exist".to_owned();
    // the directory does not exist
    let dir_err = Init::create(Some(input_path_string), false, None);

    match dir_err {
        Err(_) => (),
        _ => panic!(),
    }
}

#[test]
fn init_without_dir_uses_data_dir() {
    let it = Init::create(None, false, Some(String::from("/home/u/.local/share/FeteFoto"))).unwrap();
    assert_eq!(it.dir(), "/home/u/.local/share/FeteFoto");
    assert_eq!(Init::create(None, true, None).unwrap_err(), InitError::BadDataPath);
    assert_eq!(
        Init::create(Some(String::from("/nope")), false, Some(String::from("/d"))).unwrap_err(),
        InitError::BadDataPath
    );
}

#[test]
fn scan_and_mount_need_an_existing_dir() {
    assert_eq!(Scan::create(None, true).unwrap_err(), ScanError::NoDir);
    assert_eq!(Scan::create(Some(String::from("/x")), false).unwrap_err(), ScanError::BadPath);
    assert_eq!(Scan::create(Some(String::from("/x")), true).unwrap().dir(), "/x");
    assert_eq!(Mount::create(None, true).unwrap_err(), MountError::NoDir);
    assert_eq!(Mount::create(Some(String::from("/m")), false).unwrap_err(), MountError::BadPath);
    assert_eq!(Mount::create(Some(String::from("/m")), true).unwrap().dir(), "/m");
}

#[test]
fn only_scan_and_init_run() {
    match CommandManager::parse_command(Some(CommandManager::Scan { dir: Some(String::from("p")) })) {
        Ok(CommandStep::Scan { dir }) => assert_eq!(dir.as_deref(), Some("p")),
        other => panic!("{:?}", other),
    }
    match CommandManager::parse_command(Some(CommandManager::Init { dir: None })) {
        Ok(CommandStep::Init { dir }) => assert_eq!(dir, None),
        other => panic!("{:?}", other),
    }
    for other in [
        None,
        Some(CommandManager::Pull),
        Some(CommandManager::AddTags),
        Some(CommandManager::RmTags),
        Some(CommandManager::RmImage),
        Some(CommandManager::Mount { dir: Some(String::from("m")) }),
    ] {
        assert_eq!(CommandManager::parse_command(other).unwrap_err(), CommandError::NoSuchCommand);
    }
}

#[test]
fn scan_batches_hold_every_image_once_in_order() {
    let mut batch = ImageBatch::new();
    let mut sent: Vec<Vec<Image>> = Vec::new();
    for k in 0..(2 * BATCH_SIZE + 7) {
        let im = Image::new(format!("f{}.png", k), Some(format!("{}", k).as_bytes())).unwrap();
        if let Some(full) = batch.push(im) {
            sent.push(full);
        }
    }
    assert_eq!(sent.len(), 2);
    assert!(sent.iter().all(|b| b.len() == BATCH_SIZE));
    let rest = batch.finish();
    assert_eq!(rest.len(), 7);
    let order: Vec<String> = sent
        .iter()
        .flatten()
        .chain(rest.iter())
        .map(|im| im.get_fp().to_string())
        .collect();
    let expected: Vec<String> = (0..(2 * BATCH_SIZE + 7)).map(|k| format!("f{}.png", k)).collect();
    assert_eq!(order, expected);
}

#[test]
fn config_trims_unicode_white_space() {
    let d = ConfigData::parse_config("\u{a0}db_location:\u{3000}/x/y\u{2009}\n\u{85}\n").unwrap();
    assert_eq!(d.db_location.as_deref(), Some("/x/y"));
}
