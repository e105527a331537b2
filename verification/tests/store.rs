use jchtools::config::{Config, ConfigError, DeleteChoice, DeleteMode, Setting, SettingError};
use jchtools::json::{self, Json};
use jchtools::config_json::{rule_key, ReadError, RULE_COUNT};
use jchtools::control::{Checkpoint, Context, Control, Delivery, Event};
use jchtools::convert::{u64_as_usize, usize_as_i64, usize_as_u64};
use jchtools::db::{
    check_version, event_cursor, event_line, file_columns_qualified, file_row, insert_file,
    kind_filter, mark_action, nonneg_u64, page_rows, reserve_target, set_selected, stored, FileRow,
    SCHEMA_VERSION,
};
use jchtools::error::TaskError;
use jchtools::fsutil::Snapshot;
use jchtools::hashing::{full_hash, hex, FileHasher};

#[test]
fn configurations_are_checked() {
    let check = |f: fn(&mut Config)| {
        let mut c = Config::default();
        f(&mut c);
        c.validate()
    };
    assert!(check(|_| ()).is_ok());
    assert_eq!(check(|c| c.hash_workers = 0), Err(ConfigError::HashWorkers));
    assert_eq!(check(|c| c.max_depth = 65), Err(ConfigError::MaxDepth));
    assert_eq!(check(|c| c.max_entries = 0), Err(ConfigError::MaxEntries));
    assert_eq!(
        check(|c| c.max_ratio = 1_000_000_001),
        Err(ConfigError::MaxRatio)
    );
    assert_eq!(
        check(|c| c.reserve_bytes = u64::MAX),
        Err(ConfigError::ReserveBytes)
    );
    assert_eq!(
        check(|c| c.large_threshold_bytes = 0),
        Err(ConfigError::LargeThreshold)
    );
    assert_eq!(
        check(|c| c.theme = "blue".to_string()),
        Err(ConfigError::Theme)
    );
    assert!(matches!(
        check(|c| c.exclusions = "[".to_string()),
        Err(ConfigError::Exclusions(_))
    ));
    assert_eq!(
        DeleteChoice::Global.resolve(DeleteMode::Keep),
        DeleteMode::Keep
    );
    assert_eq!(
        DeleteChoice::Permanent.resolve(DeleteMode::Keep),
        DeleteMode::Permanent
    );
}

#[test]
fn settings_are_read_back() {
    let mut c = Config::default();
    c.set_json("max_depth", &Setting::Number(9)).unwrap();
    assert!(matches!(c.get_json("max_depth"), Setting::Number(9)));
    c.set_json("keep_duplicate", &Setting::Text("oldest".to_string()))
        .unwrap();
    assert!(matches!(c.get_json("keep_duplicate"), Setting::Text(s) if s == "oldest"));
    c.set_json("fix_extension", &Setting::Bool(true)).unwrap();
    assert!(c.detect_type);
    assert_eq!(
        c.set_json("nothing", &Setting::Bool(true)),
        Err(SettingError::Unknown)
    );
    assert_eq!(
        c.set_json("max_depth", &Setting::Number(u64::MAX)),
        Err(SettingError::Invalid)
    );
    let read = Config::from_json_text("\u{FEFF}{\"max_depth\": 3, \"extract\": true}").unwrap();
    assert_eq!(read.max_depth, 3);
    assert!(read.same_plan(&Config {
        max_depth: 3,
        ..Config::default()
    }));
}

#[test]
fn configurations_are_read_from_json() {
    let default = Config::default();
    for text in ["{}", "[]"] {
        let c = Config::from_json_text(text).unwrap();
        assert!(c.same_plan(&default));
        assert_eq!(c.theme, "system");
    }
    let old = Config::from_json_text(
        "{\"global_delete\":\"recycle\",\"junk_delete\":\"keep\",\"reserve_gib\":7,\"fix_extension\":true}",
    )
    .unwrap();
    assert_eq!(old.global_delete, DeleteMode::Permanent);
    assert_eq!(old.junk_delete, DeleteChoice::Keep);
    assert_eq!(old.reserve_bytes, default.reserve_bytes);
    assert!(old.detect_type);
    let word = Config::from_json_text("{\"global_delete\":{\"keep\":null}}").unwrap();
    assert_eq!(word.global_delete, DeleteMode::Keep);
    let listed = Config::from_json_text("[false, true, false, \"*.tmp\", 5]").unwrap();
    assert!(!listed.recursive && listed.include_hidden && !listed.include_system);
    assert_eq!(listed.exclusions, "*.tmp");
    assert_eq!(listed.max_depth, 5);
    let error = |text: &str| Config::from_json_text(text).err();
    assert_eq!(error("{"), Some(ReadError::NotJson));
    assert_eq!(error("\u{FEFF}\u{FEFF}{}"), Some(ReadError::NotJson));
    assert_eq!(error("3"), Some(ReadError::NoRules));
    assert_eq!(
        error("{\"nothing\":1}"),
        Some(ReadError::Setting(SettingError::Unknown))
    );
    for text in [
        "{\"max_depth\":-1}",
        "{\"max_depth\":4294967296}",
        "{\"max_depth\":1.5}",
        "{\"recursive\":1}",
        "{\"global_delete\":\"global\"}",
        "{\"global_delete\":{\"recycle\":null}}",
    ] {
        assert_eq!(
            error(text),
            Some(ReadError::Setting(SettingError::Invalid)),
            "{}",
            text
        );
    }
}

#[test]
fn json_texts_are_taken_apart() {
    let value = json::parse(
        "{\"b\":[null,true,\"x\",{\"k\":7}],\"a\":-1,\"b2\":2,\"a\":18446744073709551615}",
    )
    .unwrap();
    assert!(matches!(
        json::find(&value, "a"),
        Some(Json::Number(Some(u64::MAX)))
    ));
    assert!(json::find(&value, "c").is_none());
    match json::find(&value, "b") {
        Some(Json::List(list)) => {
            assert_eq!(list.len(), 4);
            assert!(matches!(list[0], Json::Null));
            assert!(matches!(list[1], Json::Bool(true)));
            assert!(matches!(&list[2], Json::Text(s) if s == "x"));
            assert!(matches!(
                json::find(&list[3], "k"),
                Some(Json::Number(Some(7)))
            ));
            assert!(json::find(&list[2], "k").is_none());
        }
        other => panic!("{:?}", other),
    }
    assert!(matches!(json::parse("-3"), Some(Json::Number(None))));
    assert!(matches!(json::parse("2.5"), Some(Json::Number(None))));
    assert!(json::parse("{'a':1}").is_none());
    let named = json::parse("{\"name\":\"7zz\",\"sha256\":3}").unwrap();
    assert_eq!(json::find_text(&named, "name"), Some("7zz".to_string()));
    assert_eq!(json::find_text(&named, "sha256"), None);
}

#[test]
fn setting_one_rule_leaves_the_others() {
    let before = Config::default();
    let mut after = Config::default();
    after.set_json("reserve_bytes", &Setting::Number(5)).unwrap();
    for i in 0..RULE_COUNT {
        let same = format!("{:?}", before.get_json(rule_key(i)))
            == format!("{:?}", after.get_json(rule_key(i)));
        assert_eq!(same, rule_key(i) != "reserve_bytes");
    }
}

#[test]
fn stored_rules_are_read_back() {
    let mut c = Config::default();
    c.set_json("max_ratio", &Setting::Number(12)).unwrap();
    c.set_json("theme", &Setting::Text("dark".to_string()))
        .unwrap();
    c.set_json("zero_delete", &Setting::Text("keep".to_string()))
        .unwrap();
    c.set_json("fix_extension", &Setting::Bool(true)).unwrap();
    let fields: Vec<(String, Setting)> = (0..RULE_COUNT)
        .map(|i| (rule_key(i).to_string(), c.get_json(rule_key(i))))
        .collect();
    let read = Config::default().with_fields(&fields).unwrap();
    assert!(read.same_plan(&c));
    assert_eq!(read.theme, "dark");
    assert_eq!(rule_key(RULE_COUNT), "");
}

#[test]
fn cancelling_goes_before_pausing() {
    let mut c = Control::default();
    assert_eq!(c.checkpoint().unwrap(), Checkpoint::Proceed);
    c.pause(true);
    assert!(c.is_paused());
    assert_eq!(c.checkpoint().unwrap(), Checkpoint::Wait);
    c.cancel();
    assert!(c.is_cancelled());
    assert_eq!(
        c.checkpoint().unwrap_err().message(),
        "任务已取消；不会执行后续文件操作"
    );
    c.pause(false);
    assert!(c.checkpoint().is_err());
    c.set_planned(4);
    assert_eq!(c.planned, Some(4));
    let context = Context {
        control: c,
        listening: true,
    };
    assert_eq!(context.emit(&Event::Log(String::new())), Delivery::Try);
    assert_eq!(context.emit(&Event::Notice(String::new())), Delivery::Wait);
    let (event, delivery) = context.status("行");
    assert!(matches!(event, Event::Status(s) if s == "行"));
    assert_eq!(delivery, Delivery::Try);
    let deaf = Context {
        control: c,
        listening: false,
    };
    assert_eq!(deaf.emit(&Event::Notice(String::new())), Delivery::Nowhere);
    assert_eq!(TaskError::new("a").context("b").message(), "b: a");
}

#[test]
fn hashes_do_not_depend_on_the_blocks() {
    let whole = full_hash(&vec![b"hello world".to_vec()]);
    let parts = full_hash(&vec![b"hello ".to_vec(), Vec::new(), b"world".to_vec()]);
    assert_eq!(whole, parts);
    assert_eq!(
        whole,
        "blake3:d74981efa70a0c880b8d8c1985d075dbcbf679b99a5f9914e5aaf96b831a9e24"
    );
    let mut h = FileHasher::new();
    h.feed(&b"hello world".to_vec());
    assert_eq!(h.finish(), whole);
    assert_eq!(hex(&vec![0, 255, 16]), "00ff10");
}

#[test]
fn numbers_are_stored_without_loss() {
    assert_eq!(nonneg_u64(-1), None);
    assert_eq!(nonneg_u64(7), Some(7));
    assert_eq!(stored(7), Some(7));
    assert_eq!(stored(u64::MAX), None);
    assert_eq!(u64_as_usize(9), 9);
    assert_eq!(usize_as_u64(9), 9);
    assert_eq!(usize_as_i64(9), 9);
}

#[test]
fn rows_of_the_database() {
    assert!(check_version(SCHEMA_VERSION).is_ok());
    assert!(check_version(SCHEMA_VERSION + 1).is_err());
    assert!(file_columns_qualified("f").contains("f."));
    assert_eq!(page_rows(10), 10);
    assert_eq!(kind_filter(None), Ok(None));
    assert!(kind_filter(Some("delete")).unwrap().is_some());
    assert!(kind_filter(Some("x'; --")).is_err());
    assert!(mark_action("done", 1).is_ok());
    assert!(mark_action("done", 0).is_err());
    assert!(mark_action("nonsense", 1).is_err());
    assert!(set_selected("ready", 1).is_ok());
    assert!(set_selected("finished", 1).is_err());
    assert_eq!(reserve_target("A/b", true), "a/b");
    assert_eq!(reserve_target("A/b", false), "A/b");
    assert_eq!(event_cursor(0), i64::MAX);
    assert!(event_line(&vec!["a".to_string(), "b\"c".to_string()]).contains('a'));
    let row = FileRow {
        id: 1,
        rel: "a".to_string(),
        name: "a".to_string(),
        normal: "a".to_string(),
        size: 4,
        mtime: 5,
        created: None,
        identity: "1:2:3".to_string(),
        links: 1,
        hash: None,
        cleanable: false,
    };
    assert_eq!(file_row(row).unwrap().snapshot.size, 4);
    let broken = FileRow {
        id: 1,
        rel: "a".to_string(),
        name: "a".to_string(),
        normal: "a".to_string(),
        size: -4,
        mtime: 5,
        created: None,
        identity: "1:2:3".to_string(),
        links: 1,
        hash: None,
        cleanable: false,
    };
    assert!(file_row(broken).is_none());
    let snap = Snapshot {
        size: 3,
        modified_ns: 4,
        created_ns: None,
        identity: "1:2:3".to_string(),
        links: 1,
    };
    let insert = insert_file("D/Ä.txt", "Ä.txt", &snap).unwrap();
    assert_eq!(insert.folded, "ä.txt");
    assert_eq!((insert.size, insert.name16, insert.rel16), (3, 5, 7));
}

/// What serde says where a value is no `T`.
fn serde_says<T: serde::de::DeserializeOwned>(value: serde_json::Value) -> String {
    match serde_json::from_value::<T>(value) {
        Ok(_) => String::new(),
        Err(error) => error.to_string(),
    }
}

#[test]
fn refused_settings_are_told_as_serde_tells_them() {
    let refused = |key: &str, value: Setting| -> String {
        let mut c = Config::default();
        let error = c.set_json(key, &value).unwrap_err();
        error.message(key, &value)
    };
    let text = |s: &str| Setting::Text(s.to_string());
    assert_eq!(refused("nothing", Setting::Bool(true)), "未知设置：nothing");
    let many: u64 = 99999999999;
    assert_eq!(
        refused("max_depth", Setting::Number(many)),
        serde_says::<u32>(serde_json::Value::from(many))
    );
    assert_eq!(
        refused("max_depth", Setting::Number(many)),
        "invalid value: integer `99999999999`, expected u32"
    );
    assert_eq!(
        refused("max_depth", text("a\"b\n路径")),
        serde_says::<u32>(serde_json::Value::from("a\"b\n路径"))
    );
    assert_eq!(
        refused("max_entries", Setting::Bool(false)),
        serde_says::<u64>(serde_json::Value::from(false))
    );
    assert_eq!(
        refused("hash_workers", Setting::Other),
        serde_says::<usize>(serde_json::Value::Null)
    );
    assert_eq!(
        refused("recursive", Setting::Number(1)),
        serde_says::<bool>(serde_json::Value::from(1))
    );
    assert_eq!(
        refused("exclusions", Setting::Number(1)),
        serde_says::<String>(serde_json::Value::from(1))
    );
    assert_eq!(
        refused("theme", Setting::Bool(true)),
        serde_says::<String>(serde_json::Value::from(true))
    );
    assert_eq!(
        refused("global_delete", Setting::Bool(true)),
        "invalid type: boolean `true`, expected string or map"
    );
    let unknown = |word: &str, known: &'static [&'static str]| -> String {
        let error: serde_json::Error = serde::de::Error::unknown_variant(word, known);
        error.to_string()
    };
    assert_eq!(
        refused("global_delete", text("trash")),
        unknown("trash", &["keep", "permanent"])
    );
    assert_eq!(
        refused("junk_delete", text("trash")),
        unknown("trash", &["global", "keep", "permanent"])
    );
    assert_eq!(
        refused("keep_duplicate", text("")),
        unknown("", &["newest", "oldest", "shortest_name"])
    );
}

#[test]
fn a_range_error_has_its_cause() {
    let large = Config {
        reserve_bytes: u64::MAX,
        ..Config::default()
    };
    let error = large.validate().unwrap_err();
    let cause = i64::try_from(u64::MAX).unwrap_err().to_string();
    assert_eq!(error.message(), "磁盘预留超出范围");
    assert_eq!(error.detail(), format!("磁盘预留超出范围: {cause}"));
    let deep = Config {
        max_depth: 65,
        ..Config::default()
    };
    assert_eq!(deep.validate().unwrap_err().detail(), "嵌套层数必须在 1～64 之间");
}
