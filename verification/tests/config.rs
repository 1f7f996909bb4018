use loom::fuzz::{parse_usize, same_text, Builder, ConfigError, Runtime, DEFAULT_CHECKPOINT_INTERVAL, DEFAULT_MAX_MEMORY, DEFAULT_MAX_THREADS};

#[test]
fn parse_decimal_numbers() {
    assert_eq!(parse_usize("0"), Some(0));
    assert_eq!(parse_usize("42"), Some(42));
    assert_eq!(parse_usize("+17"), Some(17));
    assert_eq!(parse_usize("007"), Some(7));
    assert_eq!(parse_usize("18446744073709551615"), Some(usize::MAX));
}

#[test]
fn parse_rejects_what_str_parse_rejects() {
    for s in ["", "+", "-1", "1a", " 1", "1 ", "++1", "18446744073709551616", "١٢"] {
        assert_eq!(parse_usize(s), None, "{:?}", s);
        assert_eq!(parse_usize(s), s.parse::<usize>().ok(), "{:?}", s);
    }
    for s in ["0", "+0", "99", "+123456"] {
        assert_eq!(parse_usize(s), s.parse::<usize>().ok(), "{:?}", s);
    }
}

#[test]
fn same_text_compares_strings() {
    assert!(same_text("thread", "thread"));
    assert!(!same_text("thread", "threads"));
    assert!(!same_text("", "a"));
    assert!(same_text("", ""));
    assert!(same_text("é", "é"));
    assert!(!same_text("é", "e"));
}

#[test]
fn runtime_names() {
    assert_eq!(Runtime::from_name("thread"), Ok(Runtime::Thread));
    assert_eq!(Runtime::from_name("generator"), Ok(Runtime::Generator));
    assert_eq!(Runtime::from_name("fringe"), Err(ConfigError::FringeNotCompiled));
    assert_eq!(Runtime::from_name("green"), Err(ConfigError::InvalidRuntime));
    assert_eq!(Runtime::default(), Runtime::Generator);
}

#[test]
fn builder_defaults() {
    let b = Builder::new(None, false, None);
    assert_eq!(b.max_threads, DEFAULT_MAX_THREADS);
    assert_eq!(b.max_threads, 4);
    assert_eq!(b.max_memory, DEFAULT_MAX_MEMORY);
    assert_eq!(b.max_memory, 4096 << 14);
    assert_eq!(b.checkpoint_interval, DEFAULT_CHECKPOINT_INTERVAL);
    assert_eq!(b.checkpoint_interval, 100_000);
    assert_eq!(b.runtime, Runtime::Generator);
    assert!(b.checkpoint_file.is_none());
    assert!(!b.log);
}

#[test]
fn builder_from_environment() {
    let b = Builder::new(Some("10"), true, Some("thread"));
    assert_eq!(b.checkpoint_interval, 10);
    assert!(b.log);
    assert_eq!(b.runtime, Runtime::Thread);
}

#[test]
fn invalid_configurations_are_detected_before_building() {
    assert_eq!(parse_usize("ten"), None);
    assert_eq!(Runtime::from_name("fringe"), Err(ConfigError::FringeNotCompiled));
    assert_eq!(Runtime::from_name("other"), Err(ConfigError::InvalidRuntime));
    assert_eq!(parse_usize("5"), Some(5));
    assert_eq!(Builder::new(Some("5"), false, Some("generator")).checkpoint_interval, 5);
}

#[test]
fn builder_checkpoint_file() {
    let mut b = Builder::new(None, false, None);
    b.checkpoint_file("progress.json").log = true;
    assert_eq!(b.checkpoint_file.as_deref(), Some("progress.json"));
    assert!(b.log);
    assert_eq!(b.checkpoint_interval, 100_000);
}

#[test]
fn iterations_checkpoint_every_interval() {
    let b = Builder::new(Some("3"), false, None);
    let mut done = 0;
    let mut checkpoints = Vec::new();
    for _ in 0..7 {
        let (next, checkpoint) = b.iteration(done);
        assert_eq!(next, done + 1);
        if checkpoint {
            checkpoints.push(next);
        }
        done = next;
    }
    assert_eq!(checkpoints, vec![3, 6]);
}
