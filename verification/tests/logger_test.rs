use wgb::logger::{format_line, Level, Logger};
use wgb::time::Timestamp;

fn is_digit(b: u8) -> bool {
    b.is_ascii_digit()
}

/// Checks one line against the promised shape:
/// `YYYY-MM-DD HH:MM:SS.mmm - LEVEL     message` with the level field padded
/// to eight characters.
fn assert_line_shape(line: &str, level: &str, msg: &str) {
    let b = line.as_bytes();
    assert_eq!(b.len(), 36 + msg.len());
    for (k, &c) in b[..23].iter().enumerate() {
        match k {
            4 | 7 => assert_eq!(c, b'-'),
            10 => assert_eq!(c, b' '),
            13 | 16 => assert_eq!(c, b':'),
            19 => assert_eq!(c, b'.'),
            _ => assert!(is_digit(c), "expected a digit at {k} of {line}"),
        }
    }
    assert_eq!(&line[23..26], " - ");
    let mut field = level.to_string();
    while field.len() < 8 {
        field.push(' ');
    }
    assert_eq!(&line[26..34], field);
    assert_eq!(&line[34..36], "  ");
    assert_eq!(&line[36..], msg);
}

#[test]
fn test_format_line_exact() {
    let t = Timestamp { year: 2025, month: 3, day: 4, hour: 5, minute: 6, second: 7, millis: 89 };
    let line = format_line(&t, Level::Info, "hi");
    assert_eq!(line, "2025-03-04 05:06:07.089 - INFO      hi");
}

#[test]
fn test_format_line_padding() {
    let t = Timestamp {
        year: 987,
        month: 12,
        day: 31,
        hour: 23,
        minute: 59,
        second: 59,
        millis: 999,
    };
    let line = format_line(&t, Level::Error, "x");
    assert_eq!(line, "0987-12-31 23:59:59.999 - ERROR     x");
}

#[test]
fn test_levels_format_hello() {
    let mut logger = Logger::new();
    logger.debug("hello");
    logger.info("hello");
    logger.warn("hello");
    logger.error("hello");
    assert_eq!(logger.len(), 4);
    assert_line_shape(logger.line_at(0), "DEBUG", "hello");
    assert_line_shape(logger.line_at(1), "INFO", "hello");
    assert_line_shape(logger.line_at(2), "WARN", "hello");
    assert_line_shape(logger.line_at(3), "ERROR", "hello");
}

#[test]
fn test_error_annotated_logging() {
    let mut logger = Logger::new();
    let boom = std::io::Error::new(std::io::ErrorKind::Other, "boom");
    logger.error_error("ctx", &boom);
    assert_eq!(logger.len(), 2);
    let first = logger.line_at(0).clone();
    let second = logger.line_at(1).clone();
    assert_line_shape(&first, "ERROR", "ctx");
    assert_line_shape(&second, "ERROR", "boom");
    // both lines carry the identical timestamp and level
    assert_eq!(&first[..34], &second[..34]);
    assert!(first.ends_with("ctx"));
    assert!(second.ends_with("boom"));
}

#[test]
fn test_error_annotated_all_levels() {
    let mut logger = Logger::new();
    let oops = std::io::Error::new(std::io::ErrorKind::Other, "oops");
    logger.debug_error("d", &oops);
    logger.info_error("i", &oops);
    logger.warn_error("w", &oops);
    assert_eq!(logger.len(), 6);
    assert_line_shape(logger.line_at(0), "DEBUG", "d");
    assert_line_shape(logger.line_at(1), "DEBUG", "oops");
    assert_line_shape(logger.line_at(2), "INFO", "i");
    assert_line_shape(logger.line_at(3), "INFO", "oops");
    assert_line_shape(logger.line_at(4), "WARN", "w");
    assert_line_shape(logger.line_at(5), "WARN", "oops");
}

#[test]
fn test_call_order_is_kept() {
    let mut logger = Logger::new();
    for k in 0..20 {
        logger.info(&format!("message {k}"));
    }
    let lines = logger.drain();
    assert_eq!(lines.len(), 20);
    for (k, line) in lines.iter().enumerate() {
        assert!(line.ends_with(&format!("message {k}")));
    }
}

#[test]
fn test_drain_empties_the_queue() {
    let mut logger = Logger::new();
    assert_eq!(logger.len(), 0);
    logger.warn("pending");
    assert_eq!(logger.len(), 1);
    let lines = logger.drain();
    assert_eq!(lines.len(), 1);
    assert_eq!(logger.len(), 0);
    assert!(logger.drain().is_empty());
}

#[test]
fn test_now_is_well_formed() {
    let t = Timestamp::now();
    assert!(t.year <= 9999);
    assert!((1..=12).contains(&t.month));
    assert!((1..=31).contains(&t.day));
    assert!(t.hour <= 23);
    assert!(t.minute <= 59);
    assert!(t.second <= 59);
    assert!(t.millis <= 999);
    let line = format_line(&t, Level::Debug, "hello");
    assert_line_shape(&line, "DEBUG", "hello");
}
