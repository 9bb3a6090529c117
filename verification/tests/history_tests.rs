//! The usage history: counting, pruning, and the persistence round trip.

use skoll::history::{History, parse_history};

#[test]
fn missing_ids_count_zero() {
    let h = History::new();
    assert_eq!(h.lookup("firefox.desktop"), 0);
}

#[test]
fn launching_increments_by_one() {
    let mut h = History::new();
    h.record_launch("firefox.desktop");
    assert_eq!(h.lookup("firefox.desktop"), 1);
    h.record_launch("firefox.desktop");
    assert_eq!(h.lookup("firefox.desktop"), 2);
    h.record_launch("files.desktop");
    assert_eq!(h.lookup("files.desktop"), 1);
    assert_eq!(h.lookup("firefox.desktop"), 2);
}

#[test]
fn serialized_form_is_line_based() {
    let mut h = History::new();
    h.record_launch("a.desktop");
    h.record_launch("b.desktop");
    h.record_launch("a.desktop");
    assert_eq!(h.serialize(), "a.desktop\t2\nb.desktop\t1\n");
}

#[test]
fn counts_survive_a_reload() {
    // Launch, persist, reload: the incremented count is read back.
    let mut h = History::new();
    h.record_launch("firefox.desktop");
    h.record_launch("firefox.desktop");
    h.record_launch("files.desktop");
    let text = h.serialize();
    let reloaded = parse_history(text.as_str()).expect("persisted history must parse");
    assert_eq!(reloaded.lookup("firefox.desktop"), 2);
    assert_eq!(reloaded.lookup("files.desktop"), 1);
    assert_eq!(reloaded.lookup("never-launched.desktop"), 0);
}

#[test]
fn empty_text_parses_to_empty_history() {
    let h = parse_history("").expect("empty text is a valid history");
    assert_eq!(h.records.len(), 0);
}

#[test]
fn malformed_histories_are_rejected() {
    // Truncated final line.
    assert!(parse_history("a.desktop\t2").is_none());
    // A line without a count separator.
    assert!(parse_history("a.desktop\n").is_none());
    // A count that is not a number.
    assert!(parse_history("a.desktop\tx\n").is_none());
    // An empty count.
    assert!(parse_history("a.desktop\t\n").is_none());
    // A count too large for the counter.
    assert!(parse_history("a.desktop\t18446744073709551616\n").is_none());
    // The same id twice.
    assert!(parse_history("a.desktop\t1\na.desktop\t2\n").is_none());
}

#[test]
fn largest_count_round_trips() {
    assert!(parse_history("a.desktop\t18446744073709551615\n")
        .expect("u64::MAX fits")
        .lookup("a.desktop") == u64::MAX);
}

#[test]
fn pruning_keeps_only_known_ids() {
    let mut h = History::new();
    h.record_launch("keep.desktop");
    h.record_launch("drop.desktop");
    h.record_launch("keep.desktop");
    let known = vec!["keep.desktop".to_string(), "unused.desktop".to_string()];
    h.prune(&known);
    assert_eq!(h.lookup("keep.desktop"), 2);
    assert_eq!(h.lookup("drop.desktop"), 0);
    assert_eq!(h.records.len(), 1);
}

#[test]
fn storable_ids_lack_the_separators() {
    assert!(skoll::history::id_is_storable("firefox.desktop"));
    assert!(skoll::history::id_is_storable(""));
    assert!(!skoll::history::id_is_storable("a\tb"));
    assert!(!skoll::history::id_is_storable("a\nb"));
}
