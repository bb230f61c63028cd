use oh_mcp_lindas::fixtures::{digest_file_name, fixture_file_name, index_text, key_of, lines_of};

/// The file name is a function of the KEY and of nothing else.
#[test]
fn a_key_names_its_file_and_nothing_else_does() {
    assert_eq!(
        fixture_file_name("resolve_sr:candidates:832.10"),
        "6e01faeb23575d73.json",
        "a key recorded before this crate existed must still find its file"
    );
    assert_eq!(
        fixture_file_name("manifestation:https://fedlex.data.admin.ch/eli/cc/2006/355/20231101:de"),
        "5adfd70a311cc955.json"
    );
    assert_ne!(fixture_file_name("a"), fixture_file_name("b"));
}

/// A `#` note is carried through untouched — even one whose middle
/// token run IS the key being written.
#[test]
fn a_note_is_never_mistaken_for_the_key_being_written() {
    let key = "resolve_sr:candidates:832.10";
    let colliding = format!("# {key} 2020-01-01");
    assert_eq!(key_of(&colliding), Some(key));
    let existing = format!("{colliding}\nold.json other:key 2020-01-01\n");
    let name = fixture_file_name(key);
    let index = index_text(&existing, &name, key, "2026-09-01");
    assert!(index.contains(&colliding), "the note survived: {index}");
    assert!(
        lines_of(&index).iter().any(|l| !l.starts_with('#') && key_of(l) == Some(key)),
        "and the key got its own line: {index}"
    );
    assert!(index.contains("old.json other:key"), "and so did the other key");
}

#[test]
fn a_key_may_carry_spaces_and_is_still_replaced_not_repeated() {
    let key = "search_law:Bundesgesetz über die politischen Rechte:10";
    let name = fixture_file_name(key);
    let once = index_text("", &name, key, "2026-09-01");
    let twice = index_text(&once, &name, key, "2026-09-02");
    assert_eq!(twice.lines().filter(|l| l.contains(key)).count(), 1, "one key, one line: {twice}");
    assert_eq!(twice.lines().next().and_then(key_of), Some(key), "the key reads back whole: {twice}");
    assert!(twice.ends_with(" 2026-09-02\n"), "with the newer day: {twice}");
    assert_eq!(key_of("a.json k 2026-08-30"), Some("k"));
    assert_eq!(key_of("nonsense"), None);
}

/// A key recorded again keeps its file and gets the new date; the notes
/// above the lines survive.
#[test]
fn the_index_replaces_a_key_and_keeps_the_notes() {
    let existing = "# a note\nold.json other:key 2020-01-01\n";
    let name = fixture_file_name("tool:arg");
    let first = index_text(existing, &name, "tool:arg", "2026-09-01");
    let text = index_text(&first, &name, "tool:arg", "2026-09-01");
    assert!(text.starts_with("# a note\n"), "{text}");
    assert!(text.contains("old.json other:key 2020-01-01"), "{text}");
    assert_eq!(text.matches("tool:arg").count(), 1, "a key recorded twice has ONE line: {text}");
}

#[test]
fn an_index_line_gives_back_its_key() {
    let line = format!("{} {} {}", "abc.json", "tool:a b c", "2026-09-01");
    assert_eq!(key_of(&line), Some("tool:a b c"));
    assert_eq!(key_of("a.json  2026"), None, "an empty key is no key");
    assert_eq!(lines_of("a\r\nb\n\nc"), vec!["a", "b", "", "c"]);
}

/// A digest names its file by its first eight bytes in lower-case hex.
#[test]
fn a_digest_names_its_file_by_its_first_eight_bytes() {
    assert_eq!(digest_file_name(&[0xde, 0xad, 0xbe, 0xef, 0x00, 0x01, 0x0a, 0xff, 0x99, 0x99]), "deadbeef00010aff.json");
    assert_eq!(digest_file_name(&[0; 32]), "0000000000000000.json");
}

/// A note keeps its own line ending when the index is rewritten; the other
/// lines are written back as lines.
#[test]
fn a_note_keeps_its_line_ending() {
    let name = fixture_file_name("tool:arg");
    let existing = "# recorded by hand\r\nabc.json other:key 2026-08-01\r\n# last note";
    let text = index_text(existing, &name, "tool:arg", "2026-09-01");
    assert_eq!(
        text,
        format!("# recorded by hand\r\nabc.json other:key 2026-08-01\n# last note\n{name} tool:arg 2026-09-01\n")
    );
}
