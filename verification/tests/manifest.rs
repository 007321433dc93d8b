use modfetch::manifest::{format_line, load_mods, parse_line, Item, LineFault, ManifestFormatError};

fn item(identifier: i64, name: &str, reference: &str) -> Item {
    Item {
        identifier,
        display_name: name.to_string(),
        source_reference: reference.to_string(),
    }
}

#[test]
fn reads_reference_identifier_and_name() {
    assert_eq!(
        parse_line("http://x?id=123 Cool Mod"),
        Ok(item(123, "Cool Mod", "http://x?id=123"))
    );
}

#[test]
fn reads_a_name_of_one_word() {
    assert_eq!(parse_line("u?id=5 Name"), Ok(item(5, "Name", "u?id=5")));
}

#[test]
fn joins_the_words_of_the_name_by_single_spaces() {
    assert_eq!(
        parse_line("u?id=5   A \t B\u{00A0}C  "),
        Ok(item(5, "A B C", "u?id=5"))
    );
}

#[test]
fn skips_white_space_before_the_reference() {
    assert_eq!(parse_line("  \tu?id=5 N"), Ok(item(5, "N", "u?id=5")));
}

#[test]
fn ignores_a_carriage_return_at_the_end() {
    assert_eq!(parse_line("u?id=5 N\r"), Ok(item(5, "N", "u?id=5")));
}

#[test]
fn reads_signed_identifiers() {
    assert_eq!(parse_line("u?id=-5 N"), Ok(item(-5, "N", "u?id=-5")));
    assert_eq!(parse_line("u?id=+5 N"), Ok(item(5, "N", "u?id=+5")));
}

#[test]
fn reads_the_identifier_up_to_the_next_marker() {
    assert_eq!(parse_line("a?id=1?id=2 N"), Ok(item(1, "N", "a?id=1?id=2")));
    assert_eq!(parse_line("a?id=1?id=x?id=3 N"), Ok(item(1, "N", "a?id=1?id=x?id=3")));
}

#[test]
fn a_marker_in_the_name_does_not_count() {
    assert_eq!(parse_line("a N?id=3"), Err(LineFault::MissingMarker));
    assert_eq!(parse_line("a?id=7 N?id=3"), Ok(item(7, "N?id=3", "a?id=7")));
}

#[test]
fn rejects_a_line_without_words() {
    assert_eq!(parse_line(""), Err(LineFault::MissingName));
    assert_eq!(parse_line("   \t"), Err(LineFault::MissingName));
}

#[test]
fn rejects_a_line_without_a_name() {
    assert_eq!(parse_line("http://x?id=123"), Err(LineFault::MissingName));
    assert_eq!(parse_line("http://x?id=123   "), Err(LineFault::MissingName));
    assert_eq!(parse_line("nothing"), Err(LineFault::MissingName));
}

#[test]
fn rejects_a_reference_without_marker() {
    assert_eq!(parse_line("http://x/123 Cool Mod"), Err(LineFault::MissingMarker));
    assert_eq!(parse_line("http://x?id Cool Mod"), Err(LineFault::MissingMarker));
    assert_eq!(parse_line("http://x?ID=1 Cool Mod"), Err(LineFault::MissingMarker));
    assert_eq!(parse_line("?id Cool"), Err(LineFault::MissingMarker));
}

#[test]
fn rejects_an_identifier_that_is_no_integer() {
    assert_eq!(parse_line("http://x?id= Cool Mod"), Err(LineFault::BadIdentifier));
    assert_eq!(parse_line("http://x?id=abc Cool Mod"), Err(LineFault::BadIdentifier));
    assert_eq!(parse_line("http://x?id=12&a=b Cool Mod"), Err(LineFault::BadIdentifier));
    assert_eq!(parse_line("http://x?id=?id=12 Cool Mod"), Err(LineFault::BadIdentifier));
    assert_eq!(
        parse_line("http://x?id=9223372036854775808 Cool Mod"),
        Err(LineFault::BadIdentifier)
    );
}

#[test]
fn the_missing_name_is_reported_before_anything_else() {
    assert_eq!(parse_line("http://x?id=abc"), Err(LineFault::MissingName));
    assert_eq!(parse_line("http://x"), Err(LineFault::MissingName));
}

#[test]
fn writes_a_line_from_an_item() {
    assert_eq!(format_line(&item(123, "Cool Mod", "http://x?id=123")), "http://x?id=123 Cool Mod");
}

#[test]
fn a_line_written_anew_gives_the_same_item() {
    let lines = [
        "http://x?id=123 Cool Mod",
        "  http://x?id=123\tCool \u{2003} Mod  ",
        "a?id=-9?id=4 x",
        "steam://workshop?id=+0012 Ünï cödé   name\r",
    ];
    for line in lines {
        let first = parse_line(line).unwrap();
        let again = parse_line(&format_line(&first)).unwrap();
        assert_eq!(again.identifier, first.identifier);
        assert_eq!(again, first);
    }
}

#[test]
fn loads_the_items_in_the_order_of_the_lines() {
    let text = "http://x?id=3 Third\nhttp://x?id=1 First\nhttp://x?id=2 Second One\n";
    assert_eq!(
        load_mods(text),
        Ok(vec![
            item(3, "Third", "http://x?id=3"),
            item(1, "First", "http://x?id=1"),
            item(2, "Second One", "http://x?id=2"),
        ])
    );
}

#[test]
fn loads_nothing_from_an_empty_manifest() {
    assert_eq!(load_mods(""), Ok(vec![]));
}

#[test]
fn loads_a_last_line_without_line_feed() {
    assert_eq!(load_mods("u?id=1 A\nu?id=2 B"), Ok(vec![item(1, "A", "u?id=1"), item(2, "B", "u?id=2")]));
    assert_eq!(load_mods("u?id=1 A"), Ok(vec![item(1, "A", "u?id=1")]));
}

#[test]
fn loads_lines_that_end_in_carriage_return_and_line_feed() {
    assert_eq!(
        load_mods("u?id=1 A\r\nu?id=2 B\r\n"),
        Ok(vec![item(1, "A", "u?id=1"), item(2, "B", "u?id=2")])
    );
}

#[test]
fn reports_the_first_faulty_line() {
    assert_eq!(
        load_mods("u?id=1 A\nu?id=x B\nu C\n"),
        Err(ManifestFormatError { line: 2, fault: LineFault::BadIdentifier })
    );
    assert_eq!(
        load_mods("u C\nu?id=x B\n"),
        Err(ManifestFormatError { line: 1, fault: LineFault::MissingMarker })
    );
}

#[test]
fn an_empty_line_is_a_fault() {
    assert_eq!(
        load_mods("u?id=1 A\n\nu?id=2 B\n"),
        Err(ManifestFormatError { line: 2, fault: LineFault::MissingName })
    );
    assert_eq!(load_mods("\n"), Err(ManifestFormatError { line: 1, fault: LineFault::MissingName }));
    assert_eq!(
        load_mods("u?id=1 A\n\n"),
        Err(ManifestFormatError { line: 2, fault: LineFault::MissingName })
    );
}

#[test]
fn tells_what_is_wrong_with_a_manifest() {
    assert_eq!(
        ManifestFormatError { line: 12, fault: LineFault::MissingName }.message(),
        "manifest line 12: a reference and a name are expected"
    );
    assert_eq!(
        ManifestFormatError { line: 1, fault: LineFault::MissingMarker }.message(),
        "manifest line 1: the reference holds no ?id="
    );
    assert_eq!(
        ManifestFormatError { line: 3, fault: LineFault::BadIdentifier }.message(),
        "manifest line 3: what follows ?id= is not a 64-bit integer"
    );
}

#[test]
fn a_reference_written_with_an_identifier_names_it() {
    let identifiers: [i64; 7] = [0, 1, -1, 123, 294100, i64::MAX, i64::MIN];
    for identifier in identifiers {
        let line = format!("https://host/path?id={} Some Name", modfetch::decimal::format_i64(identifier));
        assert_eq!(parse_line(&line).unwrap().identifier, identifier);
    }
}
