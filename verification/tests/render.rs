use altiumdb::render::{monkey_args, monkey_failure, parse_part_count};

#[test]
fn helper_arguments() {
    assert_eq!(
        monkey_args("symbol", "a.SchLib", "R", Some(2), Some("out.svg")),
        vec!["symbol", "a.SchLib", "R", "2", "out.svg"]
    );
    assert_eq!(monkey_args("symbol_parts", "a", "R", None, None), vec!["symbol_parts", "a", "R"]);
}

#[test]
fn part_count_output() {
    assert_eq!(parse_part_count(" 3\r\n"), Some(3));
    assert_eq!(parse_part_count("x"), None);
    assert_eq!(parse_part_count("4294967296"), None);
    assert_eq!(monkey_failure("  boom \n"), "Altium Monkey rendering failed: boom");
}
