use kicad_text_injector::replacer::ProcessError;
use kicad_text_injector::replacer::Settings;
use kicad_text_injector::replacer::process_line;

fn settings(vars: Vec<(&str, &str)>, fail_on_missing: bool) -> Settings {
    Settings {
        vars: vars.into_iter().map(|(k, v)| (k.to_string(), v.to_string())).collect(),
        fail_on_missing,
        verbose: false,
    }
}

#[test]
fn test_end_to_end_example() {
    let s = settings(vec![("PROJECT_BATCH_ID", "42")], false);
    let input = "    (fp_text user ${PROJECT_BATCH_ID} (at 0.3 0) (layer F.Fab)";
    let actual = process_line(input, &s).unwrap();
    assert_eq!("    (fp_text user 42 (at 0.3 0) (layer F.Fab)", actual);
}

#[test]
fn test_missing_variable_fails_when_policy_set() {
    let s = settings(vec![], true);
    let input = "(gr_text \"${FOO}\"";
    let actual = process_line(input, &s);
    match actual {
        Err(ProcessError::MissingVariable(msg)) => {
            assert_eq!("Undefined variable 'FOO'", msg);
        },
        other => panic!("expected a missing-variable failure, got {other:?}"),
    }
}

#[test]
fn test_missing_variable_passes_through_when_policy_unset() {
    let s = settings(vec![], false);
    // The quoted token stands at the line end, so the third stage leaves the
    // quotes in place and the unresolved placeholder is visible unchanged.
    let input = "(gr_text \"${FOO}\"";
    let actual = process_line(input, &s).unwrap();
    assert_eq!(input, actual);
}

#[test]
fn test_unresolved_placeholder_mid_line() {
    let s = settings(vec![], false);
    let input = "(gr_text ${FOO} (at 0 0)";
    let actual = process_line(input, &s).unwrap();
    // Quoting and unquoting cancel out; the placeholder stays unresolved.
    assert_eq!(input, actual);
}

#[test]
fn test_line_without_fields_passes_through() {
    let s = settings(vec![("X", "y")], true);
    let input = "  (at 146.558 135.636)";
    let actual = process_line(input, &s).unwrap();
    assert_eq!(input, actual);
}

#[test]
fn test_substitution_inside_prefixed_token() {
    let s = settings(vec![("ID", "7")], true);
    let input = "(fp_text value batch-${ID}-end (at 0 0)";
    let actual = process_line(input, &s).unwrap();
    assert_eq!("(fp_text value batch-7-end (at 0 0)", actual);
}

#[test]
fn test_replacement_with_space_stays_quoted() {
    // A value with a space makes the token ineligible for unquoting, so the
    // quotes that the first stage added stay.
    let s = settings(vec![("NAME", "rev A")], true);
    let input = "(gr_text ${NAME} (at 0 0)";
    let actual = process_line(input, &s).unwrap();
    assert_eq!("(gr_text \"rev A\" (at 0 0)", actual);
}

#[test]
fn test_later_entry_wins() {
    let s = settings(vec![("A", "1"), ("A", "2")], true);
    let input = "(gr_text ${A} (at 0 0)";
    let actual = process_line(input, &s).unwrap();
    assert_eq!("(gr_text 2 (at 0 0)", actual);
}

#[test]
fn test_two_lines_independent() {
    let s = settings(vec![("A", "1")], false);
    let first = process_line("(gr_text ${A} (x", &s).unwrap();
    let second = process_line("(gr_text ${B} (x", &s).unwrap();
    assert_eq!("(gr_text 1 (x", first);
    assert_eq!("(gr_text ${B} (x", second);
}
