use rudder_lang::normalize::normalize;

#[test]
fn chained_context_rewrites_to_summary_and_detail() {
    let raw = "abc'summary: middle message: \"detail\" rest";
    assert_eq!(normalize(raw), "summary. (detail)");
}

#[test]
fn chained_context_is_idempotent_on_plain_summaries() {
    let raw = "abc'summary: middle message: \"detail\" rest";
    let once = normalize(raw);
    let twice = normalize(&once);
    assert_eq!(once, twice);
}

#[test]
fn chained_context_picks_last_quote_and_first_colon() {
    // Two quotes after the detail marker: the detail runs to the last one
    // that still leaves a character behind it.
    let raw = "x'top: mid message: \"a \"b\" c\" tail";
    assert_eq!(normalize(raw), "top. (a \"b\" c)");
}

#[test]
fn user_tag_is_unwrapped() {
    let raw = "Something User(\"boom\") happened";
    assert_eq!(normalize(raw), "boom");
}

#[test]
fn plain_panic_envelope_is_stripped() {
    let raw = "panicked at 'index out of bounds', src/main.rs:10:5";
    assert_eq!(normalize(raw), "index out of bounds");
}

#[test]
fn chained_context_wins_over_panic_envelope() {
    let raw = "panicked at 'Err: x message: \"d\" y', src/m.rs:1:1";
    assert_eq!(normalize(raw), "Err. (d)");
}

#[test]
fn unmatched_input_is_returned_unchanged() {
    let raw = "just a plain message";
    assert_eq!(normalize(raw), raw);
}

#[test]
fn newline_blocks_every_rule() {
    let raw = "panicked at 'x\ny', src/a.rs:1:1";
    assert_eq!(normalize(raw), raw);
}

#[test]
fn panic_envelope_needs_clean_location_tail() {
    // A location with a space in it is not a location, so nothing matches.
    let raw = "panicked at 'oops', not a location";
    assert_eq!(normalize(raw), raw);
}

#[test]
fn summary_with_inner_colon_is_cut_short() {
    // The documented lossy case: a literal `: ` inside the summary ends it.
    let raw = "z'alpha: beta: mid message: \"d\" t";
    assert_eq!(normalize(raw), "alpha. (d)");
}

#[test]
fn chained_rewrite_can_expose_a_user_tag_on_renormalization() {
    // A detail that itself embeds a user tag: the first pass yields the
    // chained form, and a second pass then unwraps the inner tag, so
    // re-normalization is not idempotent for such inputs.
    let raw = "x'S: P message: \"A User(\"B\") C\" w";
    let once = normalize(raw);
    assert_eq!(once, "S. (A User(\"B\") C)");
    let twice = normalize(&once);
    assert_eq!(twice, "B");
}
