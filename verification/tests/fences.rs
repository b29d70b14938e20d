use xpui_simulator::{commands, fences, words};

#[test]
fn a_fence_knows_its_language_and_where_it_began() {
    let blocks = fences("intro\n\n```bash\ncargo test\n```\n\n```rust,ignore\nlet x = 1;\n```\n");
    assert_eq!(blocks.len(), 2);
    assert_eq!(blocks[0].language, "bash");
    assert_eq!(blocks[0].start, 3);
    assert_eq!(blocks[1].language, "rust");
}

#[test]
fn a_tilde_fence_is_a_fence() {
    let blocks = fences("~~~bash\ncargo test\n~~~\n");
    assert_eq!(blocks.len(), 1);
    assert_eq!(blocks[0].language, "bash");
}

#[test]
fn a_language_is_read_case_insensitively_and_past_a_space() {
    assert_eq!(fences("```CPP\nint x;\n```\n")[0].language, "cpp");
    assert_eq!(fences("``` rust\nlet x = 1;\n```\n")[0].language, "rust");
    assert_eq!(
        fences("```rust no_run\nlet x = 1;\n```\n")[0].language,
        "rust"
    );
}

#[test]
fn a_longer_fence_may_quote_a_shorter_one() {
    let blocks = fences("````markdown\n```bash\ncargo test\n```\n````\n");
    assert_eq!(blocks.len(), 1);
    assert_eq!(blocks[0].language, "markdown");
    assert_eq!(blocks[0].lines.len(), 3);
}

#[test]
fn a_fence_of_one_character_does_not_close_a_fence_of_another() {
    let blocks = fences("```bash\n~~~\ncargo test\n```\n");
    assert_eq!(blocks.len(), 1);
    assert_eq!(blocks[0].lines.len(), 2);
}

#[test]
fn a_fence_indented_four_spaces_is_not_a_fence() {
    assert!(fences("    ```bash\n    rm -rf /\n    ```\n").is_empty());
    assert_eq!(fences("  ```bash\n  cargo test\n  ```\n").len(), 1);
}

#[test]
fn an_unlabelled_fence_has_an_empty_language() {
    let blocks = fences("```\nlet x = 1;\n```\n");
    assert_eq!(blocks.len(), 1);
    assert_eq!(blocks[0].language, "");
}

#[test]
fn an_unclosed_fence_does_not_swallow_the_document() {
    assert!(fences("```bash\ncargo test\n").is_empty());
}

#[test]
fn a_backslash_joins_two_lines_into_one_command() {
    let blocks = fences(
        "```bash\ncargo clippy \\\n  -p xpui -p xpui-chrome \\\n  -- -D warnings\n```\n",
    );
    let joined = commands(&blocks[0]);
    assert_eq!(joined.len(), 1);
    assert_eq!(
        joined[0].text,
        "cargo clippy -p xpui -p xpui-chrome -- -D warnings"
    );
    assert_eq!(
        joined[0].line, 2,
        "an error points at where the command starts"
    );
}

#[test]
fn a_comment_ends_a_command_rather_than_joining_it() {
    let blocks = fences("```bash\ncargo test\n# and then\ncargo build\n```\n");
    assert_eq!(commands(&blocks[0]).len(), 2);
}

#[test]
fn a_trailing_comment_is_not_part_of_the_command() {
    let blocks = fences("```bash\ncargo test   # then read invented/report.txt\n```\n");
    let found = commands(&blocks[0]);
    assert_eq!(found.len(), 1);
    assert_eq!(found[0].text, "cargo test");
}

#[test]
fn a_hash_inside_quotes_is_not_a_comment() {
    let blocks = fences("```bash\nawk '{print $2}  # kept'\n```\n");
    assert!(commands(&blocks[0])[0].text.contains("kept"));
}

#[test]
fn sudo_and_environment_prefixes_do_not_hide_the_verb() {
    assert_eq!(words("sudo apt-get install sdl2")[0], "apt-get");
    assert_eq!(words("SDL_VIDEODRIVER=dummy cargo test")[0], "cargo");
    assert_eq!(
        words("FREEINK_SDK_DIR=/opt/sdk ./build-and-test.sh")[0],
        "./build-and-test.sh"
    );
}

#[test]
fn export_does_not_hide_an_assignment() {
    assert!(words("export FREEINK_SDK_DIR=/path/to/freeink-sdk").is_empty());
    assert_eq!(words("export PATH=/x cargo test")[0], "cargo");
}

#[test]
fn only_an_uppercase_name_before_the_equals_is_an_assignment() {
    assert_eq!(words("foo=bar cargo test")[0], "foo=bar");
    assert_eq!(words("Mixed_Case=1 cargo test")[0], "Mixed_Case=1");
    assert_eq!(words("=novalue cargo test")[0], "=novalue");
    assert_eq!(words("REAL_NAME=1 cargo test")[0], "cargo");
}

#[test]
fn a_lowercase_equals_is_an_argument_and_not_an_assignment() {
    assert_eq!(words("cmake -DCMAKE_BUILD_TYPE=Release ..")[0], "cmake");
    assert_eq!(words("pio run -e badger2040")[0], "pio");
}

#[test]
fn a_crlf_line_ending_is_not_part_of_the_line() {
    let blocks = fences("```bash\r\ncargo test\r\n```\r\n");
    assert_eq!(blocks.len(), 1);
    assert_eq!(blocks[0].lines, vec![(2, "cargo test")]);
}

#[test]
fn a_fence_indented_by_wide_whitespace_is_measured_in_bytes() {
    // Two ideographic spaces are six bytes of indentation.
    assert!(fences("\u{3000}\u{3000}```bash\nx\n```\n").is_empty());
}
