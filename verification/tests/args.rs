use ciso_rs::args::{default_out, parse_u32, usage, Args, Mode};

fn strings(words: &[&str]) -> Vec<String> {
    words.iter().map(|w| w.to_string()).collect()
}

fn parse(words: &[&str]) -> Result<(Mode, String, String), String> {
    Args::parse(strings(words)).map(|a| (a.mode, a.input, a.output))
}

fn ok(mode: Mode, input: &str, output: &str) -> Result<(Mode, String, String), String> {
    Ok((mode, input.to_string(), output.to_string()))
}

fn err(message: &str) -> Result<(Mode, String, String), String> {
    Err(message.to_string())
}

#[test]
fn no_arguments_give_the_usage() {
    assert_eq!(parse(&[]), Err(usage()));
    assert!(usage().starts_with("Usage:\n  ciso <input.iso> [output.cso]"));
    assert!(usage().ends_with("compress level = 6 (--optimal)\n"));
}

#[test]
fn extension_selects_the_mode() {
    assert_eq!(parse(&["game.iso"]), ok(Mode::Compress { level: 6 }, "game.iso", "game.cso"));
    assert_eq!(parse(&["game.cso"]), ok(Mode::Decompress, "game.cso", "game.iso"));
    assert_eq!(parse(&["GAME.ISO"]), ok(Mode::Compress { level: 6 }, "GAME.ISO", "GAME.cso"));
    assert_eq!(parse(&["a/b.Cso"]), ok(Mode::Decompress, "a/b.Cso", "a/b.iso"));
    assert_eq!(parse(&["game.zip"]), err("Input must be .iso or .cso"));
    assert_eq!(parse(&["game"]), err("Input must be .iso or .cso"));
    assert_eq!(parse(&[".iso"]), err("Input must be .iso or .cso"));
    assert_eq!(parse(&["--fast"]), err("Input must be .iso or .cso"));
}

#[test]
fn compress_options_set_the_level() {
    assert_eq!(parse(&["a.iso", "--fast"]), ok(Mode::Compress { level: 1 }, "a.iso", "a.cso"));
    assert_eq!(parse(&["a.iso", "--optimal"]), ok(Mode::Compress { level: 6 }, "a.iso", "a.cso"));
    assert_eq!(parse(&["a.iso", "--best"]), ok(Mode::Compress { level: 9 }, "a.iso", "a.cso"));
    assert_eq!(
        parse(&["a.iso", "--level", "3"]),
        ok(Mode::Compress { level: 3 }, "a.iso", "a.cso")
    );
    assert_eq!(
        parse(&["a.iso", "--best", "--level", "+4"]),
        ok(Mode::Compress { level: 4 }, "a.iso", "a.cso")
    );
    assert_eq!(
        parse(&["a.iso", "--level", "2", "--fast"]),
        ok(Mode::Compress { level: 1 }, "a.iso", "a.cso")
    );
}

#[test]
fn compress_takes_one_output_path() {
    assert_eq!(
        parse(&["a.iso", "out/b.cso", "--best"]),
        ok(Mode::Compress { level: 9 }, "a.iso", "out/b.cso")
    );
    assert_eq!(
        parse(&["a.iso", "--level", "9", "-"]),
        ok(Mode::Compress { level: 9 }, "a.iso", "-")
    );
    assert_eq!(parse(&["a.iso", "b.cso", "c.cso"]), err("Too many positional arguments"));
}

#[test]
fn compress_complains_about_bad_options() {
    assert_eq!(parse(&["a.iso", "--level"]), err("--level requires a value"));
    assert_eq!(parse(&["a.iso", "--level", "x"]), err("Invalid --level value"));
    assert_eq!(parse(&["a.iso", "--level", ""]), err("Invalid --level value"));
    assert_eq!(parse(&["a.iso", "--level", "-1"]), err("Invalid --level value"));
    assert_eq!(parse(&["a.iso", "--level", "4294967296"]), err("Invalid --level value"));
    assert_eq!(parse(&["a.iso", "--level", "0"]), err("--level must be 1..9"));
    assert_eq!(parse(&["a.iso", "--level", "10"]), err("--level must be 1..9"));
    assert_eq!(parse(&["a.iso", "--level", "4294967295"]), err("--level must be 1..9"));
    assert_eq!(parse(&["a.iso", "--check"]), err("Unknown option '--check'"));
    assert_eq!(parse(&["a.iso", "--"]), err("Unknown option '--'"));
    assert_eq!(parse(&["a.iso", "b.cso", "--quick"]), err("Unknown option '--quick'"));
}

#[test]
fn cso_input_is_decompressed_or_checked() {
    assert_eq!(parse(&["a.cso", "--check"]), ok(Mode::Check { full: false }, "a.cso", ""));
    assert_eq!(
        parse(&["a.cso", "--check", "--full"]),
        ok(Mode::Check { full: true }, "a.cso", "")
    );
    assert_eq!(
        parse(&["a.cso", "--full", "--check"]),
        ok(Mode::Check { full: true }, "a.cso", "")
    );
    assert_eq!(parse(&["a.cso", "--check", "--check"]), ok(Mode::Check { full: false }, "a.cso", ""));
    assert_eq!(parse(&["a.cso", "--full"]), err("--full can only be used with --check"));
    assert_eq!(
        parse(&["a.cso", "--check", "--full", "--check"]),
        err("Too many arguments for --check")
    );
    assert_eq!(parse(&["a.cso", "b.iso"]), err("Unknown option 'b.iso'"));
    assert_eq!(parse(&["a.cso", "--check", "--fast"]), err("Unknown option '--fast'"));
}

#[test]
fn default_output_stands_beside_the_input() {
    assert_eq!(default_out("game.iso", "cso"), "game.cso");
    assert_eq!(default_out("dir/sub/game.iso", "cso"), "dir/sub/game.cso");
    assert_eq!(default_out("/abs/game.v2.cso", "iso"), "/abs/game.v2.iso");
    assert_eq!(default_out("noext", "iso"), "noext.iso");
    assert_eq!(default_out("", "iso"), ".iso");
}

#[test]
fn decimal_numbers_are_read_as_the_standard_library_reads_them() {
    for text in ["0", "7", "+7", "007", "4294967295", "4294967296", "", "+", "-3", " 3", "3 ", "1_0",
        "12a", "99999999999999999999", "٣"]
    {
        assert_eq!(parse_u32(text), text.parse::<u32>().ok(), "{text:?}");
    }
    assert_eq!(parse_u32("4294967295"), Some(u32::MAX));
    assert_eq!(parse_u32("+012"), Some(12));
    assert_eq!(parse_u32("4294967296"), None);
}
