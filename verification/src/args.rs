//! The command line: what to do, on which file, into which file.
//!
//! The first argument names the input; its extension chooses between compressing
//! (`.iso`) and decompressing or checking (`.cso`).

use vstd::prelude::*;
use vstd::string::StrSliceExecFns;
use vstd::string::StringExecFns;

verus! {

/// What the program is asked to do.
#[derive(Debug, Clone, Copy, PartialEq, Eq)]
pub enum Mode {
    /// Compress an image at a level from 1 to 9.
    Compress { level: u32 },
    /// Decompress a file.
    Decompress,
    /// Check a file; with `full`, inflate its compressed blocks too.
    Check { full: bool },
}

/// The parsed command line.
#[derive(Debug)]
pub struct Args {
    /// What to do.
    pub mode: Mode,
    /// The file to read.
    pub input: String,
    /// The file to write; empty for a check.
    pub output: String,
}

/// A parsed command line, with its texts as sequences of characters.
pub struct ArgsView {
    pub mode: Mode,
    pub input: Seq<char>,
    pub output: Seq<char>,
}

impl View for Args {
    type V = ArgsView;

    open spec fn view(&self) -> ArgsView {
        ArgsView { mode: self.mode, input: self.input@, output: self.output@ }
    }
}

/// The arguments as sequences of characters.
pub open spec fn texts(args: Seq<String>) -> Seq<Seq<char>> {
    args.map_values(|s: String| s@)
}

/// Whether `r` is the result `want`, text for text.
pub open spec fn agrees(r: Result<Args, String>, want: Result<ArgsView, Seq<char>>) -> bool {
    match want {
        Ok(v) => r is Ok && r->Ok_0@ == v,
        Err(message) => r is Err && r->Err_0@ == message,
    }
}

/// The extension of the last component of `path`, as `std::path::Path::extension`
/// gives it for the path syntax of the platform that the library is built for.
pub uninterp spec fn path_extension(path: Seq<char>) -> Option<Seq<char>>;

/// The last component of `path` without its extension, as
/// `std::path::Path::file_stem` gives it for the platform's path syntax.
pub uninterp spec fn path_file_stem(path: Seq<char>) -> Option<Seq<char>>;

/// `path` without its last component, as `std::path::Path::parent` gives it for the
/// platform's path syntax.
pub uninterp spec fn path_parent(path: Seq<char>) -> Option<Seq<char>>;

/// `name` appended to the path `base`, as `std::path::Path::join` gives it for the
/// platform's path syntax.
pub uninterp spec fn path_join(base: Seq<char>, name: Seq<char>) -> Seq<char>;

/// Calls `std::path::Path::extension` on `path`.  Trusted: that the result depends on
/// the characters of `path` alone.
#[verifier::external_body]
fn extension(path: &str) -> (r: Option<String>)
    ensures
        match path_extension(path@) {
            Some(e) => r is Some && r->Some_0@ == e,
            None => r is None,
        },
{
    match std::path::Path::new(path).extension() {
        Some(e) => Some(e.to_string_lossy().into_owned()),
        None => None,
    }
}

/// Calls `std::path::Path::file_stem` on `path`.  Trusted: that the result depends on
/// the characters of `path` alone.
#[verifier::external_body]
fn file_stem(path: &str) -> (r: Option<String>)
    ensures
        match path_file_stem(path@) {
            Some(stem) => r is Some && r->Some_0@ == stem,
            None => r is None,
        },
{
    match std::path::Path::new(path).file_stem() {
        Some(stem) => Some(stem.to_string_lossy().into_owned()),
        None => None,
    }
}

/// Calls `std::path::Path::parent` on `path`.  Trusted: that the result depends on the
/// characters of `path` alone.
#[verifier::external_body]
fn parent(path: &str) -> (r: Option<String>)
    ensures
        match path_parent(path@) {
            Some(p) => r is Some && r->Some_0@ == p,
            None => r is None,
        },
{
    match std::path::Path::new(path).parent() {
        Some(p) => Some(p.to_string_lossy().into_owned()),
        None => None,
    }
}

/// Calls `std::path::Path::join` on `base` with `name`.  Trusted: that the result
/// depends on the characters of `base` and `name` alone.
#[verifier::external_body]
fn join(base: &str, name: &str) -> (r: String)
    ensures
        r@ == path_join(base@, name@),
{
    std::path::Path::new(base).join(name).to_string_lossy().into_owned()
}

/// `c` in lower case, if it is an ASCII capital.
pub open spec fn ascii_lower(c: char) -> char {
    if 'A' <= c <= 'Z' {
        ((c as u32) + 32) as char
    } else {
        c
    }
}

/// `s` with its ASCII capitals in lower case.
pub open spec fn ascii_lowercase(s: Seq<char>) -> Seq<char> {
    s.map_values(|c: char| ascii_lower(c))
}

/// Whether `s` is `word` but for the case of its ASCII letters; `word` is in lower
/// case.
fn is_word_in_any_case(s: &str, word: &str) -> (b: bool)
    ensures
        b == (ascii_lowercase(s@) == word@),
{
    let n = s.unicode_len();
    if n != word.unicode_len() {
        return false;
    }
    let mut i: usize = 0;
    while i < n
        invariant
            i <= n,
            n == s@.len(),
            n == word@.len(),
            forall|j: int| 0 <= j < i ==> ascii_lower(s@[j]) == word@[j],
        decreases n - i,
    {
        let c = s.get_char(i);
        let w = word.get_char(i);
        let same = if 'A' <= c && c <= 'Z' {
            c as u32 + 32 == w as u32
        } else {
            c == w
        };
        if !same {
            assert(ascii_lowercase(s@)[i as int] != word@[i as int]);
            return false;
        }
        i += 1;
    }
    assert(ascii_lowercase(s@) =~= word@);
    true
}

/// Whether `s` is the text `word`.
fn is(s: &String, word: &str) -> (b: bool)
    ensures
        b == (s@ == word@),
{
    *s == word.to_owned()
}

/// Whether `s` starts with two hyphens.
pub open spec fn spec_is_option(s: Seq<char>) -> bool {
    s.len() >= 2 && s[0] == '-' && s[1] == '-'
}

fn is_option(s: &str) -> (b: bool)
    ensures
        b == spec_is_option(s@),
{
    s.unicode_len() >= 2 && s.get_char(0) == '-' && s.get_char(1) == '-'
}

/// The number that the decimal digits `s` spell.
pub open spec fn digits_value(s: Seq<char>) -> int
    decreases s.len(),
{
    if s.len() == 0 {
        0
    } else {
        10 * digits_value(s.drop_last()) + (s.last() as int - '0' as int)
    }
}

/// Whether `s` holds decimal digits only.
pub open spec fn all_digits(s: Seq<char>) -> bool {
    forall|i: int| 0 <= i < s.len() ==> '0' <= #[trigger] s[i] <= '9'
}

/// The number that `s` spells: an optional `+` and then one decimal digit or more,
/// nothing else, and a value that a `u32` holds.
pub open spec fn decimal_u32(s: Seq<char>) -> Option<u32> {
    let digits = if s.len() > 0 && s[0] == '+' {
        s.skip(1)
    } else {
        s
    };
    if digits.len() > 0 && all_digits(digits) && digits_value(digits) <= u32::MAX {
        Some(digits_value(digits) as u32)
    } else {
        None
    }
}

/// The digits of a number spell no less than its leading digits do.
proof fn lemma_digits_grow(s: Seq<char>, k: int)
    requires
        all_digits(s),
        0 <= k <= s.len(),
    ensures
        0 <= digits_value(s.take(k)) <= digits_value(s),
    decreases s.len(),
{
    if s.len() == 0 {
        assert(s.take(k) =~= s);
    } else if k == s.len() {
        assert(s.take(k) =~= s);
        lemma_digits_grow(s.drop_last(), k - 1);
    } else {
        assert(s.drop_last().take(k) =~= s.take(k));
        lemma_digits_grow(s.drop_last(), k);
    }
}

/// Reads a decimal number as `str::parse::<u32>` does.
pub fn parse_u32(s: &str) -> (r: Option<u32>)
    ensures
        r == decimal_u32(s@),
{
    let n = s.unicode_len();
    let start: usize = if n > 0 && s.get_char(0) == '+' {
        1
    } else {
        0
    };
    if start == n {
        return None;
    }
    let ghost digits = s@.skip(start as int);
    let mut value: u64 = 0;
    let mut i: usize = start;
    assert(digits.take(0) =~= Seq::<char>::empty());
    assert(s@.skip(0) =~= s@);
    while i < n
        invariant
            start <= i <= n,
            start < n,
            n == s@.len(),
            digits == s@.skip(start as int),
            digits == if s@.len() > 0 && s@[0] == '+' {
                s@.skip(1)
            } else {
                s@
            },
            all_digits(digits.take(i - start)),
            value == digits_value(digits.take(i - start)),
            value <= u32::MAX,
        decreases n - i,
    {
        let c = s.get_char(i);
        if c < '0' || c > '9' {
            assert(digits[i - start] == c);
            return None;
        }
        let digit: u64 = (c as u32 - '0' as u32) as u64;
        value = value * 10 + digit;
        proof {
            assert(digits.take(i + 1 - start).drop_last() =~= digits.take(i - start));
            assert(digits.take(i + 1 - start).last() == c);
            if all_digits(digits) {
                lemma_digits_grow(digits, i + 1 - start);
            }
        }
        if value > u32::MAX as u64 {
            return None;
        }
        i += 1;
    }
    assert(digits.take(n - start) =~= digits);
    Some(value as u32)
}

/// The text that explains the command line.
pub const USAGE: &'static str =
    "Usage:\n  ciso <input.iso> [output.cso] [--level 1..9 | --fast | --optimal | --best]\n  ciso <input.cso> [output.iso]\n  ciso <input.cso> --check [--full]\n\nRules:\n  .iso → compress\n  .cso → decompress\n\nDefaults:\n  compress level = 6 (--optimal)\n";

/// The text that explains the command line.
pub fn usage() -> (text: String)
    ensures
        text@ == USAGE@,
{
    USAGE.to_owned()
}

/// The output path that goes with `input` where none is given: beside the input, with
/// the input's stem and the extension `ext`.
pub open spec fn spec_default_out(input: Seq<char>, ext: Seq<char>) -> Seq<char> {
    let stem = match path_file_stem(input) {
        Some(stem) => stem,
        None => Seq::empty(),
    };
    let dir = match path_parent(input) {
        Some(dir) => dir,
        None => Seq::empty(),
    };
    path_join(dir, stem + "."@ + ext)
}

/// The output path that goes with `input` where none is given: beside the input, with
/// the input's stem and the extension `ext`.
pub fn default_out(input: &str, ext: &str) -> (out: String)
    ensures
        out@ == spec_default_out(input@, ext@),
{
    let stem = match file_stem(input) {
        Some(stem) => stem,
        None => String::new(),
    };
    let dir = match parent(input) {
        Some(dir) => dir,
        None => String::new(),
    };
    let name = stem.concat(".").concat(ext);
    join(dir.as_str(), name.as_str())
}

/// What the options of a compression leave to be done from argument `i` on, given the
/// output path and the level found so far: both at the end, or the first complaint.
pub open spec fn scan_compress(
    args: Seq<Seq<char>>,
    i: int,
    output: Option<Seq<char>>,
    level: Option<u32>,
) -> Result<(Option<Seq<char>>, Option<u32>), Seq<char>>
    decreases args.len() - i,
{
    if i < 0 || i >= args.len() {
        Ok((output, level))
    } else if args[i] == "--fast"@ {
        scan_compress(args, i + 1, output, Some(1u32))
    } else if args[i] == "--optimal"@ {
        scan_compress(args, i + 1, output, Some(6u32))
    } else if args[i] == "--best"@ {
        scan_compress(args, i + 1, output, Some(9u32))
    } else if args[i] == "--level"@ {
        if i + 1 >= args.len() {
            Err("--level requires a value"@)
        } else {
            match decimal_u32(args[i + 1]) {
                None => Err("Invalid --level value"@),
                Some(v) => if 1 <= v <= 9 {
                    scan_compress(args, i + 2, output, Some(v))
                } else {
                    Err("--level must be 1..9"@)
                },
            }
        }
    } else if spec_is_option(args[i]) {
        Err("Unknown option '"@ + args[i] + "'"@)
    } else if output is Some {
        Err("Too many positional arguments"@)
    } else {
        scan_compress(args, i + 1, Some(args[i]), level)
    }
}

/// What the arguments behind an `.iso` input mean.
pub open spec fn compress_args(input: Seq<char>, args: Seq<Seq<char>>) -> Result<
    ArgsView,
    Seq<char>,
> {
    match scan_compress(args, 0, None, None) {
        Err(message) => Err(message),
        Ok((output, level)) => Ok(
            ArgsView {
                mode: Mode::Compress {
                    level: match level {
                        Some(v) => v,
                        None => 6,
                    },
                },
                input,
                output: match output {
                    Some(path) => path,
                    None => spec_default_out(input, "cso"@),
                },
            },
        ),
    }
}

/// The first argument from `i` on that is neither `--check` nor `--full`.
pub open spec fn first_unknown(args: Seq<Seq<char>>, i: int) -> Option<Seq<char>>
    decreases args.len() - i,
{
    if i < 0 || i >= args.len() {
        None
    } else if args[i] == "--check"@ || args[i] == "--full"@ {
        first_unknown(args, i + 1)
    } else {
        Some(args[i])
    }
}

/// What the arguments behind a `.cso` input mean.
pub open spec fn decompress_args(input: Seq<char>, args: Seq<Seq<char>>) -> Result<
    ArgsView,
    Seq<char>,
> {
    let check = args.contains("--check"@);
    let full = args.contains("--full"@);
    match first_unknown(args, 0) {
        Some(arg) => Err("Unknown option '"@ + arg + "'"@),
        None => if full && !check {
            Err("--full can only be used with --check"@)
        } else if check {
            if args.len() > 2 {
                Err("Too many arguments for --check"@)
            } else {
                Ok(ArgsView { mode: Mode::Check { full }, input, output: Seq::empty() })
            }
        } else if args.len() > 0 {
            Err("Options are not allowed when decompressing"@)
        } else {
            Ok(
                ArgsView {
                    mode: Mode::Decompress,
                    input,
                    output: spec_default_out(input, "iso"@),
                },
            )
        },
    }
}

/// What a command line means: `args` are the arguments behind the program's name.
pub open spec fn parse_outcome(args: Seq<Seq<char>>) -> Result<ArgsView, Seq<char>> {
    if args.len() == 0 {
        Err(USAGE@)
    } else {
        let ext = match path_extension(args[0]) {
            Some(e) => ascii_lowercase(e),
            None => Seq::empty(),
        };
        if ext == "iso"@ {
            compress_args(args[0], args.skip(1))
        } else if ext == "cso"@ {
            decompress_args(args[0], args.skip(1))
        } else {
            Err("Input must be .iso or .cso"@)
        }
    }
}

impl Args {
    /// Reads a command line; `args` are the arguments behind the program's name.
    pub fn parse(args: Vec<String>) -> (r: Result<Args, String>)
        ensures
            agrees(r, parse_outcome(texts(args@))),
    {
        let mut args = args;
        let ghost all = texts(args@);
        if args.len() == 0 {
            return Err(usage());
        }
        let input = args.remove(0);
        assert(texts(args@) =~= all.skip(1));
        let ext = match extension(input.as_str()) {
            Some(e) => e,
            None => String::new(),
        };
        assert(ascii_lowercase(Seq::<char>::empty()) =~= Seq::<char>::empty());
        if is_word_in_any_case(ext.as_str(), "iso") {
            Args::parse_compress(input, args.as_slice())
        } else if is_word_in_any_case(ext.as_str(), "cso") {
            Args::parse_decompress(input, args.as_slice())
        } else {
            Err("Input must be .iso or .cso".to_owned())
        }
    }

    /// Reads the arguments behind an `.iso` input: an output path and a level.
    pub fn parse_compress(input: String, args: &[String]) -> (r: Result<Args, String>)
        ensures
            agrees(r, compress_args(input@, texts(args@))),
    {
        let ghost all = texts(args@);
        let mut output: Option<String> = None;
        let mut level: Option<u32> = None;
        let mut i: usize = 0;
        while i < args.len()
            invariant
                i <= args.len(),
                all == texts(args@),
                scan_compress(all, 0, None, None) == scan_compress(
                    all,
                    i as int,
                    match output {
                        Some(path) => Some(path@),
                        None => None,
                    },
                    level,
                ),
            decreases args.len() - i,
        {
            let arg = &args[i];
            assert(all[i as int] == arg@);
            if is(arg, "--fast") {
                level = Some(1);
                i += 1;
            } else if is(arg, "--optimal") {
                level = Some(6);
                i += 1;
            } else if is(arg, "--best") {
                level = Some(9);
                i += 1;
            } else if is(arg, "--level") {
                if i + 1 >= args.len() {
                    return Err("--level requires a value".to_owned());
                }
                assert(all[i + 1] == args[i + 1]@);
                let v = match parse_u32(args[i + 1].as_str()) {
                    Some(v) => v,
                    None => {
                        return Err("Invalid --level value".to_owned());
                    },
                };
                if v < 1 || v > 9 {
                    return Err("--level must be 1..9".to_owned());
                }
                level = Some(v);
                i += 2;
            } else if is_option(arg.as_str()) {
                return Err("Unknown option '".to_owned().concat(arg.as_str()).concat("'"));
            } else {
                if output.is_some() {
                    return Err("Too many positional arguments".to_owned());
                }
                output = Some(arg.clone());
                i += 1;
            }
        }
        let output = match output {
            Some(path) => path,
            None => default_out(input.as_str(), "cso"),
        };
        let level = match level {
            Some(v) => v,
            None => 6,
        };
        Ok(Args { mode: Mode::Compress { level }, input, output })
    }

    /// Reads the arguments behind a `.cso` input: `--check`, and `--full` with it.
    pub fn parse_decompress(input: String, args: &[String]) -> (r: Result<Args, String>)
        ensures
            agrees(r, decompress_args(input@, texts(args@))),
    {
        let ghost all = texts(args@);
        let mut check = false;
        let mut full = false;
        let mut i: usize = 0;
        while i < args.len()
            invariant
                i <= args.len(),
                all == texts(args@),
                first_unknown(all, 0) == first_unknown(all, i as int),
                check == all.take(i as int).contains("--check"@),
                full == all.take(i as int).contains("--full"@),
            decreases args.len() - i,
        {
            let arg = &args[i];
            assert(all[i as int] == arg@);
            assert(all.take(i + 1) =~= all.take(i as int).push(arg@));
            if is(arg, "--check") {
                check = true;
            } else if is(arg, "--full") {
                full = true;
            } else {
                return Err("Unknown option '".to_owned().concat(arg.as_str()).concat("'"));
            }
            proof {
                let before = all.take(i as int);
                let now = before.push(arg@);
                reveal_strlit("--check");
                reveal_strlit("--full");
                assert("--check"@.len() != "--full"@.len());
                assert(now[i as int] == arg@);
                assert forall|w: Seq<char>| now.contains(w) <==> before.contains(w) || w
                    == arg@ by {
                    if now.contains(w) {
                        let j = choose|j: int| 0 <= j < now.len() && now[j] == w;
                        if j < i {
                            assert(before[j] == w);
                        }
                    }
                    if before.contains(w) {
                        let j = choose|j: int| 0 <= j < before.len() && before[j] == w;
                        assert(now[j] == w);
                    }
                }
            }
            i += 1;
        }
        assert(all.take(i as int) =~= all);
        if full && !check {
            return Err("--full can only be used with --check".to_owned());
        }
        if check {
            if args.len() > 2 {
                return Err("Too many arguments for --check".to_owned());
            }
            return Ok(Args { mode: Mode::Check { full }, input, output: String::new() });
        }
        if args.len() > 0 {
            return Err("Options are not allowed when decompressing".to_owned());
        }
        let output = default_out(input.as_str(), "iso");
        Ok(Args { mode: Mode::Decompress, input, output })
    }
}

} // verus!
