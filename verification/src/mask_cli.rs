//! The rules of the `masker` command line: which way `mask` reads and writes, the passphrase
//! prompts of `export`, and how a streamed line loses its line ending.

use vstd::prelude::*;
use crate::text::{
    chars_of, push_str_chars, push_decimal, string_from_char_range, string_from_chars, str_equal,
    decimal,
};
use crate::env_import::{trim, trim_range};

verus! {

/// The errors of the command line's own rules.
#[derive(Debug)]
pub enum CliError {
    NoActiveProfile,
    InvalidMaskArgs(String),
    PassphraseMismatch,
}

/// The arguments of `masker mask`.
#[derive(Debug, Clone)]
pub struct MaskArgs {
    pub profile: Option<String>,
    pub input: Option<String>,
    pub output: Option<String>,
    pub batch: bool,
    pub reset_mapping_per_file: bool,
    pub stream: bool,
    pub encoding: Option<String>,
}

/// The four ways `mask` runs; they do not combine.
#[derive(Debug, PartialEq, Eq)]
pub enum MaskMode {
    OneShotStdio,
    File { input: String, output: String },
    Batch { input_dir: String, output_dir: String, reset_mapping_per_file: bool },
    Stream,
}

pub open spec fn stream_conflict_message() -> Seq<char> {
    "--streamは--batch/--input/--output/--reset-mapping-per-fileと同時に指定できません"@
}

pub open spec fn batch_needs_dirs_message() -> Seq<char> {
    "--batchには--inputと--output(いずれもディレクトリ)の両方が必要です"@
}

pub open spec fn reset_needs_batch_message() -> Seq<char> {
    "--reset-mapping-per-fileは--batchと同時に指定してください"@
}

pub open spec fn input_output_pair_message() -> Seq<char> {
    "--inputと--outputは両方指定してください"@
}

/// The mode that the flags select, or why they do not fit together.
pub open spec fn mask_mode_spec(
    input: Option<Seq<char>>,
    output: Option<Seq<char>>,
    batch: bool,
    reset: bool,
    stream: bool,
) -> Result<(int, Seq<char>, Seq<char>), Seq<char>> {
    if stream {
        if batch || input is Some || output is Some || reset {
            Err(stream_conflict_message())
        } else {
            Ok((3, Seq::empty(), Seq::empty()))
        }
    } else if batch {
        match (input, output) {
            (Some(i), Some(o)) => Ok((2, i, o)),
            _ => Err(batch_needs_dirs_message()),
        }
    } else if reset {
        Err(reset_needs_batch_message())
    } else {
        match (input, output) {
            (Some(i), Some(o)) => Ok((1, i, o)),
            (None, None) => Ok((0, Seq::empty(), Seq::empty())),
            _ => Err(input_output_pair_message()),
        }
    }
}

/// `m` is the mode that `mask_mode_spec` describes by its number and paths.
pub open spec fn mode_is(m: MaskMode, kind: int, a: Seq<char>, b: Seq<char>, reset: bool) -> bool {
    match m {
        MaskMode::OneShotStdio => kind == 0,
        MaskMode::File { input, output } => kind == 1 && input@ == a && output@ == b,
        MaskMode::Batch { input_dir, output_dir, reset_mapping_per_file } => kind == 2 && input_dir@
            == a && output_dir@ == b && reset_mapping_per_file == reset,
        MaskMode::Stream => kind == 3,
    }
}

fn invalid_args(m: &str) -> (r: CliError)
    ensures
        r matches CliError::InvalidMaskArgs(s) && s@ == m@,
{
    CliError::InvalidMaskArgs(m.to_owned())
}

/// Which way `mask` runs: `--stream` alone; `--batch` with an input and an output directory;
/// `--input` with `--output`; or standard input to standard output when none is given.
pub fn resolve_mask_mode(args: &MaskArgs) -> (r: Result<MaskMode, CliError>)
    ensures
        match mask_mode_spec(
            args.input.deep_view(),
            args.output.deep_view(),
            args.batch,
            args.reset_mapping_per_file,
            args.stream,
        ) {
            Ok((kind, a, b)) => r matches Ok(m) && mode_is(m, kind, a, b, args.reset_mapping_per_file),
            Err(msg) => r matches Err(CliError::InvalidMaskArgs(s)) && s@ == msg,
        },
{
    if args.stream {
        if args.batch || args.input.is_some() || args.output.is_some()
            || args.reset_mapping_per_file {
            return Err(
                invalid_args(
                    "--streamは--batch/--input/--output/--reset-mapping-per-fileと同時に指定できません",
                ),
            );
        }
        return Ok(MaskMode::Stream);
    }
    if args.batch {
        match (&args.input, &args.output) {
            (Some(input_dir), Some(output_dir)) => {
                return Ok(
                    MaskMode::Batch {
                        input_dir: input_dir.clone(),
                        output_dir: output_dir.clone(),
                        reset_mapping_per_file: args.reset_mapping_per_file,
                    },
                );
            },
            _ => {
                return Err(
                    invalid_args("--batchには--inputと--output(いずれもディレクトリ)の両方が必要です"),
                );
            },
        }
    }
    if args.reset_mapping_per_file {
        return Err(invalid_args("--reset-mapping-per-fileは--batchと同時に指定してください"));
    }
    match (&args.input, &args.output) {
        (Some(input), Some(output)) => Ok(
            MaskMode::File { input: input.clone(), output: output.clone() },
        ),
        (None, None) => Ok(MaskMode::OneShotStdio),
        _ => Err(invalid_args("--inputと--outputは両方指定してください")),
    }
}

/// The passphrase typed twice, if both entries agree.
pub fn confirm_passphrase(first: String, second: String) -> (r: Result<String, CliError>)
    ensures
        first@ == second@ ==> (r matches Ok(p) && p@ == first@),
        first@ != second@ ==> r matches Err(CliError::PassphraseMismatch),
{
    if !str_equal(first.as_str(), second.as_str()) {
        return Err(CliError::PassphraseMismatch);
    }
    Ok(first)
}

/// Calls `zxcvbn::zxcvbn(passphrase, &[])` and returns its score as a number. The crate's score
/// is one of five values, 0 to 4, and 0 for an empty passphrase. The score is not a function of
/// the passphrase alone (zxcvbn scores years and dates against the year the process started in),
/// so nothing else is stated of it.
#[verifier::external_body]
fn passphrase_score(passphrase: &str) -> (r: u8)
    ensures
        r <= 4,
        passphrase@.len() == 0 ==> r == 0,
{
    u8::from(zxcvbn::zxcvbn(passphrase, &[]).score())
}

pub open spec fn weak_passphrase_message(score: u8) -> Seq<char> {
    "警告: このパスフレーズは推測されやすい可能性があります(強度: "@ + decimal(score as nat)
        + "/4、推奨: 3以上)"@
}

/// The warning for a passphrase whose score is `score`: none from 3 on, which zxcvbn names the
/// least score of a strong passphrase.
pub fn warning_for_score(score: u8) -> (r: Option<String>)
    ensures
        score >= 3 ==> r is None,
        score < 3 ==> (r matches Some(w) && w@ == weak_passphrase_message(score)),
{
    if score >= 3 {
        return None;
    }
    let mut out: Vec<char> = Vec::new();
    push_str_chars(&mut out, "警告: このパスフレーズは推測されやすい可能性があります(強度: ");
    push_decimal(&mut out, score as u64);
    push_str_chars(&mut out, "/4、推奨: 3以上)");
    Some(string_from_chars(out.as_slice()))
}

/// The warning shown for a passphrase that is easy to guess: none when zxcvbn scores it 3 or
/// more, else the warning that names its score. Whatever the score, the answer is no warning or
/// the warning for a score below 3; an empty passphrase always gets the warning for score 0.
pub fn weak_passphrase_warning(passphrase: &str) -> (r: Option<String>)
    ensures
        r is None || exists|s: u8| s < 3 && #[trigger] weak_passphrase_message(s) == r->0@,
        passphrase@.len() == 0 ==> (r matches Some(w) && w@ == weak_passphrase_message(0)),
{
    warning_for_score(passphrase_score(passphrase))
}

/// A streamed line without the `'\n'` and `'\r'` bytes at its end.
pub open spec fn without_line_ending(line: Seq<u8>) -> Seq<u8>
    decreases line.len(),
{
    if line.len() > 0 && (line.last() == 10u8 || line.last() == 13u8) {
        without_line_ending(line.drop_last())
    } else {
        line
    }
}

/// Whether an answer to a yes/no prompt, white space around it aside, says yes.
pub open spec fn is_yes_answer_spec(answer: Seq<char>) -> bool {
    let t = trim(answer);
    t == "y"@ || t == "Y"@ || t == "yes"@ || t == "Yes"@ || t == "YES"@
}

/// Whether the answer typed at a yes/no prompt is yes (`y`, `Y`, `yes`, `Yes` or `YES`, white
/// space around it aside); anything else, an empty answer too, is no.
pub fn is_yes_answer(answer: &str) -> (r: bool)
    ensures
        r == is_yes_answer_spec(answer@),
{
    let chars = chars_of(answer);
    let (a, b) = trim_range(chars.as_slice(), 0, chars.len());
    assert(chars@.subrange(0, chars@.len() as int) =~= answer@);
    let t = string_from_char_range(chars.as_slice(), a, b);
    let t = t.as_str();
    str_equal(t, "y") || str_equal(t, "Y") || str_equal(t, "yes") || str_equal(t, "Yes")
        || str_equal(t, "YES")
}

/// Removes the line ending that reading up to a `'\n'` leaves on a line.
pub fn trim_line_ending(line: &mut Vec<u8>)
    ensures
        final(line)@ == without_line_ending(old(line)@),
{
    let ghost start = line@;
    while line.len() > 0 && (line[line.len() - 1] == 10u8 || line[line.len() - 1] == 13u8)
        invariant
            without_line_ending(start) == without_line_ending(line@),
        decreases line@.len(),
    {
        line.pop();
    }
}

} // verus!
