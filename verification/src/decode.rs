//! Turning the bytes that `masker` reads into text: UTF-8 with replacement by default, or the
//! WHATWG encoding named by `--encoding`, and the warning that replacement calls for (a value
//! whose bytes were replaced no longer matches its rule and may stay unmasked).

use vstd::prelude::*;
use vstd::utf8::{decode_utf8, valid_utf8};
use encoding_rs::Encoding;
use crate::mask_cli::CliError;
use crate::text::{push_str_chars, string_from_chars};

verus! {

#[verifier::external_type_specification]
#[verifier::external_body]
pub struct ExEncoding(encoding_rs::Encoding);

/// An encoding named by an `--encoding` label, with the label it was found by.
pub struct TextEncoding {
    label: String,
    encoding: &'static Encoding,
}

impl TextEncoding {
    pub closed spec fn label_view(&self) -> Seq<char> {
        self.label@
    }
}

/// Whether `label` is a label of the WHATWG Encoding Standard (as `Encoding::for_label` reads it:
/// ASCII case and surrounding white space do not matter).
pub uninterp spec fn encoding_label_known(label: Seq<char>) -> bool;

/// The name of the encoding that `label` names.
pub uninterp spec fn encoding_name_of(label: Seq<char>) -> Seq<char>;

/// What decoding `bytes` without BOM handling gives in the encoding that `label` names: the
/// text, and whether malformed sequences were replaced.
pub uninterp spec fn decoded_with(label: Seq<char>, bytes: Seq<u8>) -> (Seq<char>, bool);

/// `bytes` read as UTF-8, each malformed sequence replaced by U+FFFD (for bytes that are UTF-8,
/// their decoding).
pub uninterp spec fn utf8_lossy(bytes: Seq<u8>) -> Seq<char>;

/// Calls `Encoding::for_label`. Its answer is named by whether it found an encoding.
#[verifier::external_body]
fn lookup_encoding(label: &str) -> (r: Option<&'static Encoding>)
    ensures
        r.is_some() == encoding_label_known(label@),
{
    Encoding::for_label(label.as_bytes())
}

/// Calls `Encoding::name` on the encoding found for the label of `e`.
#[verifier::external_body]
fn encoding_name(e: &TextEncoding) -> (r: String)
    ensures
        r@ == encoding_name_of(e.label_view()),
{
    e.encoding.name().to_owned()
}

/// Calls `Encoding::decode_without_bom_handling` on the encoding found for the label of `e`.
#[verifier::external_body]
fn decode_with_encoding(e: &TextEncoding, bytes: &[u8]) -> (r: (String, bool))
    ensures
        (r.0@, r.1) == decoded_with(e.label_view(), bytes@),
{
    let (text, had_errors) = e.encoding.decode_without_bom_handling(bytes);
    (text.into_owned(), had_errors)
}

/// Calls `std::str::from_utf8` and reports whether it succeeded: exactly when the bytes are
/// UTF-8.
#[verifier::external_body]
fn is_utf8(bytes: &[u8]) -> (r: bool)
    ensures
        r == valid_utf8(bytes@),
{
    std::str::from_utf8(bytes).is_ok()
}

/// Calls `String::from_utf8_lossy`.
#[verifier::external_body]
fn from_utf8_lossy(bytes: &[u8]) -> (r: String)
    ensures
        r@ == utf8_lossy(bytes@),
        valid_utf8(bytes@) ==> r@ == decode_utf8(bytes@),
{
    String::from_utf8_lossy(bytes).into_owned()
}

impl TextEncoding {
    /// The canonical name of the encoding (`Encoding::name`), such as `Shift_JIS`.
    pub fn name(&self) -> (r: String)
        ensures
            r@ == encoding_name_of(self.label_view()),
    {
        encoding_name(self)
    }
}

pub open spec fn unknown_encoding_message(label: Seq<char>) -> Seq<char> {
    "未知のエンコーディング名です: "@ + label
}

/// The encoding that `--encoding` names; an unknown label is refused.
pub fn resolve_encoding(label: &str) -> (r: Result<TextEncoding, CliError>)
    ensures
        encoding_label_known(label@) ==> (r matches Ok(e) && e.label_view() == label@),
        !encoding_label_known(label@) ==> (r matches Err(CliError::InvalidMaskArgs(m)) && m@
            == unknown_encoding_message(label@)),
{
    match lookup_encoding(label) {
        Some(encoding) => Ok(TextEncoding { label: label.to_owned(), encoding }),
        None => {
            let mut m: Vec<char> = Vec::new();
            push_str_chars(&mut m, "未知のエンコーディング名です: ");
            push_str_chars(&mut m, label);
            Err(CliError::InvalidMaskArgs(string_from_chars(m.as_slice())))
        },
    }
}

/// The text of `bytes` and whether bytes were replaced: in the given encoding, or else as UTF-8
/// (the default does no BOM handling either, so that output only changes when asked to).
pub fn decode(bytes: &[u8], encoding: Option<&TextEncoding>) -> (r: (String, bool))
    ensures
        match encoding {
            None => r.0@ == utf8_lossy(bytes@) && r.1 == !valid_utf8(bytes@) && (valid_utf8(bytes@)
                ==> r.0@ == decode_utf8(bytes@)),
            Some(e) => (r.0@, r.1) == decoded_with(e.label_view(), bytes@),
        },
{
    match encoding {
        None => {
            let had_errors = !is_utf8(bytes);
            (from_utf8_lossy(bytes), had_errors)
        },
        Some(e) => decode_with_encoding(e, bytes),
    }
}

pub open spec fn decode_warning_message(context: Seq<char>, encoding_name: Seq<char>) -> Seq<char> {
    "警告: "@ + context + "を"@ + encoding_name
        + "として解釈できないバイト列が含まれていたため、該当部分を置き換えて処理しました(その部分に含まれるはずの機微情報がマスクされない可能性があります)"@
}

/// The warning that bytes of `context` were replaced when read in `encoding` (UTF-8 when none).
pub fn decode_warning(context: &str, encoding: Option<&TextEncoding>) -> (r: String)
    ensures
        r@ == decode_warning_message(
            context@,
            match encoding {
                None => "UTF-8"@,
                Some(e) => encoding_name_of(e.label_view()),
            },
        ),
{
    let name = match encoding {
        None => "UTF-8".to_owned(),
        Some(e) => encoding_name(e),
    };
    let mut m: Vec<char> = Vec::new();
    push_str_chars(&mut m, "警告: ");
    push_str_chars(&mut m, context);
    push_str_chars(&mut m, "を");
    push_str_chars(&mut m, name.as_str());
    push_str_chars(
        &mut m,
        "として解釈できないバイト列が含まれていたため、該当部分を置き換えて処理しました(その部分に含まれるはずの機微情報がマスクされない可能性があります)",
    );
    string_from_chars(m.as_slice())
}

/// A stream warns once only: an input wholly in another encoding would otherwise fill the error
/// output with warnings. Whether this line's warning is shown, and whether one has been.
pub fn stream_warning_step(had_errors: bool, already_warned: bool) -> (r: (bool, bool))
    ensures
        r.0 == (had_errors && !already_warned),
        r.1 == (already_warned || had_errors),
{
    (had_errors && !already_warned, already_warned || had_errors)
}

} // verus!
