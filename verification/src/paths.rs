//! The checks on paths given from outside (command line arguments, save dialogs) before they are
//! written to: network and other special forms are refused.

use vstd::prelude::*;

verus! {

#[derive(Debug, PartialEq, Eq)]
pub enum PathError {
    UnknownDataDir,
    SpecialForm,
    InsideAppDataDir,
    Unresolvable,
}

pub open spec fn path_error_message(e: PathError) -> Seq<char> {
    match e {
        PathError::UnknownDataDir => "OS標準のデータディレクトリを解決できませんでした"@,
        PathError::SpecialForm => "ネットワークパスや特殊な形式のパスは指定できません"@,
        PathError::InsideAppDataDir => "アプリのデータフォルダには保存できません"@,
        PathError::Unresolvable => "パスを確認できませんでした"@,
    }
}

impl PathError {
    pub fn message(&self) -> (r: String)
        ensures
            r@ == path_error_message(*self),
    {
        match self {
            PathError::UnknownDataDir => "OS標準のデータディレクトリを解決できませんでした".to_owned(),
            PathError::SpecialForm => "ネットワークパスや特殊な形式のパスは指定できません".to_owned(),
            PathError::InsideAppDataDir => "アプリのデータフォルダには保存できません".to_owned(),
            PathError::Unresolvable => "パスを確認できませんでした".to_owned(),
        }
    }
}

/// Calls `std::path::absolute` (a lexical normalisation against the current directory, which
/// does not touch the file system) and gives the result as text. It depends on the current
/// directory, so nothing is stated of it but what the documentation says: an empty path is an
/// error.
#[verifier::external_body]
fn absolute_path(raw: &str) -> (r: Option<String>)
    ensures
        raw@.len() == 0 ==> r is None,
{
    match std::path::absolute(raw) {
        Ok(p) => Some(p.to_string_lossy().into_owned()),
        Err(_) => None,
    }
}

/// `p` starts with two backslashes: a UNC path (`\\server\share`), a local device (`\\.\`) or an
/// extended-length path (`\\?\`).
pub open spec fn is_special_form(p: Seq<char>) -> bool {
    p.len() >= 2 && p[0] == '\\' && p[1] == '\\'
}

/// The outcome for a normalised path: refused when it could not be made absolute or is of a
/// special form.
pub fn reject_special_forms(absolute: Option<String>) -> (r: Result<String, PathError>)
    ensures
        match absolute {
            None => r == Err::<String, PathError>(PathError::Unresolvable),
            Some(p) => if is_special_form(p@) {
                r == Err::<String, PathError>(PathError::SpecialForm)
            } else {
                r matches Ok(q) && q@ == p@
            },
        },
{
    match absolute {
        None => Err(PathError::Unresolvable),
        Some(p) => {
            let chars = crate::text::chars_of(p.as_str());
            if chars.len() >= 2 && chars[0] == '\\' && chars[1] == '\\' {
                Err(PathError::SpecialForm)
            } else {
                Ok(p)
            }
        },
    }
}

/// Normalises a path to be written to and refuses special forms; what the normalisation gives
/// depends on the current directory.
pub fn normalize_and_reject_special_forms(raw: &str) -> (r: Result<String, PathError>)
    ensures
        r matches Ok(p) ==> !is_special_form(p@),
        raw@.len() == 0 ==> r == Err::<String, PathError>(PathError::Unresolvable),
        r is Err ==> r == Err::<String, PathError>(PathError::Unresolvable) || r == Err::<String, PathError>(
            PathError::SpecialForm,
        ),
{
    reject_special_forms(absolute_path(raw))
}

} // verus!
