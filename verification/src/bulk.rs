//! The transfer format of exported profiles (one profile or all of them), and how the names of
//! profiles imported all at once are kept apart from the names already taken.

use vstd::prelude::*;
pub use vstd::hash_set::StringHashSet;
use crate::models::{RuleProfile, RuleProfileView};
use crate::text::{decimal, lemma_decimal_injective, lemma_decimal_len, push_decimal, push_str_chars, string_from_chars, chars_of};

verus! {

/// The version of the transfer format that this library writes and reads.
pub const CURRENT_FORMAT_VERSION: u32 = 1;

/// One exported profile with what belongs to it in the store.
#[derive(Debug)]
pub struct ExportedProfile {
    pub is_favorite: bool,
    pub tags: Vec<String>,
    pub profile: RuleProfile,
}

pub struct ExportedProfileView {
    pub is_favorite: bool,
    pub tags: Seq<Seq<char>>,
    pub profile: RuleProfileView,
}

impl View for ExportedProfile {
    type V = ExportedProfileView;

    open spec fn view(&self) -> ExportedProfileView {
        ExportedProfileView {
            is_favorite: self.is_favorite,
            tags: self.tags@.map_values(|t: String| t@),
            profile: self.profile@,
        }
    }
}

/// What an export file holds once decrypted: one profile, or all of them.
#[derive(Debug)]
pub enum ExportPayload {
    Single { format_version: u32, profile: ExportedProfile },
    All {
        format_version: u32,
        active_profile_name: Option<String>,
        profiles: Vec<ExportedProfile>,
    },
}

/// A decrypted export: its payload, and whether the passphrase only opened it once white space
/// and invisible characters around it were removed (which the user is told of).
pub struct DecryptedPayload {
    pub payload: ExportPayload,
    pub passphrase_trimmed: bool,
}

/// `name` marked as imported: `"{name} (インポート)"`.
pub open spec fn imported_name(name: Seq<char>) -> Seq<char> {
    name + " (インポート)"@
}

/// `name` marked as the `n`-th import: `"{name} (インポート {n})"`.
pub open spec fn numbered_import_name(name: Seq<char>, n: nat) -> Seq<char> {
    name + " (インポート "@ + decimal(n) + ")"@
}

/// What `resolve_name` gives for `name` when `taken` holds the names already in use: `name`
/// itself if it is free, else `imported_name(name)` if that is free, else the
/// `numbered_import_name(name, n)` with the least `n >= 2` that is free.
/// What `resolve_name` gives is never a name in use.
pub proof fn lemma_resolved_name_is_free(name: Seq<char>, taken: Set<Seq<char>>, r: Seq<char>)
    requires
        is_resolved_name(name, taken, r),
    ensures
        !taken.contains(r),
{
}

pub open spec fn is_resolved_name(name: Seq<char>, taken: Set<Seq<char>>, r: Seq<char>) -> bool {
    if !taken.contains(name) {
        r == name
    } else if !taken.contains(imported_name(name)) {
        r == imported_name(name)
    } else {
        exists|n: nat|
            #![trigger numbered_import_name(name, n)]
            n >= 2 && r == numbered_import_name(name, n) && !taken.contains(r) && (forall|m: nat|
                2 <= m < n ==> taken.contains(#[trigger] numbered_import_name(name, m)))
    }
}

proof fn lemma_numbered_injective(name: Seq<char>, a: nat, b: nat)
    requires
        numbered_import_name(name, a) == numbered_import_name(name, b),
    ensures
        a == b,
{
    let p = name + " (インポート "@;
    let x = numbered_import_name(name, a);
    let y = numbered_import_name(name, b);
    assert(x.len() == y.len());
    assert(decimal(a).len() == decimal(b).len());
    assert(x.subrange(p.len() as int, (p.len() + decimal(a).len()) as int) =~= decimal(a));
    assert(y.subrange(p.len() as int, (p.len() + decimal(b).len()) as int) =~= decimal(b));
    lemma_decimal_injective(a, b);
}

proof fn lemma_names_differ(name: Seq<char>, n: nat)
    ensures
        numbered_import_name(name, n) != name,
        numbered_import_name(name, n) != imported_name(name),
        imported_name(name) != name,
{
    reveal_strlit(" (インポート)");
    reveal_strlit(" (インポート ");
    reveal_strlit(")");
    let x = numbered_import_name(name, n);
    let y = imported_name(name);
    lemma_decimal_len(n);
    assert(x.len() > name.len());
    assert(y.len() > name.len());
    assert(x[name.len() as int + 7] == ' ');
    assert(y[name.len() as int + 7] == ')');
}

/// The name under which a profile called `name` is imported, given the names in `taken`, and
/// whether it differs from `name`. The name chosen is added to `taken`, so that entries of one
/// import do not collide with each other.
pub fn resolve_name(name: &str, taken: &mut StringHashSet) -> (r: (String, bool))
    requires
        old(taken)@.finite(),
    ensures
        is_resolved_name(name@, old(taken)@, r.0@),
        r.1 == old(taken)@.contains(name@),
        !old(taken)@.contains(r.0@),
        final(taken)@ == old(taken)@.insert(r.0@),
{
    let ghost taken0 = taken@;
    let name_chars = chars_of(name);
    if taken.insert(string_from_chars(name_chars.as_slice())) {
        return (string_from_chars(name_chars.as_slice()), false);
    }
    let mut first: Vec<char> = name_chars.clone();
    assert(first@ =~= name_chars@);
    push_str_chars(&mut first, " (インポート)");
    assert(first@ == imported_name(name@));
    if taken.insert(string_from_chars(first.as_slice())) {
        return (string_from_chars(first.as_slice()), true);
    }
    proof {
        lemma_names_differ(name@, 0);
    }
    let total: usize = taken.len();
    let ghost mut seen: Set<Seq<char>> = set![name@, imported_name(name@)];
    let mut n: u64 = 2;
    loop
        invariant
            taken@ == taken0,
            taken0 == old(taken)@,
            taken0.finite(),
            taken0.len() == total,
            taken0.contains(name@),
            taken0.contains(imported_name(name@)),
            name_chars@ == name@,
            2 <= n,
            seen.finite(),
            seen.len() == n,
            seen.subset_of(taken0),
            forall|x: Seq<char>|
                #[trigger] seen.contains(x) ==> x == name@ || x == imported_name(name@) || exists|
                    m: nat,
                |
                    #![trigger numbered_import_name(name@, m)]
                    2 <= m < n && x == numbered_import_name(name@, m),
            forall|m: nat| 2 <= m < n ==> taken0.contains(#[trigger] numbered_import_name(name@, m)),
        decreases taken0.len() - n,
    {
        let mut candidate: Vec<char> = name_chars.clone();
        assert(candidate@ =~= name_chars@);
        push_str_chars(&mut candidate, " (インポート ");
        push_decimal(&mut candidate, n);
        push_str_chars(&mut candidate, ")");
        assert(candidate@ == numbered_import_name(name@, n as nat));
        if taken.insert(string_from_chars(candidate.as_slice())) {
            let r = string_from_chars(candidate.as_slice());
            assert(is_resolved_name(name@, taken0, r@));
            return (r, true);
        }
        proof {
            let c = numbered_import_name(name@, n as nat);
            lemma_names_differ(name@, n as nat);
            if seen.contains(c) {
                if c != name@ && c != imported_name(name@) {
                    let m = choose|m: nat|
                        #![trigger numbered_import_name(name@, m)]
                        2 <= m < n && c == numbered_import_name(name@, m);
                    lemma_numbered_injective(name@, m, n as nat);
                }
            }
            assert(!seen.contains(c));
            seen = seen.insert(c);
            vstd::set_lib::lemma_len_subset(seen, taken0);
            assert forall|x: Seq<char>| #[trigger] seen.contains(x) implies x == name@ || x
                == imported_name(name@) || exists|m: nat|
                #![trigger numbered_import_name(name@, m)]
                2 <= m < n + 1 && x == numbered_import_name(name@, m) by {
                if x == c {
                    assert(2 <= n < n + 1 && x == numbered_import_name(name@, n as nat));
                }
            }
        }
        n = n + 1;
    }
}

} // verus!
