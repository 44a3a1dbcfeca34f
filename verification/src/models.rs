//! Masking rules and rule profiles. Both can only be built in a validated state.

use vstd::prelude::*;

use crate::regex_engine::{compile_regex, regex_compiles};
use crate::text::{
    chars_of, decimal, hex_upper, is_bidi_format, is_bidi_format_spec, is_control, is_control_spec,
    push_decimal, push_hex_padded, push_str_chars, string_from_chars, zero_padded,
};

verus! {

/// Upper bound on the compiled size of one rule's regular expression (1 MiB).
pub const REGEX_SIZE_LIMIT_BYTES: usize = 1048576;

/// Upper bound, in characters, shared by profile names, rule names and tag names.
pub const MAX_DISPLAY_NAME_LENGTH: usize = 100;

/// Characters refused in display names: control characters, and bidirectional formatting
/// characters (which can disguise the order in which a confirmation screen shows text).
pub open spec fn is_disallowed_char(c: char) -> bool {
    is_control_spec(c) || is_bidi_format_spec(c)
}

/// The first disallowed character of `s` at or after index `i`.
pub open spec fn find_disallowed_from(s: Seq<char>, i: int) -> Option<char>
    decreases s.len() - i,
{
    if i < 0 || i >= s.len() {
        None
    } else if is_disallowed_char(s[i]) {
        Some(s[i])
    } else {
        find_disallowed_from(s, i + 1)
    }
}

pub open spec fn find_disallowed(s: Seq<char>) -> Option<char> {
    find_disallowed_from(s, 0)
}

/// The message for a name of `len` characters, over the limit.
pub open spec fn too_long_message(len: nat) -> Seq<char> {
    "長すぎます("@ + decimal(len) + "文字、上限"@ + decimal(MAX_DISPLAY_NAME_LENGTH as nat)
        + "文字)"@
}

/// The message for a name that holds the disallowed character `c`.
pub open spec fn disallowed_char_message(c: char) -> Seq<char> {
    "使用できない文字が含まれています(U+"@ + zero_padded(hex_upper(c as u32 as nat), 4) + ")"@
}

/// The outcome of validating a display name: `Err` carries the message.
pub open spec fn display_name_check(s: Seq<char>) -> Result<(), Seq<char>> {
    if s.len() > MAX_DISPLAY_NAME_LENGTH {
        Err(too_long_message(s.len()))
    } else {
        match find_disallowed(s) {
            Some(c) => Err(disallowed_char_message(c)),
            None => Ok(()),
        }
    }
}

pub open spec fn display_name_ok(s: Seq<char>) -> bool {
    display_name_check(s) is Ok
}

proof fn lemma_find_disallowed_from(s: Seq<char>, i: int)
    requires
        0 <= i <= s.len(),
    ensures
        find_disallowed_from(s, i) is None <==> forall|j: int|
            i <= j < s.len() ==> !is_disallowed_char(#[trigger] s[j]),
    decreases s.len() - i,
{
    if i < s.len() {
        lemma_find_disallowed_from(s, i + 1);
    }
}

/// A name without control characters holds no NUL character.
pub proof fn lemma_display_name_has_no_nul(s: Seq<char>)
    requires
        display_name_ok(s),
    ensures
        forall|j: int| 0 <= j < s.len() ==> #[trigger] s[j] != '\0',
{
    lemma_find_disallowed_from(s, 0);
}

fn find_disallowed_char(value: &[char]) -> (r: Option<char>)
    ensures
        r == find_disallowed(value@),
{
    let mut i: usize = 0;
    while i < value.len()
        invariant
            i <= value@.len(),
            find_disallowed(value@) == find_disallowed_from(value@, i as int),
        decreases value@.len() - i,
    {
        let c = value[i];
        if is_control(c) || is_bidi_format(c) {
            return Some(c);
        }
        i += 1;
    }
    None
}

/// Validation shared by profile names, rule names and tag names (callers wrap the message in
/// their own error type).
pub fn validate_display_name(value: &str) -> (r: Result<(), String>)
    ensures
        match r {
            Ok(()) => display_name_check(value@) is Ok,
            Err(msg) => display_name_check(value@) == Err::<(), Seq<char>>(msg@),
        },
{
    let chars = chars_of(value);
    let len = chars.len();
    if len > MAX_DISPLAY_NAME_LENGTH {
        let mut msg: Vec<char> = Vec::new();
        push_str_chars(&mut msg, "長すぎます(");
        push_decimal(&mut msg, len as u64);
        push_str_chars(&mut msg, "文字、上限");
        push_decimal(&mut msg, MAX_DISPLAY_NAME_LENGTH as u64);
        push_str_chars(&mut msg, "文字)");
        return Err(string_from_chars(&msg));
    }
    match find_disallowed_char(&chars) {
        Some(c) => {
            let mut msg: Vec<char> = Vec::new();
            push_str_chars(&mut msg, "使用できない文字が含まれています(U+");
            push_hex_padded(&mut msg, c as u32, 4);
            push_str_chars(&mut msg, ")");
            Err(string_from_chars(&msg))
        },
        None => Ok(()),
    }
}

#[derive(Debug, Clone, Copy, PartialEq, Eq, Structural)]
pub enum PatternType {
    Literal,
    Regex,
}

#[derive(Debug, Clone, Copy, PartialEq, Eq, Structural)]
pub enum Mode {
    Fixed,
    Sequential,
}

/// Why `Rule::new` refused a rule.
#[derive(Debug)]
pub enum RuleError {
    InvalidName { name: String, reason: String },
    MissingFixedValue { name: String },
    MissingPrefix { name: String },
    InvalidRegex { name: String, source: regex::Error },
}

pub open spec fn rule_error_prefix(e: RuleError) -> Seq<char> {
    match e {
        RuleError::InvalidName { name, reason } => "ルール名 '"@ + name@ + "' が不正です: "@ + reason@,
        RuleError::MissingFixedValue { name } => "ルール '"@ + name@
            + "': mode='fixed' の場合は 'fixed_value' が必須です"@,
        RuleError::MissingPrefix { name } => "ルール '"@ + name@
            + "': mode='sequential' の場合は 'prefix' が必須です"@,
        RuleError::InvalidRegex { name, .. } => "ルール '"@ + name@
            + "': 'pattern' が正しい正規表現ではありません: "@,
    }
}

impl RuleError {
    /// The message that reports this error; for an invalid pattern it ends with the regular
    /// expression engine's own description.
    pub fn message(&self) -> (r: String)
        ensures
            !(*self is InvalidRegex) ==> r@ == rule_error_prefix(*self),
            *self is InvalidRegex ==> r@.len() >= rule_error_prefix(*self).len() && r@.take(
                rule_error_prefix(*self).len() as int,
            ) == rule_error_prefix(*self),
    {
        let mut out: Vec<char> = Vec::new();
        match self {
            RuleError::InvalidName { name, reason } => {
                push_str_chars(&mut out, "ルール名 '");
                push_str_chars(&mut out, name.as_str());
                push_str_chars(&mut out, "' が不正です: ");
                push_str_chars(&mut out, reason.as_str());
            },
            RuleError::MissingFixedValue { name } => {
                push_str_chars(&mut out, "ルール '");
                push_str_chars(&mut out, name.as_str());
                push_str_chars(&mut out, "': mode='fixed' の場合は 'fixed_value' が必須です");
            },
            RuleError::MissingPrefix { name } => {
                push_str_chars(&mut out, "ルール '");
                push_str_chars(&mut out, name.as_str());
                push_str_chars(&mut out, "': mode='sequential' の場合は 'prefix' が必須です");
            },
            RuleError::InvalidRegex { name, source } => {
                push_str_chars(&mut out, "ルール '");
                push_str_chars(&mut out, name.as_str());
                push_str_chars(&mut out, "': 'pattern' が正しい正規表現ではありません: ");
                let ghost before = out@;
                let detail = crate::regex_engine::regex_error_text(source);
                push_str_chars(&mut out, detail.as_str());
                assert(out@.take(before.len() as int) =~= before);
            },
        }
        string_from_chars(out.as_slice())
    }
}

/// The abstract content of a rule.
pub struct RuleView {
    pub name: Seq<char>,
    pub pattern_type: PatternType,
    pub pattern: Seq<char>,
    pub mode: Mode,
    pub fixed_value: Option<Seq<char>>,
    pub prefix: Option<Seq<char>>,
    pub enabled: bool,
    pub description: Option<Seq<char>>,
}

/// An optional text that is present and not empty.
pub open spec fn non_empty(o: Option<Seq<char>>) -> bool {
    o matches Some(s) && s.len() > 0
}

/// What every rule satisfies.
pub open spec fn rule_wf(r: RuleView) -> bool {
    &&& display_name_ok(r.name)
    &&& r.mode == Mode::Fixed ==> non_empty(r.fixed_value)
    &&& r.mode == Mode::Sequential ==> non_empty(r.prefix)
    &&& r.pattern_type == PatternType::Regex ==> regex_compiles(r.pattern, REGEX_SIZE_LIMIT_BYTES)
}

/// A rule that is accepted always has something to replace a match with: in fixed mode a
/// non-empty fixed value, in sequential mode a non-empty prefix. A missing or empty one is
/// refused, before the pattern is even looked at.
pub proof fn law_an_accepted_rule_has_a_replacement(
    name: Seq<char>,
    pattern_type: PatternType,
    pattern: Seq<char>,
    mode: Mode,
    fixed_value: Option<Seq<char>>,
    prefix: Option<Seq<char>>,
)
    ensures
        rule_check(name, pattern_type, pattern, mode, fixed_value, prefix) == RuleCheck::Valid ==> {
            &&& mode == Mode::Fixed ==> (fixed_value matches Some(v) && v.len() > 0)
            &&& mode == Mode::Sequential ==> (prefix matches Some(p) && p.len() > 0)
        },
        display_name_ok(name) && mode == Mode::Fixed && (fixed_value is None || fixed_value == Some(
            Seq::<char>::empty(),
        )) ==> rule_check(name, pattern_type, pattern, mode, fixed_value, prefix) == RuleCheck::MissingFixedValue,
        display_name_ok(name) && mode == Mode::Sequential && (prefix is None || prefix == Some(
            Seq::<char>::empty(),
        )) ==> rule_check(name, pattern_type, pattern, mode, fixed_value, prefix) == RuleCheck::MissingPrefix,
{
}

/// Every rule has something to replace a match with: the value of its mode is present and not
/// empty.
pub proof fn law_every_rule_has_a_replacement(r: RuleView)
    requires
        rule_wf(r),
    ensures
        r.mode == Mode::Fixed ==> (r.fixed_value matches Some(v) && v.len() > 0),
        r.mode == Mode::Sequential ==> (r.prefix matches Some(p) && p.len() > 0),
{
}

/// A masking rule: which text it matches (a literal or a regular expression) and how a match is
/// replaced (one fixed value, or a numbered value with a prefix).
#[derive(Debug)]
pub struct Rule {
    name: String,
    pattern_type: PatternType,
    pattern: String,
    mode: Mode,
    fixed_value: Option<String>,
    prefix: Option<String>,
    enabled: bool,
    description: Option<String>,
}

impl View for Rule {
    type V = RuleView;

    closed spec fn view(&self) -> RuleView {
        RuleView {
            name: self.name@,
            pattern_type: self.pattern_type,
            pattern: self.pattern@,
            mode: self.mode,
            fixed_value: self.fixed_value.deep_view(),
            prefix: self.prefix.deep_view(),
            enabled: self.enabled,
            description: self.description.deep_view(),
        }
    }
}

/// The outcome of `Rule::new` on the given fields, by error kind.
pub enum RuleCheck {
    InvalidName,
    MissingFixedValue,
    MissingPrefix,
    InvalidRegex,
    Valid,
}

pub open spec fn rule_check(
    name: Seq<char>,
    pattern_type: PatternType,
    pattern: Seq<char>,
    mode: Mode,
    fixed_value: Option<Seq<char>>,
    prefix: Option<Seq<char>>,
) -> RuleCheck {
    if !display_name_ok(name) {
        RuleCheck::InvalidName
    } else if mode == Mode::Fixed && !non_empty(fixed_value) {
        RuleCheck::MissingFixedValue
    } else if mode == Mode::Sequential && !non_empty(prefix) {
        RuleCheck::MissingPrefix
    } else if pattern_type == PatternType::Regex && !regex_compiles(
        pattern,
        REGEX_SIZE_LIMIT_BYTES,
    ) {
        RuleCheck::InvalidRegex
    } else {
        RuleCheck::Valid
    }
}

fn is_non_empty(o: &Option<String>) -> (r: bool)
    ensures
        r == non_empty(o.deep_view()),
{
    match o {
        Some(s) => !s.as_str().is_empty(),
        None => false,
    }
}

fn opt_str(o: &Option<String>) -> (r: Option<&str>)
    ensures
        r.deep_view() == o.deep_view(),
{
    match o {
        Some(s) => Some(s.as_str()),
        None => None,
    }
}

/// A copy of `o`.
pub fn clone_opt_string(o: &Option<String>) -> (r: Option<String>)
    ensures
        r.deep_view() == o.deep_view(),
{
    match o {
        Some(s) => Some(s.clone()),
        None => None,
    }
}

impl Rule {
    /// Every rule satisfies `rule_wf`.
    #[verifier::type_invariant]
    pub open spec fn inv(self) -> bool {
        rule_wf(self@)
    }

    #[allow(clippy::too_many_arguments)]
    pub fn new(
        name: String,
        pattern_type: PatternType,
        pattern: String,
        mode: Mode,
        fixed_value: Option<String>,
        prefix: Option<String>,
        enabled: bool,
        description: Option<String>,
    ) -> (r: Result<Rule, RuleError>)
        ensures
            match rule_check(
                name@,
                pattern_type,
                pattern@,
                mode,
                fixed_value.deep_view(),
                prefix.deep_view(),
            ) {
                RuleCheck::InvalidName => r matches Err(RuleError::InvalidName { name: n, reason })
                    && n@ == name@ && display_name_check(name@) == Err::<(), Seq<char>>(reason@),
                RuleCheck::MissingFixedValue => r matches Err(RuleError::MissingFixedValue { name: n })
                    && n@ == name@,
                RuleCheck::MissingPrefix => r matches Err(RuleError::MissingPrefix { name: n })
                    && n@ == name@,
                RuleCheck::InvalidRegex => r matches Err(RuleError::InvalidRegex { name: n, .. })
                    && n@ == name@,
                RuleCheck::Valid => r matches Ok(rule) && rule@ == (RuleView {
                    name: name@,
                    pattern_type,
                    pattern: pattern@,
                    mode,
                    fixed_value: fixed_value.deep_view(),
                    prefix: prefix.deep_view(),
                    enabled,
                    description: description.deep_view(),
                }),
            },
    {
        match validate_display_name(name.as_str()) {
            Err(reason) => {
                return Err(RuleError::InvalidName { name, reason });
            },
            Ok(()) => {},
        }
        if mode == Mode::Fixed && !is_non_empty(&fixed_value) {
            return Err(RuleError::MissingFixedValue { name });
        }
        if mode == Mode::Sequential && !is_non_empty(&prefix) {
            return Err(RuleError::MissingPrefix { name });
        }
        if pattern_type == PatternType::Regex {
            match compile_regex(pattern.as_str(), REGEX_SIZE_LIMIT_BYTES) {
                Err(source) => {
                    return Err(RuleError::InvalidRegex { name, source });
                },
                Ok(_) => {},
            }
        }
        Ok(Rule { name, pattern_type, pattern, mode, fixed_value, prefix, enabled, description })
    }

    /// A rule with the same content.
    pub fn duplicate(&self) -> (r: Rule)
        ensures
            r@ == self@,
    {
        proof {
            use_type_invariant(self);
        }
        Rule {
            name: self.name.clone(),
            pattern_type: self.pattern_type,
            pattern: self.pattern.clone(),
            mode: self.mode,
            fixed_value: clone_opt_string(&self.fixed_value),
            prefix: clone_opt_string(&self.prefix),
            enabled: self.enabled,
            description: clone_opt_string(&self.description),
        }
    }

    pub fn name(&self) -> (r: &str)
        ensures
            r@ == self@.name,
    {
        self.name.as_str()
    }

    pub fn pattern_type(&self) -> (r: PatternType)
        ensures
            r == self@.pattern_type,
    {
        self.pattern_type
    }

    pub fn pattern(&self) -> (r: &str)
        ensures
            r@ == self@.pattern,
    {
        self.pattern.as_str()
    }

    pub fn mode(&self) -> (r: Mode)
        ensures
            r == self@.mode,
    {
        self.mode
    }

    pub fn fixed_value(&self) -> (r: Option<&str>)
        ensures
            r.deep_view() == self@.fixed_value,
    {
        opt_str(&self.fixed_value)
    }

    pub fn prefix(&self) -> (r: Option<&str>)
        ensures
            r.deep_view() == self@.prefix,
    {
        opt_str(&self.prefix)
    }

    pub fn enabled(&self) -> (r: bool)
        ensures
            r == self@.enabled,
    {
        self.enabled
    }

    pub fn description(&self) -> (r: Option<&str>)
        ensures
            r.deep_view() == self@.description,
    {
        opt_str(&self.description)
    }
}

/// Why `RuleProfile::new` refused a profile.
#[derive(Debug)]
pub enum RuleProfileError {
    DuplicateRuleName { name: String },
    InvalidProfileName { reason: String },
}

/// How a refused profile is reported.
pub open spec fn profile_error_message(e: RuleProfileError) -> Seq<char> {
    match e {
        RuleProfileError::DuplicateRuleName { name } => "プロファイル内でルール名が重複しています: '"@
            + name@ + "'"@,
        RuleProfileError::InvalidProfileName { reason } => "プロファイル名が不正です: "@ + reason@,
    }
}

impl RuleProfileError {
    /// The message that reports this error.
    pub fn message(&self) -> (r: String)
        ensures
            r@ == profile_error_message(*self),
    {
        let mut out: Vec<char> = Vec::new();
        match self {
            RuleProfileError::DuplicateRuleName { name } => {
                push_str_chars(&mut out, "プロファイル内でルール名が重複しています: '");
                push_str_chars(&mut out, name.as_str());
                push_str_chars(&mut out, "'");
            },
            RuleProfileError::InvalidProfileName { reason } => {
                push_str_chars(&mut out, "プロファイル名が不正です: ");
                push_str_chars(&mut out, reason.as_str());
            },
        }
        string_from_chars(out.as_slice())
    }
}

/// The abstract content of a rule profile.
pub struct RuleProfileView {
    pub profile_name: Seq<char>,
    pub description: Option<Seq<char>>,
    pub rules: Seq<RuleView>,
}

/// The names of `rules`, in order.
pub open spec fn rule_names(rules: Seq<RuleView>) -> Seq<Seq<char>> {
    rules.map_values(|r: RuleView| r.name)
}

/// The first name at or after index `j` that also occurs before it.
pub open spec fn first_duplicate_from(names: Seq<Seq<char>>, j: int) -> Option<Seq<char>>
    decreases names.len() - j,
{
    if j < 0 || j >= names.len() {
        None
    } else if names.take(j).contains(names[j]) {
        Some(names[j])
    } else {
        first_duplicate_from(names, j + 1)
    }
}

pub open spec fn first_duplicate(names: Seq<Seq<char>>) -> Option<Seq<char>> {
    first_duplicate_from(names, 0)
}

pub open spec fn names_distinct(names: Seq<Seq<char>>) -> bool {
    forall|i: int, j: int| 0 <= i < j < names.len() ==> names[i] != names[j]
}

pub proof fn lemma_distinct_extend(names: Seq<Seq<char>>, j: int)
    requires
        0 <= j < names.len(),
        names_distinct(names.take(j)),
        !names.take(j).contains(names[j]),
    ensures
        names_distinct(names.take(j + 1)),
{
    let t = names.take(j + 1);
    assert forall|a: int, b: int| 0 <= a < b < t.len() implies #[trigger] t[a] != #[trigger] t[b] by {
        if b == j {
            assert(names.take(j)[a] == t[a]);
        } else {
            assert(names.take(j)[a] != names.take(j)[b]);
        }
    }
}

pub proof fn lemma_first_duplicate_from(names: Seq<Seq<char>>, j: int)
    requires
        0 <= j <= names.len(),
        names_distinct(names.take(j)),
    ensures
        first_duplicate_from(names, j) is None <==> names_distinct(names),
    decreases names.len() - j,
{
    if j < names.len() {
        if names.take(j).contains(names[j]) {
            let k = choose|k: int| 0 <= k < j && names.take(j)[k] == names[j];
            assert(names[k] == names[j]);
        } else {
            lemma_distinct_extend(names, j);
            lemma_first_duplicate_from(names, j + 1);
        }
    } else {
        assert(names.take(j) =~= names);
    }
}

/// What every rule profile satisfies.
pub open spec fn profile_wf(p: RuleProfileView) -> bool {
    &&& display_name_ok(p.profile_name)
    &&& names_distinct(rule_names(p.rules))
    &&& forall|i: int| 0 <= i < p.rules.len() ==> rule_wf(#[trigger] p.rules[i])
}

/// A named, ordered set of rules whose names are distinct (the store of replacement values uses
/// a rule's name as part of its key).
#[derive(Debug)]
pub struct RuleProfile {
    profile_name: String,
    description: Option<String>,
    rules: Vec<Rule>,
}

impl View for RuleProfile {
    type V = RuleProfileView;

    closed spec fn view(&self) -> RuleProfileView {
        RuleProfileView {
            profile_name: self.profile_name@,
            description: self.description.deep_view(),
            rules: self.rules@.map_values(|r: Rule| r@),
        }
    }
}

impl RuleProfile {
    /// Every profile satisfies `profile_wf`.
    #[verifier::type_invariant]
    pub open spec fn inv(self) -> bool {
        profile_wf(self@)
    }

    pub fn new(profile_name: String, description: Option<String>, rules: Vec<Rule>) -> (r: Result<
        RuleProfile,
        RuleProfileError,
    >)
        ensures
            !display_name_ok(profile_name@) ==> (r matches Err(
                RuleProfileError::InvalidProfileName { reason },
            ) && display_name_check(profile_name@) == Err::<(), Seq<char>>(reason@)),
            display_name_ok(profile_name@) ==> match first_duplicate(
                rule_names(rules@.map_values(|r: Rule| r@)),
            ) {
                Some(n) => r matches Err(RuleProfileError::DuplicateRuleName { name }) && name@
                    == n,
                None => r matches Ok(p) && p@ == (RuleProfileView {
                    profile_name: profile_name@,
                    description: description.deep_view(),
                    rules: rules@.map_values(|r: Rule| r@),
                }),
            },
    {
        match validate_display_name(profile_name.as_str()) {
            Err(reason) => {
                return Err(RuleProfileError::InvalidProfileName { reason });
            },
            Ok(()) => {},
        }
        let ghost views = rules@.map_values(|r: Rule| r@);
        let ghost names = rule_names(views);
        let mut seen = vstd::hash_set::StringHashSet::new();
        let mut j: usize = 0;
        while j < rules.len()
            invariant
                j <= rules@.len(),
                display_name_ok(profile_name@),
                views == rules@.map_values(|r: Rule| r@),
                names == rule_names(views),
                names.len() == rules@.len(),
                seen@ == names.take(j as int).to_set(),
                first_duplicate(names) == first_duplicate_from(names, j as int),
                names_distinct(names.take(j as int)),
                forall|i: int| 0 <= i < j ==> rule_wf(#[trigger] views[i]),
            decreases rules@.len() - j,
        {
            let rule = &rules[j];
            let name = rule.name();
            proof {
                use_type_invariant(rule);
                assert(names[j as int] == name@);
                assert(names.take(j as int).contains(names[j as int]) <==> seen@.contains(name@))
                    by {
                    if seen@.contains(name@) {
                        assert(names.take(j as int).to_set().contains(name@));
                    }
                }
            }
            if seen.contains(name) {
                return Err(RuleProfileError::DuplicateRuleName { name: name.to_owned() });
            }
            seen.insert(name.to_owned());
            proof {
                assert(names.take(j + 1) =~= names.take(j as int).push(names[j as int]));
                names.take(j as int).lemma_push_to_set_commute(names[j as int]);
                lemma_distinct_extend(names, j as int);
            }
            j += 1;
        }
        proof {
            lemma_first_duplicate_from(names, rules@.len() as int);
            assert(names.take(rules@.len() as int) =~= names);
        }
        Ok(RuleProfile { profile_name, description, rules })
    }

    pub fn profile_name(&self) -> (r: &str)
        ensures
            r@ == self@.profile_name,
    {
        self.profile_name.as_str()
    }

    pub fn description(&self) -> (r: Option<&str>)
        ensures
            r.deep_view() == self@.description,
    {
        opt_str(&self.description)
    }

    pub fn rules(&self) -> (r: &[Rule])
        ensures
            r@.map_values(|x: Rule| x@) == self@.rules,
    {
        self.rules.as_slice()
    }
}

} // verus!
