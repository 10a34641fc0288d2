//! What the policy pages read from requests: the new-policy form and policy
//! identifiers in paths, and the links that lead to a policy's page.

use vstd::prelude::*;
use crate::ids::{hex_digits, lemma_uuid_text_parses_back, uuid_hyphenated, uuid_new_v4, uuid_parse_spec, uuid_parse_str, uuid_to_text};
use crate::models::{parse_kind_spec, BackupPolicy, BackupPolicyView, PolicyKind};
use crate::text::{is_whitespace, lemma_trim_drops_only_surrounding_whitespace, parse_u64, parse_u64_spec, trim, trim_spec};

verus! {

/// A filled-in new-policy form, checked.
#[derive(Clone, Debug)]
pub struct PolicyForm {
    pub path: String,
    pub max_staleness: u64,
    pub kind: PolicyKind,
    pub recursive: bool,
}

/// The mathematical value of a checked form.
pub struct PolicyFormView {
    pub path: Seq<char>,
    pub max_staleness: u64,
    pub kind: PolicyKind,
    pub recursive: bool,
}

impl View for PolicyForm {
    type V = PolicyFormView;

    open spec fn view(&self) -> PolicyFormView {
        PolicyFormView {
            path: self.path@,
            max_staleness: self.max_staleness,
            kind: self.kind,
            recursive: self.recursive,
        }
    }
}

/// Why a new-policy form is refused.
#[derive(Clone, Copy, Debug, PartialEq, Eq, Structural)]
pub enum FormError {
    /// The path field is missing or holds only whitespace.
    MissingPath,
    /// The max-staleness field is missing or not a whole number of milliseconds.
    InvalidMaxStaleness,
    /// The kind field is missing or names no policy kind.
    InvalidKind,
}

/// The text of an optional field.
pub open spec fn field_view(f: Option<&str>) -> Option<Seq<char>> {
    match f {
        Some(s) => Some(s@),
        None => None,
    }
}

/// What a new-policy form gives: the fields are checked in the order path, max
/// staleness, kind, and the first that fails decides the error. The path is kept
/// without its surrounding whitespace; a recursive box is ticked when the field is sent.
pub open spec fn form_result(
    path: Option<Seq<char>>,
    max_staleness: Option<Seq<char>>,
    kind: Option<Seq<char>>,
    recursive: bool,
) -> Result<PolicyFormView, FormError> {
    if path is None || trim_spec(path->0).len() == 0 {
        Err(FormError::MissingPath)
    } else if max_staleness is None || parse_u64_spec(max_staleness->0) is None {
        Err(FormError::InvalidMaxStaleness)
    } else if kind is None || parse_kind_spec(kind->0) is None {
        Err(FormError::InvalidKind)
    } else {
        Ok(
            PolicyFormView {
                path: trim_spec(path->0),
                max_staleness: parse_u64_spec(max_staleness->0)->0,
                kind: parse_kind_spec(kind->0)->0,
                recursive,
            },
        )
    }
}

/// A form is accepted exactly when its path field is present and not all whitespace,
/// its max-staleness field reads as a `u64`, and its kind field names a kind; the
/// accepted policy keeps the path without its surrounding whitespace, the number and
/// kind read, and the recursive box. A refusal names the first failing field in the
/// order path, max staleness, kind.
pub proof fn lemma_form_accepts_exactly_complete_forms(
    path: Option<Seq<char>>,
    max_staleness: Option<Seq<char>>,
    kind: Option<Seq<char>>,
    recursive: bool,
)
    ensures
        ({
            let path_ok = path matches Some(p) && exists|i: int|
                0 <= i < p.len() && !is_whitespace(#[trigger] p[i]);
            let staleness_ok = max_staleness matches Some(v) && parse_u64_spec(v) is Some;
            let kind_ok = kind matches Some(k) && parse_kind_spec(k) is Some;
            let r = form_result(path, max_staleness, kind, recursive);
            &&& (r is Ok <==> path_ok && staleness_ok && kind_ok)
            &&& (r matches Ok(f) ==> f.path == trim_spec(path->0) && f.max_staleness
                == parse_u64_spec(max_staleness->0)->0 && f.kind == parse_kind_spec(kind->0)->0
                && f.recursive == recursive)
            &&& (r == Err::<PolicyFormView, FormError>(FormError::MissingPath) <==> !path_ok)
            &&& (r == Err::<PolicyFormView, FormError>(FormError::InvalidMaxStaleness) <==> path_ok
                && !staleness_ok)
            &&& (r == Err::<PolicyFormView, FormError>(FormError::InvalidKind) <==> path_ok
                && staleness_ok && !kind_ok)
        }),
{
    if let Some(p) = path {
        lemma_trim_drops_only_surrounding_whitespace(p);
        if trim_spec(p).len() == 0 {
            assert(!exists|i: int| 0 <= i < p.len() && !is_whitespace(#[trigger] p[i]));
        } else {
            assert(exists|i: int| 0 <= i < p.len() && !is_whitespace(#[trigger] p[i])) by {
                let i = choose|i: int| 0 <= i < p.len() && !is_whitespace(#[trigger] p[i]);
                assert(!is_whitespace(p[i]));
            }
        }
    }
}

/// The text of the answer to a refused form.
pub open spec fn form_error_text(e: FormError) -> Seq<char> {
    match e {
        FormError::MissingPath => seq![
            'P', 'a', 't', 'h', ' ', 'i', 's', ' ', 'r', 'e', 'q', 'u', 'i', 'r', 'e', 'd'
        ],
        FormError::InvalidMaxStaleness => seq![
            'I', 'n', 'v', 'a', 'l', 'i', 'd', ' ', 'm', 'a', 'x', ' ', 's', 't', 'a', 'l', 'e',
            'n', 'e', 's', 's', ' ', 'v', 'a', 'l', 'u', 'e'
        ],
        FormError::InvalidKind => seq![
            'I', 'n', 'v', 'a', 'l', 'i', 'd', ' ', 'p', 'o', 'l', 'i', 'c', 'y', ' ', 'k', 'i',
            'n', 'd'
        ],
    }
}

impl FormError {
    /// The text of the answer (a bad request) to a form refused for this reason.
    pub fn message(&self) -> (r: &'static str)
        ensures
            r@ == form_error_text(*self),
    {
        match self {
            FormError::MissingPath => {
                proof { reveal_strlit("Path is required"); }
                let r = "Path is required";
                assert(r@ =~= form_error_text(*self));
                r
            },
            FormError::InvalidMaxStaleness => {
                proof { reveal_strlit("Invalid max staleness value"); }
                let r = "Invalid max staleness value";
                assert(r@ =~= form_error_text(*self));
                r
            },
            FormError::InvalidKind => {
                proof { reveal_strlit("Invalid policy kind"); }
                let r = "Invalid policy kind";
                assert(r@ =~= form_error_text(*self));
                r
            },
        }
    }
}

/// Checks a new-policy form: the fields `path`, `max_staleness` and `kind` as sent,
/// and whether a `recursive` field was sent.
pub fn parse_policy_form(
    path: Option<&str>,
    max_staleness: Option<&str>,
    kind: Option<&str>,
    recursive: bool,
) -> (r: Result<PolicyForm, FormError>)
    ensures
        match r {
            Ok(f) => form_result(field_view(path), field_view(max_staleness), field_view(kind), recursive)
                == Ok::<PolicyFormView, FormError>(f@),
            Err(e) => form_result(field_view(path), field_view(max_staleness), field_view(kind), recursive)
                == Err::<PolicyFormView, FormError>(e),
        },
{
    let path = match path {
        Some(p) => {
            let t = trim(p);
            if t.unicode_len() == 0 {
                return Err(FormError::MissingPath);
            }
            String::from_str(t)
        },
        None => return Err(FormError::MissingPath),
    };
    let max_staleness = match max_staleness {
        Some(s) => match parse_u64(s) {
            Some(v) => v,
            None => return Err(FormError::InvalidMaxStaleness),
        },
        None => return Err(FormError::InvalidMaxStaleness),
    };
    let kind = match kind {
        Some(k) => match PolicyKind::from_str(k) {
            Ok(k) => k,
            Err(_) => return Err(FormError::InvalidKind),
        },
        None => return Err(FormError::InvalidKind),
    };
    Ok(PolicyForm { path, max_staleness, kind, recursive })
}

impl PolicyForm {
    /// The policy that the form describes, under the identifier `id`.
    pub fn into_policy(self, id: u128) -> (r: BackupPolicy)
        ensures
            r@ == (BackupPolicyView {
                id,
                path: self@.path,
                max_staleness: self@.max_staleness,
                kind: self@.kind,
                recursive: self@.recursive,
            }),
    {
        BackupPolicy {
            id,
            path: self.path,
            max_staleness: self.max_staleness,
            kind: self.kind,
            recursive: self.recursive,
        }
    }

    /// The policy that the form describes, under a fresh random identifier of
    /// version 4 and the standard variant (its digit after the third hyphen is
    /// `8`, `9`, `a` or `b`).
    pub fn into_new_policy(self) -> (r: BackupPolicy)
        ensures
            r.path@ == self@.path,
            r.max_staleness == self@.max_staleness,
            r.kind == self@.kind,
            r.recursive == self@.recursive,
            uuid_hyphenated(r.id)[14] == '4',
            uuid_hyphenated(r.id)[19] == '8' || uuid_hyphenated(r.id)[19] == '9'
                || uuid_hyphenated(r.id)[19] == 'a' || uuid_hyphenated(r.id)[19] == 'b',
    {
        let id = uuid_new_v4();
        proof { lemma_version_digit(id); }
        self.into_policy(id)
    }
}

proof fn lemma_version_digit(id: u128)
    requires
        hex_digits(id as nat, 32)[12] == '4',
    ensures
        uuid_hyphenated(id)[14] == '4',
        uuid_hyphenated(id)[19] == hex_digits(id as nat, 32)[16],
{
    crate::ids::lemma_hex_digits_len(id as nat, 32);
}

/// The policy identifier in a page's path, if the text is a UUID in any form that
/// `Uuid::parse_str` reads.
pub fn parse_policy_id(text: &str) -> (r: Option<u128>)
    ensures
        r == uuid_parse_spec(text@),
{
    uuid_parse_str(text)
}

/// The text under which a policy identifier is stored and shown: lower-case,
/// hyphenated. It reads back as the same identifier.
pub fn policy_id_text(id: u128) -> (r: String)
    ensures
        r@ == uuid_hyphenated(id),
        uuid_parse_spec(r@) == Some(id),
{
    proof { lemma_uuid_text_parses_back(id); }
    uuid_to_text(id)
}

/// The beginning of the path of a policy's page.
pub open spec fn policy_page_prefix() -> Seq<char> {
    seq![
        '/', 'b', 'a', 'c', 'k', 'u', 'p', '-', 'b', 'u', 'd', 'd', 'y', '/', 'p', 'o', 'l', 'i',
        'c', 'y', '/'
    ]
}

/// The link to the page of the policy `id`. The identifier in it reads back as `id`.
pub fn policy_href(id: u128) -> (r: String)
    ensures
        r@ == policy_page_prefix() + uuid_hyphenated(id),
        uuid_parse_spec(r@.skip(policy_page_prefix().len() as int)) == Some(id),
{
    proof { reveal_strlit("/backup-buddy/policy/"); }
    assert("/backup-buddy/policy/"@ =~= policy_page_prefix());
    let mut r = String::from_str("/backup-buddy/policy/");
    let text = uuid_to_text(id);
    r.append(text.as_str());
    proof {
        lemma_uuid_text_parses_back(id);
        assert(r@.skip(policy_page_prefix().len() as int) =~= uuid_hyphenated(id));
    }
    r
}

} // verus!
