//! Backup policies, their kinds, and the row form in which they are stored.

use vstd::prelude::*;
use crate::ids::{uuid_hyphenated, uuid_parse_spec, uuid_parse_str, uuid_to_text, lemma_uuid_text_parses_back};
use crate::text::str_eq;

verus! {

/// The error of reading a policy kind from text that names none.
#[derive(Clone, Copy, Debug, PartialEq, Eq, Structural)]
pub struct ParsePolicyKindError;

impl ParsePolicyKindError {
    /// The error's text.
    pub fn message(&self) -> (r: &'static str)
        ensures
            r@ == seq!['i', 'n', 'v', 'a', 'l', 'i', 'd', ' ', 'p', 'o', 'l', 'i', 'c', 'y', ' ', 'k', 'i', 'n', 'd'],
    {
        proof { reveal_strlit("invalid policy kind"); }
        let r = "invalid policy kind";
        assert(r@ =~= seq!['i', 'n', 'v', 'a', 'l', 'i', 'd', ' ', 'p', 'o', 'l', 'i', 'c', 'y', ' ', 'k', 'i', 'n', 'd']);
        r
    }
}

/// What a policy asks for the paths it covers.
#[derive(Clone, Copy, Debug, PartialEq, Eq, Structural)]
pub enum PolicyKind {
    /// The paths are to be backed up.
    Backup,
    /// The paths are deliberately left out of backups.
    Exclude,
    /// The policy decides nothing; the paths count as uncovered.
    Null,
}

/// The name of a policy kind, as it is stored and shown.
pub open spec fn kind_name(k: PolicyKind) -> Seq<char> {
    match k {
        PolicyKind::Backup => seq!['b', 'a', 'c', 'k', 'u', 'p'],
        PolicyKind::Exclude => seq!['e', 'x', 'c', 'l', 'u', 'd', 'e'],
        PolicyKind::Null => seq!['n', 'u', 'l', 'l'],
    }
}

/// The policy kind that the text `s` names exactly, if any.
pub open spec fn parse_kind_spec(s: Seq<char>) -> Option<PolicyKind> {
    if s == kind_name(PolicyKind::Backup) {
        Some(PolicyKind::Backup)
    } else if s == kind_name(PolicyKind::Exclude) {
        Some(PolicyKind::Exclude)
    } else if s == kind_name(PolicyKind::Null) {
        Some(PolicyKind::Null)
    } else {
        None
    }
}

impl PolicyKind {
    /// Reads a policy kind from its exact, lower-case name.
    pub fn from_str(s: &str) -> (r: Result<PolicyKind, ParsePolicyKindError>)
        ensures
            r == (match parse_kind_spec(s@) {
                Some(k) => Ok(k),
                None => Err(ParsePolicyKindError),
            }),
    {
        proof {
            reveal_strlit("backup");
            reveal_strlit("exclude");
            reveal_strlit("null");
        }
        assert("backup"@ =~= kind_name(PolicyKind::Backup));
        assert("exclude"@ =~= kind_name(PolicyKind::Exclude));
        assert("null"@ =~= kind_name(PolicyKind::Null));
        if str_eq(s, "backup") {
            Ok(PolicyKind::Backup)
        } else if str_eq(s, "exclude") {
            Ok(PolicyKind::Exclude)
        } else if str_eq(s, "null") {
            Ok(PolicyKind::Null)
        } else {
            Err(ParsePolicyKindError)
        }
    }

    /// The kind's name.
    pub fn to_string(&self) -> (r: String)
        ensures
            r@ == kind_name(*self),
    {
        proof {
            reveal_strlit("backup");
            reveal_strlit("exclude");
            reveal_strlit("null");
        }
        match self {
            PolicyKind::Backup => {
                assert("backup"@ =~= kind_name(PolicyKind::Backup));
                String::from_str("backup")
            },
            PolicyKind::Exclude => {
                assert("exclude"@ =~= kind_name(PolicyKind::Exclude));
                String::from_str("exclude")
            },
            PolicyKind::Null => {
                assert("null"@ =~= kind_name(PolicyKind::Null));
                String::from_str("null")
            },
        }
    }
}

/// Reading a kind's name gives the kind back.
pub proof fn lemma_kind_name_parses_back(k: PolicyKind)
    ensures
        parse_kind_spec(kind_name(k)) == Some(k),
{
    assert(kind_name(PolicyKind::Backup) != kind_name(PolicyKind::Exclude));
    assert(kind_name(PolicyKind::Backup) != kind_name(PolicyKind::Null));
    assert(kind_name(PolicyKind::Exclude) != kind_name(PolicyKind::Null));
}

/// Text that reads as a kind is that kind's name, character for character.
pub proof fn lemma_parsed_kind_is_its_name(s: Seq<char>)
    ensures
        parse_kind_spec(s) matches Some(k) ==> kind_name(k) == s,
{
}

/// A backup policy: what to do with the files at and (if recursive) below a path.
#[derive(Clone, Debug)]
pub struct BackupPolicy {
    pub id: u128,
    pub path: String,
    /// max age between backups in milliseconds
    pub max_staleness: u64,
    pub kind: PolicyKind,
    pub recursive: bool,
}

/// The mathematical value of a backup policy.
pub struct BackupPolicyView {
    pub id: u128,
    pub path: Seq<char>,
    pub max_staleness: u64,
    pub kind: PolicyKind,
    pub recursive: bool,
}

impl View for BackupPolicy {
    type V = BackupPolicyView;

    open spec fn view(&self) -> BackupPolicyView {
        BackupPolicyView {
            id: self.id,
            path: self.path@,
            max_staleness: self.max_staleness,
            kind: self.kind,
            recursive: self.recursive,
        }
    }
}

/// The columns of a stored policy: the identifier and the kind as text.
#[derive(Clone, Debug)]
pub struct PolicyRow {
    pub id: String,
    pub path: String,
    pub max_staleness: u64,
    pub kind: String,
    pub recursive: bool,
}

/// Why stored columns do not make a policy.
#[derive(Clone, Copy, Debug, PartialEq, Eq, Structural)]
pub enum RowError {
    /// The identifier column is not a UUID.
    InvalidId,
    /// The kind column names no policy kind.
    InvalidKind,
}

/// The policy that stored columns describe: the identifier is read first, then the kind.
pub open spec fn decode_row(
    id: Seq<char>,
    path: Seq<char>,
    max_staleness: u64,
    kind: Seq<char>,
    recursive: bool,
) -> Result<BackupPolicyView, RowError> {
    match uuid_parse_spec(id) {
        None => Err(RowError::InvalidId),
        Some(u) => match parse_kind_spec(kind) {
            None => Err(RowError::InvalidKind),
            Some(k) => Ok(
                BackupPolicyView { id: u, path, max_staleness, kind: k, recursive },
            ),
        },
    }
}

impl BackupPolicy {
    /// The columns under which the policy is stored. They decode to the same policy.
    pub fn to_row(&self) -> (r: PolicyRow)
        ensures
            r.id@ == uuid_hyphenated(self.id),
            r.path@ == self.path@,
            r.max_staleness == self.max_staleness,
            r.kind@ == kind_name(self.kind),
            r.recursive == self.recursive,
            decode_row(r.id@, r.path@, r.max_staleness, r.kind@, r.recursive) == Ok::<
                BackupPolicyView,
                RowError,
            >(self@),
    {
        let r = PolicyRow {
            id: uuid_to_text(self.id),
            path: self.path.clone(),
            max_staleness: self.max_staleness,
            kind: self.kind.to_string(),
            recursive: self.recursive,
        };
        proof {
            lemma_uuid_text_parses_back(self.id);
            lemma_kind_name_parses_back(self.kind);
        }
        r
    }

    /// The policy that stored columns describe, or why they describe none.
    pub fn from_row(row: PolicyRow) -> (r: Result<BackupPolicy, RowError>)
        ensures
            match r {
                Ok(p) => decode_row(row.id@, row.path@, row.max_staleness, row.kind@, row.recursive)
                    == Ok::<BackupPolicyView, RowError>(p@),
                Err(e) => decode_row(row.id@, row.path@, row.max_staleness, row.kind@, row.recursive)
                    == Err::<BackupPolicyView, RowError>(e),
            },
    {
        let id = match uuid_parse_str(row.id.as_str()) {
            Some(u) => u,
            None => return Err(RowError::InvalidId),
        };
        let kind = match PolicyKind::from_str(row.kind.as_str()) {
            Ok(k) => k,
            Err(_) => return Err(RowError::InvalidKind),
        };
        Ok(
            BackupPolicy {
                id,
                path: row.path,
                max_staleness: row.max_staleness,
                kind,
                recursive: row.recursive,
            },
        )
    }
}

/// An instant, as seconds and nanoseconds since the Unix epoch (UTC).
#[derive(Clone, Copy, Debug, PartialEq, Eq, Structural)]
pub struct Timestamp {
    pub secs: i64,
    pub nanos: u32,
}

/// How a backup attempt ended.
#[derive(Clone, Copy, Debug, PartialEq, Eq, Structural)]
pub enum BackupAttemptStatus {
    Succeeded,
    Failed,
}

/// One attempt at backing up what a policy covers.
#[derive(Clone, Copy, Debug, PartialEq, Eq, Structural)]
pub struct BackupAttempt {
    pub id: u128,
    pub policy_id: u128,
    pub started_at: Timestamp,
    pub completed_at: Timestamp,
    pub status: BackupAttemptStatus,
}

} // verus!
