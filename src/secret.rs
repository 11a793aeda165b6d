use vstd::prelude::*;

verus! {

/// The variants of secret-manager configuration.
#[derive(Debug, Clone, Copy, PartialEq, Eq)]
pub enum SecretManagerKind {
    /// Secrets held in a Stronghold snapshot file.
    Stronghold,
    /// Secrets held on a Ledger Nano device or its simulator.
    LedgerNano,
    /// Secrets derived from a mnemonic held in memory.
    Mnemonic,
    /// No secrets at all.
    Placeholder,
}

/// The persistence policy of each variant: a mnemonic-derived secret manager
/// cannot be rebuilt from a snapshot, so it is never written.
pub open spec fn persisted(kind: SecretManagerKind) -> bool {
    match kind {
        SecretManagerKind::Stronghold => true,
        SecretManagerKind::LedgerNano => true,
        SecretManagerKind::Mnemonic => false,
        SecretManagerKind::Placeholder => true,
    }
}

/// The persistence policy of `kind`: exactly `persisted`.
pub fn is_persisted(kind: SecretManagerKind) -> (r: bool)
    ensures
        r == persisted(kind),
{
    match kind {
        SecretManagerKind::Stronghold => true,
        SecretManagerKind::LedgerNano => true,
        SecretManagerKind::Mnemonic => false,
        SecretManagerKind::Placeholder => true,
    }
}

/// The character that tags a variant in a persisted snapshot.
pub open spec fn kind_tag(kind: SecretManagerKind) -> char {
    match kind {
        SecretManagerKind::Stronghold => 'S',
        SecretManagerKind::LedgerNano => 'L',
        SecretManagerKind::Mnemonic => 'M',
        SecretManagerKind::Placeholder => 'P',
    }
}

/// The variant that a tag character names.
pub open spec fn kind_of_tag(c: char) -> Option<SecretManagerKind> {
    if c == 'S' {
        Some(SecretManagerKind::Stronghold)
    } else if c == 'L' {
        Some(SecretManagerKind::LedgerNano)
    } else if c == 'M' {
        Some(SecretManagerKind::Mnemonic)
    } else if c == 'P' {
        Some(SecretManagerKind::Placeholder)
    } else {
        None
    }
}

/// A serialisable snapshot of a secret manager: its variant and the
/// serialised configuration of that variant.
#[derive(Debug, Clone, PartialEq, Eq)]
pub struct SecretManagerSnapshot {
    pub kind: SecretManagerKind,
    pub data: String,
}

/// The persisted text of a snapshot: its tag, then its data.
pub open spec fn snapshot_text(kind: SecretManagerKind, data: Seq<char>) -> Seq<char> {
    seq![kind_tag(kind)] + data
}

/// The variant and data that a persisted text holds, if it holds a snapshot.
pub open spec fn snapshot_of_text(t: Seq<char>) -> Option<(SecretManagerKind, Seq<char>)> {
    if t.len() >= 1 && kind_of_tag(t[0]) is Some {
        Some((kind_of_tag(t[0])->Some_0, t.subrange(1, t.len() as int)))
    } else {
        None
    }
}

fn tag_str(kind: SecretManagerKind) -> (r: &'static str)
    ensures
        r@ == seq![kind_tag(kind)],
{
    match kind {
        SecretManagerKind::Stronghold => {
            proof { reveal_strlit("S"); }
            "S"
        },
        SecretManagerKind::LedgerNano => {
            proof { reveal_strlit("L"); }
            "L"
        },
        SecretManagerKind::Mnemonic => {
            proof { reveal_strlit("M"); }
            "M"
        },
        SecretManagerKind::Placeholder => {
            proof { reveal_strlit("P"); }
            "P"
        },
    }
}

fn kind_from_tag(c: char) -> (r: Option<SecretManagerKind>)
    ensures
        r == kind_of_tag(c),
{
    if c == 'S' {
        Some(SecretManagerKind::Stronghold)
    } else if c == 'L' {
        Some(SecretManagerKind::LedgerNano)
    } else if c == 'M' {
        Some(SecretManagerKind::Mnemonic)
    } else if c == 'P' {
        Some(SecretManagerKind::Placeholder)
    } else {
        None
    }
}

impl SecretManagerSnapshot {
    /// The persisted text of this snapshot.
    pub fn encode(&self) -> (r: String)
        ensures
            r@ == snapshot_text(self.kind, self.data@),
    {
        let mut text = String::from_str(tag_str(self.kind));
        text.append(self.data.as_str());
        text
    }

    /// Reads a persisted snapshot: exactly `snapshot_of_text`.
    pub fn decode(text: &str) -> (r: Option<SecretManagerSnapshot>)
        ensures
            r is Some <==> snapshot_of_text(text@) is Some,
            r is Some ==> r->Some_0.kind == snapshot_of_text(text@)->Some_0.0
                && r->Some_0.data@ == snapshot_of_text(text@)->Some_0.1,
    {
        let len = text.unicode_len();
        if len == 0 {
            return None;
        }
        match kind_from_tag(text.get_char(0)) {
            Some(kind) => {
                let data = String::from_str(text.substring_char(1, len));
                Some(SecretManagerSnapshot { kind, data })
            },
            None => None,
        }
    }
}

/// A snapshot's text reads back as the same snapshot.
pub proof fn lemma_snapshot_round_trip(kind: SecretManagerKind, data: Seq<char>)
    ensures
        snapshot_of_text(snapshot_text(kind, data)) == Some((kind, data)),
{
    let t = snapshot_text(kind, data);
    assert(t[0] == kind_tag(kind));
    assert(t.subrange(1, t.len() as int) =~= data);
}

} // verus!
