//! The Codex CLI version that the UI shows: the package's own, unless a version supplied
//! from outside was recorded.

use vstd::prelude::*;

use crate::text::{
    chars_of, lemma_strip_both, string_from_chars, trim, trim_chars, white_space_pred,
};

verus! {

/// A version recorded at most once (the first non-blank one supplied wins).
pub struct VersionOverride {
    recorded: Option<String>,
}

impl View for VersionOverride {
    type V = Option<Seq<char>>;

    closed spec fn view(&self) -> Option<Seq<char>> {
        match self.recorded {
            Some(v) => Some(v@),
            None => None,
        }
    }
}

impl VersionOverride {
    /// A recorded version is trimmed and not blank.
    #[verifier::type_invariant]
    closed spec fn recorded_is_trimmed(self) -> bool {
        self.recorded matches Some(v) ==> v@.len() > 0 && trim(v@) == v@
    }

    /// Nothing recorded yet.
    pub fn new() -> (r: Self)
        ensures
            r@ is None,
    {
        VersionOverride { recorded: None }
    }

    /// The recorded version, if any: trimmed and not blank.
    pub fn recorded(&self) -> (r: Option<&str>)
        ensures
            r matches Some(s) ==> self@ == Some(s@),
            r is None ==> self@ is None,
            well_recorded(self@),
    {
        proof {
            use_type_invariant(self);
        }
        match &self.recorded {
            Some(v) => Some(v.as_str()),
            None => None,
        }
    }
}

/// The recorded version after `version` is supplied: its trimmed text, unless it is
/// blank or a version was already recorded.
pub open spec fn after_override(recorded: Option<Seq<char>>, version: Seq<char>) -> Option<
    Seq<char>,
> {
    if trim(version).len() == 0 || recorded is Some {
        recorded
    } else {
        Some(trim(version))
    }
}

/// The version shown: the recorded one, else the package's.
pub open spec fn shown_version(recorded: Option<Seq<char>>, package_version: Seq<char>) -> Seq<
    char,
> {
    match recorded {
        Some(v) => v,
        None => package_version,
    }
}

/// Records the externally supplied Codex CLI version: trimmed, ignored when blank, and
/// only the first one recorded.
pub fn set_codex_cli_version_override(slot: &mut VersionOverride, version: String)
    ensures
        final(slot)@ == after_override(old(slot)@, version@),
        well_recorded(final(slot)@),
{
    proof {
        use_type_invariant(&*slot);
    }
    let v = chars_of(version.as_str());
    let trimmed = trim_chars(v.as_slice());
    proof {
        lemma_strip_both(v@, white_space_pred());
    }
    if trimmed.len() == 0 {
        return;
    }
    if slot.recorded.is_none() {
        proof {
            lemma_strip_both(v@, white_space_pred());
        }
        slot.recorded = Some(string_from_chars(trimmed.as_slice()));
    }
}

/// The Codex CLI version shown in the UI and sent in runtime metadata.
pub fn codex_cli_version<'a>(slot: &'a VersionOverride, package_version: &'a str) -> (r: &'a str)
    ensures
        r@ == shown_version(slot@, package_version@),
        well_recorded(slot@),
        slot@ is Some ==> r@.len() > 0,
        package_version@.len() > 0 ==> r@.len() > 0,
{
    proof {
        use_type_invariant(slot);
    }
    match &slot.recorded {
        Some(v) => v.as_str(),
        None => package_version,
    }
}


/// The first non-blank version recorded stays: later ones change nothing.
pub proof fn law_first_override_wins(recorded: Option<Seq<char>>, first: Seq<char>, later: Seq<char>)
    requires
        after_override(recorded, first) is Some,
    ensures
        after_override(after_override(recorded, first), later) == after_override(
            recorded,
            first,
        ),
{
}

/// Once a non-blank version is supplied with nothing recorded, the version shown is that
/// version, trimmed, whatever the package's.
pub proof fn law_override_shown(version: Seq<char>, package_version: Seq<char>)
    requires
        trim(version).len() > 0,
    ensures
        shown_version(after_override(None, version), package_version) == trim(version),
{
}

/// A blank version changes nothing.
pub proof fn law_blank_override_ignored(recorded: Option<Seq<char>>, version: Seq<char>)
    requires
        trim(version).len() == 0,
    ensures
        after_override(recorded, version) == recorded,
{
}


/// Supplying versions keeps a recorded version trimmed and not blank.
pub open spec fn well_recorded(recorded: Option<Seq<char>>) -> bool {
    recorded matches Some(v) ==> v.len() > 0 && trim(v) == v
}

/// Whatever is supplied, a recorded version stays trimmed and not blank, so the version
/// shown is blank only when nothing is recorded and the package's version is blank.
pub proof fn law_recorded_version_not_blank(
    recorded: Option<Seq<char>>,
    version: Seq<char>,
    package_version: Seq<char>,
)
    requires
        well_recorded(recorded),
    ensures
        well_recorded(after_override(recorded, version)),
        after_override(recorded, version) is Some || package_version.len() > 0 ==> shown_version(
            after_override(recorded, version),
            package_version,
        ).len() > 0,
{
    lemma_strip_both(version, white_space_pred());
}


/// The version recorded after the versions `versions` are supplied in order.
pub open spec fn after_overrides(recorded: Option<Seq<char>>, versions: Seq<Seq<char>>) -> Option<
    Seq<char>,
>
    decreases versions.len(),
{
    if versions.len() == 0 {
        recorded
    } else {
        after_overrides(after_override(recorded, versions[0]), versions.drop_first())
    }
}

/// The first of `versions` that is not blank, trimmed.
pub open spec fn first_non_blank(versions: Seq<Seq<char>>) -> Option<Seq<char>>
    decreases versions.len(),
{
    if versions.len() == 0 {
        None
    } else if trim(versions[0]).len() > 0 {
        Some(trim(versions[0]))
    } else {
        first_non_blank(versions.drop_first())
    }
}

/// Once a version is recorded, no later version replaces it.
proof fn lemma_recorded_stays(v: Seq<char>, versions: Seq<Seq<char>>)
    ensures
        after_overrides(Some(v), versions) == Some(v),
    decreases versions.len(),
{
    if versions.len() > 0 {
        lemma_recorded_stays(v, versions.drop_first());
    }
}

/// Starting with nothing recorded, after any sequence of versions the one recorded is
/// the first that is not blank, trimmed, and the version shown is that one, or the
/// package's when every version supplied was blank.
pub proof fn law_override_sequence(versions: Seq<Seq<char>>, package_version: Seq<char>)
    ensures
        after_overrides(None, versions) == first_non_blank(versions),
        shown_version(after_overrides(None, versions), package_version) == match first_non_blank(
            versions,
        ) {
            Some(v) => v,
            None => package_version,
        },
    decreases versions.len(),
{
    if versions.len() > 0 {
        if trim(versions[0]).len() > 0 {
            lemma_recorded_stays(trim(versions[0]), versions.drop_first());
        } else {
            law_override_sequence(versions.drop_first(), package_version);
        }
    }
}

} // verus!
