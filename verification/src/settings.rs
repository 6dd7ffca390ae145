//! The player's settings.
use crate::models::PublicSettings;
use crate::text::{same, to_upper, upper};
use vstd::prelude::*;

verus! {

/// The file that the settings are kept in, below the application's data.
pub const SETTINGS_FILE: &'static str = "settings.json";

/// What the player has set.
#[derive(Debug)]
pub struct Settings {
    /// A rank bracket, or `auto` for the player's own.
    pub rank_bracket: String,
    pub owned_only: bool,
    pub comfort_weighting: bool,
    pub always_on_top: bool,
    /// The role to assume where the client assigns none.
    pub role_override: String,
    /// The version of the update that the player does not want to hear of.
    pub dismissed_update: Option<String>,
}

impl Clone for Settings {
    fn clone(&self) -> (copy: Self)
        ensures
            copy == *self,
    {
        Settings {
            rank_bracket: self.rank_bracket.clone(),
            owned_only: self.owned_only,
            comfort_weighting: self.comfort_weighting,
            always_on_top: self.always_on_top,
            role_override: self.role_override.clone(),
            dismissed_update: self.dismissed_update.clone(),
        }
    }
}

impl Default for Settings {
    fn default() -> (settings: Self)
        ensures
            settings.rank_bracket@ == "auto"@,
            settings.owned_only,
            settings.comfort_weighting,
            settings.always_on_top,
            settings.role_override@ == "middle"@,
            settings.dismissed_update is None,
    {
        Settings {
            rank_bracket: "auto".to_string(),
            owned_only: true,
            comfort_weighting: true,
            always_on_top: true,
            role_override: "middle".to_string(),
            dismissed_update: None,
        }
    }
}

/// What is to be set anew; the rest stays.
#[derive(Debug)]
pub struct SettingsPatch {
    pub rank_bracket: Option<String>,
    pub owned_only: Option<bool>,
    pub comfort_weighting: Option<bool>,
    pub always_on_top: Option<bool>,
    pub role_override: Option<String>,
}

/// The new value where there is one, else the old.
pub open spec fn or_old<T>(new: Option<T>, old_value: T) -> T {
    match new {
        Some(value) => value,
        None => old_value,
    }
}

/// The bracket that a tier falls into.
pub open spec fn bracket_of(tier: Seq<char>) -> Seq<char> {
    let name = upper(tier);
    if name == "CHALLENGER"@ || name == "GRANDMASTER"@ || name == "MASTER"@ || name == "DIAMOND"@ {
        "diamond_plus"@
    } else if name == "PLATINUM"@ {
        "platinum_plus"@
    } else if name == "GOLD"@ {
        "gold_plus"@
    } else {
        "emerald_plus"@
    }
}

/// The bracket that a tier falls into; one that is not known, or too low to have
/// statistics of its own, is read as Emerald.
pub fn tier_to_bracket(tier: &str) -> (bracket: String)
    ensures
        bracket@ == bracket_of(tier@),
{
    let name = to_upper(tier);
    if same(&name, "CHALLENGER") || same(&name, "GRANDMASTER") || same(&name, "MASTER") || same(
        &name,
        "DIAMOND",
    ) {
        "diamond_plus".to_string()
    } else if same(&name, "PLATINUM") {
        "platinum_plus".to_string()
    } else if same(&name, "GOLD") {
        "gold_plus".to_string()
    } else {
        "emerald_plus".to_string()
    }
}

impl Settings {
    /// The bracket to read statistics at, where the player's own tier may be known.
    pub open spec fn rank_for(self, detected: Option<Seq<char>>) -> Seq<char> {
        if self.rank_bracket@ != "auto"@ {
            self.rank_bracket@
        } else {
            match detected {
                Some(tier) => bracket_of(tier),
                None => "emerald_plus"@,
            }
        }
    }

    /// The settings that the overlay shows.
    pub fn public(&self) -> (shown: PublicSettings)
        ensures
            shown.rank_bracket@ == self.rank_bracket@,
            shown.owned_only == self.owned_only,
            shown.comfort_weighting == self.comfort_weighting,
            shown.always_on_top == self.always_on_top,
            shown.role_override@ == self.role_override@,
    {
        PublicSettings {
            rank_bracket: self.rank_bracket.clone(),
            owned_only: self.owned_only,
            comfort_weighting: self.comfort_weighting,
            always_on_top: self.always_on_top,
            role_override: self.role_override.clone(),
        }
    }

    /// The bracket to read statistics at: the one that is set, else that of the
    /// player's own tier, else Emerald.
    pub fn resolved_rank(&self, detected: &Option<String>) -> (rank: String)
        ensures
            rank@ == self.rank_for(
                match detected {
                    Some(tier) => Some(tier@),
                    None => None,
                },
            ),
    {
        if !same(&self.rank_bracket, "auto") {
            return self.rank_bracket.clone();
        }
        match detected {
            Some(tier) => tier_to_bracket(tier),
            None => "emerald_plus".to_string(),
        }
    }

    /// Takes over what is to be set anew.
    pub fn apply(&mut self, patch: SettingsPatch)
        ensures
            final(self).rank_bracket == or_old(patch.rank_bracket, old(self).rank_bracket),
            final(self).owned_only == or_old(patch.owned_only, old(self).owned_only),
            final(self).comfort_weighting == or_old(
                patch.comfort_weighting,
                old(self).comfort_weighting,
            ),
            final(self).always_on_top == or_old(patch.always_on_top, old(self).always_on_top),
            final(self).role_override == or_old(patch.role_override, old(self).role_override),
            final(self).dismissed_update == old(self).dismissed_update,
    {
        if let Some(v) = patch.rank_bracket {
            self.rank_bracket = v;
        }
        if let Some(v) = patch.owned_only {
            self.owned_only = v;
        }
        if let Some(v) = patch.comfort_weighting {
            self.comfort_weighting = v;
        }
        if let Some(v) = patch.always_on_top {
            self.always_on_top = v;
        }
        if let Some(v) = patch.role_override {
            self.role_override = v;
        }
    }
}

/// The three highest tiers count as Diamond, Platinum and Gold as themselves, and every
/// other tier as Emerald, in any case of the letters.
pub proof fn law_brackets(tier: Seq<char>)
    ensures
        ({
            let name = upper(tier);
            &&& name == "CHALLENGER"@ || name == "GRANDMASTER"@ || name == "MASTER"@ || name
                == "DIAMOND"@ ==> bracket_of(tier) == "diamond_plus"@
            &&& name == "PLATINUM"@ ==> bracket_of(tier) == "platinum_plus"@
            &&& name == "GOLD"@ ==> bracket_of(tier) == "gold_plus"@
            &&& name == "EMERALD"@ || name == "SILVER"@ || name == "BRONZE"@ || name == "IRON"@
                ==> bracket_of(tier) == "emerald_plus"@
            &&& name != "CHALLENGER"@ && name != "GRANDMASTER"@ && name != "MASTER"@ && name
                != "DIAMOND"@ && name != "PLATINUM"@ && name != "GOLD"@ ==> bracket_of(tier)
                == "emerald_plus"@
        }),
{
    reveal_strlit("CHALLENGER");
    reveal_strlit("GRANDMASTER");
    reveal_strlit("MASTER");
    reveal_strlit("DIAMOND");
    reveal_strlit("PLATINUM");
    reveal_strlit("GOLD");
    reveal_strlit("EMERALD");
    reveal_strlit("SILVER");
    reveal_strlit("BRONZE");
    reveal_strlit("IRON");
    assert("CHALLENGER"@[0] == 'C' && "GRANDMASTER"@[0] == 'G' && "MASTER"@[0] == 'M'
        && "DIAMOND"@[0] == 'D' && "PLATINUM"@[0] == 'P' && "GOLD"@[0] == 'G');
    assert("EMERALD"@[0] == 'E' && "SILVER"@[0] == 'S' && "BRONZE"@[0] == 'B' && "IRON"@[0] == 'I');
    assert("GRANDMASTER"@.len() == 11 && "GOLD"@.len() == 4);
}

/// A bracket that the player has set is read at, whatever their own tier; only on `auto`
/// does that decide, and Emerald is read at where it is not known.
pub proof fn law_set_bracket_wins(
    settings: Settings,
    detected: Option<Seq<char>>,
    tier: Seq<char>,
)
    ensures
        settings.rank_bracket@ != "auto"@ ==> settings.rank_for(detected)
            == settings.rank_bracket@,
        settings.rank_bracket@ == "auto"@ ==> settings.rank_for(Some(tier)) == bracket_of(tier),
        settings.rank_bracket@ == "auto"@ ==> settings.rank_for(None) == "emerald_plus"@,
{
}

/// What is set anew is the new value, and what is not stays.
pub proof fn law_new_or_old<T>(value: T, kept: T)
    ensures
        or_old(Some(value), kept) == value,
        or_old(None, kept) == kept,
{
}

} // verus!
