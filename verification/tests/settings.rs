//! Settings, profile and catalog.
use rift_counterpick::catalog::{
    build_catalog, champions_url, ddragon_to_patch, latest_version, lolalytics_slug, Catalog,
    DdragonChampion,
};
use rift_counterpick::models::{legal_boilerplate, lcu_role_to_stats, normalize_role};
use rift_counterpick::riot::{
    self, profile_mastery, profile_request, profile_tier, LeagueEntry, MasteryEntry, ProfileError,
    RiotProfile,
};
use rift_counterpick::settings::{tier_to_bracket, Settings, SettingsPatch};

#[test]
fn maps_known_tiers_to_brackets() {
    assert_eq!(tier_to_bracket("diamond"), "diamond_plus");
    assert_eq!(tier_to_bracket("GOLD"), "gold_plus");
    assert_eq!(tier_to_bracket("iron"), "emerald_plus");
}

#[test]
fn every_tier_has_a_bracket() {
    for tier in ["Challenger", "GRANDMASTER", "master", "DIAMOND"] {
        assert_eq!(tier_to_bracket(tier), "diamond_plus");
        assert_eq!(riot::tier_to_bracket(tier), "diamond_plus");
    }
    assert_eq!(tier_to_bracket("platinum"), "platinum_plus");
    assert_eq!(tier_to_bracket("emerald"), "emerald_plus");
    assert_eq!(tier_to_bracket(""), "emerald_plus");
}

#[test]
fn a_set_bracket_wins_over_the_own_tier() {
    let mut settings = Settings::default();
    assert_eq!(settings.resolved_rank(&None), "emerald_plus");
    assert_eq!(settings.resolved_rank(&Some("GOLD".into())), "gold_plus");
    settings.rank_bracket = "platinum_plus".into();
    assert_eq!(settings.resolved_rank(&Some("GOLD".into())), "platinum_plus");
}

#[test]
fn settings_start_out_as_documented() {
    let s = Settings::default();
    assert_eq!(s.rank_bracket, "auto");
    assert_eq!(s.role_override, "middle");
    assert!(s.owned_only && s.comfort_weighting && s.always_on_top);
    assert_eq!(s.dismissed_update, None);
    let shown = s.public();
    assert_eq!(shown.rank_bracket, "auto");
    assert_eq!(shown.role_override, "middle");
}

#[test]
fn a_patch_leaves_the_rest_alone() {
    let mut s = Settings::default();
    s.apply(SettingsPatch {
        rank_bracket: None,
        owned_only: Some(false),
        comfort_weighting: None,
        always_on_top: None,
        role_override: Some("top".into()),
    });
    assert!(!s.owned_only);
    assert!(s.comfort_weighting && s.always_on_top);
    assert_eq!(s.role_override, "top");
    assert_eq!(s.rank_bracket, "auto");
}

#[test]
fn roles_go_by_many_names() {
    assert_eq!(normalize_role(" ADC "), "bottom");
    assert_eq!(normalize_role("Jng"), "jungle");
    assert_eq!(normalize_role("UTILITY"), "support");
    assert_eq!(normalize_role("mid_lane"), "middle");
    assert_eq!(normalize_role("TOP_LANE"), "top");
    assert_eq!(normalize_role(" Fill "), "fill");
    assert_eq!(lcu_role_to_stats("utility"), "support");
    assert_eq!(lcu_role_to_stats(""), "");
    for raw in ["ADC", "jg", "Mid", "supp", "fill", " x y "] {
        let once = normalize_role(raw);
        assert_eq!(normalize_role(&once), once);
    }
}

#[test]
fn notice_is_there() {
    assert!(legal_boilerplate().starts_with("Rift Counterpick is not endorsed by Riot Games"));
}

#[test]
fn solo_rank_comes_first() {
    let entry = |queue: Option<&str>, tier: Option<&str>| LeagueEntry {
        queue_type: queue.map(str::to_string),
        tier: tier.map(str::to_string),
    };
    let entries =
        vec![entry(Some("RANKED_FLEX_SR"), Some("DIAMOND")), entry(Some("RANKED_SOLO_5x5"), Some("GOLD"))];
    assert_eq!(profile_tier(&entries).as_deref(), Some("GOLD"));
    assert_eq!(
        profile_tier(&vec![entry(None, Some("SILVER")), entry(Some("x"), Some("GOLD"))]).as_deref(),
        Some("SILVER")
    );
    assert_eq!(profile_tier(&Vec::new()), None);
    assert_eq!(RiotProfile::default().tier, None);
}

#[test]
fn incomplete_mastery_is_passed_over() {
    let entry = |id: Option<i64>, points: Option<i64>| MasteryEntry {
        champion_id: id,
        champion_level: Some(4),
        champion_points: points,
    };
    let map = profile_mastery(&vec![entry(Some(1), Some(10)), entry(None, Some(1)), entry(Some(2), None)]);
    assert_eq!(map.len(), 1);
    assert_eq!(map.get(&1), Some(&(4, 10)));
}

#[test]
fn a_profile_needs_credentials() {
    assert_eq!(profile_request("", "euw1", "p").err(), Some(ProfileError::MissingCredentials));
    assert_eq!(profile_request("k", "euw1", "").err(), Some(ProfileError::MissingCredentials));
    let request = profile_request("k", "euw1", "p").unwrap();
    assert_eq!(
        request.league_url,
        "https://euw1.api.riotgames.com/lol/league/v4/entries/by-puuid/p"
    );
    assert_eq!(
        request.mastery_url,
        "https://euw1.api.riotgames.com/lol/champion-mastery/v4/champion-masteries/by-puuid/p"
    );
}

fn listed(id: &str, key: &str, name: &str) -> DdragonChampion {
    DdragonChampion { id: id.into(), key: key.into(), name: name.into() }
}

#[test]
fn the_catalog_lists_numbered_champions() {
    let champions = vec![
        listed("MonkeyKing", "62", "Wukong"),
        listed("Kaisa", "145", "Kai'Sa"),
        listed("Broken", "zero", "Broken"),
        listed("Nil", "0", "Nil"),
    ];
    let catalog = build_catalog("15.1.1", &champions);
    assert_eq!(catalog.patch, "15.1");
    assert_eq!(catalog.ddragon_version, "15.1.1");
    assert_eq!(catalog.by_id.len(), 2);
    assert_eq!(catalog.slug_by_id.get(&62).map(String::as_str), Some("wukong"));
    let kaisa = &catalog.by_id[&145];
    assert_eq!(kaisa.slug, "kaisa");
    assert_eq!(kaisa.key, "145");
    assert!(kaisa.icon_url.ends_with("/champion-icons/145.png"));
    assert_eq!(catalog.clone().by_id.len(), 2);
    assert_eq!(Catalog::default().by_id.len(), 0);
}

#[test]
fn slugs_patches_and_addresses() {
    assert_eq!(lolalytics_slug("Nunu", "Nunu & Willump"), "nunu");
    assert_eq!(lolalytics_slug("DrMundo", "Dr. Mundo"), "drmundo");
    assert_eq!(ddragon_to_patch("15"), "15");
    assert_eq!(ddragon_to_patch("15.24.1"), "15.24");
    assert_eq!(latest_version(&vec!["16.1.1".into(), "15.24.1".into()]).as_deref(), Some("16.1.1"));
    assert_eq!(latest_version(&Vec::new()), None);
    assert_eq!(
        champions_url("16.1.1"),
        "https://ddragon.leagueoflegends.com/cdn/16.1.1/data/en_US/champion.json"
    );
}
