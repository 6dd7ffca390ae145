//! What the overlay knows, and how it changes with what happens.
use crate::catalog::Catalog;
use crate::engine::pool::taken;
use crate::engine::{
    is_taken, recommend, recommended, Appraisal, Candidate, Plan, ScoreContext,
};
use crate::lcu::client::{game_name, shown_name, summoner_name, tagged_name};
use crate::lcu::draft::{draft_from_session, is_draft_of};
use crate::lcu::types::{ChampSelectSession, CurrentSummoner};
use crate::models::{
    legal_boilerplate, AppSnapshot, AppUpdate, DraftView, LcuStatus, Progress, Recommendation,
    StatsStatus, LEGAL,
};
use crate::settings::{or_old, Settings, SettingsPatch};
use crate::clock::Moment;
use crate::stats::ingest::{cache_is_fresh, fresh, IngestProgress};
use crate::stats::cache::{all_roles, Cache};
use crate::stats::store::StatsDb;
use crate::text::{concat, is_same, lower, maybe_text, same, same_ignoring_case};
use crate::update::{is_offer, normalized, offer_from_release, offered, GithubAsset, GithubRelease};
use std::collections::{HashMap, HashSet};
use vstd::prelude::*;

verus! {

broadcast use vstd::std_specs::hash::group_hash_axioms;

/// What the overlay knows.
#[derive(Debug)]
pub struct InnerState {
    pub settings: Settings,
    pub catalog: Option<Catalog>,
    pub lcu: LcuStatus,
    pub game_phase: Option<String>,
    pub draft: Option<DraftView>,
    pub pickable: HashSet<i64>,
    pub owned: HashSet<i64>,
    pub mastery: HashMap<i64, (i64, i64)>,
    pub recommendations: Vec<Recommendation>,
    pub stats: StatsStatus,
    pub update: Option<AppUpdate>,
    pub current_version: String,
}

/// What is to be done with the window.
#[derive(Debug, Clone, Copy, PartialEq, Eq, Structural)]
pub enum WindowAction {
    Show,
    Hide,
    Stay,
}

/// The phase is the one in which champions are picked.
pub open spec fn in_champ_select(phase: Option<Seq<char>>) -> bool {
    phase matches Some(p) && lower(p) == lower("ChampSelect"@)
}

/// Whether the phase is the one in which champions are picked.
pub fn is_champ_select(phase: &Option<String>) -> (r: bool)
    ensures
        r == in_champ_select(maybe_text(*phase)),
{
    match phase {
        Some(p) => same_ignoring_case(p, "ChampSelect"),
        None => false,
    }
}

/// How long to wait until the client is asked again, in milliseconds.
pub fn poll_delay(client_found: bool, phase: &Option<String>) -> (ms: u64)
    ensures
        ms == (if !client_found {
            1500
        } else if in_champ_select(maybe_text(*phase)) {
            400
        } else {
            1600u64
        }),
{
    if !client_found {
        1500
    } else if is_champ_select(phase) {
        400
    } else {
        1600
    }
}

impl InnerState {
    /// There are no cards without a draft.
    pub open spec fn orderly(self) -> bool {
        self.draft is None ==> self.recommendations@.len() == 0
    }

    /// Champions are being picked.
    pub open spec fn selecting(self) -> bool {
        in_champ_select(maybe_text(self.game_phase))
    }

    /// There is no draft but while champions are being picked.
    pub open spec fn attuned(self) -> bool {
        self.draft is Some ==> self.selecting()
    }

    /// The window follows the lobby: it is shown when champions begin to be picked,
    /// hidden exactly when that is over, and never shown without it.
    pub open spec fn window_follows(self, before: InnerState, action: WindowAction) -> bool {
        &&& !before.selecting() && self.selecting() ==> action == WindowAction::Show
        &&& before.selecting() && !self.selecting() <==> action == WindowAction::Hide
        &&& action == WindowAction::Show ==> self.selecting()
    }

    /// All but the cards is as it was.
    pub open spec fn same_but_cards(self, before: InnerState) -> bool {
        self == (InnerState { recommendations: self.recommendations, ..before })
    }

    /// What the ranking goes by.
    pub open spec fn is_context(self, ctx: ScoreContext, patch: Seq<char>) -> bool {
        &&& ctx.rank@ == self.settings.rank_for(maybe_text(self.lcu.detected_rank))
        &&& ctx.patch@ == patch
        &&& ctx.owned_only == self.settings.owned_only
        &&& ctx.comfort_weighting == self.settings.comfort_weighting
        &&& ctx.pickable == self.pickable
        &&& ctx.owned == self.owned
        &&& ctx.mastery == self.mastery
    }

    /// The cards are those for the draft; there are none without a draft or
    /// without a catalog.
    pub open spec fn cards_fit<F: Fn(&Plan, &Candidate) -> Appraisal>(
        self,
        cache: Cache,
        appraise: F,
    ) -> bool {
        match (self.catalog, self.draft) {
            (Some(catalog), Some(draft)) => exists|ctx: ScoreContext|
                self.is_context(ctx, catalog.patch@) && #[trigger] recommended(
                    self.recommendations@,
                    cache,
                    catalog,
                    draft,
                    ctx,
                    appraise,
                ),
            _ => self.recommendations@.len() == 0,
        }
    }

    /// What is known at the start.
    pub fn new(settings: Settings, current_version: String) -> (state: InnerState)
        ensures
            state.settings == settings,
            state.current_version == current_version,
            state.catalog is None,
            !state.lcu.connected,
            state.lcu.summoner_name is None,
            state.lcu.game_name is None,
            state.lcu.detected_rank is None,
            state.game_phase is None,
            state.draft is None,
            state.pickable@ == Set::<i64>::empty(),
            state.owned@ == Set::<i64>::empty(),
            state.mastery@ == Map::<i64, (i64, i64)>::empty(),
            state.recommendations@.len() == 0,
            state.stats.tells(false, false, None, "Waiting to load stats"@, 0),
            state.update is None,
            state.orderly(),
            state.attuned(),
    {
        InnerState {
            settings,
            catalog: None,
            lcu: LcuStatus::default(),
            game_phase: None,
            draft: None,
            pickable: HashSet::new(),
            owned: HashSet::new(),
            mastery: HashMap::new(),
            recommendations: Vec::new(),
            stats: StatsStatus::default(),
            update: None,
            current_version,
        }
    }

    /// What the overlay shows.
    pub fn snapshot(&self) -> (snap: AppSnapshot)
        ensures
            snap.lcu == self.lcu,
            snap.game_phase == self.game_phase,
            match (snap.draft, self.draft) {
                (Some(shown), Some(draft)) => shown.same_draft(draft),
                (None, None) => true,
                _ => false,
            },
            snap.recommendations@ == self.recommendations@,
            snap.stats == self.stats,
            snap.settings.rank_bracket@ == self.settings.rank_bracket@,
            snap.settings.owned_only == self.settings.owned_only,
            snap.settings.comfort_weighting == self.settings.comfort_weighting,
            snap.settings.always_on_top == self.settings.always_on_top,
            snap.settings.role_override@ == self.settings.role_override@,
            snap.catalog_ready == self.catalog is Some,
            snap.legal@ == LEGAL@,
            snap.update == self.update,
    {
        let draft = match &self.draft {
            Some(draft) => Some(draft.clone()),
            None => None,
        };
        let update = match &self.update {
            Some(update) => Some(update.clone()),
            None => None,
        };
        let recommendations = self.recommendations.clone();
        assert(recommendations@ =~= self.recommendations@);
        AppSnapshot {
            lcu: self.lcu.clone(),
            game_phase: self.game_phase.clone(),
            draft,
            recommendations,
            stats: self.stats.clone(),
            settings: self.settings.public(),
            catalog_ready: self.catalog.is_some(),
            legal: legal_boilerplate(),
            update,
        }
    }

    /// The bracket to read statistics at.
    pub fn rank(&self) -> (rank: String)
        ensures
            rank@ == self.settings.rank_for(maybe_text(self.lcu.detected_rank)),
    {
        self.settings.resolved_rank(&self.lcu.detected_rank)
    }

    /// Ranks the champions anew for the draft as it is.
    pub fn rescore<F: Fn(&Plan, &Candidate) -> Appraisal>(&mut self, db: &StatsDb, appraise: F)
        requires
            forall|p: &Plan, c: &Candidate| call_requires(appraise, (p, c)),
        ensures
            old(self).orderly() ==> final(self).orderly(),
            final(self).same_but_cards(*old(self)),
            final(self).cards_fit(db@, appraise),
    {
        let patch = match (&self.catalog, &self.draft) {
            (Some(catalog), Some(_)) => catalog.patch.clone(),
            _ => {
                self.recommendations = Vec::new();
                return;
            },
        };
        let mut ctx = ScoreContext {
            rank: self.rank(),
            patch,
            owned_only: self.settings.owned_only,
            comfort_weighting: self.settings.comfort_weighting,
            pickable: HashSet::new(),
            owned: HashSet::new(),
            mastery: HashMap::new(),
        };
        std::mem::swap(&mut ctx.pickable, &mut self.pickable);
        std::mem::swap(&mut ctx.owned, &mut self.owned);
        std::mem::swap(&mut ctx.mastery, &mut self.mastery);
        let ghost context = ctx;
        let recs = match (&self.catalog, &self.draft) {
            (Some(catalog), Some(draft)) => recommend(db, catalog, draft, &ctx, appraise),
            _ => Vec::new(),
        };
        std::mem::swap(&mut ctx.pickable, &mut self.pickable);
        std::mem::swap(&mut ctx.owned, &mut self.owned);
        std::mem::swap(&mut ctx.mastery, &mut self.mastery);
        self.recommendations = recs;
        proof {
            assert(self.is_context(context, self.catalog->0.patch@));
            assert(recommended(
                self.recommendations@,
                db@,
                self.catalog->0,
                self.draft->0,
                context,
                appraise,
            ));
        }
    }
}

/// `settings` are the old ones with what is to be set anew.
pub open spec fn is_patched(settings: Settings, before: Settings, patch: SettingsPatch) -> bool {
    &&& settings.rank_bracket == or_old(patch.rank_bracket, before.rank_bracket)
    &&& settings.owned_only == or_old(patch.owned_only, before.owned_only)
    &&& settings.comfort_weighting == or_old(patch.comfort_weighting, before.comfort_weighting)
    &&& settings.always_on_top == or_old(patch.always_on_top, before.always_on_top)
    &&& settings.role_override == or_old(patch.role_override, before.role_override)
    &&& settings.dismissed_update == before.dismissed_update
}

impl InnerState {
    /// Takes over new settings and ranks by them.
    pub fn update_settings<F: Fn(&Plan, &Candidate) -> Appraisal>(
        &mut self,
        db: &StatsDb,
        patch: SettingsPatch,
        appraise: F,
    )
        requires
            forall|p: &Plan, c: &Candidate| call_requires(appraise, (p, c)),
        ensures
            old(self).orderly() ==> final(self).orderly(),
            is_patched(final(self).settings, old(self).settings, patch),
            final(self).same_but_cards(
                InnerState { settings: final(self).settings, ..*old(self) },
            ),
            final(self).cards_fit(db@, appraise),
    {
        self.settings.apply(patch);
        self.rescore(db, appraise);
    }
}

// ------------------------------------------------------------ the client

/// What the client answered when it was asked.
#[derive(Debug)]
pub struct Refresh {
    pub summoner: Option<CurrentSummoner>,
    pub phase: Option<String>,
    pub tier: Option<String>,
    pub owned: HashSet<i64>,
    pub mastery: HashMap<i64, (i64, i64)>,
    pub session: Option<ChampSelectSession>,
    pub pickable: HashSet<i64>,
}

/// One of the champions is not taken.
pub open spec fn some_free(ids: Set<i64>, draft: DraftView) -> bool {
    exists|id: i64| #[trigger] ids.contains(id) && !taken(draft, id)
}

/// Whether one of the champions is not taken.
pub fn any_free(ids: &HashSet<i64>, draft: &DraftView) -> (r: bool)
    ensures
        r == some_free(ids@, *draft),
{
    for id in it: ids.iter()
        invariant
            it.seq().unref().to_set() == ids@,
            forall|j: int| 0 <= j < it.index() ==> taken(*draft, *#[trigger] it.seq()[j]),
    {
        if !is_taken(draft, *id) {
            assert(it.seq().unref()[it.index()] == *id);
            assert(ids@.contains(*id));
            return true;
        }
    }
    proof {
        assert forall|id: i64| #[trigger] ids@.contains(id) implies taken(*draft, id) by {}
    }
    false
}

impl LcuStatus {
    /// What is known of the client once it has answered.
    pub open spec fn follows(self, before: LcuStatus, refresh: Refresh) -> bool {
        &&& self.connected == refresh.summoner is Some
        &&& match refresh.summoner {
            Some(s) => maybe_text(self.summoner_name) == Some(shown_name(s)) && maybe_text(
                self.game_name,
            ) == Some(tagged_name(s)),
            None => self.summoner_name == before.summoner_name && self.game_name
                == before.game_name,
        }
        &&& self.detected_rank == refresh.tier
    }
}

/// The phase after a refresh: the new one where there is one.
pub open spec fn phase_after(before: Option<String>, refresh: Refresh) -> Option<String> {
    if refresh.phase is Some {
        refresh.phase
    } else {
        before
    }
}

/// A refresh that says the lobby is over: no session, and another phase.
pub open spec fn leaves_lobby(refresh: Refresh) -> bool {
    refresh.session is None && refresh.phase is Some && !in_champ_select(maybe_text(refresh.phase))
}

impl InnerState {
    /// What is known of the lobby once the client has answered: its draft where
    /// there is a session, nothing where the lobby is over, else what was known.
    pub open spec fn lobby_follows(self, before: InnerState, refresh: Refresh) -> bool {
        match refresh.session {
            Some(session) => {
                &&& self.draft matches Some(draft) && is_draft_of(
                    draft,
                    session,
                    before.settings.role_override@,
                )
                &&& if !refresh.pickable@.is_empty() && some_free(refresh.pickable@, self.draft->0) {
                    self.pickable == refresh.pickable
                } else {
                    self.pickable == before.pickable
                }
            },
            None => if leaves_lobby(refresh) {
                self.draft is None && self.pickable@ == Set::<i64>::empty()
            } else {
                self.draft == before.draft && self.pickable == before.pickable
            },
        }
    }

    /// Takes over what the client answered, and says what is to be done with the
    /// window: it is shown when a lobby begins and hidden when it is over.
    pub fn refresh<F: Fn(&Plan, &Candidate) -> Appraisal>(
        &mut self,
        db: &StatsDb,
        refresh: Refresh,
        appraise: F,
    ) -> (action: WindowAction)
        requires
            forall|p: &Plan, c: &Candidate| call_requires(appraise, (p, c)),
        ensures
            old(self).orderly() ==> final(self).orderly(),
            old(self).attuned() && (refresh.session is Some ==> in_champ_select(
                maybe_text(refresh.phase),
            )) ==> final(self).attuned() && final(self).window_follows(*old(self), action),
            final(self).lcu.follows(old(self).lcu, refresh),
            final(self).game_phase == phase_after(old(self).game_phase, refresh),
            final(self).owned == refresh.owned,
            final(self).mastery == (if refresh.mastery@.len() == 0 {
                old(self).mastery
            } else {
                refresh.mastery
            }),
            final(self).lobby_follows(*old(self), refresh),
            refresh.session is Some ==> final(self).cards_fit(db@, appraise),
            leaves_lobby(refresh) ==> final(self).recommendations@.len() == 0,
            refresh.session is None && !leaves_lobby(refresh) ==> final(self).recommendations
                == old(self).recommendations,
            final(self).settings == old(self).settings,
            final(self).catalog == old(self).catalog,
            final(self).stats == old(self).stats,
            final(self).update == old(self).update,
            final(self).current_version == old(self).current_version,
            action == (if (!in_champ_select(maybe_text(old(self).game_phase)) && in_champ_select(
                maybe_text(final(self).game_phase),
            )) || (old(self).draft is None && final(self).draft is Some) {
                WindowAction::Show
            } else if in_champ_select(maybe_text(old(self).game_phase)) && refresh.phase is Some
                && !in_champ_select(maybe_text(refresh.phase)) {
                WindowAction::Hide
            } else {
                WindowAction::Stay
            }),
    {
        let Refresh { summoner, phase, tier, owned, mastery, session, pickable } = refresh;
        let was_selecting = is_champ_select(&self.game_phase);
        let had_draft = self.draft.is_some();
        let moved_on = phase.is_some() && !is_champ_select(&phase);
        self.lcu.connected = summoner.is_some();
        if let Some(s) = &summoner {
            self.lcu.summoner_name = Some(summoner_name(s));
            self.lcu.game_name = Some(game_name(s));
        }
        self.lcu.detected_rank = tier;
        if phase.is_some() {
            self.game_phase = phase;
        }
        self.owned = owned;
        if mastery.len() > 0 {
            self.mastery = mastery;
        }
        match &session {
            Some(session) => {
                let draft = draft_from_session(session, &self.settings.role_override);
                if !pickable.is_empty() && any_free(&pickable, &draft) {
                    self.pickable = pickable;
                }
                self.draft = Some(draft);
                self.rescore(db, appraise);
            },
            None => {
                if moved_on {
                    self.pickable = HashSet::new();
                    self.draft = None;
                    self.recommendations = Vec::new();
                }
            },
        }
        let selecting = is_champ_select(&self.game_phase);
        if (!was_selecting && selecting) || (!had_draft && self.draft.is_some()) {
            WindowAction::Show
        } else if was_selecting && moved_on {
            WindowAction::Hide
        } else {
            WindowAction::Stay
        }
    }

    /// Forgets the client once it is gone. Says whether anything changed, and what
    /// is to be done with the window.
    pub fn client_lost(&mut self) -> (outcome: (bool, WindowAction))
        ensures
            old(self).orderly() ==> final(self).orderly(),
            old(self).attuned() ==> final(self).attuned() && final(self).window_follows(
                *old(self),
                outcome.1,
            ),
            outcome.0 == old(self).lcu.connected,
            !old(self).lcu.connected ==> *final(self) == *old(self) && outcome.1
                == WindowAction::Stay,
            old(self).lcu.connected ==> {
                &&& !final(self).lcu.connected
                &&& final(self).lcu.summoner_name is None
                &&& final(self).lcu.game_name is None
                &&& final(self).lcu.detected_rank is None
                &&& final(self).game_phase is None
                &&& final(self).draft is None
                &&& final(self).recommendations@.len() == 0
                &&& final(self).pickable@ == Set::<i64>::empty()
                &&& *final(self) == (InnerState {
                    lcu: final(self).lcu,
                    game_phase: final(self).game_phase,
                    draft: final(self).draft,
                    recommendations: final(self).recommendations,
                    pickable: final(self).pickable,
                    ..*old(self)
                })
                &&& outcome.1 == (if in_champ_select(maybe_text(old(self).game_phase)) || old(
                    self,
                ).draft is Some {
                    WindowAction::Hide
                } else {
                    WindowAction::Stay
                })
            },
    {
        if !self.lcu.connected {
            return (false, WindowAction::Stay);
        }
        let leave = is_champ_select(&self.game_phase) || self.draft.is_some();
        self.lcu = LcuStatus::default();
        self.game_phase = None;
        self.draft = None;
        self.recommendations = Vec::new();
        self.pickable = HashSet::new();
        if leave {
            (true, WindowAction::Hide)
        } else {
            (true, WindowAction::Stay)
        }
    }

    /// Takes over a lobby that the client reports by itself.
    pub fn session_event<F: Fn(&Plan, &Candidate) -> Appraisal>(
        &mut self,
        db: &StatsDb,
        session: &ChampSelectSession,
        appraise: F,
    ) -> (action: WindowAction)
        requires
            forall|p: &Plan, c: &Candidate| call_requires(appraise, (p, c)),
        ensures
            old(self).orderly() ==> final(self).orderly(),
            old(self).attuned() ==> final(self).attuned() && final(self).window_follows(
                *old(self),
                action,
            ),
            maybe_text(final(self).game_phase) == Some("ChampSelect"@),
            final(self).draft matches Some(draft) && is_draft_of(
                draft,
                *session,
                old(self).settings.role_override@,
            ),
            final(self).cards_fit(db@, appraise),
            final(self).same_but_cards(
                InnerState {
                    game_phase: final(self).game_phase,
                    draft: final(self).draft,
                    ..*old(self)
                },
            ),
            action == (if !in_champ_select(maybe_text(old(self).game_phase)) && old(
                self,
            ).draft is None {
                WindowAction::Show
            } else {
                WindowAction::Stay
            }),
    {
        let enter = !is_champ_select(&self.game_phase) && self.draft.is_none();
        self.game_phase = Some("ChampSelect".to_string());
        self.draft = Some(draft_from_session(session, &self.settings.role_override));
        self.rescore(db, appraise);
        if enter {
            WindowAction::Show
        } else {
            WindowAction::Stay
        }
    }

    /// Takes over that there is no lobby any more.
    pub fn lobby_gone_event(&mut self) -> (action: WindowAction)
        ensures
            old(self).orderly() ==> final(self).orderly(),
            old(self).attuned() ==> final(self).attuned() && final(self).window_follows(
                *old(self),
                action,
            ),
            final(self).draft is None,
            final(self).recommendations@.len() == 0,
            if in_champ_select(maybe_text(old(self).game_phase)) {
                maybe_text(final(self).game_phase) == Some("None"@)
            } else {
                final(self).game_phase == old(self).game_phase
            },
            *final(self) == (InnerState {
                game_phase: final(self).game_phase,
                draft: final(self).draft,
                recommendations: final(self).recommendations,
                ..*old(self)
            }),
            action == (if in_champ_select(maybe_text(old(self).game_phase)) || old(
                self,
            ).draft is Some {
                WindowAction::Hide
            } else {
                WindowAction::Stay
            }),
    {
        let selecting = is_champ_select(&self.game_phase);
        let leave = selecting || self.draft.is_some();
        self.draft = None;
        self.recommendations = Vec::new();
        if selecting {
            self.game_phase = Some("None".to_string());
        }
        proof {
            reveal_strlit("None");
            reveal_strlit("ChampSelect");
            assert(lower("None"@).len() != lower("ChampSelect"@).len());
        }
        if leave {
            WindowAction::Hide
        } else {
            WindowAction::Stay
        }
    }

    /// Takes over a phase that the client reports by itself.
    pub fn phase_event(&mut self, phase: String) -> (action: WindowAction)
        ensures
            old(self).orderly() ==> final(self).orderly(),
            old(self).attuned() ==> final(self).attuned() && final(self).window_follows(
                *old(self),
                action,
            ),
            final(self).game_phase == Some(phase),
            if in_champ_select(Some(phase@)) {
                final(self).draft == old(self).draft && final(self).recommendations == old(
                    self,
                ).recommendations
            } else {
                final(self).draft is None && final(self).recommendations@.len() == 0
            },
            *final(self) == (InnerState {
                game_phase: final(self).game_phase,
                draft: final(self).draft,
                recommendations: final(self).recommendations,
                ..*old(self)
            }),
            action == (if !in_champ_select(maybe_text(old(self).game_phase)) && in_champ_select(
                Some(phase@),
            ) {
                WindowAction::Show
            } else if in_champ_select(maybe_text(old(self).game_phase)) && !in_champ_select(
                Some(phase@),
            ) {
                WindowAction::Hide
            } else {
                WindowAction::Stay
            }),
    {
        let was_selecting = is_champ_select(&self.game_phase);
        self.game_phase = Some(phase);
        let selecting = is_champ_select(&self.game_phase);
        if !selecting {
            self.draft = None;
            self.recommendations = Vec::new();
        }
        if !was_selecting && selecting {
            WindowAction::Show
        } else if was_selecting && !selecting {
            WindowAction::Hide
        } else {
            WindowAction::Stay
        }
    }
}

// ------------------------------------------------------------ the statistics

impl StatsStatus {
    /// The status of statistics at rest.
    pub open spec fn tells(
        self,
        ready: bool,
        stale: bool,
        patch: Option<Seq<char>>,
        message: Seq<char>,
        progress: u32,
    ) -> bool {
        &&& self.ready == ready
        &&& !self.ingesting
        &&& self.stale == stale
        &&& maybe_text(self.patch) == patch
        &&& self.source@ == "lolalytics"@
        &&& self.message@ == message
        &&& self.progress == Progress::fixed(progress)
    }
}

fn status_at_rest(ready: bool, stale: bool, patch: Option<String>, message: &str, progress: u32) -> (status:
    StatsStatus)
    ensures
        status.tells(ready, stale, maybe_text(patch), message@, progress),
{
    StatsStatus {
        ready,
        ingesting: false,
        stale,
        patch,
        source: "lolalytics".to_string(),
        message: message.to_string(),
        progress: Progress::at(progress),
    }
}

/// What is said where the tables need not be fetched.
pub open spec fn cached_message(matchups: bool) -> Seq<char> {
    if matchups {
        "Stats cache is current"@
    } else {
        "Role stats cached; matchup tables missing \u{2014} try Refresh stats"@
    }
}

/// What is said once the tables have been fetched.
pub open spec fn fetched_message(matchups: bool) -> Seq<char> {
    if matchups {
        "Live stats ready"@
    } else {
        "Role stats ready; matchup tables incomplete \u{2014} try Refresh stats"@
    }
}

/// What is said where the tables could not be fetched.
pub open spec fn failed_message(roles: bool, matchups: bool, error: Seq<char>) -> Seq<char> {
    if roles && matchups {
        "Using cached stats; refresh failed"@
    } else if roles {
        "Using cached role stats; matchup tables missing \u{2014} refresh failed"@
    } else {
        "Could not refresh stats: "@ + error
    }
}

/// What is to be done about the tables.
#[derive(Debug)]
pub enum IngestStart {
    /// Nothing: the champions are not known yet.
    Wait,
    /// Nothing: the tables are good.
    Current,
    /// Fetch the tables of this rank and patch.
    Fetch { rank: String, patch: String },
}

impl InnerState {
    /// The rank bracket to read statistics at.
    pub open spec fn rank_in_use(self) -> Seq<char> {
        self.settings.rank_for(maybe_text(self.lcu.detected_rank))
    }

    /// Decides whether the tables are to be fetched: not while they are good,
    /// unless it is forced.
    pub fn start_ingest(&mut self, db: &StatsDb, now: Moment, force: bool) -> (start: IngestStart)
        ensures
            old(self).orderly() ==> final(self).orderly(),
            *final(self) == (InnerState { stats: final(self).stats, ..*old(self) }),
            match old(self).catalog {
                None => start is Wait && final(self).stats == old(self).stats,
                Some(catalog) => {
                    let rank = old(self).rank_in_use();
                    let patch = catalog.patch@;
                    if fresh(db@, rank, patch, now) && !force {
                        start is Current && final(self).stats.tells(
                            true,
                            false,
                            Some(patch),
                            cached_message(db@.has_matchup(rank, patch)),
                            100,
                        )
                    } else {
                        &&& start matches IngestStart::Fetch { rank: r, patch: p } && r@ == rank
                            && p@ == patch
                        &&& final(self).stats.ingesting
                        &&& final(self).stats.message@
                            == "Downloading champion matchup data\u{2026}"@
                        &&& final(self).stats.progress == Progress::fixed(1)
                        &&& final(self).stats == (StatsStatus {
                            ingesting: final(self).stats.ingesting,
                            message: final(self).stats.message,
                            progress: final(self).stats.progress,
                            ..old(self).stats
                        })
                    }
                },
            },
    {
        let patch = match &self.catalog {
            Some(catalog) => catalog.patch.clone(),
            None => {
                return IngestStart::Wait;
            },
        };
        let rank = self.rank();
        if cache_is_fresh(db, &rank, &patch, now) && !force {
            let message = if db.has_matchup_data(&rank, &patch) {
                "Stats cache is current"
            } else {
                "Role stats cached; matchup tables missing \u{2014} try Refresh stats"
            };
            self.stats = status_at_rest(true, false, Some(patch), message, 100);
            return IngestStart::Current;
        }
        self.stats.ingesting = true;
        self.stats.message = "Downloading champion matchup data\u{2026}".to_string();
        self.stats.progress = Progress::at(1);
        IngestStart::Fetch { rank, patch }
    }

    /// Shows how far the fetching has come.
    pub fn ingest_progress(&mut self, progress: IngestProgress, patch: &str)
        ensures
            old(self).orderly() ==> final(self).orderly(),
            final(self).stats.ingesting,
            final(self).stats.message == progress.message,
            final(self).stats.progress == progress.progress,
            maybe_text(final(self).stats.patch) == Some(patch@),
            final(self).stats == (StatsStatus {
                ingesting: final(self).stats.ingesting,
                message: final(self).stats.message,
                progress: final(self).stats.progress,
                patch: final(self).stats.patch,
                ..old(self).stats
            }),
            *final(self) == (InnerState { stats: final(self).stats, ..*old(self) }),
    {
        self.stats.ingesting = true;
        self.stats.message = progress.message;
        self.stats.progress = progress.progress;
        self.stats.patch = Some(patch.to_string());
    }

    /// Takes over that the tables have been fetched, and ranks by them.
    pub fn ingest_done<F: Fn(&Plan, &Candidate) -> Appraisal>(
        &mut self,
        db: &StatsDb,
        rank: &str,
        patch: &str,
        appraise: F,
    )
        requires
            forall|p: &Plan, c: &Candidate| call_requires(appraise, (p, c)),
        ensures
            old(self).orderly() ==> final(self).orderly(),
            final(self).stats.tells(
                true,
                false,
                Some(patch@),
                fetched_message(db@.has_matchup(rank@, patch@)),
                100,
            ),
            final(self).same_but_cards(InnerState { stats: final(self).stats, ..*old(self) }),
            final(self).cards_fit(db@, appraise),
    {
        let message = if db.has_matchup_data(rank, patch) {
            "Live stats ready"
        } else {
            "Role stats ready; matchup tables incomplete \u{2014} try Refresh stats"
        };
        self.stats = status_at_rest(true, false, Some(patch.to_string()), message, 100);
        self.rescore(db, appraise);
    }

    /// Takes over that the tables could not be fetched. What the cache holds goes
    /// on being used.
    pub fn ingest_failed<F: Fn(&Plan, &Candidate) -> Appraisal>(
        &mut self,
        db: &StatsDb,
        rank: &str,
        patch: &str,
        error: &str,
        appraise: F,
    )
        requires
            forall|p: &Plan, c: &Candidate| call_requires(appraise, (p, c)),
        ensures
            old(self).orderly() ==> final(self).orderly(),
            ({
                let roles = db@.role_rows(rank@, patch@) > 20 || all_roles(db@.shelves).len() > 0;
                final(self).stats.tells(
                    roles,
                    roles,
                    if roles {
                        Some(patch@)
                    } else {
                        None
                    },
                    failed_message(roles, db@.has_matchup(rank@, patch@), error@),
                    if roles {
                        100
                    } else {
                        0
                    },
                )
            }),
            final(self).same_but_cards(InnerState { stats: final(self).stats, ..*old(self) }),
            final(self).cards_fit(db@, appraise),
    {
        let roles = db.has_patch_data(rank, patch) || db.has_any_role_data();
        let matchups = db.has_matchup_data(rank, patch);
        if roles {
            let message = if matchups {
                "Using cached stats; refresh failed"
            } else {
                "Using cached role stats; matchup tables missing \u{2014} refresh failed"
            };
            self.stats = status_at_rest(true, true, Some(patch.to_string()), message, 100);
        } else {
            let message = concat("Could not refresh stats: ", error);
            self.stats = status_at_rest(false, false, None, &message, 0);
        }
        self.rescore(db, appraise);
    }

    /// Shows that the champions are being looked up.
    pub fn catalog_loading(&mut self)
        ensures
            old(self).orderly() ==> final(self).orderly(),
            final(self).stats.message@ == "Loading champion catalog"@,
            *final(self) == (InnerState {
                stats: StatsStatus { message: final(self).stats.message, ..old(self).stats },
                ..*old(self)
            }),
    {
        self.stats.message = "Loading champion catalog".to_string();
    }

    /// Takes over the champions.
    pub fn catalog_ready(&mut self, catalog: Catalog)
        ensures
            old(self).orderly() ==> final(self).orderly(),
            final(self).catalog == Some(catalog),
            final(self).stats.message@ == "Champion catalog ready"@,
            *final(self) == (InnerState {
                catalog: final(self).catalog,
                stats: StatsStatus { message: final(self).stats.message, ..old(self).stats },
                ..*old(self)
            }),
    {
        self.catalog = Some(catalog);
        self.stats.message = "Champion catalog ready".to_string();
    }

    /// Shows that the champions could not be looked up.
    pub fn catalog_failed(&mut self, error: &str)
        ensures
            old(self).orderly() ==> final(self).orderly(),
            final(self).stats.message@ == "Could not load champion catalog: "@ + error@,
            *final(self) == (InnerState {
                stats: StatsStatus { message: final(self).stats.message, ..old(self).stats },
                ..*old(self)
            }),
    {
        self.stats.message = concat("Could not load champion catalog: ", error);
    }
}

// ------------------------------------------------------------ updates

/// An update is being downloaded.
pub open spec fn downloading(update: Option<AppUpdate>) -> bool {
    update matches Some(u) && u.status@ == "downloading"@
}

/// What comes of the wish to download an update.
#[derive(Debug)]
pub enum DownloadStart {
    /// There is none to download.
    NoUpdate,
    /// It is being downloaded already.
    Busy,
    /// It is to be fetched from `url` and saved as `name`.
    Fetch { url: String, name: String },
}

/// What becomes of the update when the newest release is known, and whether that is
/// a change.
pub open spec fn release_leaves(
    before: Option<AppUpdate>,
    after: Option<AppUpdate>,
    changed: bool,
    release: GithubRelease,
    current: Seq<char>,
    dismissed: Option<Seq<char>>,
) -> bool {
    if downloading(before) {
        !changed && after == before
    } else {
        match offered(release, current) {
            None => after is None && changed == before is Some,
            Some(asset) => if dismissed == Some(normalized(release.tag_name@)) {
                !changed && after == before
            } else {
                changed && (after matches Some(update) && is_offer(
                    update,
                    release.tag_name@,
                    asset,
                ))
            },
        }
    }
}

impl InnerState {
    /// Whether an update is being downloaded.
    pub fn is_downloading(&self) -> (r: bool)
        ensures
            r == downloading(self.update),
    {
        match &self.update {
            Some(update) => same(&update.status, "downloading"),
            None => false,
        }
    }

    /// Starts the download of the update.
    pub fn start_download(&mut self) -> (start: DownloadStart)
        ensures
            old(self).orderly() ==> final(self).orderly(),
            match old(self).update {
                None => start is NoUpdate && *final(self) == *old(self),
                Some(update) => if update.status@ == "downloading"@ {
                    start is Busy && *final(self) == *old(self)
                } else {
                    &&& start matches DownloadStart::Fetch { url, name } && url@
                        == update.download_url@ && name@ == update.asset_name@
                    &&& downloading(final(self).update)
                    &&& final(self).update->0.progress == Progress::fixed(0)
                    &&& final(self).update->0.message@ == "Downloading "@ + update.version@
                        + "\u{2026}"@
                    &&& final(self).update->0.version == update.version
                    &&& final(self).update->0.download_url == update.download_url
                    &&& final(self).update->0.asset_name == update.asset_name
                    &&& *final(self) == (InnerState { update: final(self).update, ..*old(self) })
                },
            },
    {
        let update = match &self.update {
            Some(update) => update.clone(),
            None => {
                return DownloadStart::NoUpdate;
            },
        };
        if same(&update.status, "downloading") {
            return DownloadStart::Busy;
        }
        let start = DownloadStart::Fetch {
            url: update.download_url.clone(),
            name: update.asset_name.clone(),
        };
        let message = concat(&concat("Downloading ", &update.version), "\u{2026}");
        self.update = Some(
            AppUpdate {
                status: "downloading".to_string(),
                progress: Progress::at(0),
                message,
                ..update
            },
        );
        start
    }

    /// Shows that the download is done and the installer is being opened.
    pub fn download_done(&mut self)
        ensures
            old(self).orderly() ==> final(self).orderly(),
            match (old(self).update, final(self).update) {
                (Some(before), Some(update)) => {
                    &&& update.status@ == "ready"@
                    &&& update.progress == Progress::fixed(100)
                    &&& update.message@ == "Installer downloaded \u{2014} opening\u{2026}"@
                    &&& update == (AppUpdate {
                        status: update.status,
                        progress: update.progress,
                        message: update.message,
                        ..before
                    })
                },
                (None, None) => true,
                _ => false,
            },
            *final(self) == (InnerState { update: final(self).update, ..*old(self) }),
    {
        if let Some(update) = &self.update {
            let update = update.clone();
            self.update = Some(
                AppUpdate {
                    status: "ready".to_string(),
                    progress: Progress::at(100),
                    message: "Installer downloaded \u{2014} opening\u{2026}".to_string(),
                    ..update
                },
            );
        }
    }

    /// Shows where the installer is, once it could not be opened.
    pub fn open_failed(&mut self, file: &Option<String>)
        ensures
            old(self).orderly() ==> final(self).orderly(),
            match (old(self).update, final(self).update) {
                (Some(before), Some(update)) => {
                    &&& update.status@ == "ready"@
                    &&& update.message@ == "Saved to Downloads as "@ + (match file {
                        Some(name) => name@,
                        None => "the installer"@,
                    }) + ". Open it to install."@
                    &&& update == (AppUpdate {
                        status: update.status,
                        message: update.message,
                        ..before
                    })
                },
                (None, None) => true,
                _ => false,
            },
            *final(self) == (InnerState { update: final(self).update, ..*old(self) }),
    {
        if let Some(update) = &self.update {
            let update = update.clone();
            let name = match file {
                Some(name) => name.clone(),
                None => "the installer".to_string(),
            };
            let message = concat(&concat("Saved to Downloads as ", &name), ". Open it to install.");
            self.update = Some(AppUpdate { status: "ready".to_string(), message, ..update });
        }
    }

    /// Shows that the download failed.
    pub fn download_failed(&mut self)
        ensures
            old(self).orderly() ==> final(self).orderly(),
            match (old(self).update, final(self).update) {
                (Some(before), Some(update)) => {
                    &&& update.status@ == "error"@
                    &&& update.message@ == "Download failed \u{2014} click to retry"@
                    &&& update == (AppUpdate {
                        status: update.status,
                        message: update.message,
                        ..before
                    })
                },
                (None, None) => true,
                _ => false,
            },
            *final(self) == (InnerState { update: final(self).update, ..*old(self) }),
    {
        if let Some(update) = &self.update {
            let update = update.clone();
            self.update = Some(
                AppUpdate {
                    status: "error".to_string(),
                    message: "Download failed \u{2014} click to retry".to_string(),
                    ..update
                },
            );
        }
    }

    /// Puts the update aside for good. Says whether the settings are to be saved.
    pub fn dismiss_update(&mut self) -> (save: bool)
        ensures
            old(self).orderly() ==> final(self).orderly(),
            final(self).update is None,
            save == old(self).update is Some,
            final(self).settings == (Settings {
                dismissed_update: match old(self).update {
                    Some(update) => Some(update.version),
                    None => old(self).settings.dismissed_update,
                },
                ..old(self).settings
            }),
            *final(self) == (InnerState {
                update: final(self).update,
                settings: final(self).settings,
                ..*old(self)
            }),
    {
        match &self.update {
            Some(update) => {
                let version = update.version.clone();
                self.settings.dismissed_update = Some(version);
                self.update = None;
                true
            },
            None => false,
        }
    }

    /// Takes over the newest release, unless an update is being downloaded:
    /// it is offered where it is newer and has not been put aside, and what is no
    /// longer newer is no longer offered. Says whether anything changed.
    pub fn release_found(
        &mut self,
        release: &GithubRelease,
        current: &str,
        dismissed: &Option<String>,
    ) -> (changed: bool)
        ensures
            old(self).orderly() ==> final(self).orderly(),
            *final(self) == (InnerState { update: final(self).update, ..*old(self) }),
            release_leaves(
                old(self).update,
                final(self).update,
                changed,
                *release,
                current@,
                maybe_text(*dismissed),
            ),
    {
        if self.is_downloading() {
            return false;
        }
        match offer_from_release(release, current) {
            None => {
                let changed = self.update.is_some();
                self.update = None;
                changed
            },
            Some(offer) => {
                if is_same(dismissed, &offer.version) {
                    return false;
                }
                self.update = Some(offer);
                true
            },
        }
    }
}

// ------------------------------------------------------------ laws

/// A release whose offer has been put aside is not offered again.
pub proof fn law_dismissed_stays_away(
    offer: AppUpdate,
    asset: GithubAsset,
    release: GithubRelease,
    current: Seq<char>,
    after: Option<AppUpdate>,
    changed: bool,
)
    requires
        is_offer(offer, release.tag_name@, asset),
        release_leaves(None, after, changed, release, current, Some(offer.version@)),
    ensures
        after is None,
        !changed,
{
}

/// While a session is there the draft is that of the session, by the role that the player
/// has set; once there is none and the phase is another, there is no draft and nobody to
/// pick; and where the client says nothing, both stay.
pub proof fn law_draft_follows_lobby(now: InnerState, before: InnerState, refresh: Refresh)
    requires
        now.lobby_follows(before, refresh),
    ensures
        refresh.session is Some ==> now.draft is Some && is_draft_of(
            now.draft->0,
            refresh.session->0,
            before.settings.role_override@,
        ),
        refresh.session is None && refresh.phase is Some && lower(refresh.phase->0@) != lower(
            "ChampSelect"@,
        ) ==> now.draft is None && now.pickable@.len() == 0,
        refresh.session is None && refresh.phase is None ==> now.draft == before.draft
            && now.pickable == before.pickable,
        refresh.session is None && refresh.phase is Some && lower(refresh.phase->0@) == lower(
            "ChampSelect"@,
        ) ==> now.draft == before.draft && now.pickable == before.pickable,
{
}

/// The window is shown when champions begin to be picked and hidden when that is over; it
/// is never shown otherwise, and never hidden in between.
pub proof fn law_window(now: InnerState, before: InnerState, action: WindowAction)
    requires
        now.window_follows(before, action),
    ensures
        !before.selecting() && now.selecting() ==> action is Show,
        before.selecting() && !now.selecting() ==> action is Hide,
        !now.selecting() ==> action !is Show,
        now.selecting() ==> action !is Hide,
        !before.selecting() ==> action !is Hide,
        now.selecting() <==> now.game_phase is Some && lower(now.game_phase->0@) == lower(
            "ChampSelect"@,
        ),
{
}

/// The ranking goes by what the player has set and what the client has told: the bracket
/// in use, the patch, both filters, the champions to pick from, the owned ones and the
/// masteries.
pub proof fn law_context(state: InnerState, ctx: ScoreContext, patch: Seq<char>)
    requires
        state.is_context(ctx, patch),
    ensures
        ctx.patch@ == patch,
        state.settings.rank_bracket@ != "auto"@ ==> ctx.rank@ == state.settings.rank_bracket@,
        ctx.rank@ == state.rank_in_use(),
        ctx.owned_only == state.settings.owned_only,
        ctx.comfort_weighting == state.settings.comfort_weighting,
        ctx.pickable@ == state.pickable@,
        ctx.owned@ == state.owned@,
        ctx.mastery@ == state.mastery@,
{
}

/// The client counts as connected exactly while it names an account; the names stay where
/// it does not, and the rank is the one that it tells now.
pub proof fn law_client_status(now: LcuStatus, before: LcuStatus, refresh: Refresh)
    requires
        now.follows(before, refresh),
    ensures
        now.connected <==> refresh.summoner is Some,
        refresh.summoner is None ==> now.summoner_name == before.summoner_name && now.game_name
            == before.game_name,
        refresh.summoner is Some ==> maybe_text(now.summoner_name) == Some(
            shown_name(refresh.summoner->0),
        ) && maybe_text(now.game_name) == Some(tagged_name(refresh.summoner->0)),
        now.detected_rank == refresh.tier,
{
}

/// A phase that the client tells is the new one; where it tells none the old one stays.
pub proof fn law_phase(before: Option<String>, refresh: Refresh)
    ensures
        refresh.phase is Some ==> phase_after(before, refresh) == refresh.phase,
        refresh.phase is None ==> phase_after(before, refresh) == before,
{
}

/// What is said of the tables tells whether there are matchups, and where a refresh failed
/// what is still there to go by.
pub proof fn law_messages(error: Seq<char>)
    ensures
        cached_message(true) == "Stats cache is current"@,
        cached_message(false)
            == "Role stats cached; matchup tables missing \u{2014} try Refresh stats"@,
        fetched_message(true) == "Live stats ready"@,
        fetched_message(false)
            == "Role stats ready; matchup tables incomplete \u{2014} try Refresh stats"@,
        failed_message(true, true, error) == "Using cached stats; refresh failed"@,
        failed_message(true, false, error)
            == "Using cached role stats; matchup tables missing \u{2014} refresh failed"@,
        failed_message(false, true, error) == "Could not refresh stats: "@ + error,
        failed_message(false, false, error) == "Could not refresh stats: "@ + error,
{
}

/// The settings follow what is set anew, each by itself, and keep the rest.
pub proof fn law_settings_follow(now: Settings, before: Settings, patch: SettingsPatch)
    requires
        is_patched(now, before, patch),
    ensures
        now.rank_bracket == (if patch.rank_bracket is Some {
            patch.rank_bracket->0
        } else {
            before.rank_bracket
        }),
        now.owned_only == (if patch.owned_only is Some {
            patch.owned_only->0
        } else {
            before.owned_only
        }),
        now.comfort_weighting == (if patch.comfort_weighting is Some {
            patch.comfort_weighting->0
        } else {
            before.comfort_weighting
        }),
        now.always_on_top == (if patch.always_on_top is Some {
            patch.always_on_top->0
        } else {
            before.always_on_top
        }),
        now.role_override == (if patch.role_override is Some {
            patch.role_override->0
        } else {
            before.role_override
        }),
        now.dismissed_update == before.dismissed_update,
{
}

/// A release that is newer, has a program and has not been put aside is offered; one that
/// is not takes a standing offer away; and a download that is under way is left alone.
pub proof fn law_release(
    before: Option<AppUpdate>,
    after: Option<AppUpdate>,
    changed: bool,
    release: GithubRelease,
    current: Seq<char>,
    dismissed: Option<Seq<char>>,
    asset: GithubAsset,
)
    requires
        release_leaves(before, after, changed, release, current, dismissed),
    ensures
        before is Some && before->0.status@ == "downloading"@ ==> after == before && !changed,
        !downloading(before) && offered(release, current) is None ==> after is None,
        !downloading(before) && offered(release, current) == Some(asset) && dismissed != Some(
            normalized(release.tag_name@),
        ) ==> after is Some && is_offer(after->0, release.tag_name@, asset) && changed,
        !downloading(before) && offered(release, current) == Some(asset) && dismissed == Some(
            normalized(release.tag_name@),
        ) ==> after == before && !changed,
{
}

/// There is someone to pick exactly where one of the champions is taken by nobody.
pub proof fn law_some_free(ids: Set<i64>, draft: DraftView)
    ensures
        some_free(ids, draft) <==> exists|id: i64| #[trigger] ids.contains(id) && !taken(draft, id),
{
}

/// Without a draft there are no cards, and a draft is there only while champions are being
/// picked.
pub proof fn law_no_cards_without_draft(state: InnerState)
    ensures
        state.orderly() && state.draft is None ==> state.recommendations@.len() == 0,
        state.attuned() && state.draft is Some ==> state.game_phase is Some && lower(
            state.game_phase->0@,
        ) == lower("ChampSelect"@),
{
}

/// Where only the cards are others, nothing else is.
pub proof fn law_only_the_cards(now: InnerState, before: InnerState)
    requires
        now.same_but_cards(before),
    ensures
        now.settings == before.settings,
        now.catalog == before.catalog,
        now.lcu == before.lcu,
        now.game_phase == before.game_phase,
        now.draft == before.draft,
        now.pickable == before.pickable,
        now.owned == before.owned,
        now.mastery == before.mastery,
        now.stats == before.stats,
        now.update == before.update,
        now.current_version == before.current_version,
{
}

/// The cards are those for the draft, by the context of the state and the catalog's patch;
/// there are none while there is no draft or no catalog.
pub proof fn law_cards_fit<F: Fn(&Plan, &Candidate) -> Appraisal>(
    state: InnerState,
    cache: Cache,
    appraise: F,
)
    requires
        state.cards_fit(cache, appraise),
    ensures
        state.draft is None ==> state.recommendations@.len() == 0,
        state.catalog is None ==> state.recommendations@.len() == 0,
        state.draft is Some && state.catalog is Some ==> exists|ctx: ScoreContext|
            state.is_context(ctx, state.catalog->0.patch@) && #[trigger] recommended(
                state.recommendations@,
                cache,
                state.catalog->0,
                state.draft->0,
                ctx,
                appraise,
            ),
{
}

/// Statistics at rest are told as they are: ready or not, outdated or not, of which patch,
/// by which source and how far.
pub proof fn law_status(
    status: StatsStatus,
    ready: bool,
    stale: bool,
    patch: Option<Seq<char>>,
    message: Seq<char>,
    progress: u32,
)
    requires
        status.tells(ready, stale, patch, message, progress),
    ensures
        status.ready == ready,
        status.stale == stale,
        !status.ingesting,
        maybe_text(status.patch) == patch,
        status.source@ == "lolalytics"@,
        status.message@ == message,
        status.progress == Progress::fixed(progress),
{
}

} // verus!
