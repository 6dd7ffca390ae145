//! The course of filling the cache: what is asked of the source next, and what an
//! answer leads to.
use crate::catalog::Catalog;
use crate::json::{document, Json, Tree};
use crate::models::Progress;
use crate::stats::ingest::{
    counter_changes, counter_rows, counters_of, entries_of, entry_changes, lanes_of, pool_of,
    store_counter_json, store_role_table, store_tables, store_team, table_changes, team_changes,
    IngestProgress,
};
use crate::stats::qwik::{
    are_tables_of, law_tables_hold_all_rows, parse_enemy_matchups, rows_on_page, script_text,
    EnemyTables, MatchupRow,
};
use crate::stats::source::{
    build_address, build_url, counter_address, counter_url, list_address, list_url,
    lolalytics_tier, team_address, team_url, tier_of,
};
use crate::stats::cache::{after, after_all};
use crate::stats::rows::{all_storable, written, ChangeView};
use crate::stats::store::StatsDb;
use crate::text::{concat, decimal, same, show_natural};
use vstd::prelude::*;

verus! {

broadcast use vstd::std_specs::hash::group_hash_axioms;

/// How many roles there are.
pub const ROLE_COUNT: usize = 5;

/// The roles, in their order.
pub open spec fn role_at(i: int) -> Seq<char> {
    if i == 0 {
        "top"@
    } else if i == 1 {
        "jungle"@
    } else if i == 2 {
        "middle"@
    } else if i == 3 {
        "bottom"@
    } else {
        "support"@
    }
}

/// The roles, in their order.
pub fn role_named(i: usize) -> (role: &'static str)
    ensures
        role@ == role_at(i as int),
{
    if i == 0 {
        "top"
    } else if i == 1 {
        "jungle"
    } else if i == 2 {
        "middle"
    } else if i == 3 {
        "bottom"
    } else {
        "support"
    }
}

/// What a role is called in a message.
pub open spec fn title_of(role: Seq<char>) -> Seq<char> {
    if role == "top"@ {
        "Top"@
    } else if role == "jungle"@ {
        "Jungle"@
    } else if role == "middle"@ {
        "Mid"@
    } else if role == "bottom"@ {
        "ADC"@
    } else if role == "support"@ {
        "Support"@
    } else {
        role
    }
}

/// What a role is called in a message.
pub fn role_title(role: &str) -> (title: String)
    ensures
        title@ == title_of(role@),
{
    if same(role, "top") {
        "Top".to_string()
    } else if same(role, "jungle") {
        "Jungle".to_string()
    } else if same(role, "middle") {
        "Mid".to_string()
    } else if same(role, "bottom") {
        "ADC".to_string()
    } else if same(role, "support") {
        "Support".to_string()
    } else {
        role.to_string()
    }
}

/// A champion whose matchups are to be fetched.
#[derive(Debug)]
pub struct Job {
    pub role: String,
    pub champion_id: i64,
    pub slug: String,
    pub name: String,
}

/// [`Job`], mathematically.
pub struct JobView {
    pub role: Seq<char>,
    pub champion_id: i64,
    pub slug: Seq<char>,
    pub name: Seq<char>,
}

impl View for Job {
    type V = JobView;

    open spec fn view(&self) -> JobView {
        JobView {
            role: self.role@,
            champion_id: self.champion_id,
            slug: self.slug@,
            name: self.name@,
        }
    }
}

/// Where the work stands. The tables are first asked for by patch (`narrow`) and,
/// where that yields nothing, for whatever patch the source has.
#[derive(Debug, Clone, Copy, PartialEq, Eq, Structural)]
pub enum Step {
    /// The table of a role is asked for.
    List { role: usize, narrow: bool },
    /// The allies of a champion are asked for.
    Team { job: usize, narrow: bool },
    /// The matchups of a champion against a role are asked for.
    Counter { job: usize, vs: usize, narrow: bool },
    /// The build page of a champion without matchups is asked for.
    Page { job: usize },
    /// Everything has been asked for.
    Done,
    /// The table of a role could not be had.
    Failed,
}

/// The work of filling the cache for one rank and patch.
#[derive(Debug)]
pub struct Ingest {
    pub rank: String,
    pub patch: String,
    /// For each role that is done the champions to fetch matchups for.
    pub pools: Vec<Vec<i64>>,
    pub jobs: Vec<Job>,
    /// Whether any matchup of the present job has been stored.
    pub stored: bool,
    pub step: Step,
}

/// What the source answered.
#[derive(Debug)]
pub enum Reply {
    /// No answer that can be used.
    Nothing,
    Data(Json),
    Page(String),
}

// ------------------------------------------------------------ the jobs

/// The jobs for a role's champions: those that the source has a name for.
pub open spec fn jobs_in(catalog: Catalog, role: Seq<char>, ids: Seq<i64>) -> Seq<JobView>
    decreases ids.len(),
{
    if ids.len() == 0 {
        Seq::empty()
    } else {
        let before = jobs_in(catalog, role, ids.drop_last());
        let id = ids.last();
        if catalog.slug_by_id@.contains_key(id) {
            let slug = catalog.slug_by_id@[id]@;
            let name = if catalog.by_id@.contains_key(id) {
                catalog.by_id@[id].name@
            } else {
                slug
            };
            before.push(JobView { role, champion_id: id, slug, name })
        } else {
            before
        }
    }
}

/// The jobs for the champions of all roles.
pub open spec fn jobs_of(catalog: Catalog, pools: Seq<Vec<i64>>) -> Seq<JobView>
    decreases pools.len(),
{
    if pools.len() == 0 {
        Seq::empty()
    } else {
        jobs_of(catalog, pools.drop_last()) + jobs_in(
            catalog,
            role_at(pools.len() - 1),
            pools.last()@,
        )
    }
}

/// The jobs, mathematically.
pub open spec fn job_views(jobs: Seq<Job>) -> Seq<JobView> {
    Seq::new(jobs.len(), |i: int| jobs[i]@)
}

fn add_jobs(jobs: &mut Vec<Job>, catalog: &Catalog, role: &str, ids: &Vec<i64>)
    ensures
        job_views(final(jobs)@) == job_views(old(jobs)@) + jobs_in(*catalog, role@, ids@),
{
    assert(job_views(jobs@) =~= job_views(old(jobs)@) + jobs_in(*catalog, role@, ids@.take(0)));
    for i in 0..ids.len()
        invariant
            job_views(jobs@) == job_views(old(jobs)@) + jobs_in(
                *catalog,
                role@,
                ids@.take(i as int),
            ),
    {
        let id = ids[i];
        let ghost before = job_views(jobs@);
        assert(ids@.take(i + 1).drop_last() =~= ids@.take(i as int));
        if let Some(slug) = catalog.slug_by_id.get(&id) {
            let name = match catalog.by_id.get(&id) {
                Some(info) => info.name.clone(),
                None => slug.clone(),
            };
            let job = Job {
                role: role.to_string(),
                champion_id: id,
                slug: slug.clone(),
                name,
            };
            let ghost view = job@;
            jobs.push(job);
            assert(job_views(jobs@) =~= before.push(view));
            assert(job_views(jobs@) =~= job_views(old(jobs)@) + jobs_in(
                *catalog,
                role@,
                ids@.take(i + 1),
            ));
        }
    }
    assert(ids@.take(ids@.len() as int) =~= ids@);
}

/// The jobs for the champions of all roles.
pub fn list_jobs(catalog: &Catalog, pools: &Vec<Vec<i64>>) -> (jobs: Vec<Job>)
    ensures
        job_views(jobs@) == jobs_of(*catalog, pools@),
{
    let mut jobs: Vec<Job> = Vec::new();
    assert(job_views(jobs@) =~= Seq::empty());
    for i in 0..pools.len()
        invariant
            job_views(jobs@) == jobs_of(*catalog, pools@.take(i as int)),
    {
        assert(pools@.take(i + 1).drop_last() =~= pools@.take(i as int));
        add_jobs(&mut jobs, catalog, role_named(i), &pools[i]);
    }
    assert(pools@.take(pools@.len() as int) =~= pools@);
    jobs
}

// ------------------------------------------------------------ asking

/// What is asked of the source.
#[derive(Debug)]
pub struct Request {
    pub url: String,
    /// Whether a page is asked for; else it is a table.
    pub page: bool,
}

/// The patch to ask for.
pub open spec fn asked_patch(patch: Seq<char>, narrow: bool) -> Option<Seq<char>> {
    if narrow {
        Some(patch)
    } else {
        None
    }
}

impl Ingest {
    /// The step is one that there is work for.
    pub open spec fn valid(self) -> bool {
        match self.step {
            Step::List { role, .. } => role < ROLE_COUNT && self.pools@.len() == role,
            Step::Team { job, .. } => job < self.jobs@.len(),
            Step::Counter { job, vs, .. } => job < self.jobs@.len() && vs < ROLE_COUNT,
            Step::Page { job } => job < self.jobs@.len(),
            Step::Done => true,
            Step::Failed => true,
        }
    }

    /// The address that is asked for.
    pub open spec fn address(self) -> Option<Seq<char>> {
        let tier = tier_of(self.rank@);
        match self.step {
            Step::List { role, narrow } => Some(
                list_address(asked_patch(self.patch@, narrow), role_at(role as int), tier),
            ),
            Step::Team { job, narrow } => Some(
                team_address(
                    asked_patch(self.patch@, narrow),
                    self.jobs@[job as int].slug@,
                    self.jobs@[job as int].role@,
                    tier,
                ),
            ),
            Step::Counter { job, vs, narrow } => Some(
                counter_address(
                    asked_patch(self.patch@, narrow),
                    self.jobs@[job as int].slug@,
                    self.jobs@[job as int].role@,
                    role_at(vs as int),
                    tier,
                ),
            ),
            Step::Page { job } => Some(
                build_address(
                    self.jobs@[job as int].slug@,
                    self.jobs@[job as int].role@,
                    tier,
                ),
            ),
            Step::Done => None,
            Step::Failed => None,
        }
    }

    /// Starts the work for a rank and patch: what the cache holds of their
    /// matchups is dropped.
    pub fn start(db: &mut StatsDb, rank: &str, patch: &str) -> (work: Ingest)
        ensures
            work.valid(),
            work.rank@ == rank@,
            work.patch@ == patch@,
            work.pools@.len() == 0,
            work.jobs@.len() == 0,
            work.step == (Step::List { role: 0, narrow: true }),
            final(db)@ == after(old(db)@, ChangeView::Clear { rank: rank@, patch: patch@ }),
            final(db).pending() == old(db).pending().push(
                ChangeView::Clear { rank: rank@, patch: patch@ },
            ),
            old(db)@.tidy() ==> final(db)@.tidy(),
    {
        db.begin_ingest(rank, patch);
        Ingest {
            rank: rank.to_string(),
            patch: patch.to_string(),
            pools: Vec::new(),
            jobs: Vec::new(),
            stored: false,
            step: Step::List { role: 0, narrow: true },
        }
    }

    /// What is to be asked of the source next; nothing once the work is over.
    pub fn request(&self) -> (request: Option<Request>)
        requires
            self.valid(),
        ensures
            match request {
                Some(r) => self.address() == Some(r.url@) && r.page == (self.step is Page),
                None => self.address() is None,
            },
    {
        let tier = lolalytics_tier(&self.rank);
        match self.step {
            Step::List { role, narrow } => {
                let patch = if narrow {
                    Some(self.patch.as_str())
                } else {
                    None
                };
                Some(Request { url: list_url(patch, role_named(role), &tier), page: false })
            },
            Step::Team { job, narrow } => {
                let job = &self.jobs[job];
                let patch = if narrow {
                    Some(self.patch.as_str())
                } else {
                    None
                };
                Some(Request { url: team_url(patch, &job.slug, &job.role, &tier), page: false })
            },
            Step::Counter { job, vs, narrow } => {
                let job = &self.jobs[job];
                let patch = if narrow {
                    Some(self.patch.as_str())
                } else {
                    None
                };
                Some(
                    Request {
                        url: counter_url(patch, &job.slug, &job.role, role_named(vs), &tier),
                        page: false,
                    },
                )
            },
            Step::Page { job } => {
                let job = &self.jobs[job];
                Some(Request { url: build_url(&job.slug, &job.role, &tier), page: true })
            },
            Step::Done => None,
            Step::Failed => None,
        }
    }

    // -------------------------------------------------------- answering

    /// The table that can be used: asked for by patch it must hold something of
    /// what was asked for, else it may be any.
    pub open spec fn usable(self, reply: Reply) -> Option<Tree> {
        match reply {
            Reply::Data(json) => {
                let fits = match self.step {
                    Step::List { narrow, .. } => !narrow || json@.field("cid"@) is Some,
                    Step::Team { narrow, .. } => !narrow || json@.field("team"@) is Some,
                    Step::Counter { narrow, .. } => !narrow || counters_of(json@).len() > 0,
                    _ => false,
                };
                if fits {
                    Some(json@)
                } else {
                    None
                }
            },
            _ => None,
        }
    }

    /// What the answer would write to the cache.
    pub open spec fn found(self, reply: Reply) -> Seq<ChangeView> {
        let (rank, patch) = (self.rank@, self.patch@);
        match self.step {
            Step::List { role, .. } => match self.usable(reply) {
                Some(tree) => entry_changes(
                    entries_of(tree, role_at(role as int)),
                    role_at(role as int),
                    rank,
                    patch,
                ),
                None => Seq::empty(),
            },
            Step::Team { job, .. } => match self.usable(reply) {
                Some(tree) => team_changes(
                    lanes_of(tree),
                    self.jobs@[job as int].champion_id,
                    self.jobs@[job as int].role@,
                    rank,
                    patch,
                ),
                None => Seq::empty(),
            },
            Step::Counter { job, vs, .. } => match self.usable(reply) {
                Some(tree) => counter_changes(
                    counters_of(tree),
                    self.jobs@[job as int].champion_id,
                    self.jobs@[job as int].role@,
                    role_at(vs as int),
                    rank,
                    patch,
                ),
                None => Seq::empty(),
            },
            Step::Page { job } => match reply {
                Reply::Page(html) => table_changes(
                    rows_on_page(html@),
                    self.jobs@[job as int].champion_id,
                    self.jobs@[job as int].role@,
                    rank,
                    patch,
                ),
                _ => Seq::empty(),
            },
            Step::Done => Seq::empty(),
            Step::Failed => Seq::empty(),
        }
    }

    /// What the answer writes to the cache: what it holds, up to the first rate that
    /// is not a number.
    pub open spec fn writes(self, reply: Reply) -> Seq<ChangeView> {
        written(self.found(reply))
    }

    /// The answer holds a rate that is not a number.
    pub open spec fn spoilt(self, reply: Reply) -> bool {
        !all_storable(self.found(reply))
    }

    /// The step that the answer leads to, where `jobs` is the number of jobs once
    /// all roles are known. A rate that is not a number ends the work.
    pub open spec fn next_step(self, reply: Reply, jobs: nat) -> Step {
        if self.spoilt(reply) {
            Step::Failed
        } else {
            self.step_after(reply, jobs)
        }
    }

    /// The step that an answer leads to all of which is written.
    pub open spec fn step_after(self, reply: Reply, jobs: nat) -> Step {
        let next_job = |job: usize|
            if job + 1 < jobs {
                Step::Team { job: (job + 1) as usize, narrow: true }
            } else {
                Step::Done
            };
        match self.step {
            Step::List { role, narrow } => if self.usable(reply) is None {
                if narrow {
                    Step::List { role, narrow: false }
                } else {
                    Step::Failed
                }
            } else if role + 1 < ROLE_COUNT {
                Step::List { role: (role + 1) as usize, narrow: true }
            } else if jobs > 0 {
                Step::Team { job: 0, narrow: true }
            } else {
                Step::Done
            },
            Step::Team { job, narrow } => if self.usable(reply) is None && narrow {
                Step::Team { job, narrow: false }
            } else {
                Step::Counter { job, vs: 0, narrow: true }
            },
            Step::Counter { job, vs, narrow } => if self.usable(reply) is None && narrow {
                Step::Counter { job, vs, narrow: false }
            } else if vs + 1 < ROLE_COUNT {
                Step::Counter { job, vs: (vs + 1) as usize, narrow: true }
            } else if !self.stored && self.found(reply).len() == 0 {
                Step::Page { job }
            } else {
                next_job(job)
            },
            Step::Page { job } => next_job(job),
            Step::Done => Step::Done,
            Step::Failed => Step::Failed,
        }
    }

    fn next_job(&self, job: usize) -> (step: Step)
        requires
            job < self.jobs@.len(),
        ensures
            step == (if job + 1 < self.jobs@.len() {
                Step::Team { job: (job + 1) as usize, narrow: true }
            } else {
                Step::Done
            }),
    {
        if self.jobs.len() - job > 1 {
            Step::Team { job: job + 1, narrow: true }
        } else {
            Step::Done
        }
    }

    /// Takes the answer to what was asked: writes what it holds to the cache and
    /// goes on to the next step.
    pub fn answer(&mut self, db: &mut StatsDb, catalog: &Catalog, reply: Reply)
        requires
            old(self).valid(),
        ensures
            final(self).valid(),
            final(self).rank == old(self).rank,
            final(self).patch == old(self).patch,
            final(db)@ == after_all(old(db)@, old(self).writes(reply)),
            final(db).pending() == old(db).pending() + old(self).writes(reply),
            final(self).step == old(self).next_step(reply, final(self).jobs@.len()),
            final(self).stored == (final(self).step is Counter && (old(self).stored && old(
                self,
            ).step is Counter || old(self).step is Counter && old(self).found(reply).len() > 0)),
            old(db)@.tidy() ==> final(db)@.tidy(),
            match (old(self).step, old(self).usable(reply)) {
                (Step::List { role, .. }, Some(tree)) if !old(self).spoilt(reply) => {
                    &&& final(self).pools@.len() == old(self).pools@.len() + 1
                    &&& final(self).pools@.drop_last() == old(self).pools@
                    &&& final(self).pools@.last()@ == pool_of(
                        entries_of(tree, role_at(role as int)),
                        role_at(role as int),
                    )
                    &&& if role + 1 == ROLE_COUNT {
                        job_views(final(self).jobs@) == jobs_of(*catalog, final(self).pools@)
                    } else {
                        final(self).jobs == old(self).jobs
                    }
                },
                _ => final(self).pools == old(self).pools && final(self).jobs == old(self).jobs,
            },
    {
        let ghost work = *self;
        let ghost before = db@;
        let ghost noted = db.pending();
        assert(after_all(before, Seq::empty()) == before);
        assert(noted + Seq::<ChangeView>::empty() =~= noted);
        match self.step {
            Step::List { role, narrow } => {
                let table = match &reply {
                    Reply::Data(json) => if !narrow || json.get("cid").is_some() {
                        Some(json)
                    } else {
                        None
                    },
                    _ => None,
                };
                self.stored = false;
                match table {
                    Some(json) => {
                        let stored = store_role_table(
                            db,
                            json,
                            role_named(role),
                            &self.rank,
                            &self.patch,
                        );
                        let ids = match stored {
                            Ok(ids) => ids,
                            Err(_) => {
                                self.step = Step::Failed;
                                return;
                            },
                        };
                        self.pools.push(ids);
                        assert(self.pools@.drop_last() =~= work.pools@);
                        if role + 1 < ROLE_COUNT {
                            self.step = Step::List { role: role + 1, narrow: true };
                        } else {
                            self.jobs = list_jobs(catalog, &self.pools);
                            self.step = if self.jobs.len() > 0 {
                                Step::Team { job: 0, narrow: true }
                            } else {
                                Step::Done
                            };
                        }
                    },
                    None => {
                        self.step = if narrow {
                            Step::List { role, narrow: false }
                        } else {
                            Step::Failed
                        };
                    },
                }
            },
            Step::Team { job, narrow } => {
                let table = match &reply {
                    Reply::Data(json) => if !narrow || json.get("team").is_some() {
                        Some(json)
                    } else {
                        None
                    },
                    _ => None,
                };
                self.stored = false;
                if let Some(json) = table {
                    let id = self.jobs[job].champion_id;
                    let stored = store_team(
                        db,
                        id,
                        &self.jobs[job].role,
                        &self.rank,
                        &self.patch,
                        json,
                    );
                    if stored.is_err() {
                        self.step = Step::Failed;
                        return;
                    }
                }
                self.step = if table.is_none() && narrow {
                    Step::Team { job, narrow: false }
                } else {
                    Step::Counter { job, vs: 0, narrow: true }
                };
            },
            Step::Counter { job, vs, narrow } => {
                let table = match &reply {
                    Reply::Data(json) => {
                        let rows = counter_rows(json);
                        assert(counters_of(json@).len() == rows@.len());
                        if !narrow || rows.len() > 0 {
                            Some(json)
                        } else {
                            None
                        }
                    },
                    _ => None,
                };
                if let Some(json) = table {
                    let id = self.jobs[job].champion_id;
                    let stored = store_counter_json(
                        db,
                        id,
                        &self.jobs[job].role,
                        role_named(vs),
                        &self.rank,
                        &self.patch,
                        json,
                    );
                    match stored {
                        Ok(n) => if n > 0 {
                            self.stored = true;
                        },
                        Err(_) => {
                            self.stored = false;
                            self.step = Step::Failed;
                            return;
                        },
                    }
                }
                if table.is_none() && narrow {
                    self.step = Step::Counter { job, vs, narrow: false };
                } else if vs + 1 < ROLE_COUNT {
                    self.step = Step::Counter { job, vs: vs + 1, narrow: true };
                } else if !self.stored {
                    self.step = Step::Page { job };
                } else {
                    self.step = self.next_job(job);
                    self.stored = false;
                }
            },
            Step::Page { job } => {
                self.stored = false;
                if let Reply::Page(html) = &reply {
                    let tables = parse_enemy_matchups(html);
                    proof {
                        lemma_rows_on_page(html@, tables);
                    }
                    match tables {
                        Some(tables) => {
                            let id = self.jobs[job].champion_id;
                            let stored = store_tables(
                                db,
                                id,
                                &self.jobs[job].role,
                                &self.rank,
                                &self.patch,
                                &tables,
                            );
                            if stored.is_err() {
                                self.step = Step::Failed;
                                return;
                            }
                        },
                        None => {
                            assert(work.found(reply) =~= Seq::empty());
                        },
                    }
                }
                self.step = self.next_job(job);
            },
            Step::Done => {
                self.stored = false;
            },
            Step::Failed => {
                self.stored = false;
            },
        }
    }
}

proof fn lemma_rows_on_page(html: Seq<char>, tables: Option<EnemyTables>)
    requires
        match script_text(html) {
            Some(text) => match document(text) {
                Some(root) => are_tables_of(tables, root),
                None => tables is None,
            },
            None => tables is None,
        },
    ensures
        match tables {
            Some(t) => t.labelled_rows() == rows_on_page(html),
            None => rows_on_page(html) == Seq::<(&'static str, MatchupRow)>::empty(),
        },
{
    if let Some(text) = script_text(html) {
        if let Some(root) = document(text) {
            law_tables_hold_all_rows(tables, root);
        }
    }
}

// ------------------------------------------------------------ saying so

/// What is said before the first table.
pub fn opening_progress(patch: &str) -> (p: IngestProgress)
    ensures
        p.message@ == "Fetching "@ + patch@ + " role tables"@,
        p.progress == Progress::fixed(2),
{
    IngestProgress {
        message: concat(&concat("Fetching ", patch), " role tables"),
        progress: Progress::at(2),
    }
}

/// What is said once the table of a role is there: how many of its champions the
/// matchups are fetched for.
pub fn loaded_progress(role: usize, count: usize) -> (p: IngestProgress)
    ensures
        p.message@ == "Loaded "@ + decimal(count as nat) + " "@ + role_at(role as int)
            + " champions"@,
        p.progress == (Progress { base: 5, span: 5, done: role as u64, total: 5 }),
{
    let counted = concat(&concat("Loaded ", &show_natural(count as u64)), " ");
    IngestProgress {
        message: concat(&concat(&counted, role_named(role)), " champions"),
        progress: Progress { base: 5, span: 5, done: role as u64, total: 5 },
    }
}

/// What is said before the matchups of a champion are fetched.
pub fn job_progress(job: &Job, index: usize, total: usize) -> (p: IngestProgress)
    ensures
        p.message@ == "Calculating matchups\u{2026} "@ + job.name@ + " "@ + title_of(job.role@),
        p.progress == (Progress { base: 12, span: 86, done: index as u64, total: total as u64 }),
{
    let named = concat(&concat("Calculating matchups\u{2026} ", &job.name), " ");
    IngestProgress {
        message: concat(&named, &role_title(&job.role)),
        progress: Progress { base: 12, span: 86, done: index as u64, total: total as u64 },
    }
}

/// What is said at the end.
pub fn finished_progress(patch: &str) -> (p: IngestProgress)
    ensures
        p.message@ == "Stats ready for patch "@ + patch@,
        p.progress == Progress::fixed(100),
{
    IngestProgress {
        message: concat("Stats ready for patch ", patch),
        progress: Progress::at(100),
    }
}

/// What is said once an answer has been taken, and how long to wait before the next
/// question.
#[derive(Debug)]
pub struct Report {
    pub progress: Option<IngestProgress>,
    pub pause_ms: u64,
}

/// The progress that is told once the answer to a step has been taken, where `pools`
/// roles are done then.
pub open spec fn told_after(asked: Step, pools: nat) -> Option<Progress> {
    match asked {
        Step::List { role, .. } => if role < pools {
            Some(Progress { base: 5, span: 5, done: role as u64, total: 5 })
        } else {
            None
        },
        _ => None,
    }
}

/// How long to wait once the answer to a step has been taken: a little after each
/// table of a role, and a little longer after each champion.
pub open spec fn pause_after(asked: Step, pools: nat, next: Step) -> u64 {
    match asked {
        Step::List { role, .. } => if role < pools {
            120
        } else {
            0
        },
        _ => match next {
            Step::Team { narrow, .. } => if narrow {
                160
            } else {
                0
            },
            Step::Done => 160,
            _ => 0,
        },
    }
}

impl Ingest {
    /// How far the work has come when it asks for what it asks for next.
    pub open spec fn level(self) -> Progress {
        let total = self.jobs@.len() as u64;
        match self.step {
            Step::List { role, .. } => if role == 0 {
                Progress::fixed(2)
            } else {
                Progress { base: 5, span: 5, done: (role - 1) as u64, total: 5 }
            },
            Step::Team { job, .. } => Progress { base: 12, span: 86, done: job as u64, total },
            Step::Counter { job, .. } => Progress { base: 12, span: 86, done: job as u64, total },
            Step::Page { job } => Progress { base: 12, span: 86, done: job as u64, total },
            Step::Done => Progress::fixed(100),
            Step::Failed => Progress::fixed(100),
        }
    }

    /// What is said before the next question: which champion it is about, where that
    /// is a new one.
    pub fn announcement(&self) -> (told: Option<IngestProgress>)
        requires
            self.valid(),
        ensures
            match self.step {
                Step::Team { job, narrow } => if narrow {
                    &&& told matches Some(p) && p.progress == self.level() && p.message@
                        == "Calculating matchups\u{2026} "@ + self.jobs@[job as int].name@ + " "@
                        + title_of(self.jobs@[job as int].role@)
                } else {
                    told is None
                },
                _ => told is None,
            },
    {
        match self.step {
            Step::Team { job, narrow } => if narrow {
                Some(job_progress(&self.jobs[job], job, self.jobs.len()))
            } else {
                None
            },
            _ => None,
        }
    }

    /// What is said once the answer to the step `asked` has been taken, and how long
    /// to wait.
    pub fn report(&self, asked: Step) -> (report: Report)
        ensures
            match (report.progress, told_after(asked, self.pools@.len())) {
                (Some(p), Some(progress)) => {
                    &&& p.progress == progress
                    &&& asked matches Step::List { role, .. } && p.message@ == "Loaded "@
                        + decimal(self.pools@[role as int]@.len()) + " "@ + role_at(role as int)
                        + " champions"@
                },
                (None, None) => true,
                _ => false,
            },
            report.pause_ms == pause_after(asked, self.pools@.len(), self.step),
    {
        match asked {
            Step::List { role, .. } => {
                if role < self.pools.len() {
                    Report {
                        progress: Some(loaded_progress(role, self.pools[role].len())),
                        pause_ms: 120,
                    }
                } else {
                    Report { progress: None, pause_ms: 0 }
                }
            },
            _ => {
                let pause_ms: u64 = match self.step {
                    Step::Team { narrow, .. } => if narrow {
                        160
                    } else {
                        0
                    },
                    Step::Done => 160,
                    _ => 0,
                };
                Report { progress: None, pause_ms }
            },
        }
    }
}

// ------------------------------------------------------------ laws

/// Where a step stands in the course of the work.
pub open spec fn place_of(step: Step) -> (int, int, int) {
    match step {
        Step::List { role, narrow } => (
            0,
            role as int,
            if narrow {
                0
            } else {
                1
            },
        ),
        Step::Team { job, narrow } => (
            1 + job,
            0,
            if narrow {
                0
            } else {
                1
            },
        ),
        Step::Counter { job, vs, narrow } => (
            1 + job,
            1 + vs,
            if narrow {
                0
            } else {
                1
            },
        ),
        Step::Page { job } => (1 + job, 1 + ROLE_COUNT, 0),
        Step::Done => (usize::MAX + 2, 0, 0),
        Step::Failed => (usize::MAX + 2, 0, 0),
    }
}

/// The first place comes after the second.
pub open spec fn comes_after(a: (int, int, int), b: (int, int, int)) -> bool {
    a.0 > b.0 || (a.0 == b.0 && (a.1 > b.1 || (a.1 == b.1 && a.2 > b.2)))
}

/// Every answer leads to a later question or ends the work: nothing is asked
/// twice, and the work comes to an end.
pub proof fn law_work_goes_on(work: Ingest, reply: Reply, jobs: nat)
    requires
        work.valid(),
        !(work.step is List) ==> jobs == work.jobs@.len(),
        !(work.step is Done) && !(work.step is Failed),
    ensures
        comes_after(place_of(work.next_step(reply, jobs)), place_of(work.step)),
{
    assert(work.jobs@.len() == work.jobs.len());
}

/// The work is given up only where the table of a role cannot be had, neither of
/// the patch nor of any other, or where a rate is not a number; tables of champions
/// that cannot be had are passed over.
pub proof fn law_only_role_tables_are_needed(work: Ingest, reply: Reply, jobs: nat)
    requires
        work.step !is Failed,
        work.next_step(reply, jobs) is Failed,
        !work.spoilt(reply),
    ensures
        work.step matches Step::List { narrow, .. } && !narrow,
        reply !is Data,
{
}

/// The progress that is told never falls and lies between nothing and the whole: from
/// what is told when the work starts, over what is told with each question and once its
/// answer has been taken, to what is told at the end.
pub proof fn law_progress_rises(work: Ingest, reply: Reply, after: Ingest)
    requires
        work.valid(),
        after.valid(),
        after.step == work.next_step(reply, after.jobs@.len()),
        work.step !is List ==> after.jobs@ == work.jobs@,
        work.step !is Done,
        work.step !is Failed,
        after.step !is Failed,
    ensures
        work.level().is_part(),
        after.level().is_part(),
        work.level().at_most(after.level()),
        told_after(work.step, after.pools@.len()) matches Some(told) ==> told.is_part()
            && work.level().at_most(told) && told.at_most(after.level()),
        work.step == (Step::List { role: 0, narrow: true }) ==> work.level() == Progress::fixed(2),
        after.step is Done ==> after.level() == Progress::fixed(100),
{
    assert(work.jobs@.len() == work.jobs.len());
    assert(after.jobs@.len() == after.jobs.len());
    lemma_level(work);
    lemma_level(after);
    let (a, b) = (work.level(), after.level());
    if a.total == b.total && a.span == b.span && a.base == b.base {
        lemma_more_done(a, b);
    } else {
        lemma_no_further(a, b);
    }
    if let Step::List { role, .. } = work.step {
        let told = Progress { base: 5, span: 5, done: role as u64, total: 5 };
        if role < after.pools@.len() {
            if role > 0 {
                lemma_more_done(a, told);
            } else {
                lemma_no_further(a, told);
            }
            if after.step is List {
                lemma_more_done(told, b);
            } else {
                lemma_no_further(told, b);
            }
        }
    }
}

/// How much is reached by the roles alone, and by the champions.
proof fn lemma_reached(p: Progress)
    ensures
        p.base == 5 && p.span == 5 && p.total == 5 ==> p.reached() == 25 + 5 * p.done,
        p.base == 12 && p.span == 86 ==> p.reached() == 12 * p.total + 86 * p.done,
        p.span == 0 && p.total == 1 ==> p.reached() == p.base,
{
    let (base, span, done, total) = (p.base as int, p.span as int, p.done as int, p.total as int);
    assert(base == 5 && span == 5 && total == 5 ==> base * total + span * done == 25 + 5 * done)
        by (nonlinear_arith);
    assert(base == 12 && span == 86 ==> base * total + span * done == 12 * total + 86 * done)
        by (nonlinear_arith);
    assert(span == 0 && total == 1 ==> base * total + span * done == base) by (nonlinear_arith);
}

/// From the start over the roles and the champions to the end it goes on.
proof fn lemma_no_further(a: Progress, b: Progress)
    requires
        ({
            let start = a == Progress::fixed(2);
            let roles = a.base == 5 && a.span == 5 && a.total == 5 && a.done <= 4;
            let champions = a.base == 12 && a.span == 86 && a.done < a.total;
            let to_roles = b.base == 5 && b.span == 5 && b.total == 5;
            let to_champions = b.base == 12 && b.span == 86 && b.total > 0;
            let to_end = b == Progress::fixed(100);
            ||| start && (to_roles || to_champions || to_end)
            ||| roles && (to_champions || to_end)
            ||| champions && to_end
        }),
    ensures
        a.at_most(b),
{
    lemma_reached(a);
    lemma_reached(b);
    let (ra, rb, ta, tb) = (a.reached(), b.reached(), a.total as int, b.total as int);
    let done = b.done as int;
    if b.base == 12 && b.span == 86 {
        assert(ra * tb <= rb * ta) by (nonlinear_arith)
            requires
                (ta == 1 && ra == 2) || (ta == 5 && 0 <= ra <= 45),
                rb == 12 * tb + 86 * done,
                0 <= done,
                0 < tb,
        ;
    } else {
        assert(ra * tb <= rb * ta) by (nonlinear_arith)
            requires
                (ta == 1 && ra == 2 && tb == 5 && rb >= 25) || (tb == 1 && rb == 100 && ra <= 100
                    * ta && ta > 0),
        ;
    }
}

/// With more done of the same work, no less is reached.
proof fn lemma_more_done(a: Progress, b: Progress)
    requires
        a.total == b.total,
        a.span == b.span,
        a.base == b.base,
        a.done <= b.done,
    ensures
        a.at_most(b),
{
    let (span, x, y, total) = (a.span as int, a.done as int, b.done as int, a.total as int);
    assert(span * x <= span * y) by (nonlinear_arith)
        requires
            0 <= span,
            x <= y,
    ;
    let (p, q) = (a.reached(), b.reached());
    assert(p * total <= q * total) by (nonlinear_arith)
        requires
            p <= q,
            0 <= total,
    ;
}

proof fn lemma_level(work: Ingest)
    requires
        work.valid(),
    ensures
        work.level().is_part(),
{
    assert(work.jobs@.len() == work.jobs.len());
    lemma_reached(work.level());
}

} // verus!
