use vstd::prelude::*;

use crate::entries::{
    append_entry, first_at, has_time, redescribe_at_time, redescribed, remove_at_time,
    without_time, TimeEntry,
};
use crate::error::Error;
use crate::kv::{lemma_keys_distinct, projects_key, projects_key_text, time_key, time_key_of};
use crate::projects::{
    add_to_list, first_slug_at, has_slug, lemma_removed_slug_absent, remove_from_list,
    replace_in_list, slug_elsewhere, without_slug, Project,
};

verus! {

/// A value kept under one key of the store: the project list, or the time
/// entries of one project.
#[derive(Clone, Debug)]
pub enum Doc {
    Projects(Vec<Project>),
    Entries(Vec<TimeEntry>),
}

/// The mathematical content of a `Doc`.
pub enum Stored {
    Projects(Seq<Project>),
    Entries(Seq<TimeEntry>),
}

impl View for Doc {
    type V = Stored;

    open spec fn view(&self) -> Stored {
        match self {
            Doc::Projects(v) => Stored::Projects(v@),
            Doc::Entries(v) => Stored::Entries(v@),
        }
    }
}

/// Which kind of list a read expects.
#[derive(Clone, Copy, Debug, PartialEq, Eq, Structural)]
pub enum Shape {
    ProjectList,
    EntryList,
}

/// One call of the key-value client that a task asks for.
#[derive(Debug)]
pub enum Request {
    /// Read a key as a list of the given shape; an absent key reads as an
    /// empty list.
    Get(String, Shape),
    /// First write of a key.
    Create(String, Doc),
    /// Write of a key that exists.
    Replace(String, Doc),
    /// Removal of a key; an absent key counts as removed.
    Delete(String),
}

pub enum RequestView {
    Get(Seq<char>, Shape),
    Create(Seq<char>, Stored),
    Replace(Seq<char>, Stored),
    Delete(Seq<char>),
}

impl View for Request {
    type V = RequestView;

    open spec fn view(&self) -> RequestView {
        match self {
            Request::Get(k, s) => RequestView::Get(k@, *s),
            Request::Create(k, d) => RequestView::Create(k@, d@),
            Request::Replace(k, d) => RequestView::Replace(k@, d@),
            Request::Delete(k) => RequestView::Delete(k@),
        }
    }
}

/// What came back from a request.
#[derive(Debug)]
pub enum Reply {
    /// A read succeeded with this list.
    Fetched(Doc),
    /// A write or a removal succeeded.
    Done,
    Failed(Error),
}

pub enum ReplyView {
    Fetched(Stored),
    Done,
    Failed(Error),
}

impl View for Reply {
    type V = ReplyView;

    open spec fn view(&self) -> ReplyView {
        match self {
            Reply::Fetched(d) => ReplyView::Fetched(d@),
            Reply::Done => ReplyView::Done,
            Reply::Failed(e) => ReplyView::Failed(*e),
        }
    }
}

/// The domain operations that change the store.
#[derive(Clone, Debug)]
pub enum Job {
    AddProject(Project),
    /// The slug of the project to change, and what it becomes.
    UpdateProject(String, Project),
    DeleteProject(String),
    AddTimeEntry(String, TimeEntry),
    DeleteTimeEntry(String, i64),
    EditTimeEntry(String, i64, Option<String>),
}

/// Where a task stands: what it waits for, and what it still has to write.
enum Stage {
    /// Waits for the list that the job starts from.
    Reading(Job),
    /// A rename waits for the old key's entries; the list already holds the
    /// renamed project.
    Migrating { list: Vec<Project>, old_key: String, new_key: String },
    /// A rename waits for the entries to be created under the new key.
    Moving { list: Vec<Project>, old_key: String },
    /// Waits for a key to be removed, then writes the list.
    Clearing { list: Vec<Project> },
    /// Waits for the last write.
    Saving,
}

pub enum StageView {
    Reading(Job),
    Migrating { list: Seq<Project>, old_key: Seq<char>, new_key: Seq<char> },
    Moving { list: Seq<Project>, old_key: Seq<char> },
    Clearing { list: Seq<Project> },
    Saving,
}

/// One run of a domain operation, driven by its caller: the caller performs
/// each request and hands back the reply. The list under `projects` is written
/// last, so a failure leaves it as it was.
pub struct Task {
    stage: Stage,
}

impl View for Task {
    type V = StageView;

    closed spec fn view(&self) -> StageView {
        match self.stage {
            Stage::Reading(j) => StageView::Reading(j),
            Stage::Migrating { list, old_key, new_key } => StageView::Migrating {
                list: list@,
                old_key: old_key@,
                new_key: new_key@,
            },
            Stage::Moving { list, old_key } => StageView::Moving { list: list@, old_key: old_key@ },
            Stage::Clearing { list } => StageView::Clearing { list: list@ },
            Stage::Saving => StageView::Saving,
        }
    }
}

/// What the caller does next.
pub enum Step {
    Send(Task, Request),
    Finish(Result<(), Error>),
}

pub enum StepView {
    Send(StageView, RequestView),
    Finish(Result<(), Error>),
}

impl View for Step {
    type V = StepView;

    open spec fn view(&self) -> StepView {
        match self {
            Step::Send(t, r) => StepView::Send(t@, r@),
            Step::Finish(r) => StepView::Finish(*r),
        }
    }
}

/// The position of the first project of `s` with the slug `slug`.
pub open spec fn slug_index(s: Seq<Project>, slug: Seq<char>) -> int {
    choose|i: int| first_slug_at(s, slug, i)
}

/// The position of the first entry of `s` stamped `ts`.
pub open spec fn time_index(s: Seq<TimeEntry>, ts: i64) -> int {
    choose|i: int| first_at(s, ts, i)
}

proof fn lemma_first_slug_unique(s: Seq<Project>, slug: Seq<char>, i: int)
    requires
        first_slug_at(s, slug, i),
    ensures
        slug_index(s, slug) == i,
{
    let j = slug_index(s, slug);
    assert(first_slug_at(s, slug, j));
    if j < i {
        assert(s[j].slug@ != slug);
    } else if i < j {
        assert(s[i].slug@ != slug);
    }
}

proof fn lemma_first_time_unique(s: Seq<TimeEntry>, ts: i64, i: int)
    requires
        first_at(s, ts, i),
    ensures
        time_index(s, ts) == i,
{
    let j = time_index(s, ts);
    assert(first_at(s, ts, j));
    if j < i {
        assert(s[j].timestamp != ts);
    } else if i < j {
        assert(s[i].timestamp != ts);
    }
}

/// The key that a job reads first, and the shape it expects there.
pub open spec fn first_request(job: Job) -> RequestView {
    match job {
        Job::AddProject(_) => RequestView::Get(projects_key_text(), Shape::ProjectList),
        Job::UpdateProject(_, _) => RequestView::Get(projects_key_text(), Shape::ProjectList),
        Job::DeleteProject(_) => RequestView::Get(projects_key_text(), Shape::ProjectList),
        Job::AddTimeEntry(slug, _) => RequestView::Get(time_key_of(slug@), Shape::EntryList),
        Job::DeleteTimeEntry(slug, _) => RequestView::Get(time_key_of(slug@), Shape::EntryList),
        Job::EditTimeEntry(slug, _, _) => RequestView::Get(time_key_of(slug@), Shape::EntryList),
    }
}

/// The step of a job once its first list has been read.
pub open spec fn after_read(job: Job, doc: Stored) -> StepView {
    match (job, doc) {
        (Job::AddProject(p), Stored::Projects(ps)) => if has_slug(ps, p.slug@) {
            StepView::Finish(Err(Error::DuplicateSlug))
        } else if ps.len() == 0 {
            StepView::Send(
                StageView::Saving,
                RequestView::Create(projects_key_text(), Stored::Projects(ps.push(p))),
            )
        } else {
            StepView::Send(
                StageView::Saving,
                RequestView::Replace(projects_key_text(), Stored::Projects(ps.push(p))),
            )
        },
        (Job::UpdateProject(old, p), Stored::Projects(ps)) => if !has_slug(ps, old@) {
            StepView::Finish(Err(Error::NotFound))
        } else if p.slug@ != old@ && slug_elsewhere(ps, p.slug@, slug_index(ps, old@)) {
            StepView::Finish(Err(Error::DuplicateSlug))
        } else if p.slug@ == old@ {
            StepView::Send(
                StageView::Saving,
                RequestView::Replace(
                    projects_key_text(),
                    Stored::Projects(ps.update(slug_index(ps, old@), p)),
                ),
            )
        } else {
            StepView::Send(
                StageView::Migrating {
                    list: ps.update(slug_index(ps, old@), p),
                    old_key: time_key_of(old@),
                    new_key: time_key_of(p.slug@),
                },
                RequestView::Get(time_key_of(old@), Shape::EntryList),
            )
        },
        (Job::DeleteProject(slug), Stored::Projects(ps)) => if !has_slug(ps, slug@) {
            StepView::Finish(Err(Error::NotFound))
        } else {
            StepView::Send(
                StageView::Clearing { list: without_slug(ps, slug@) },
                RequestView::Delete(time_key_of(slug@)),
            )
        },
        (Job::AddTimeEntry(slug, e), Stored::Entries(es)) => if es.len() == 0 {
            StepView::Send(
                StageView::Saving,
                RequestView::Create(time_key_of(slug@), Stored::Entries(es.push(e))),
            )
        } else {
            StepView::Send(
                StageView::Saving,
                RequestView::Replace(time_key_of(slug@), Stored::Entries(es.push(e))),
            )
        },
        (Job::DeleteTimeEntry(slug, ts), Stored::Entries(es)) => if !has_time(es, ts) {
            StepView::Finish(Err(Error::NotFound))
        } else {
            StepView::Send(
                StageView::Saving,
                RequestView::Replace(time_key_of(slug@), Stored::Entries(without_time(es, ts))),
            )
        },
        (Job::EditTimeEntry(slug, ts, d), Stored::Entries(es)) => if !has_time(es, ts) {
            StepView::Finish(Err(Error::NotFound))
        } else {
            StepView::Send(
                StageView::Saving,
                RequestView::Replace(
                    time_key_of(slug@),
                    Stored::Entries(es.update(time_index(es, ts), redescribed(es[time_index(es, ts)], d))),
                ),
            )
        },
        _ => StepView::Finish(Err(Error::DeserializationError)),
    }
}

/// The step that follows `reply` in `stage`. A failed request ends the task
/// with its error; a reply of the wrong kind ends it with
/// `DeserializationError`.
pub open spec fn advance_spec(stage: StageView, reply: ReplyView) -> StepView {
    match reply {
        ReplyView::Failed(e) => StepView::Finish(Err(e)),
        ReplyView::Fetched(doc) => match stage {
            StageView::Reading(job) => after_read(job, doc),
            StageView::Migrating { list, old_key, new_key } => match doc {
                Stored::Entries(es) => if es.len() == 0 {
                    StepView::Send(
                        StageView::Saving,
                        RequestView::Replace(projects_key_text(), Stored::Projects(list)),
                    )
                } else {
                    StepView::Send(
                        StageView::Moving { list, old_key },
                        RequestView::Create(new_key, Stored::Entries(es)),
                    )
                },
                Stored::Projects(_) => StepView::Finish(Err(Error::DeserializationError)),
            },
            _ => StepView::Finish(Err(Error::DeserializationError)),
        },
        ReplyView::Done => match stage {
            StageView::Moving { list, old_key } => StepView::Send(
                StageView::Clearing { list },
                RequestView::Delete(old_key),
            ),
            StageView::Clearing { list } => StepView::Send(
                StageView::Saving,
                RequestView::Replace(projects_key_text(), Stored::Projects(list)),
            ),
            StageView::Saving => StepView::Finish(Ok(())),
            _ => StepView::Finish(Err(Error::DeserializationError)),
        },
    }
}

impl Task {
    /// Starts `job`: the task and the read it begins with.
    pub fn start(job: Job) -> (r: (Task, Request))
        ensures
            r.0@ == StageView::Reading(job),
            r.1@ == first_request(job),
    {
        let request = match &job {
            Job::AddProject(_) | Job::UpdateProject(_, _) | Job::DeleteProject(_) => Request::Get(
                projects_key(),
                Shape::ProjectList,
            ),
            Job::AddTimeEntry(slug, _) | Job::DeleteTimeEntry(slug, _) | Job::EditTimeEntry(
                slug,
                _,
                _,
            ) => Request::Get(time_key(slug.as_str()), Shape::EntryList),
        };
        (Task { stage: Stage::Reading(job) }, request)
    }

    /// The next step after `reply`, the answer to the task's last request.
    pub fn advance(self, reply: Reply) -> (r: Step)
        ensures
            r@ == advance_spec(self@, reply@),
    {
        match reply {
            Reply::Failed(e) => Step::Finish(Err(e)),
            Reply::Fetched(doc) => match self.stage {
                Stage::Reading(job) => read_step(job, doc),
                Stage::Migrating { list, old_key, new_key } => match doc {
                    Doc::Entries(es) => {
                        if es.len() == 0 {
                            Step::Send(
                                Task { stage: Stage::Saving },
                                Request::Replace(projects_key(), Doc::Projects(list)),
                            )
                        } else {
                            Step::Send(
                                Task { stage: Stage::Moving { list, old_key } },
                                Request::Create(new_key, Doc::Entries(es)),
                            )
                        }
                    },
                    Doc::Projects(_) => Step::Finish(Err(Error::DeserializationError)),
                },
                _ => Step::Finish(Err(Error::DeserializationError)),
            },
            Reply::Done => match self.stage {
                Stage::Moving { list, old_key } => Step::Send(
                    Task { stage: Stage::Clearing { list } },
                    Request::Delete(old_key),
                ),
                Stage::Clearing { list } => Step::Send(
                    Task { stage: Stage::Saving },
                    Request::Replace(projects_key(), Doc::Projects(list)),
                ),
                Stage::Saving => Step::Finish(Ok(())),
                _ => Step::Finish(Err(Error::DeserializationError)),
            },
        }
    }
}

fn read_step(job: Job, doc: Doc) -> (r: Step)
    ensures
        r@ == after_read(job, doc@),
{
    match (job, doc) {
        (Job::AddProject(p), Doc::Projects(ps)) => match add_to_list(ps, p) {
            Err(e) => Step::Finish(Err(e)),
            Ok((v, first)) => {
                let key = projects_key();
                if first {
                    Step::Send(Task { stage: Stage::Saving }, Request::Create(key, Doc::Projects(v)))
                } else {
                    Step::Send(Task { stage: Stage::Saving }, Request::Replace(key, Doc::Projects(v)))
                }
            },
        },
        (Job::UpdateProject(old, p), Doc::Projects(ps)) => {
            let ghost ps0 = ps@;
            let ghost p0 = p;
            let same = p.slug == old;
            let new_key = time_key(p.slug.as_str());
            match replace_in_list(ps, &old, p) {
                Err(e) => {
                    proof {
                        if e is DuplicateSlug {
                            let i = choose|i: int|
                                first_slug_at(ps0, old@, i) && p0.slug@ != old@ && slug_elsewhere(
                                    ps0,
                                    p0.slug@,
                                    i,
                                );
                            lemma_first_slug_unique(ps0, old@, i);
                        }
                    }
                    Step::Finish(Err(e))
                },
                Ok((v, i)) => {
                    proof {
                        lemma_first_slug_unique(ps0, old@, i as int);
                    }
                    if same {
                        Step::Send(
                            Task { stage: Stage::Saving },
                            Request::Replace(projects_key(), Doc::Projects(v)),
                        )
                    } else {
                        let old_key = time_key(old.as_str());
                        let read = Request::Get(time_key(old.as_str()), Shape::EntryList);
                        Step::Send(Task { stage: Stage::Migrating { list: v, old_key, new_key } }, read)
                    }
                },
            }
        },
        (Job::DeleteProject(slug), Doc::Projects(ps)) => match remove_from_list(ps, &slug) {
            Err(e) => Step::Finish(Err(e)),
            Ok(v) => Step::Send(
                Task { stage: Stage::Clearing { list: v } },
                Request::Delete(time_key(slug.as_str())),
            ),
        },
        (Job::AddTimeEntry(slug, e), Doc::Entries(es)) => {
            let (v, first) = append_entry(es, e);
            let key = time_key(slug.as_str());
            if first {
                Step::Send(Task { stage: Stage::Saving }, Request::Create(key, Doc::Entries(v)))
            } else {
                Step::Send(Task { stage: Stage::Saving }, Request::Replace(key, Doc::Entries(v)))
            }
        },
        (Job::DeleteTimeEntry(slug, ts), Doc::Entries(es)) => match remove_at_time(es, ts) {
            Err(e) => Step::Finish(Err(e)),
            Ok(v) => Step::Send(
                Task { stage: Stage::Saving },
                Request::Replace(time_key(slug.as_str()), Doc::Entries(v)),
            ),
        },
        (Job::EditTimeEntry(slug, ts, d), Doc::Entries(es)) => {
            let ghost es0 = es@;
            match redescribe_at_time(es, ts, d) {
                Err(e) => Step::Finish(Err(e)),
                Ok(v) => {
                    proof {
                        let i = choose|i: int|
                            first_at(es0, ts, i) && v@ == es0.update(i, redescribed(es0[i], d));
                        lemma_first_time_unique(es0, ts, i);
                    }
                    Step::Send(
                        Task { stage: Stage::Saving },
                        Request::Replace(time_key(slug.as_str()), Doc::Entries(v)),
                    )
                },
            }
        },
        _ => Step::Finish(Err(Error::DeserializationError)),
    }
}

/// Whether `req` writes the project list.
pub open spec fn writes_list(req: RequestView) -> bool {
    match req {
        RequestView::Create(k, _) => k == projects_key_text(),
        RequestView::Replace(k, _) => k == projects_key_text(),
        _ => false,
    }
}

/// The project list is the last thing a task writes: a request that writes it
/// leaves the task waiting only for that write's answer, so a failure earlier
/// never leaves the list half updated. This holds for every stage whose
/// pending rename targets a key other than the list's, and each step keeps
/// that so.
pub proof fn lemma_list_written_last(stage: StageView, reply: ReplyView)
    requires
        match stage {
            StageView::Migrating { new_key, .. } => new_key != projects_key_text(),
            _ => true,
        },
    ensures
        match advance_spec(stage, reply) {
            StepView::Send(next, req) => writes_list(req) ==> next is Saving,
            StepView::Finish(_) => true,
        },
        match advance_spec(stage, reply) {
            StepView::Send(StageView::Migrating { new_key, .. }, _) => new_key
                != projects_key_text(),
            _ => true,
        },
{
    match stage {
        StageView::Reading(Job::UpdateProject(_, p)) => {
            lemma_keys_distinct(p.slug@, p.slug@);
        },
        _ => {},
    }
}

/// The empty list of a shape.
pub open spec fn empty_of(shape: Shape) -> Stored {
    match shape {
        Shape::ProjectList => Stored::Projects(Seq::empty()),
        Shape::EntryList => Stored::Entries(Seq::empty()),
    }
}

/// A store that carries out every request: a read answers with the kept list
/// (an absent key reads as an empty list, a list of the other kind fails to
/// decode), a write keeps the value, a removal drops the key.
pub open spec fn serve(store: Map<Seq<char>, Stored>, req: RequestView) -> (
    Map<Seq<char>, Stored>,
    ReplyView,
) {
    match req {
        RequestView::Get(k, shape) => (
            store,
            if !store.contains_key(k) {
                ReplyView::Fetched(empty_of(shape))
            } else {
                match (store[k], shape) {
                    (Stored::Projects(ps), Shape::ProjectList) => ReplyView::Fetched(
                        Stored::Projects(ps),
                    ),
                    (Stored::Entries(es), Shape::EntryList) => ReplyView::Fetched(
                        Stored::Entries(es),
                    ),
                    _ => ReplyView::Failed(Error::DeserializationError),
                }
            },
        ),
        RequestView::Create(k, d) => (store.insert(k, d), ReplyView::Done),
        RequestView::Replace(k, d) => (store.insert(k, d), ReplyView::Done),
        RequestView::Delete(k) => (store.remove(k), ReplyView::Done),
    }
}

/// The store and the outcome after driving `step` against `serve` for at
/// most `fuel` requests; no outcome if the task is still going.
pub open spec fn run(step: StepView, store: Map<Seq<char>, Stored>, fuel: nat) -> (
    Map<Seq<char>, Stored>,
    Option<Result<(), Error>>,
)
    decreases fuel,
{
    match step {
        StepView::Finish(r) => (store, Some(r)),
        StepView::Send(stage, req) => if fuel == 0 {
            (store, None)
        } else {
            let (next, reply) = serve(store, req);
            run(advance_spec(stage, reply), next, (fuel - 1) as nat)
        },
    }
}

/// `job` carried out from its start against `store`.
pub open spec fn perform(job: Job, store: Map<Seq<char>, Stored>, fuel: nat) -> (
    Map<Seq<char>, Stored>,
    Option<Result<(), Error>>,
) {
    run(StepView::Send(StageView::Reading(job), first_request(job)), store, fuel)
}

/// The time entries that a read of `key` yields.
pub open spec fn entries_at(store: Map<Seq<char>, Stored>, key: Seq<char>) -> Seq<TimeEntry> {
    if store.contains_key(key) && store[key] is Entries {
        store[key]->Entries_0
    } else {
        Seq::empty()
    }
}

/// The project list that `store` keeps, if it keeps one.
pub open spec fn listed(store: Map<Seq<char>, Stored>) -> Option<Seq<Project>> {
    if store.contains_key(projects_key_text()) && store[projects_key_text()] is Projects {
        Some(store[projects_key_text()]->Projects_0)
    } else {
        None
    }
}

/// Adding a project whose slug is already listed fails with `DuplicateSlug`
/// and leaves the store as it was.
pub proof fn lemma_duplicate_add_rejected(store: Map<Seq<char>, Stored>, project: Project)
    requires
        listed(store) matches Some(ps) && has_slug(ps, project.slug@),
    ensures
        perform(Job::AddProject(project), store, 1) == (store, Some(Err::<(), Error>(Error::DuplicateSlug))),
{
    reveal_with_fuel(run, 2);
}

/// Renaming a project moves its time entries: afterwards the new slug's key
/// reads as the old one's did, the old one's reads as an empty list, and the
/// list holds the renamed project in the old one's place.
pub proof fn lemma_rename_moves_entries(store: Map<Seq<char>, Stored>, old: String, project: Project)
    requires
        old@ != project.slug@,
        listed(store) matches Some(ps) && has_slug(ps, old@) && !slug_elsewhere(
            ps,
            project.slug@,
            slug_index(ps, old@),
        ),
        !store.contains_key(time_key_of(project.slug@)),
        store.contains_key(time_key_of(old@)) ==> store[time_key_of(old@)] is Entries,
    ensures
        perform(Job::UpdateProject(old, project), store, 5).1 == Some(Ok::<(), Error>(())),
        entries_at(perform(Job::UpdateProject(old, project), store, 5).0, time_key_of(project.slug@))
            == entries_at(store, time_key_of(old@)),
        entries_at(perform(Job::UpdateProject(old, project), store, 5).0, time_key_of(old@))
            == Seq::<TimeEntry>::empty(),
        listed(perform(Job::UpdateProject(old, project), store, 5).0) == Some(
            listed(store)->Some_0.update(slug_index(listed(store)->Some_0, old@), project),
        ),
{
    reveal_with_fuel(run, 6);
    let pk = projects_key_text();
    let ok = time_key_of(old@);
    let nk = time_key_of(project.slug@);
    lemma_keys_distinct(old@, project.slug@);
    lemma_keys_distinct(project.slug@, old@);
    let ps = listed(store)->Some_0;
    let list = ps.update(slug_index(ps, old@), project);
    let s1 = run(
        StepView::Send(
            StageView::Migrating { list, old_key: ok, new_key: nk },
            RequestView::Get(ok, Shape::EntryList),
        ),
        store,
        4,
    );
    assert(perform(Job::UpdateProject(old, project), store, 5) == s1);
    let es = entries_at(store, ok);
    if es.len() == 0 {
        assert(s1 == (store.insert(pk, Stored::Projects(list)), Some(Ok::<(), Error>(()))));
    } else {
        let after = store.insert(nk, Stored::Entries(es)).remove(ok).insert(
            pk,
            Stored::Projects(list),
        );
        assert(s1 == (after, Some(Ok::<(), Error>(()))));
        assert(after[nk] == Stored::Entries(es));
        assert(!after.contains_key(ok));
    }
}

/// Deleting a listed project takes it out of the list and leaves its time
/// entries' key reading as an empty list.
pub proof fn lemma_delete_clears_entries(store: Map<Seq<char>, Stored>, slug: String)
    requires
        listed(store) matches Some(ps) && has_slug(ps, slug@),
    ensures
        perform(Job::DeleteProject(slug), store, 3).1 == Some(Ok::<(), Error>(())),
        listed(perform(Job::DeleteProject(slug), store, 3).0) == Some(
            without_slug(listed(store)->Some_0, slug@),
        ),
        !has_slug(without_slug(listed(store)->Some_0, slug@), slug@),
        entries_at(perform(Job::DeleteProject(slug), store, 3).0, time_key_of(slug@))
            == Seq::<TimeEntry>::empty(),
{
    reveal_with_fuel(run, 4);
    let pk = projects_key_text();
    let k = time_key_of(slug@);
    lemma_keys_distinct(slug@, slug@);
    let ps = listed(store)->Some_0;
    lemma_removed_slug_absent(ps, slug@);
    let after = store.remove(k).insert(pk, Stored::Projects(without_slug(ps, slug@)));
    assert(perform(Job::DeleteProject(slug), store, 3) == (after, Some(Ok::<(), Error>(()))));
}

} // verus!
