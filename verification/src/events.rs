//! What the daemon does when a watched file changes or a client asks it to
//! show a file: which assets get registered, what the clients are told to
//! open, and which annotation documents are reloaded from disk.
//!
//! The file system is asked beforehand: where a path has to be registered,
//! the caller hands in its canonical form (`None` or an error where that
//! failed), and the times are handed in too.

use vstd::prelude::*;
use crate::text::{signed_decimal, chars_to_string, push_str};
use crate::kdl_tree::opt_str;
use crate::paths::{path_file_name, name_or_empty, file_name_of, join_path};
use crate::watcher::{FileType, WatchCommand, watched_type, watched_file_type, asset_url};
use crate::assets::{AssetManager, AssetEntryView, ASSET_TTL_MS};
use crate::keyed::inserted;
use crate::projects::{TriggerRequest, project_dir};

verus! {

/// What clients are told to open: an asset, where to fetch it, its kind and
/// the title to show.
#[derive(Debug)]
pub struct OpenView {
    pub asset_id: String,
    pub url: String,
    pub file_type: FileType,
    pub title: String,
}

/// The mathematical content of an [`OpenView`].
pub struct OpenViewModel {
    pub asset_id: Seq<char>,
    pub url: Seq<char>,
    pub file_type: FileType,
    pub title: Seq<char>,
}

impl View for OpenView {
    type V = OpenViewModel;

    open spec fn view(&self) -> OpenViewModel {
        OpenViewModel {
            asset_id: self.asset_id@,
            url: self.url@,
            file_type: self.file_type,
            title: self.title@,
        }
    }
}

/// One thing the watcher does about a changed file.
#[derive(Debug)]
pub enum WatchAction {
    /// Reload the annotations of this Markdown file from disk.
    ReloadAnnotations(String),
    /// Tell every client to open this view.
    Broadcast(OpenView),
}

/// The mathematical content of a [`WatchAction`].
pub enum WatchActionModel {
    ReloadAnnotations(Seq<char>),
    Broadcast(OpenViewModel),
}

impl View for WatchAction {
    type V = WatchActionModel;

    open spec fn view(&self) -> WatchActionModel {
        match self {
            WatchAction::ReloadAnnotations(p) => WatchActionModel::ReloadAnnotations(p@),
            WatchAction::Broadcast(v) => WatchActionModel::Broadcast(v@),
        }
    }
}

/// The kind of a file-system event, as far as the watcher cares.
#[derive(Debug, Clone, Copy, PartialEq, Eq, Structural)]
pub enum ChangeKind {
    Create,
    Modify,
    Other,
}

/// The registered assets, by id.
pub type AssetTable = Seq<(Seq<char>, AssetEntryView)>;

/// The views of a list of actions.
pub open spec fn action_models(acts: Seq<WatchAction>) -> Seq<WatchActionModel> {
    acts.map_values(|a: WatchAction| a@)
}

/// The title shown for a file: its file name, or nothing.
pub open spec fn file_title(path: Seq<char>) -> Seq<char> {
    name_or_empty(path_file_name(path))
}

/// The title shown for the file `path`: its file name, or the empty string
/// where it has none.
pub fn title_of(path: &str) -> (r: String)
    ensures
        r@ == file_title(path@),
{
    match file_name_of(path) {
        Some(n) => n,
        None => String::new(),
    }
}

// ---------------------------------------------------------------------------
// A changed file
// ---------------------------------------------------------------------------

/// The view broadcast for the changed file `path`, registered as `id`; the
/// URL carries the time of the change so that clients do not use a cached
/// copy.
pub open spec fn changed_view(id: Seq<char>, path: Seq<char>, t: FileType, timestamp: i64) -> OpenViewModel {
    OpenViewModel {
        asset_id: id,
        url: "/assets/"@ + id + "?t="@ + signed_decimal(timestamp as int),
        file_type: t,
        title: file_title(path),
    }
}

/// A changed Markdown file has its annotations reloaded, first.
pub open spec fn reloads(path: Seq<char>, t: FileType) -> Seq<WatchActionModel> {
    if t == FileType::Markdown {
        seq![WatchActionModel::ReloadAnnotations(path)]
    } else {
        Seq::empty()
    }
}

/// Whether some asset is registered for exactly the file `path`.
pub open spec fn registered_for(s: AssetTable, path: Seq<char>) -> bool {
    exists|j: int| 0 <= j < s.len() && s[j].1.file_path == path
}

/// What the watcher does about the changed file `path`, taking the assets
/// from `before` to `after` with the actions `acts`:
/// - a hidden path or a file of unknown kind is ignored;
/// - a Markdown file has its annotations reloaded;
/// - a file registered as an asset is broadcast under (one of) its ids;
/// - an unregistered Markdown file is registered under a fresh id, from its
///   canonical path, and broadcast; where it has no canonical path, or it is
///   not Markdown, nothing is broadcast.
pub open spec fn path_step(
    before: AssetTable,
    after: AssetTable,
    path: Seq<char>,
    canonical: Option<Seq<char>>,
    now: u64,
    timestamp: i64,
    acts: Seq<WatchActionModel>,
) -> bool {
    match watched_type(path) {
        None => after == before && acts == Seq::<WatchActionModel>::empty(),
        Some(t) => if registered_for(before, path) {
            &&& after == before
            &&& exists|j: int|
                0 <= j < before.len() && #[trigger] before[j].1.file_path == path && acts == reloads(path, t).push(
                    WatchActionModel::Broadcast(changed_view(before[j].0, path, t, timestamp)),
                )
        } else if t == FileType::Markdown && canonical is Some {
            exists|id: Seq<char>|
                #![trigger inserted(before, id, AssetEntryView { file_path: canonical->0, expires_at: (now + ASSET_TTL_MS) as u64 })]
                id.len() == 16 && after == inserted(
                    before,
                    id,
                    AssetEntryView { file_path: canonical->0, expires_at: (now + ASSET_TTL_MS) as u64 },
                ) && acts == reloads(path, t).push(WatchActionModel::Broadcast(changed_view(id, path, t, timestamp)))
        } else {
            after == before && acts == reloads(path, t)
        },
    }
}

fn changed_view_exec(id: String, path: &str, t: FileType, timestamp: i64) -> (r: OpenView)
    ensures
        r@ == changed_view(id@, path@, t, timestamp),
{
    let url = asset_url(id.as_str(), timestamp);
    OpenView { asset_id: id, url, file_type: t, title: title_of(path) }
}

/// The watcher's answer to a change of the file `path` (see [`path_step`]);
/// `canonical` is the canonical form of `path`, or `None` where the file
/// system could not give one; `now` is the monotonic time in milliseconds
/// and `timestamp` the wall-clock time in seconds.
pub fn handle_changed_path(
    assets: &mut AssetManager,
    path: &str,
    canonical: Option<String>,
    now: u64,
    timestamp: i64,
) -> (r: Vec<WatchAction>)
    requires
        old(assets).wf(),
        now + ASSET_TTL_MS <= u64::MAX,
    ensures
        final(assets).wf(),
        path_step(old(assets).entries(), final(assets).entries(), path@, opt_str(canonical), now, timestamp, action_models(r@)),
{
    let mut acts: Vec<WatchAction> = Vec::new();
    let t = match watched_file_type(path) {
        Some(t) => t,
        None => {
            assert(action_models(acts@) =~= Seq::<WatchActionModel>::empty());
            return acts;
        },
    };
    if t == FileType::Markdown {
        acts.push(WatchAction::ReloadAnnotations(path.to_string()));
    }
    assert(action_models(acts@) =~= reloads(path@, t));
    let ghost before = assets.entries();
    match assets.find_by_path(path) {
        Some(id) => {
            let ghost j = choose|j: int| 0 <= j < before.len() && before[j].0 == id@ && before[j].1.file_path == path@;
            let v = changed_view_exec(id, path, t, timestamp);
            acts.push(WatchAction::Broadcast(v));
            assert(action_models(acts@) =~= reloads(path@, t).push(
                WatchActionModel::Broadcast(changed_view(before[j].0, path@, t, timestamp)),
            ));
            assert(before[j].1.file_path == path@);
        },
        None => {
            if t == FileType::Markdown {
                match canonical {
                    Some(c) => {
                        let ghost cv = c@;
                        let id = assets.register(c, now);
                        let v = changed_view_exec(id, path, t, timestamp);
                        let ghost idv = v.asset_id@;
                        acts.push(WatchAction::Broadcast(v));
                        assert(action_models(acts@) =~= reloads(path@, t).push(
                            WatchActionModel::Broadcast(changed_view(idv, path@, t, timestamp)),
                        ));
                        assert(assets.entries() == inserted(
                            before,
                            idv,
                            AssetEntryView { file_path: cv, expires_at: (now + ASSET_TTL_MS) as u64 },
                        ));
                    },
                    None => {},
                }
            }
        },
    }
    acts
}

/// A changed Markdown file that the file system could canonicalize to its
/// own path is registered afterwards, so that the next change of it is
/// broadcast under the same id rather than a new one.
pub proof fn law_changed_markdown_stays_registered(
    before: AssetTable,
    after: AssetTable,
    path: Seq<char>,
    now: u64,
    timestamp: i64,
    acts: Seq<WatchActionModel>,
)
    requires
        watched_type(path) == Some(FileType::Markdown),
        path_step(before, after, path, Some(path), now, timestamp, acts),
    ensures
        registered_for(after, path),
        acts.len() == 2,
        acts[0] == WatchActionModel::ReloadAnnotations(path),
{
    if !registered_for(before, path) {
        let e = AssetEntryView { file_path: path, expires_at: (now + ASSET_TTL_MS) as u64 };
        let id = choose|id: Seq<char>|
            #![trigger inserted(before, id, e)]
            id.len() == 16 && after == inserted(before, id, e) && acts == reloads(path, FileType::Markdown).push(
                WatchActionModel::Broadcast(changed_view(id, path, FileType::Markdown, timestamp)),
            );
        let last = (after.len() - 1) as int;
        assert(after[last] == (id, e));
        assert(after[last].1.file_path == path);
    }
}

// ---------------------------------------------------------------------------
// A file-system event
// ---------------------------------------------------------------------------

/// The watcher's answers to the changed files `paths`, one after another:
/// `states` are the assets before each path and after the last one, and
/// `steps` the actions for each path.
pub open spec fn steps_chain(
    before: AssetTable,
    after: AssetTable,
    paths: Seq<Seq<char>>,
    canonical: Seq<Option<Seq<char>>>,
    now: u64,
    timestamp: i64,
    states: Seq<AssetTable>,
    steps: Seq<Seq<WatchActionModel>>,
) -> bool {
    &&& states.len() == paths.len() + 1
    &&& steps.len() == paths.len()
    &&& canonical.len() == paths.len()
    &&& states[0] == before
    &&& states[paths.len() as int] == after
    &&& forall|i: int|
        #![trigger steps[i]]
        0 <= i < paths.len() ==> path_step(states[i], states[i + 1], paths[i], canonical[i], now, timestamp, steps[i])
}

/// Whether the changed files `paths` take the assets from `before` to
/// `after` with the actions `acts`, each path handled in turn.
pub open spec fn paths_run(
    before: AssetTable,
    after: AssetTable,
    paths: Seq<Seq<char>>,
    canonical: Seq<Option<Seq<char>>>,
    now: u64,
    timestamp: i64,
    acts: Seq<WatchActionModel>,
) -> bool {
    exists|states: Seq<AssetTable>, steps: Seq<Seq<WatchActionModel>>|
        #[trigger] steps_chain(before, after, paths, canonical, now, timestamp, states, steps) && acts == steps.flatten()
}

/// The watcher's answer to a file-system event of kind `kind` on `paths`:
/// only creations and modifications count, and then each path is handled
/// in turn ([`handle_changed_path`]); `canonical[i]` is the canonical form
/// of `paths[i]`, where the file system gave one.
pub fn handle_event(
    assets: &mut AssetManager,
    kind: ChangeKind,
    paths: &Vec<String>,
    canonical: &Vec<Option<String>>,
    now: u64,
    timestamp: i64,
) -> (r: Vec<WatchAction>)
    requires
        old(assets).wf(),
        paths@.len() == canonical@.len(),
        now + ASSET_TTL_MS <= u64::MAX,
    ensures
        final(assets).wf(),
        kind == ChangeKind::Other ==> final(assets).entries() == old(assets).entries() && r@.len() == 0,
        kind != ChangeKind::Other ==> paths_run(
            old(assets).entries(),
            final(assets).entries(),
            paths@.map_values(|p: String| p@),
            canonical@.map_values(|c: Option<String>| opt_str(c)),
            now,
            timestamp,
            action_models(r@),
        ),
{
    let mut acts: Vec<WatchAction> = Vec::new();
    if kind == ChangeKind::Other {
        return acts;
    }
    let ghost before = assets.entries();
    let ghost ps = paths@.map_values(|p: String| p@);
    let ghost cs = canonical@.map_values(|c: Option<String>| opt_str(c));
    let ghost mut states: Seq<AssetTable> = seq![before];
    let ghost mut steps: Seq<Seq<WatchActionModel>> = Seq::empty();
    let mut i: usize = 0;
    proof {
        assert(action_models(acts@) =~= steps.flatten());
    }
    while i < paths.len()
        invariant
            i <= paths@.len(),
            paths@.len() == canonical@.len(),
            now + ASSET_TTL_MS <= u64::MAX,
            assets.wf(),
            ps == paths@.map_values(|p: String| p@),
            cs == canonical@.map_values(|c: Option<String>| opt_str(c)),
            steps_chain(before, assets.entries(), ps.take(i as int), cs.take(i as int), now, timestamp, states, steps),
            action_models(acts@) == steps.flatten(),
        decreases paths@.len() - i,
    {
        let ghost mid = assets.entries();
        let c = match &canonical[i] {
            Some(c) => Some(c.clone()),
            None => None,
        };
        assert(opt_str(c) == cs[i as int]);
        let mut step = handle_changed_path(assets, paths[i].as_str(), c, now, timestamp);
        let ghost last = action_models(step@);
        let ghost old_steps = steps;
        let ghost old_states = states;
        acts.append(&mut step);
        proof {
            states = states.push(assets.entries());
            steps = steps.push(last);
            old_steps.lemma_flatten_push(last);
            assert(action_models(acts@) =~= steps.flatten());
            let pt = ps.take(i + 1);
            let ct = cs.take(i + 1);
            assert forall|k: int| #![trigger steps[k]] 0 <= k < pt.len() implies path_step(
                states[k],
                states[k + 1],
                pt[k],
                ct[k],
                now,
                timestamp,
                steps[k],
            ) by {
                if k < i {
                    assert(old_steps[k] == steps[k]);
                    assert(ps.take(i as int)[k] == pt[k]);
                    assert(cs.take(i as int)[k] == ct[k]);
                }
            }
        }
        i = i + 1;
    }
    proof {
        assert(ps.take(paths@.len() as int) =~= ps);
        assert(cs.take(paths@.len() as int) =~= cs);
        assert(steps_chain(before, assets.entries(), ps, cs, now, timestamp, states, steps));
    }
    acts
}

// ---------------------------------------------------------------------------
// A client asks to show a file
// ---------------------------------------------------------------------------

/// What the daemon does when asked to show a file: the view broadcast to
/// every client, the directory watch it starts, and the reply.
#[derive(Debug)]
pub struct TriggerOutcome {
    pub view: OpenView,
    pub watch: WatchCommand,
    pub reply: String,
}

/// The title of a shown file: the one asked for, or else the file name of
/// the path as given.
pub open spec fn trigger_title(req_path: Seq<char>, req_title: Seq<char>) -> Seq<char> {
    if req_title.len() == 0 {
        file_title(req_path)
    } else {
        req_title
    }
}

/// The view broadcast for a shown file registered as `id`.
pub open spec fn trigger_view(id: Seq<char>, req_path: Seq<char>, req_title: Seq<char>, t: FileType) -> OpenViewModel {
    OpenViewModel { asset_id: id, url: "/assets/"@ + id, file_type: t, title: trigger_title(req_path, req_title) }
}

/// The reply to a request to show `req_path`, registered as `id`.
pub open spec fn trigger_reply(req_path: Seq<char>, id: Seq<char>) -> Seq<char> {
    "Showing "@ + req_path + " (ID: "@ + id + ")"@
}

/// The error answered where the file cannot be registered.
pub open spec fn access_error(req_path: Seq<char>, err: Seq<char>) -> Seq<char> {
    "Failed to access file "@ + req_path + ": "@ + err
}

/// What showing a file does, taking the assets from `before` to `after`:
/// where the file system gave no canonical path (the error `e`), nothing is
/// registered and the error is answered; otherwise the canonical path is
/// registered under a fresh id, the directory entry `abs_path` is watched,
/// and the view and reply name that id.
pub open spec fn trigger_done(
    before: AssetTable,
    after: AssetTable,
    req_path: Seq<char>,
    req_title: Seq<char>,
    abs_path: Seq<char>,
    canonical: Result<String, String>,
    t: FileType,
    now: u64,
    r: Result<TriggerOutcome, String>,
) -> bool {
    match canonical {
        Err(e) => after == before && (r matches Err(m) && m@ == access_error(req_path, e@)),
        Ok(c) => exists|id: Seq<char>|
            #![trigger inserted(before, id, AssetEntryView { file_path: c@, expires_at: (now + ASSET_TTL_MS) as u64 })]
            {
                &&& id.len() == 16
                &&& after == inserted(
                    before,
                    id,
                    AssetEntryView { file_path: c@, expires_at: (now + ASSET_TTL_MS) as u64 },
                )
                &&& r matches Ok(o)
                &&& o.view@ == trigger_view(id, req_path, req_title, t)
                &&& o.watch matches WatchCommand::Add(p) && p@ == abs_path
                &&& o.reply@ == trigger_reply(req_path, id)
            },
    }
}

/// Show the file of `req` as a view of kind `file_type` (see
/// [`trigger_done`]); `abs_path` is the request's path resolved against the
/// active project, `canonical` its canonical form or the file system's
/// error, `now` the monotonic time in milliseconds.
pub fn generic_trigger(
    assets: &mut AssetManager,
    req: &TriggerRequest,
    abs_path: &str,
    canonical: Result<String, String>,
    file_type: FileType,
    now: u64,
) -> (r: Result<TriggerOutcome, String>)
    requires
        old(assets).wf(),
        now + ASSET_TTL_MS <= u64::MAX,
    ensures
        final(assets).wf(),
        trigger_done(
            old(assets).entries(),
            final(assets).entries(),
            req.path@,
            req.title@,
            abs_path@,
            canonical,
            file_type,
            now,
            r,
        ),
{
    let ghost before = assets.entries();
    match canonical {
        Err(e) => {
            let mut msg: Vec<char> = Vec::new();
            push_str(&mut msg, "Failed to access file ");
            push_str(&mut msg, req.path.as_str());
            push_str(&mut msg, ": ");
            push_str(&mut msg, e.as_str());
            Err(chars_to_string(&msg))
        },
        Ok(c) => {
            let ghost cv = c@;
            let id = assets.register(c, now);
            let title = if req.title.as_str().unicode_len() == 0 {
                title_of(req.path.as_str())
            } else {
                req.title.clone()
            };
            let mut url: Vec<char> = Vec::new();
            push_str(&mut url, "/assets/");
            push_str(&mut url, id.as_str());
            let mut reply: Vec<char> = Vec::new();
            push_str(&mut reply, "Showing ");
            push_str(&mut reply, req.path.as_str());
            push_str(&mut reply, " (ID: ");
            push_str(&mut reply, id.as_str());
            push_str(&mut reply, ")");
            let ghost idv = id@;
            let view = OpenView { asset_id: id, url: chars_to_string(&url), file_type, title };
            let out = TriggerOutcome {
                view,
                watch: WatchCommand::Add(abs_path.to_string()),
                reply: chars_to_string(&reply),
            };
            assert(assets.entries() == inserted(
                before,
                idv,
                AssetEntryView { file_path: cv, expires_at: (now + ASSET_TTL_MS) as u64 },
            ));
            Ok(out)
        },
    }
}

/// Show the file of `req` as an image (see [`generic_trigger`]).
pub fn trigger_show(
    assets: &mut AssetManager,
    req: &TriggerRequest,
    abs_path: &str,
    canonical: Result<String, String>,
    now: u64,
) -> (r: Result<TriggerOutcome, String>)
    requires
        old(assets).wf(),
        now + ASSET_TTL_MS <= u64::MAX,
    ensures
        final(assets).wf(),
        trigger_done(
            old(assets).entries(),
            final(assets).entries(),
            req.path@,
            req.title@,
            abs_path@,
            canonical,
            FileType::Image,
            now,
            r,
        ),
{
    generic_trigger(assets, req, abs_path, canonical, FileType::Image, now)
}

/// Show the file of `req` as a Markdown document (see [`generic_trigger`]).
pub fn trigger_md(
    assets: &mut AssetManager,
    req: &TriggerRequest,
    abs_path: &str,
    canonical: Result<String, String>,
    now: u64,
) -> (r: Result<TriggerOutcome, String>)
    requires
        old(assets).wf(),
        now + ASSET_TTL_MS <= u64::MAX,
    ensures
        final(assets).wf(),
        trigger_done(
            old(assets).entries(),
            final(assets).entries(),
            req.path@,
            req.title@,
            abs_path@,
            canonical,
            FileType::Markdown,
            now,
            r,
        ),
{
    generic_trigger(assets, req, abs_path, canonical, FileType::Markdown, now)
}

// ---------------------------------------------------------------------------
// Activating a project
// ---------------------------------------------------------------------------

/// Activating the project `project_id` watches its directory
/// `<projects>/<id>` with everything below it. The activation is accepted
/// whether or not that directory exists yet (a project being created is
/// activated too); a watch that the file system cannot set up is reported
/// by the watcher, not refused here.
pub fn activate_project(projects_path: &str, project_id: &str) -> (r: WatchCommand)
    ensures
        r matches WatchCommand::AddRecursive(p) && p@ == join_path(projects_path@, project_id@),
{
    WatchCommand::AddRecursive(project_dir(projects_path, project_id))
}

} // verus!
