//! The decisions behind the application's commands: which settings values are
//! accepted, whether a project may change, how a restore and a group stop walk their
//! profiles, how a shutdown reports, and whether an observed process is still the one
//! a user acted on. The commands themselves fetch the state and carry out the result.
use vstd::prelude::*;
use crate::error::{invalid, AppError, AppResult, RelatedPort};
use crate::models::{
    close_behavior_named, language_named, AssociationSource, CloseBehavior, ConfirmAssociationRequest,
    ConnectionState, ExpectedPort, ExternalProcessRequest, LanguagePreference, LaunchGroup,
    LaunchGroupStopFailure, PortEntry, PortSnapshot, Project, RestoreResult, RunStatus,
};
use crate::text::{
    ascii_lower, ascii_lowered, chars_of, contains_text, decimal_digits, eq_ignore_ascii_case, push_char, push_decimal, push_str, str_eq, texts,
    to_ascii_lowercase,
};

verus! {

/// The refusal for a language value this build does not offer.
pub open spec fn unsupported_language_message(value: Seq<char>) -> Seq<char> {
    "Unsupported language preference '"@ + value + "'; expected system, en, or zh-CN"@
}

/// The language preference a request names, or a refusal that says which values
/// exist.
pub fn parse_language_preference(value: &str) -> (r: AppResult<LanguagePreference>)
    ensures
        language_named(value@) matches Some(p) ==> r == Ok::<LanguagePreference, AppError>(p),
        language_named(value@) is None ==> (r matches Err(e) && e is Message && e.text() == unsupported_language_message(value@)),
{
    match LanguagePreference::parse(value) {
        Some(p) => Ok(p),
        None => {
            let mut m = String::new();
            push_str(&mut m, "Unsupported language preference '");
            push_str(&mut m, value);
            push_str(&mut m, "'; expected system, en, or zh-CN");
            Err(invalid(m))
        }
    }
}

/// The refusal for a close behavior this build does not offer.
pub open spec fn unsupported_close_behavior_message(value: Seq<char>) -> Seq<char> {
    "Unsupported close behavior '"@ + value + "'; expected ask, hideToTray, or quit"@
}

/// The close behavior a request names, or a refusal that says which values exist.
pub fn parse_close_behavior(value: &str) -> (r: AppResult<CloseBehavior>)
    ensures
        close_behavior_named(value@) matches Some(b) ==> r == Ok::<CloseBehavior, AppError>(b),
        close_behavior_named(value@) is None ==> (r matches Err(e) && e is Message && e.text()
            == unsupported_close_behavior_message(value@)),
{
    match CloseBehavior::parse(value) {
        Some(b) => Ok(b),
        None => {
            let mut m = String::new();
            push_str(&mut m, "Unsupported close behavior '");
            push_str(&mut m, value);
            push_str(&mut m, "'; expected ask, hideToTray, or quit");
            Err(invalid(m))
        }
    }
}

/// The ids of a project's profiles, in order.
pub fn project_profile_ids(project: &Project) -> (ids: Vec<String>)
    ensures
        texts(ids@) == Seq::new(project.profiles@.len(), |i: int| project.profiles@[i].id@),
{
    let mut ids: Vec<String> = Vec::new();
    let mut i: usize = 0;
    while i < project.profiles.len()
        invariant
            i <= project.profiles@.len(),
            ids@.len() == i,
            texts(ids@) == Seq::new(i as nat, |k: int| project.profiles@[k].id@),
        decreases project.profiles@.len() - i,
    {
        let ghost before = ids@;
        let id = project.profiles[i].id.clone();
        ids.push(id);
        proof {
            assert(ids@ == before.push(id));
            assert forall|k: int| 0 <= k < i + 1 implies #[trigger] texts(ids@)[k] == project.profiles@[k].id@ by {
                assert(texts(ids@)[k] == ids@[k]@);
                if k < i {
                    assert(ids@[k] == before[k]);
                    assert(texts(before)[k] == project.profiles@[k].id@);
                } else {
                    assert(ids@[k] == id);
                }
            }
            assert(texts(ids@) =~= Seq::new((i + 1) as nat, |k: int| project.profiles@[k].id@));
        }
        i = i + 1;
    }
    ids
}

/// Whether any of a project's profiles is active, in which case the project may not
/// be edited or deleted.
pub fn project_has_active_profile(project: &Project, active_profile_ids: &Vec<String>) -> (r: bool)
    ensures
        r == exists|i: int| 0 <= i < project.profiles@.len()
            && texts(active_profile_ids@).contains(#[trigger] project.profiles@[i].id@),
{
    let mut i: usize = 0;
    while i < project.profiles.len()
        invariant
            i <= project.profiles@.len(),
            forall|k: int| 0 <= k < i ==> !texts(active_profile_ids@).contains(#[trigger] project.profiles@[k].id@),
        decreases project.profiles@.len() - i,
    {
        if crate::text::contains_text(active_profile_ids, project.profiles[i].id.as_str()) {
            return true;
        }
        i = i + 1;
    }
    false
}

/// The port an error is about, as a port number and protocol text.
pub open spec fn related_of(e: AppError) -> Option<(u16, Seq<char>)> {
    match e {
        AppError::PortConflict { related_port, .. } => Some((related_port.port, related_port.protocol@)),
        _ => None,
    }
}

/// A related port as a port number and protocol text.
pub open spec fn related_view(p: Option<RelatedPort>) -> Option<(u16, Seq<char>)> {
    match p {
        Some(r) => Some((r.port, r.protocol@)),
        None => None,
    }
}

/// A copy of the port an error is about.
fn related_port_of(e: &AppError) -> (r: Option<RelatedPort>)
    ensures
        related_view(r) == related_of(*e),
{
    match e.related_port() {
        Some(p) => Some(RelatedPort { port: p.port, protocol: p.protocol.clone() }),
        None => None,
    }
}

/// Whether some call of `restore` on `id` is allowed to have succeeded.
pub open spec fn started_ok<F: Fn(&str) -> AppResult<()>>(restore: F, id: Seq<char>) -> bool {
    exists|s: &str| s@ == id && call_ensures(restore, (s,), Ok::<(), AppError>(()))
}

/// Which profile a restore walk starts next, by index: the one after the `started`
/// already running, in order, until one has failed or every one of `count` has
/// started. So the walk asks each profile at most once, first to last, and none after
/// the first that fails.
pub fn next_to_restore(count: usize, started: usize, failed: bool) -> (r: Option<usize>)
    ensures
        r == if failed || started >= count { None::<usize> } else { Some(started) },
{
    if failed || started >= count {
        None
    } else {
        Some(started)
    }
}

/// Which member a group stop asks next, by launch index, after `asked` of the `count`
/// members were asked: the last launched first, then back to the first, each once.
pub fn next_to_stop(count: usize, asked: usize) -> (r: Option<usize>)
    ensures
        r == if asked >= count { None::<usize> } else { Some((count - 1 - asked) as usize) },
{
    if asked >= count {
        None
    } else {
        Some(count - 1 - asked)
    }
}

/// Start the last run set in order, stopping at the first profile that fails: a half
/// built stack is not left growing. The result names the profiles started, and the
/// one that failed with its error and the port it was about. Which profile is asked
/// next is [`next_to_restore`]'s to decide.
pub fn restore_profiles<F: Fn(&str) -> AppResult<()>>(profile_ids: Vec<String>, restore: F) -> (r: RestoreResult)
    requires
        forall|s: &str| call_requires(restore, (s,)),
    ensures
        r.started_profile_ids@.len() <= profile_ids@.len(),
        texts(r.started_profile_ids@) == texts(profile_ids@).subrange(0, r.started_profile_ids@.len() as int),
        forall|i: int| 0 <= i < r.started_profile_ids@.len() ==> started_ok(restore, (#[trigger] profile_ids@[i])@),
        r.failed_profile_id is None ==> {
            &&& r.started_profile_ids@.len() == profile_ids@.len()
            &&& r.error is None
            &&& r.related_port is None
        },
        r.failed_profile_id matches Some(failed) ==> {
            let k = r.started_profile_ids@.len() as int;
            &&& k < profile_ids@.len()
            &&& failed@ == profile_ids@[k]@
            &&& exists|s: &str, e: AppError| {
                &&& s@ == failed@
                &&& call_ensures(restore, (s,), Err::<(), AppError>(e))
                &&& r.error matches Some(m) && m@ == e.text()
                &&& related_view(r.related_port) == related_of(e)
            }
        },
{
    let mut started: Vec<String> = Vec::new();
    let count = profile_ids.len();
    let mut next = next_to_restore(count, 0, false);
    while next.is_some()
        invariant
            forall|s: &str| call_requires(restore, (s,)),
            count == profile_ids@.len(),
            next == if started@.len() >= count { None::<usize> } else { Some(started@.len() as usize) },
            started@.len() <= profile_ids@.len(),
            texts(started@) == texts(profile_ids@).subrange(0, started@.len() as int),
            forall|k: int| 0 <= k < started@.len() ==> started_ok(restore, (#[trigger] profile_ids@[k])@),
        decreases profile_ids@.len() - started@.len(),
    {
        let i = next.unwrap();
        let id = profile_ids[i].as_str();
        let outcome = restore(id);
        match outcome {
            Ok(unit) => {
                started.push(profile_ids[i].clone());
                proof {
                    assert(texts(started@) =~= texts(profile_ids@).subrange(0, i + 1));
                    assert(id@ == profile_ids@[i as int]@);
                    assert(outcome == Ok::<(), AppError>(unit));
                    assert(call_ensures(restore, (id,), Ok::<(), AppError>(())));
                    assert(started_ok(restore, profile_ids@[i as int]@));
                }
            }
            Err(error) => {
                let message = error.message();
                let related_port = related_port_of(&error);
                return RestoreResult {
                    started_profile_ids: started,
                    failed_profile_id: Some(profile_ids[i].clone()),
                    error: Some(message),
                    related_port,
                };
            }
        }
        next = next_to_restore(count, started.len(), false);
    }
    proof {
        assert(texts(profile_ids@).subrange(0, started@.len() as int) =~= texts(profile_ids@));
    }
    RestoreResult { started_profile_ids: started, failed_profile_id: None, error: None, related_port: None }
}

/// The members of a group, last launched first.
pub open spec fn reversed(ids: Seq<Seq<char>>) -> Seq<Seq<char>> {
    Seq::new(ids.len(), |i: int| ids[ids.len() - 1 - i])
}

/// Stop a group's members in reverse launch order, so a dependent shuts down before
/// what it depends on. `stop` says `Ok(false)` for a member that was not running. A
/// refusal does not end the walk: every member is asked, and every refusal reported.
/// The result is the members stopped and the members that refused, each in the order
/// they were asked. Which member is asked next is [`next_to_stop`]'s to decide.
pub fn stop_group_profiles<F: Fn(&str) -> AppResult<bool>>(
    profile_ids: &Vec<String>,
    stop: F,
) -> (r: (Vec<String>, Vec<LaunchGroupStopFailure>))
    requires
        forall|s: &str| call_requires(stop, (s,)),
    ensures
        exists|outcomes: Seq<AppResult<bool>>| {
            &&& outcomes.len() == profile_ids@.len()
            &&& forall|i: int| 0 <= i < outcomes.len() ==> exists|s: &str|
                s@ == (#[trigger] reversed(texts(profile_ids@))[i]) && call_ensures(stop, (s,), outcomes[i])
            &&& texts(r.0@) == stopped_members(reversed(texts(profile_ids@)), outcomes)
            &&& failure_views(r.1@) == refused_members(reversed(texts(profile_ids@)), outcomes)
        },
{
    let mut stopped: Vec<String> = Vec::new();
    let mut failures: Vec<LaunchGroupStopFailure> = Vec::new();
    let ghost order = reversed(texts(profile_ids@));
    let ghost mut outcomes: Seq<AppResult<bool>> = Seq::empty();
    let mut asked: usize = 0;
    let count = profile_ids.len();
    let mut next = next_to_stop(count, 0);
    while next.is_some()
        invariant
            forall|s: &str| call_requires(stop, (s,)),
            count == profile_ids@.len(),
            next == if asked >= count { None::<usize> } else { Some((count - 1 - asked) as usize) },
            order == reversed(texts(profile_ids@)),
            asked <= profile_ids@.len(),
            outcomes.len() == asked,
            forall|i: int| 0 <= i < outcomes.len() ==> exists|s: &str|
                s@ == (#[trigger] order[i]) && call_ensures(stop, (s,), outcomes[i]),
            texts(stopped@) == stopped_members(order.subrange(0, outcomes.len() as int), outcomes),
            failure_views(failures@) == refused_members(order.subrange(0, outcomes.len() as int), outcomes),
        decreases profile_ids@.len() - asked,
    {
        let n = next.unwrap();
        assert(asked < count && n == count - 1 - asked);
        assert(texts(profile_ids@)[n as int] == profile_ids@[n as int]@);
        let id = profile_ids[n].as_str();
        let outcome = stop(id);
        let ghost done = outcomes.len() as int;
        proof {
            assert(order[done] == profile_ids@[n as int]@);
            assert(order.subrange(0, done + 1).drop_last() =~= order.subrange(0, done));
        }
        match &outcome {
            Ok(true) => {
                stopped.push(profile_ids[n].clone());
            }
            Ok(false) => {}
            Err(error) => {
                failures.push(LaunchGroupStopFailure { profile_id: profile_ids[n].clone(), error: error.message() });
            }
        }
        proof {
            let before = outcomes;
            outcomes = outcomes.push(outcome);
            assert(outcomes.drop_last() =~= before);
            assert forall|i: int| 0 <= i < outcomes.len() implies exists|s: &str|
                s@ == (#[trigger] order[i]) && call_ensures(stop, (s,), outcomes[i]) by {
                if i == done {
                    assert(id@ == order[i]);
                }
            }
            assert(texts(stopped@) =~= stopped_members(order.subrange(0, outcomes.len() as int), outcomes));
            assert(failure_views(failures@) =~= refused_members(order.subrange(0, outcomes.len() as int), outcomes));
        }
        asked = asked + 1;
        next = next_to_stop(count, asked);
    }
    proof {
        assert(order.subrange(0, outcomes.len() as int) =~= order);
    }
    (stopped, failures)
}

/// The members a walk stopped, in the order they were asked.
pub open spec fn stopped_members(order: Seq<Seq<char>>, outcomes: Seq<AppResult<bool>>) -> Seq<Seq<char>>
    decreases outcomes.len(),
{
    if outcomes.len() == 0 || order.len() < outcomes.len() {
        Seq::empty()
    } else {
        let k = outcomes.len() - 1;
        let before = stopped_members(order.subrange(0, k), outcomes.drop_last());
        match outcomes.last() {
            Ok(true) => before.push(order[k]),
            _ => before,
        }
    }
}

/// The members that refused, with the text of each refusal, in the order they were
/// asked.
pub open spec fn refused_members(order: Seq<Seq<char>>, outcomes: Seq<AppResult<bool>>) -> Seq<(Seq<char>, Seq<char>)>
    decreases outcomes.len(),
{
    if outcomes.len() == 0 || order.len() < outcomes.len() {
        Seq::empty()
    } else {
        let k = outcomes.len() - 1;
        let before = refused_members(order.subrange(0, k), outcomes.drop_last());
        match outcomes.last() {
            Err(e) => before.push((order[k], e.text())),
            _ => before,
        }
    }
}

/// Failures as (member, error text).
pub open spec fn failure_views(failures: Seq<LaunchGroupStopFailure>) -> Seq<(Seq<char>, Seq<char>)> {
    Seq::new(failures.len(), |i: int| (failures[i].profile_id@, failures[i].error@))
}

/// The error a shutdown reports when saving the restore set and stopping the
/// processes both failed.
pub open spec fn double_failure_message(save: Seq<char>, stop: Seq<char>) -> Seq<char> {
    "Could not save restore set: "@ + save + "; process cleanup also failed: "@ + stop
}

/// Finish a shutdown: the processes are stopped whatever saving the restore set did,
/// and the result reports whichever failed, or both.
pub fn finish_shutdown<F: FnOnce() -> AppResult<()>>(save_result: AppResult<()>, stop_all: F) -> (r: AppResult<()>)
    requires
        call_requires(stop_all, ()),
    ensures
        exists|stopped: AppResult<()>| {
            &&& call_ensures(stop_all, (), stopped)
            &&& match (save_result, stopped) {
                (Ok(()), Ok(())) => r is Ok,
                (Err(save), Ok(())) => r matches Err(e) && e == save,
                (Ok(()), Err(stop)) => r matches Err(e) && e == stop,
                (Err(save), Err(stop)) => r matches Err(e) && e is Message && e.text() == double_failure_message(save.text(), stop.text()),
            }
        },
{
    let stop_result = stop_all();
    match (save_result, stop_result) {
        (Ok(()), Ok(())) => Ok(()),
        (Err(save), Ok(())) => Err(save),
        (Ok(()), Err(stop)) => Err(stop),
        (Err(save), Err(stop)) => {
            let mut m = String::new();
            push_str(&mut m, "Could not save restore set: ");
            let save_text = save.message();
            push_str(&mut m, save_text.as_str());
            push_str(&mut m, "; process cleanup also failed: ");
            let stop_text = stop.message();
            push_str(&mut m, stop_text.as_str());
            Err(invalid(m))
        }
    }
}

/// The group a start or a stop walks, or the refusal: a missing group, or one the
/// deletion of its last profile left empty.
pub fn runnable_group(group: Option<LaunchGroup>) -> (r: AppResult<LaunchGroup>)
    ensures
        group is None ==> (r matches Err(e) && e is Message && e.text() == "Launch group not found"@),
        group matches Some(g) && g.profile_ids@.len() == 0 ==> (r matches Err(e) && e is Message && e.text()
            == "This launch group has no launch profiles"@),
        group matches Some(g) ==> (g.profile_ids@.len() > 0 ==> r == Ok::<LaunchGroup, AppError>(g)),
{
    match group {
        None => {
            let mut m = String::new();
            push_str(&mut m, "Launch group not found");
            Err(invalid(m))
        }
        Some(g) => {
            if g.profile_ids.len() == 0 {
                let mut m = String::new();
                push_str(&mut m, "This launch group has no launch profiles");
                Err(invalid(m))
            } else {
                Ok(g)
            }
        }
    }
}

/// A path as it is compared for identity: separators made backslashes, trailing
/// backslashes dropped, ASCII letters made small.
pub open spec fn path_identity(path: Seq<char>) -> Seq<char> {
    ascii_lowered(trimmed_backslashes(path.map_values(|c: char| if c == '/' { '\\' } else { c })))
}

/// A text without its trailing backslashes.
pub open spec fn trimmed_backslashes(text: Seq<char>) -> Seq<char>
    decreases text.len(),
{
    if text.len() > 0 && text.last() == '\\' {
        trimmed_backslashes(text.drop_last())
    } else {
        text
    }
}

/// How a path is compared for identity, which on Windows ignores case and the kind of
/// separator.
pub fn normalized_path(path: &str) -> (r: String)
    ensures
        r@ == path_identity(path@),
{
    let chars = chars_of(path);
    let ghost swapped = path@.map_values(|c: char| if c == '/' { '\\' } else { c });
    let mut end: usize = chars.len();
    proof {
        assert(swapped.subrange(0, chars@.len() as int) =~= swapped);
    }
    while end > 0 && (chars[end - 1] == '\\' || chars[end - 1] == '/')
        invariant
            chars@ == path@,
            end <= chars@.len(),
            swapped.len() == path@.len(),
            forall|j: int| 0 <= j < path@.len() ==> #[trigger] swapped[j] == (if path@[j] == '/' { '\\' } else { path@[j] }),
            trimmed_backslashes(swapped) == trimmed_backslashes(swapped.subrange(0, end as int)),
        decreases end,
    {
        proof {
            assert(swapped.subrange(0, end as int).drop_last() =~= swapped.subrange(0, end - 1));
        }
        end = end - 1;
    }
    proof {
        assert(swapped.subrange(0, end as int) =~= swapped.subrange(0, end as int));
        if end > 0 {
            assert(swapped.subrange(0, end as int).last() != '\\');
        }
        assert(trimmed_backslashes(swapped.subrange(0, end as int)) == swapped.subrange(0, end as int));
    }
    let mut kept = String::new();
    let mut i: usize = 0;
    while i < end
        invariant
            chars@ == path@,
            end <= chars@.len(),
            swapped.len() == path@.len(),
            forall|j: int| 0 <= j < path@.len() ==> #[trigger] swapped[j] == (if path@[j] == '/' { '\\' } else { path@[j] }),
            i <= end,
            kept@ == swapped.subrange(0, i as int),
        decreases end - i,
    {
        let c = chars[i];
        push_char(&mut kept, if c == '/' { '\\' } else { c });
        proof {
            assert(kept@ =~= swapped.subrange(0, i + 1));
        }
        i = i + 1;
    }
    to_ascii_lowercase(kept.as_str())
}

/// Whether a scan shows the port a request names still held by the process it names.
pub open spec fn listener_held(request: ExternalProcessRequest, entry: PortEntry) -> bool {
    &&& entry.state == ConnectionState::Listen
    &&& entry.port == request.port
    &&& ascii_lowered(entry.protocol@) == ascii_lowered(request.protocol@)
    &&& entry.pid == Some(request.pid)
}

/// Whether a scan shows the requested port still held, in `LISTEN`, by the requested
/// process.
pub fn listener_matches_request(request: &ExternalProcessRequest, entries: &Vec<PortEntry>) -> (r: bool)
    ensures
        r == exists|i: int| 0 <= i < entries@.len() && listener_held(*request, #[trigger] entries@[i]),
{
    let mut i: usize = 0;
    while i < entries.len()
        invariant
            i <= entries@.len(),
            forall|k: int| 0 <= k < i ==> !listener_held(*request, #[trigger] entries@[k]),
        decreases entries@.len() - i,
    {
        let entry = &entries[i];
        if entry.state == ConnectionState::Listen && entry.port == request.port
            && eq_ignore_ascii_case(entry.protocol.as_str(), request.protocol.as_str())
            && entry.pid == Some(request.pid) {
            return true;
        }
        i = i + 1;
    }
    false
}

/// Whether `entry` shows `expected` already taken by a listener.
pub open spec fn occupies(entry: PortEntry, expected: ExpectedPort) -> bool {
    &&& entry.state == ConnectionState::Listen
    &&& entry.port == expected.port
    &&& ascii_lowered(entry.protocol@) == ascii_lowered(expected.protocol@)
}

/// The first listener among `entries` on `expected`, if any.
fn occupant(expected: &ExpectedPort, entries: &Vec<PortEntry>) -> (r: Option<usize>)
    ensures
        r is None ==> forall|j: int| 0 <= j < entries@.len() ==> !occupies(#[trigger] entries@[j], *expected),
        r matches Some(j) ==> j < entries@.len() && occupies(entries@[j as int], *expected)
            && forall|k: int| 0 <= k < j ==> !occupies(#[trigger] entries@[k], *expected),
{
    let mut j: usize = 0;
    while j < entries.len()
        invariant
            j <= entries@.len(),
            forall|k: int| 0 <= k < j ==> !occupies(#[trigger] entries@[k], *expected),
        decreases entries@.len() - j,
    {
        let entry = &entries[j];
        if entry.state == ConnectionState::Listen && entry.port == expected.port
            && eq_ignore_ascii_case(entry.protocol.as_str(), expected.protocol.as_str()) {
            return Some(j);
        }
        j = j + 1;
    }
    None
}

/// The first expected port, in the profile's order, that a scan shows already taken,
/// with the name of the process holding it (the first such listener's). A profile
/// that expects no port has no conflict.
pub fn first_conflict(expected_ports: &Vec<ExpectedPort>, entries: &Vec<PortEntry>) -> (r: Option<(RelatedPort, Option<String>)>)
    ensures
        (forall|i: int, j: int| 0 <= i < expected_ports@.len() && 0 <= j < entries@.len() ==> ascii_lowered(
            #[trigger] entries@[j].protocol@,
        ) != ascii_lowered(#[trigger] expected_ports@[i].protocol@)) ==> r is None,
        r is None ==> forall|i: int, j: int| 0 <= i < expected_ports@.len() && 0 <= j < entries@.len()
            ==> !occupies(#[trigger] entries@[j], #[trigger] expected_ports@[i]),
        r matches Some((port, holder)) ==> exists|i: int, j: int| {
            &&& 0 <= i < expected_ports@.len()
            &&& 0 <= j < entries@.len()
            &&& occupies(entries@[j], expected_ports@[i])
            &&& (forall|a: int, b: int| 0 <= a < i && 0 <= b < entries@.len()
                ==> !occupies(#[trigger] entries@[b], #[trigger] expected_ports@[a]))
            &&& (forall|b: int| 0 <= b < j ==> !occupies(#[trigger] entries@[b], expected_ports@[i]))
            &&& port.port == expected_ports@[i].port
            &&& port.protocol@ == expected_ports@[i].protocol@
            &&& match (holder, entries@[j].process_name) {
                (Some(h), Some(n)) => h@ == n@,
                (None, None) => true,
                _ => false,
            }
        },
{
    let mut i: usize = 0;
    while i < expected_ports.len()
        invariant
            i <= expected_ports@.len(),
            forall|a: int, b: int| 0 <= a < i && 0 <= b < entries@.len()
                ==> !occupies(#[trigger] entries@[b], #[trigger] expected_ports@[a]),
        decreases expected_ports@.len() - i,
    {
        let expected = &expected_ports[i];
        match occupant(expected, entries) {
            Some(j) => {
                let holder = match &entries[j].process_name {
                    Some(name) => Some(name.clone()),
                    None => None,
                };
                let port = RelatedPort { port: expected.port, protocol: expected.protocol.clone() };
                return Some((port, holder));
            }
            None => {}
        }
        i = i + 1;
    }
    None
}

/// The refusals of an association confirmation whose observed identity moved.
pub open spec fn port_changed_message() -> Seq<char> {
    "Observed port identity changed; refresh before confirming association"@
}

pub open spec fn process_changed_message() -> Seq<char> {
    "Observed process identity changed; refresh before confirming association"@
}

pub open spec fn suggestion_changed_message() -> Seq<char> {
    "Suggested project association changed; refresh before confirming it"@
}

/// Whether a scanned port is the listener a confirmation was made against.
pub open spec fn is_requested_listener(port: PortSnapshot, request: ConfirmAssociationRequest) -> bool {
    &&& port.active
    &&& ascii_lowered(port.state@) == ascii_lowered("LISTEN"@)
    &&& port.port == request.port
    &&& ascii_lowered(port.protocol@) == ascii_lowered(request.protocol@)
    &&& port.pid == Some(request.pid)
}

/// Whether the listener is still the process the confirmation was made against.
pub open spec fn is_same_process(port: PortSnapshot, request: ConfirmAssociationRequest) -> bool {
    &&& port.process_started_at == Some(request.started_at)
    &&& port.executable_path matches Some(path) && path_identity(path@) == path_identity(request.executable_path@)
}

/// Whether the listener still carries exactly the suggestion being confirmed.
pub open spec fn is_same_suggestion(port: PortSnapshot, request: ConfirmAssociationRequest) -> bool {
    &&& port.association_source == Some(AssociationSource::Suggested)
    &&& port.project_id matches Some(p) && p@ == request.project_id@
    &&& match (port.profile_id, request.profile_id) {
        (Some(a), Some(b)) => a@ == b@,
        (None, None) => true,
        _ => false,
    }
}

/// Whether two optional texts are the same.
fn same_optional_text(a: &Option<String>, b: &Option<String>) -> (r: bool)
    ensures
        r == match (*a, *b) {
            (Some(x), Some(y)) => x@ == y@,
            (None, None) => true,
            _ => false,
        },
{
    match (a, b) {
        (Some(x), Some(y)) => str_eq(x.as_str(), y.as_str()),
        (None, None) => true,
        _ => false,
    }
}

/// The first scanned port that is the requested listener.
fn first_requested_listener(request: &ConfirmAssociationRequest, ports: &Vec<PortSnapshot>) -> (r: Option<usize>)
    ensures
        r is None ==> forall|i: int| 0 <= i < ports@.len() ==> !is_requested_listener(#[trigger] ports@[i], *request),
        r matches Some(at) ==> at < ports@.len() && is_requested_listener(ports@[at as int], *request)
            && forall|k: int| 0 <= k < at ==> !is_requested_listener(#[trigger] ports@[k], *request),
{
    let mut i: usize = 0;
    while i < ports.len()
        invariant
            i <= ports@.len(),
            forall|k: int| 0 <= k < i ==> !is_requested_listener(#[trigger] ports@[k], *request),
        decreases ports@.len() - i,
    {
        let port = &ports[i];
        if port.active && eq_ignore_ascii_case(port.state.as_str(), "LISTEN") && port.port == request.port
            && eq_ignore_ascii_case(port.protocol.as_str(), request.protocol.as_str())
            && port.pid == Some(request.pid) {
            return Some(i);
        }
        i = i + 1;
    }
    None
}

/// A confirmation is accepted only against the current suggestion: the first scanned
/// port that is the requested listener must still be the same process and still carry
/// the same suggested project and profile.
pub fn validate_confirm_association_request(request: &ConfirmAssociationRequest, ports: &Vec<PortSnapshot>) -> (r: AppResult<()>)
    ensures
        (forall|i: int| 0 <= i < ports@.len() ==> !is_requested_listener(#[trigger] ports@[i], *request))
            ==> (r matches Err(e) && e is Message && e.text() == port_changed_message()),
        forall|i: int| 0 <= i < ports@.len() && is_requested_listener(#[trigger] ports@[i], *request)
            && (forall|k: int| 0 <= k < i ==> !is_requested_listener(#[trigger] ports@[k], *request)) ==> {
            if !is_same_process(ports@[i], *request) {
                r matches Err(e) && e is Message && e.text() == process_changed_message()
            } else if !is_same_suggestion(ports@[i], *request) {
                r matches Err(e) && e is Message && e.text() == suggestion_changed_message()
            } else {
                r is Ok
            }
        },
{
    let at = match first_requested_listener(request, ports) {
        Some(at) => at,
        None => {
            let mut m = String::new();
            push_str(&mut m, "Observed port identity changed; refresh before confirming association");
            return Err(invalid(m));
        }
    };
    let port = &ports[at];
    let same_executable = match &port.executable_path {
        Some(path) => {
            let observed = normalized_path(path.as_str());
            let requested = normalized_path(request.executable_path.as_str());
            str_eq(observed.as_str(), requested.as_str())
        }
        None => false,
    };
    if !(port.process_started_at == Some(request.started_at) && same_executable) {
        let mut m = String::new();
        push_str(&mut m, "Observed process identity changed; refresh before confirming association");
        return Err(invalid(m));
    }
    let same_project = match &port.project_id {
        Some(p) => str_eq(p.as_str(), request.project_id.as_str()),
        None => false,
    };
    if port.association_source != Some(AssociationSource::Suggested) || !same_project
        || !same_optional_text(&port.profile_id, &request.profile_id) {
        let mut m = String::new();
        push_str(&mut m, "Suggested project association changed; refresh before confirming it");
        return Err(invalid(m));
    }
    Ok(())
}

/// A refusal with a fixed text.
fn refusal(text: &str) -> (e: AppError)
    ensures
        e is Message,
        e.text() == text@,
{
    let mut m = String::new();
    push_str(&mut m, text);
    invalid(m)
}

/// A process RunCove will never end on a user's request: the idle process, and itself.
pub fn refuse_protected_pid(request: &ExternalProcessRequest, own_pid: u32) -> (r: AppResult<()>)
    ensures
        r is Ok <==> (request.pid != 0 && request.pid != own_pid),
        r matches Err(e) ==> e is Message && e.text() == "RunCove refuses to terminate this process"@,
{
    if request.pid == 0 || request.pid == own_pid {
        return Err(refusal("RunCove refuses to terminate this process"));
    }
    Ok(())
}

/// A running process as the system reports it: when it started, in seconds, and the
/// executable it runs, when that can be read.
#[derive(Debug, Clone, PartialEq, Eq)]
pub struct ObservedProcess {
    pub start_time_secs: u64,
    pub executable: Option<String>,
}

/// The start time the system reports, in milliseconds, saturating.
pub open spec fn start_millis(secs: u64) -> u64 {
    if secs * 1000 <= u64::MAX { (secs * 1000) as u64 } else { u64::MAX }
}

/// The refusal an external termination meets, if any, given whether RunCove manages
/// the process and what the system reports of it; checked in this order.
pub open spec fn external_refusal(request: ExternalProcessRequest, managed: bool, observed: Option<ObservedProcess>) -> Option<Seq<char>> {
    if managed {
        Some("Managed processes must be stopped through their launch profile"@)
    } else {
        match observed {
            None => Some("Process no longer exists"@),
            Some(process) => match request.started_at {
                None => Some("A verified process start time is required"@),
                Some(expected) => if start_millis(process.start_time_secs) != expected {
                    Some("Process identity changed; refresh before terminating it"@)
                } else {
                    match process.executable {
                        None => Some("Executable path is unavailable; refusing to terminate process"@),
                        Some(current) => match request.executable_path {
                            None => Some("A verified executable path is required"@),
                            Some(wanted) => if path_identity(current@) != path_identity(wanted@) {
                                Some("Process executable changed; refresh before terminating it"@)
                            } else {
                                None
                            },
                        },
                    }
                },
            },
        }
    }
}

/// Whether the process a termination request names is still, as far as the system
/// shows, the one the user chose: not RunCove's own, still running, started when the
/// request says, and running the same executable.
pub fn check_external_identity(request: &ExternalProcessRequest, managed: bool, observed: &Option<ObservedProcess>) -> (r: AppResult<()>)
    ensures
        external_refusal(*request, managed, *observed) is None <==> r is Ok,
        external_refusal(*request, managed, *observed) matches Some(m) ==> (r matches Err(e) && e is Message && e.text() == m),
{
    if managed {
        return Err(refusal("Managed processes must be stopped through their launch profile"));
    }
    let process = match observed {
        None => return Err(refusal("Process no longer exists")),
        Some(process) => process,
    };
    let expected = match request.started_at {
        None => return Err(refusal("A verified process start time is required")),
        Some(expected) => expected,
    };
    let millis: u64 = if process.start_time_secs <= u64::MAX / 1000 {
        process.start_time_secs * 1000
    } else {
        u64::MAX
    };
    if millis != expected {
        return Err(refusal("Process identity changed; refresh before terminating it"));
    }
    let current = match &process.executable {
        None => return Err(refusal("Executable path is unavailable; refusing to terminate process")),
        Some(current) => normalized_path(current.as_str()),
    };
    let wanted = match &request.executable_path {
        None => return Err(refusal("A verified executable path is required")),
        Some(wanted) => normalized_path(wanted.as_str()),
    };
    if !str_eq(current.as_str(), wanted.as_str()) {
        return Err(refusal("Process executable changed; refresh before terminating it"));
    }
    Ok(())
}


/// The text a start refused for a taken port shows: the port, and the process holding
/// it when the scan named one.
pub open spec fn conflict_message(port: u16, holder: Option<Seq<char>>) -> Seq<char> {
    "Expected port "@ + decimal_digits(port as nat) + " is already occupied"@ + match holder {
        Some(name) => " by "@ + name,
        None => Seq::empty(),
    }
}

/// What a start request does before anything is launched.
#[derive(Debug)]
pub enum StartPlan {
    /// The profile already runs as this process: report it running and launch nothing.
    AlreadyRunning(u32),
    /// An expected port is taken: the profile is marked `conflict` and the start is
    /// refused with this error, which names the port.
    Refuse(AppError),
    /// Nothing is in the way: mark the profile `starting` and launch it.
    Launch,
}

/// Decide a start from whether the profile already runs and the first expected port
/// a scan shows taken. A running profile is never launched twice, and a taken port
/// refuses the start before any session or process exists.
pub fn start_plan(running_pid: Option<u32>, conflict: Option<(RelatedPort, Option<String>)>) -> (plan: StartPlan)
    ensures
        running_pid matches Some(pid) ==> plan == StartPlan::AlreadyRunning(pid),
        running_pid is None && conflict is None ==> plan is Launch,
        running_pid is None ==> (conflict matches Some((port, holder)) ==> {
            &&& plan matches StartPlan::Refuse(e)
            &&& e is PortConflict
            &&& e.text() == conflict_message(port.port, match holder { Some(h) => Some(h@), None => None })
            &&& e->related_port.port == port.port
            &&& e->related_port.protocol@ == port.protocol@
        }),
{
    if let Some(pid) = running_pid {
        return StartPlan::AlreadyRunning(pid);
    }
    match conflict {
        None => StartPlan::Launch,
        Some((port, holder)) => {
            let mut message = String::new();
            push_str(&mut message, "Expected port ");
            push_decimal(&mut message, port.port as u64);
            push_str(&mut message, " is already occupied");
            match &holder {
                Some(name) => {
                    push_str(&mut message, " by ");
                    push_str(&mut message, name.as_str());
                }
                None => {}
            }
            proof {
                assert(message@ =~= conflict_message(port.port, match holder { Some(h) => Some(h@), None => None }));
            }
            StartPlan::Refuse(AppError::port_conflict(message, port.port, port.protocol))
        }
    }
}

/// The steps a start takes once it has decided to launch, in order.
#[derive(Debug, Clone, Copy, PartialEq, Eq, Structural)]
pub enum StartStep {
    /// Open the run's session record.
    BeginSession,
    /// Launch the process tree.
    Launch,
    /// Record the launched process on the session.
    RecordPid,
    /// Store the set of running profiles for the next restore.
    SyncRestoreSet,
    /// Wait for the expected ports to listen.
    WaitReady,
}

/// The status a profile is left in when a step of its start fails: still `idle` when
/// no session was opened, `exited` once one was.
pub fn status_after_failed_step(step: StartStep) -> (s: RunStatus)
    ensures
        s == (if step == StartStep::BeginSession { RunStatus::Idle } else { RunStatus::Exited }),
{
    match step {
        StartStep::BeginSession => RunStatus::Idle,
        _ => RunStatus::Exited,
    }
}

/// Whether a failed step leaves a process behind that has to be stopped before the
/// failure is reported: every step after the launch succeeded.
pub fn cleans_up_after(step: StartStep) -> (r: bool)
    ensures
        r == (step == StartStep::RecordPid || step == StartStep::SyncRestoreSet || step == StartStep::WaitReady),
{
    match step {
        StartStep::BeginSession | StartStep::Launch => false,
        _ => true,
    }
}

/// The text added when stopping the process of a failed start failed too.
pub open spec fn cleanup_failed_message(error: Seq<char>, stop: Seq<char>) -> Seq<char> {
    error + "; failed to clean up the started process: "@ + stop
}

/// The error a failed start reports once its process was cleaned up: the step's own
/// error when the cleanup succeeded, and both when it did not.
pub fn failed_start_error(error: AppError, cleanup: AppResult<()>) -> (e: AppError)
    ensures
        cleanup is Ok ==> e == error,
        cleanup matches Err(stop) ==> e == AppError::Message(e->Message_0) && e.text()
            == cleanup_failed_message(error.text(), stop.text()),
{
    match cleanup {
        Ok(()) => error,
        Err(stop) => {
            let mut message = error.message();
            push_str(&mut message, "; failed to clean up the started process: ");
            let stop_text = stop.message();
            push_str(&mut message, stop_text.as_str());
            invalid(message)
        }
    }
}

/// The address a listening port is opened at in a browser.
pub open spec fn browser_address(port: u16) -> Seq<char> {
    "http://127.0.0.1:"@ + decimal_digits(port as nat)
}

/// The refusal for opening a port that is not TCP in a browser.
pub open spec fn not_tcp_message() -> Seq<char> {
    "Only TCP ports can be opened in a browser"@
}

/// Where a browser is sent for a port: only a TCP port, whatever the case of its
/// protocol's name, on the loopback address.
pub fn browser_url(port: u16, protocol: &str) -> (r: AppResult<String>)
    ensures
        ascii_lowered(protocol@) == "tcp"@ ==> (r matches Ok(url) && url@ == browser_address(port)),
        ascii_lowered(protocol@) != "tcp"@ ==> (r matches Err(e) && e is Message && e.text() == not_tcp_message()),
{
    proof {
        reveal_strlit("TCP");
        reveal_strlit("tcp");
        assert(ascii_lowered("TCP"@) =~= "tcp"@);
    }
    if !eq_ignore_ascii_case(protocol, "TCP") {
        let mut message = String::new();
        push_str(&mut message, "Only TCP ports can be opened in a browser");
        return Err(invalid(message));
    }
    let mut url = String::new();
    push_str(&mut url, "http://127.0.0.1:");
    push_decimal(&mut url, port as u64);
    Ok(url)
}

/// What is being done to a project whose profiles were reserved.
#[derive(Debug, Clone, Copy, PartialEq, Eq, Structural)]
pub enum ProjectChange {
    Edit,
    Delete,
}

/// The word a refusal uses for a change.
pub open spec fn change_word(change: ProjectChange) -> Seq<char> {
    match change {
        ProjectChange::Edit => "editing"@,
        ProjectChange::Delete => "deleting"@,
    }
}

/// The refusal for a project whose profiles changed while they were being reserved.
pub open spec fn profiles_changed_message(change: ProjectChange) -> Seq<char> {
    "Project profiles changed; reload before "@ + change_word(change)
}

/// The refusal for a project one of whose profiles is running.
pub open spec fn still_running_message(change: ProjectChange) -> Seq<char> {
    "Stop every running profile in this project before "@ + change_word(change) + " it"@
}

/// The ids of a project's profiles, in its order.
pub open spec fn profile_ids_of(project: Project) -> Seq<Seq<char>> {
    Seq::new(project.profiles@.len(), |i: int| project.profiles@[i].id@)
}

/// Whether two lists of ids are the same, in the same order.
fn same_ids(a: &Vec<String>, b: &Vec<String>) -> (r: bool)
    ensures
        r == (texts(a@) == texts(b@)),
{
    if a.len() != b.len() {
        proof {
            assert(texts(a@).len() != texts(b@).len());
        }
        return false;
    }
    let mut i: usize = 0;
    while i < a.len()
        invariant
            a@.len() == b@.len(),
            i <= a@.len(),
            forall|j: int| 0 <= j < i ==> a@[j]@ == b@[j]@,
        decreases a@.len() - i,
    {
        if !str_eq(a[i].as_str(), b[i].as_str()) {
            proof {
                assert(texts(a@)[i as int] != texts(b@)[i as int]);
            }
            return false;
        }
        i = i + 1;
    }
    proof {
        assert(texts(a@) =~= texts(b@));
    }
    true
}

/// Whether a project may still be edited or deleted once its profiles are reserved:
/// its profiles must be the ones that were reserved, and none of them may be running.
pub fn check_project_change(
    change: ProjectChange,
    reserved: &Vec<String>,
    current: &Project,
    active_profile_ids: &Vec<String>,
) -> (r: AppResult<()>)
    ensures
        profile_ids_of(*current) != texts(reserved@) ==> (r matches Err(e) && e is Message && e.text() == profiles_changed_message(change)),
        profile_ids_of(*current) == texts(reserved@) && (exists|i: int| 0 <= i < current.profiles@.len()
            && texts(active_profile_ids@).contains(#[trigger] current.profiles@[i].id@)) ==> (r matches Err(e)
            && e is Message && e.text() == still_running_message(change)),
        profile_ids_of(*current) == texts(reserved@) && !(exists|i: int| 0 <= i < current.profiles@.len()
            && texts(active_profile_ids@).contains(#[trigger] current.profiles@[i].id@)) ==> r is Ok,
{
    let ids = project_profile_ids(current);
    proof {
        assert(texts(ids@) =~= profile_ids_of(*current));
    }
    let word = match change {
        ProjectChange::Edit => "editing",
        ProjectChange::Delete => "deleting",
    };
    proof {
        reveal_strlit("editing");
        reveal_strlit("deleting");
        assert(word@ == change_word(change));
    }
    if !same_ids(&ids, reserved) {
        let mut message = String::new();
        push_str(&mut message, "Project profiles changed; reload before ");
        push_str(&mut message, word);
        return Err(invalid(message));
    }
    if project_has_active_profile(current, active_profile_ids) {
        let mut message = String::new();
        push_str(&mut message, "Stop every running profile in this project before ");
        push_str(&mut message, word);
        push_str(&mut message, " it");
        return Err(invalid(message));
    }
    Ok(())
}

/// The ids of `ids` that `kept` does not hold, in their order.
pub open spec fn ids_not_in(ids: Seq<Seq<char>>, kept: Seq<Seq<char>>) -> Seq<Seq<char>>
    decreases ids.len(),
{
    if ids.len() == 0 {
        Seq::empty()
    } else if kept.contains(ids.last()) {
        ids_not_in(ids.drop_last(), kept)
    } else {
        ids_not_in(ids.drop_last(), kept).push(ids.last())
    }
}

/// The profiles an edit removed: those it had before and not after, whose run state is
/// cleared once the project is saved.
pub fn removed_profile_ids(before: &Vec<String>, after: &Vec<String>) -> (removed: Vec<String>)
    ensures
        texts(removed@) == ids_not_in(texts(before@), texts(after@)),
{
    let mut removed: Vec<String> = Vec::new();
    let mut i: usize = 0;
    while i < before.len()
        invariant
            i <= before@.len(),
            texts(removed@) == ids_not_in(texts(before@).subrange(0, i as int), texts(after@)),
        decreases before@.len() - i,
    {
        proof {
            let prefix = texts(before@).subrange(0, i + 1);
            assert(prefix.drop_last() =~= texts(before@).subrange(0, i as int));
            assert(prefix.last() == before@[i as int]@);
        }
        if !contains_text(after, before[i].as_str()) {
            let ghost old_removed = removed@;
            removed.push(before[i].clone());
            proof {
                assert(texts(removed@) =~= texts(old_removed).push(before@[i as int]@));
            }
        }
        i = i + 1;
    }
    proof {
        assert(texts(before@).subrange(0, i as int) =~= texts(before@));
    }
    removed
}

/// Whether `expected` has a listener of the profile's own: one `entries` shows on it
/// whose process is one of `owned_pids`.
pub open spec fn port_served(expected: ExpectedPort, entries: Seq<PortEntry>, owned_pids: Seq<u32>) -> bool {
    exists|j: int| {
        &&& 0 <= j < entries.len()
        &&& occupies(#[trigger] entries[j], expected)
        &&& entries[j].pid matches Some(pid) && owned_pids.contains(pid)
    }
}

/// Whether every expected port has a listener that belongs to the profile's own
/// process tree.
pub open spec fn all_ports_ready(expected: Seq<ExpectedPort>, entries: Seq<PortEntry>, owned_pids: Seq<u32>) -> bool {
    forall|i: int| 0 <= i < expected.len() ==> #[trigger] port_served(expected[i], entries, owned_pids)
}

/// Whether one expected port has a listener of the profile's own.
fn port_ready(expected: &ExpectedPort, entries: &Vec<PortEntry>, owned_pids: &Vec<u32>) -> (r: bool)
    ensures
        r == port_served(*expected, entries@, owned_pids@),
{
    let mut j: usize = 0;
    while j < entries.len()
        invariant
            j <= entries@.len(),
            forall|k: int| 0 <= k < j ==> !{
                &&& occupies(#[trigger] entries@[k], *expected)
                &&& entries@[k].pid matches Some(pid) && owned_pids@.contains(pid)
            },
        decreases entries@.len() - j,
    {
        let entry = &entries[j];
        if entry.state == ConnectionState::Listen && entry.port == expected.port
            && eq_ignore_ascii_case(entry.protocol.as_str(), expected.protocol.as_str()) {
            if let Some(pid) = entry.pid {
                let mut k: usize = 0;
                while k < owned_pids.len()
                    invariant
                        j < entries@.len(),
                        occupies(entries@[j as int], *expected),
                        entries@[j as int].pid == Some(pid),
                        k <= owned_pids@.len(),
                        forall|m: int| 0 <= m < k ==> owned_pids@[m] != pid,
                    decreases owned_pids@.len() - k,
                {
                    if owned_pids[k] == pid {
                        proof {
                            assert(owned_pids@[k as int] == pid);
                        }
                        return true;
                    }
                    k = k + 1;
                }
                proof {
                    assert(!owned_pids@.contains(pid));
                }
            }
        }
        j = j + 1;
    }
    false
}

/// Whether a started profile is ready: every port it expects is listened on by its own
/// process tree. A profile that expects no port is ready as soon as it runs.
pub fn ports_ready(expected: &Vec<ExpectedPort>, entries: &Vec<PortEntry>, owned_pids: &Vec<u32>) -> (r: bool)
    ensures
        (exists|i: int| 0 <= i < expected@.len() && #[trigger] no_entry_of_protocol(entries@, expected@[i].protocol@))
            ==> !r,
        r == all_ports_ready(expected@, entries@, owned_pids@),
{
    let mut i: usize = 0;
    while i < expected.len()
        invariant
            i <= expected@.len(),
            forall|a: int| 0 <= a < i ==> #[trigger] port_served(expected@[a], entries@, owned_pids@),
        decreases expected@.len() - i,
    {
        if !port_ready(&expected[i], entries, owned_pids) {
            return false;
        }
        i = i + 1;
    }
    proof {
        if exists|i: int| 0 <= i < expected@.len() && #[trigger] no_entry_of_protocol(entries@, expected@[i].protocol@) {
            let w = choose|i: int| 0 <= i < expected@.len() && #[trigger] no_entry_of_protocol(
                entries@,
                expected@[i].protocol@,
            );
            a_port_is_only_taken_by_its_own_protocol(expected@[w], entries@, owned_pids@);
            assert(port_served(expected@[w], entries@, owned_pids@));
        }
    }
    true
}

/// What one look at a starting profile decides.
#[derive(Debug)]
pub enum ReadyPoll {
    /// The profile is ready.
    Ready,
    /// Look again after a pause.
    Wait,
    /// The start failed with this error.
    Refuse(AppError),
}

/// The refusal for a profile without expected ports that stopped before it settled.
pub open spec fn exited_unready_message() -> Seq<char> {
    "Profile exited before it became ready"@
}

/// The refusal for a profile that stopped while its ports were awaited.
pub open spec fn exited_before_ports_message() -> Seq<char> {
    "Profile exited before expected ports became ready"@
}

/// The refusal for ports that did not open in time.
pub open spec fn ports_timeout_message() -> Seq<char> {
    "Timed out waiting for expected ports"@
}

/// Decide one look at a starting profile. One that expects no port is looked at once,
/// after a settling pause: ready if it still runs. One that expects ports is awaited
/// until the deadline: refused as soon as it stops running, ready once its ports are.
pub fn ready_poll(expects_ports: bool, running: bool, ports_are_ready: bool, deadline_passed: bool) -> (r: ReadyPoll)
    ensures
        !expects_ports && running ==> r is Ready,
        !expects_ports && !running ==> (r matches ReadyPoll::Refuse(e) && e is Message && e.text() == exited_unready_message()),
        expects_ports && deadline_passed ==> (r matches ReadyPoll::Refuse(e) && e is Message && e.text() == ports_timeout_message()),
        expects_ports && !deadline_passed && !running ==> (r matches ReadyPoll::Refuse(e) && e is Message && e.text()
            == exited_before_ports_message()),
        expects_ports && !deadline_passed && running ==> (r is Ready <==> ports_are_ready) && (r is Wait <==> !ports_are_ready),
{
    if !expects_ports {
        if running {
            return ReadyPoll::Ready;
        }
        let mut message = String::new();
        push_str(&mut message, "Profile exited before it became ready");
        return ReadyPoll::Refuse(invalid(message));
    }
    if deadline_passed {
        let mut message = String::new();
        push_str(&mut message, "Timed out waiting for expected ports");
        return ReadyPoll::Refuse(invalid(message));
    }
    if !running {
        let mut message = String::new();
        push_str(&mut message, "Profile exited before expected ports became ready");
        return ReadyPoll::Refuse(invalid(message));
    }
    if ports_are_ready {
        ReadyPoll::Ready
    } else {
        ReadyPoll::Wait
    }
}

/// The refusal for a termination whose port is no longer held as the request says.
pub open spec fn ownership_changed_message() -> Seq<char> {
    "Port ownership changed; refresh before terminating it"@
}

/// Whether a scan still shows the requested listener before its process is ended:
/// the port held, in `LISTEN`, by the requested process; otherwise the request is
/// refused as stale.
pub fn check_requested_listener(request: &ExternalProcessRequest, entries: &Vec<PortEntry>) -> (r: AppResult<()>)
    ensures
        r is Ok <==> exists|i: int| 0 <= i < entries@.len() && listener_held(*request, #[trigger] entries@[i]),
        r matches Err(e) ==> e is Message && e.text() == ownership_changed_message(),
{
    if listener_matches_request(request, entries) {
        Ok(())
    } else {
        Err(refusal("Port ownership changed; refresh before terminating it"))
    }
}

/// The refusal for confirming an association when the last port scan failed.
pub open spec fn association_unverified_message(scan_error: Seq<char>) -> Seq<char> {
    "Could not verify port association: "@ + scan_error
}

/// Whether a suggested association may be confirmed against the last scan: never when
/// that scan failed, and otherwise as [`validate_confirm_association_request`] says.
pub fn check_association(
    request: &ConfirmAssociationRequest,
    scan_error: &Option<String>,
    ports: &Vec<PortSnapshot>,
) -> (r: AppResult<()>)
    ensures
        scan_error matches Some(m) ==> (r matches Err(e) && e is Message && e.text() == association_unverified_message(m@)),
        scan_error is None ==> (forall|i: int| 0 <= i < ports@.len() ==> !is_requested_listener(#[trigger] ports@[i], *request))
            ==> (r matches Err(e) && e is Message && e.text() == port_changed_message()),
        scan_error is None ==> forall|i: int| 0 <= i < ports@.len() && is_requested_listener(#[trigger] ports@[i], *request)
            && (forall|k: int| 0 <= k < i ==> !is_requested_listener(#[trigger] ports@[k], *request)) ==> {
            if !is_same_process(ports@[i], *request) {
                r matches Err(e) && e is Message && e.text() == process_changed_message()
            } else if !is_same_suggestion(ports@[i], *request) {
                r matches Err(e) && e is Message && e.text() == suggestion_changed_message()
            } else {
                r is Ok
            }
        },
{
    match scan_error {
        Some(m) => {
            let mut message = String::new();
            push_str(&mut message, "Could not verify port association: ");
            push_str(&mut message, m.as_str());
            Err(invalid(message))
        }
        None => validate_confirm_association_request(request, ports),
    }
}

/// The development root a rescan starts from: the one last saved, or a refusal when
/// none has been saved yet.
pub fn saved_development_root(recent_development_root: Option<String>) -> (r: AppResult<String>)
    ensures
        recent_development_root matches Some(root) ==> r == Ok::<String, AppError>(root),
        recent_development_root is None ==> (r matches Err(e) && e is Message && e.text() == "No development root has been saved yet"@),
{
    match recent_development_root {
        Some(root) => Ok(root),
        None => Err(refusal("No development root has been saved yet")),
    }
}

/// What one attempt at a walk member's reservation decides.
#[derive(Debug)]
pub enum ReservationPoll {
    /// The reservation was taken: go on with the member.
    Reserved,
    /// Another operation holds it: wait and try again.
    Wait,
    /// It was held until the deadline: the member fails with this error.
    Refuse(AppError),
}

/// The refusal for a member another operation held until the deadline.
pub open spec fn still_in_progress_message() -> Seq<char> {
    "Another lifecycle operation is still in progress for this profile"@
}

/// Decide one attempt at a walk member's reservation. A member another operation
/// holds is waited for rather than failed, so two walks sharing a member both go on,
/// until the deadline; a reservation taken wins over a deadline that has just passed.
pub fn reservation_poll(reserved: bool, deadline_passed: bool) -> (r: ReservationPoll)
    ensures
        reserved ==> r is Reserved,
        !reserved && !deadline_passed ==> r is Wait,
        !reserved && deadline_passed ==> (r matches ReservationPoll::Refuse(e) && e is Message && e.text() == still_in_progress_message()),
{
    if reserved {
        ReservationPoll::Reserved
    } else if deadline_passed {
        ReservationPoll::Refuse(refusal("Another lifecycle operation is still in progress for this profile"))
    } else {
        ReservationPoll::Wait
    }
}

/// Fold one more close into the outcome of closing several: the first error is the
/// one kept, because it happened before anything else went wrong, and every close is
/// still made.
pub fn keep_first_error(first: Option<AppError>, next: AppResult<()>) -> (r: Option<AppError>)
    ensures
        first is Some ==> r == first,
        first is None ==> match next {
            Ok(()) => r is None,
            Err(e) => r == Some(e),
        },
{
    match first {
        Some(e) => Some(e),
        None => match next {
            Ok(()) => None,
            Err(e) => Some(e),
        },
    }
}

/// What trimming trailing backslashes leaves: a prefix of the text that does not end
/// with a backslash.
proof fn lemma_trimmed_backslashes(text: Seq<char>)
    ensures
        trimmed_backslashes(text).len() <= text.len(),
        trimmed_backslashes(text) == text.subrange(0, trimmed_backslashes(text).len() as int),
        trimmed_backslashes(text).len() == 0 || trimmed_backslashes(text).last() != '\\',
    decreases text.len(),
{
    if text.len() > 0 && text.last() == '\\' {
        lemma_trimmed_backslashes(text.drop_last());
        let t = trimmed_backslashes(text.drop_last());
        assert(text.drop_last().subrange(0, t.len() as int) =~= text.subrange(0, t.len() as int));
    } else {
        assert(text.subrange(0, text.len() as int) =~= text);
    }
}

/// Comparing paths for identity is stable: a path already in that form is left as it
/// is, so normalizing twice gives what normalizing once gave.
pub proof fn normalizing_a_path_twice_changes_nothing(path: Seq<char>)
    ensures
        path_identity(path_identity(path)) == path_identity(path),
        !path_identity(path).contains('/'),
        path_identity(path).len() == 0 || path_identity(path).last() != '\\',
{
    let swapped = path.map_values(|c: char| if c == '/' { '\\' } else { c });
    let trimmed = trimmed_backslashes(swapped);
    lemma_trimmed_backslashes(swapped);
    let q = ascii_lowered(trimmed);
    assert(q == path_identity(path));
    assert forall|i: int| 0 <= i < q.len() implies #[trigger] q[i] != '/' by {
        assert(trimmed[i] == swapped[i]);
    }
    let again = q.map_values(|c: char| if c == '/' { '\\' } else { c });
    assert(again =~= q);
    if q.len() > 0 {
        assert(q.last() == ascii_lower(trimmed.last()));
    }
    assert(trimmed_backslashes(q) == q);
    assert(ascii_lowered(q) =~= q);
}

/// The refusal an external termination meets on Windows, if any, given what the
/// system reports of the process once its handle is open — its start time in
/// milliseconds and its executable — and whether RunCove manages it; checked in
/// Windows's order: start time, executable, then management.
pub open spec fn windows_external_refusal(
    request: ExternalProcessRequest,
    started_at_ms: u64,
    executable: Seq<char>,
    managed: bool,
) -> Option<Seq<char>> {
    match request.started_at {
        None => Some("A verified process start time is required"@),
        Some(expected) => if started_at_ms != expected {
            Some("Process identity changed; refresh before terminating it"@)
        } else {
            match request.executable_path {
                None => Some("A verified executable path is required"@),
                Some(wanted) => if path_identity(executable) != path_identity(wanted@) {
                    Some("Process executable changed; refresh before terminating it"@)
                } else if managed {
                    Some("Managed processes must be stopped through their launch profile"@)
                } else {
                    None
                },
            }
        },
    }
}

/// Whether the process a termination request names is still the one the user chose,
/// as Windows checks it through the process's own handle: started when the request
/// says, running the same executable, and not RunCove's own.
pub fn check_external_identity_on_windows(
    request: &ExternalProcessRequest,
    started_at_ms: u64,
    executable: &str,
    managed: bool,
) -> (r: AppResult<()>)
    ensures
        windows_external_refusal(*request, started_at_ms, executable@, managed) is None <==> r is Ok,
        windows_external_refusal(*request, started_at_ms, executable@, managed) matches Some(m) ==> (r matches Err(
            e) && e is Message && e.text() == m),
{
    let expected = match request.started_at {
        None => return Err(refusal("A verified process start time is required")),
        Some(expected) => expected,
    };
    if started_at_ms != expected {
        return Err(refusal("Process identity changed; refresh before terminating it"));
    }
    let wanted = match &request.executable_path {
        None => return Err(refusal("A verified executable path is required")),
        Some(wanted) => normalized_path(wanted.as_str()),
    };
    let current = normalized_path(executable);
    if !str_eq(current.as_str(), wanted.as_str()) {
        return Err(refusal("Process executable changed; refresh before terminating it"));
    }
    if managed {
        return Err(refusal("Managed processes must be stopped through their launch profile"));
    }
    Ok(())
}


/// Whether no entry of a scan has `protocol`, ignoring ASCII case.
pub open spec fn no_entry_of_protocol(entries: Seq<PortEntry>, protocol: Seq<char>) -> bool {
    forall|j: int| 0 <= j < entries.len() ==> ascii_lowered(#[trigger] entries[j].protocol@) != ascii_lowered(protocol)
}

/// A port is taken only by a listener of its own protocol, ignoring ASCII case: when
/// no entry of a scan has the expected protocol, no entry takes the expected port, so
/// [`first_conflict`] finds no conflict on it and [`ports_ready`] does not count it
/// as served, whatever the ports and processes.
pub proof fn a_port_is_only_taken_by_its_own_protocol(
    expected: ExpectedPort,
    entries: Seq<PortEntry>,
    owned_pids: Seq<u32>,
)
    requires
        no_entry_of_protocol(entries, expected.protocol@),
    ensures
        forall|j: int| 0 <= j < entries.len() ==> !occupies(#[trigger] entries[j], expected),
        !port_served(expected, entries, owned_pids),
{
}

/// Across a profile's expected ports: when no entry of a scan has the protocol of any
/// of them, none of them is taken, so a start finds no conflict.
pub proof fn a_scan_of_other_protocols_holds_no_conflict(expected_ports: Seq<ExpectedPort>, entries: Seq<PortEntry>)
    requires
        forall|i: int, j: int| 0 <= i < expected_ports.len() && 0 <= j < entries.len() ==> ascii_lowered(
            #[trigger] entries[j].protocol@,
        ) != ascii_lowered(#[trigger] expected_ports[i].protocol@),
    ensures
        forall|i: int, j: int| 0 <= i < expected_ports.len() && 0 <= j < entries.len() ==> !occupies(
            #[trigger] entries[j],
            #[trigger] expected_ports[i],
        ),
{
}

/// The protocol is compared without regard to ASCII case: a listener on the expected
/// port whose protocol differs from the expected one only in case takes it.
pub proof fn a_protocol_matches_in_any_case(entry: PortEntry, expected: ExpectedPort)
    requires
        entry.state == ConnectionState::Listen,
        entry.port == expected.port,
        ascii_lowered(entry.protocol@) == ascii_lowered(expected.protocol@),
    ensures
        occupies(entry, expected),
{
}

} // verus!
