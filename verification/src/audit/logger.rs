//! The audit logger: which tools run, what was last done in each project, and the
//! events that tell of it.
use vstd::prelude::*;

use crate::audit::events::{
    call_event, failure_event, project_view, result_event, summarize, summary_of, tool_call_event,
    tool_failure_event, tool_result_event,
};
use crate::audit::parts::opts;
use crate::audit::queue::{emission, Emission, EmissionView, EventQueue};
use crate::audit::redact::number_json;
use crate::config::LogConfig;
use crate::error::AppError;
use crate::ids::{hyphenated, new_request_id};
use crate::json::{push_field, views, well_ordered, JsonValue, JsonView};
use crate::project::ProjectContext;
use crate::search::texts;
use crate::table::{
    bounded_put, drop_record, drop_time, get_record, get_time, new_records, new_times, no_records,
    no_times, put_bounded, put_record, put_time, record_names, records, records_len, times,
};
use crate::text::{opt_copy, opt_view};

verus! {

pub const PROJECT_ACTIVITY_MAX_ENTRIES: usize = 4096;

/// How many running tools of a project are listed.
pub const RUNNING_LIST_MAX: usize = 256;

/// A tool call that has not ended.
#[derive(Clone, Debug)]
pub struct RunningTool {
    pub request_id: String,
    pub tool: String,
    pub project_key: String,
    pub started: u64,
    pub summary: String,
}

pub struct RunningView {
    pub request_id: Seq<char>,
    pub tool: Seq<char>,
    pub project_key: Seq<char>,
    pub started: u64,
    pub summary: Seq<char>,
}

impl View for RunningTool {
    type V = RunningView;

    open spec fn view(&self) -> RunningView {
        RunningView {
            request_id: self.request_id@,
            tool: self.tool@,
            project_key: self.project_key@,
            started: self.started,
            summary: self.summary@,
        }
    }
}

/// What was last done in a project. An error is its code and its message.
#[derive(Clone, Debug)]
pub struct ProjectActivity {
    pub last_tool: Option<String>,
    pub last_error: Option<(String, String)>,
    pub last_successful_operation: Option<String>,
}

pub struct ActivityView {
    pub last_tool: Option<Seq<char>>,
    pub last_error: Option<(Seq<char>, Seq<char>)>,
    pub last_successful_operation: Option<Seq<char>>,
}

impl View for ProjectActivity {
    type V = ActivityView;

    open spec fn view(&self) -> ActivityView {
        ActivityView {
            last_tool: opt_view(self.last_tool),
            last_error: match self.last_error {
                Some((code, message)) => Some((code@, message@)),
                None => None,
            },
            last_successful_operation: opt_view(self.last_successful_operation),
        }
    }
}

impl Default for ProjectActivity {
    fn default() -> (activity: ProjectActivity)
        ensures
            activity@ == no_activity(),
    {
        ProjectActivity { last_tool: None, last_error: None, last_successful_operation: None }
    }
}

pub open spec fn no_activity() -> ActivityView {
    ActivityView { last_tool: None, last_error: None, last_successful_operation: None }
}

/// The record of an activity: tool, code and message of the error, success.
pub open spec fn activity_record(activity: ActivityView) -> Seq<Option<Seq<char>>> {
    match activity.last_error {
        Some((code, message)) => seq![
            activity.last_tool,
            Some(code),
            Some(message),
            activity.last_successful_operation,
        ],
        None => seq![activity.last_tool, None, None, activity.last_successful_operation],
    }
}

/// The activity that a record stands for.
pub open spec fn activity_of(record: Seq<Option<Seq<char>>>) -> ActivityView {
    if record.len() == 4 {
        ActivityView {
            last_tool: record[0],
            last_error: match (record[1], record[2]) {
                (Some(code), Some(message)) => Some((code, message)),
                _ => None,
            },
            last_successful_operation: record[3],
        }
    } else {
        no_activity()
    }
}

/// Reading a record gives back the activity that was written.
pub proof fn activity_reads_back(activity: ActivityView)
    ensures
        activity_of(activity_record(activity)) == activity,
{
}

/// What is known of tools and projects, and the queue of events.
pub struct AuditLogger {
    pub config: LogConfig,
    pub auth_token: String,
    pub queue: EventQueue,
    pub running: dashmap::DashMap<String, Vec<Option<String>>>,
    pub started: dashmap::DashMap<String, u64>,
    pub project_activity: dashmap::DashMap<String, Vec<Option<String>>>,
}

pub struct AuditView {
    pub event_bytes: int,
    pub auth_token: Seq<char>,
    pub queue: EventQueue,
    pub running: Map<Seq<char>, Seq<Option<Seq<char>>>>,
    pub started: Map<Seq<char>, u64>,
    pub activity: Map<Seq<char>, Seq<Option<Seq<char>>>>,
}

impl View for AuditLogger {
    type V = AuditView;

    open spec fn view(&self) -> AuditView {
        AuditView {
            event_bytes: self.config.file_event_bytes as int,
            auth_token: self.auth_token@,
            queue: self.queue,
            running: records(self.running),
            started: times(self.started),
            activity: records(self.project_activity),
        }
    }
}

/// The logger after an event was reported, and what becomes of the event.
pub open spec fn reported(state: AuditView, event: JsonView, now: Seq<char>) -> (
    AuditView,
    EmissionView,
) {
    let (queue, done) = emission(state.queue, event, now, state.auth_token, state.event_bytes);
    (AuditView { queue, ..state }, done)
}

/// The record of a running tool: the tool, the project, the summary.
pub open spec fn running_record(tool: Seq<char>, project: Seq<char>, summary: Seq<char>) -> Seq<
    Option<Seq<char>>,
> {
    seq![Some(tool), Some(project), Some(summary)]
}

pub open spec fn activity_in(state: AuditView, project: Seq<char>) -> ActivityView {
    if state.activity.contains_key(project) {
        activity_of(state.activity[project])
    } else {
        no_activity()
    }
}

/// The activity table after one of a project was noted: a full table forgets
/// another project.
pub open spec fn notes_activity(
    before: AuditView,
    after: AuditView,
    project: Seq<char>,
    activity: ActivityView,
) -> bool {
    bounded_put(
        before.activity,
        after.activity,
        project,
        activity_record(activity),
        !before.activity.contains_key(project) && before.activity.len()
            >= PROJECT_ACTIVITY_MAX_ENTRIES,
    )
}

/// The tables after a call ended: it no longer runs, and its project's activity
/// was noted.
pub open spec fn call_ended(
    before: AuditView,
    after: AuditView,
    project: Seq<char>,
    request_id: Seq<char>,
    activity: ActivityView,
) -> bool {
    &&& after.running == before.running.remove(request_id)
    &&& after.started == before.started.remove(request_id)
    &&& notes_activity(before, after, project, activity)
    &&& after.auth_token == before.auth_token
    &&& after.event_bytes == before.event_bytes
}

/// How long ago a tool started.
pub open spec fn elapsed(started: u64, now: u64) -> u64 {
    if now >= started {
        (now - started) as u64
    } else {
        0
    }
}

/// A running tool as it is listed.
pub open spec fn running_json(tool: RunningView, now: u64) -> JsonView {
    JsonView::Object(
        seq![
            ("duration_ms"@, number_json(elapsed(tool.started, now) as int)),
            ("request_id"@, JsonView::Text(tool.request_id)),
            ("summary"@, JsonView::Text(tool.summary)),
            ("tool"@, JsonView::Text(tool.tool)),
        ],
    )
}

pub open spec fn started_at(state: AuditView, request_id: Seq<char>) -> u64 {
    if state.started.contains_key(request_id) {
        state.started[request_id]
    } else {
        0
    }
}

/// Whether a tool runs in a project.
pub open spec fn runs_in(state: AuditView, request_id: Seq<char>, project: Seq<char>) -> bool {
    running_of(state, request_id) is Some && running_of(state, request_id)->0.project_key == project
}

/// The running tools of a project among the first `n` names, as many as are
/// listed.
pub open spec fn running_list(
    state: AuditView,
    names: Seq<Seq<char>>,
    n: int,
    project: Seq<char>,
    now: u64,
) -> Seq<JsonView>
    decreases n,
{
    if n <= 0 {
        Seq::empty()
    } else {
        let before = running_list(state, names, n - 1, project, now);
        let name = names[n - 1];
        if before.len() < RUNNING_LIST_MAX && runs_in(state, name, project) {
            before.push(running_json(running_of(state, name)->0, now))
        } else {
            before
        }
    }
}

/// The names of all running tools, in some order.
pub open spec fn names_running(state: AuditView, names: Seq<Seq<char>>) -> bool {
    names.no_duplicates() && names.to_set() == state.running.dom()
}

/// The running tool that a record stands for.
pub open spec fn running_of(state: AuditView, request_id: Seq<char>) -> Option<RunningView> {
    if state.running.contains_key(request_id) && state.running[request_id].len() == 3
        && state.running[request_id][0] is Some && state.running[request_id][1] is Some
        && state.running[request_id][2] is Some {
        Some(
            RunningView {
                request_id,
                tool: state.running[request_id][0]->0,
                project_key: state.running[request_id][1]->0,
                started: started_at(state, request_id),
                summary: state.running[request_id][2]->0,
            },
        )
    } else {
        None
    }
}

/// A tool that was started is running, with what was told of it.
pub proof fn started_tool_is_running(
    state: AuditView,
    request_id: Seq<char>,
    tool: Seq<char>,
    project: Seq<char>,
    summary: Seq<char>,
    started: u64,
)
    ensures
        running_of(
            AuditView {
                running: state.running.insert(request_id, running_record(tool, project, summary)),
                started: state.started.insert(request_id, started),
                ..state
            },
            request_id,
        ) == Some(RunningView { request_id, tool, project_key: project, started, summary }),
{
}

/// A call that ended no longer runs, and every other call runs on.
pub proof fn ended_call_leaves_the_rest(
    before: AuditView,
    after: AuditView,
    project: Seq<char>,
    request_id: Seq<char>,
    activity: ActivityView,
    other: Seq<char>,
)
    requires
        call_ended(before, after, project, request_id, activity),
    ensures
        running_of(after, request_id) is None,
        other != request_id ==> running_of(after, other) == running_of(before, other),
        activity_in(after, project) == activity,
{
    activity_reads_back(activity);
}

/// A running tool as it is listed.
fn list_running(tool: &RunningTool, now: u64) -> (value: JsonValue)
    ensures
        value@ == running_json(tool@, now),
{
    let ms: u64 = if now >= tool.started {
        now - tool.started
    } else {
        0
    };
    let mut fields: Vec<(String, JsonValue)> = Vec::new();
    push_field(&mut fields, "duration_ms", JsonValue::number(ms));
    push_field(&mut fields, "request_id", JsonValue::text(tool.request_id.as_str()));
    push_field(&mut fields, "summary", JsonValue::text(tool.summary.as_str()));
    push_field(&mut fields, "tool", JsonValue::text(tool.tool.as_str()));
    let value = JsonValue::object(fields);
    proof {
        assert(value@->Object_0 =~= running_json(tool@, now)->Object_0);
    }
    value
}

impl AuditLogger {
    pub fn new(config: LogConfig, auth_token: String) -> (logger: AuditLogger)
        ensures
            logger.config == config,
            logger@ == (AuditView {
                event_bytes: config.file_event_bytes as int,
                auth_token: auth_token@,
                queue: EventQueue {
                    capacity: config.queue_capacity,
                    maximum: config.queue_max_bytes,
                    waiting: 0,
                    room: config.queue_max_bytes,
                    open: true,
                    dropped_total: 0,
                    dropped_pending: 0,
                },
                running: no_records(),
                started: no_times(),
                activity: no_records(),
            }),
    {
        let queue = EventQueue::new(config.queue_capacity, config.queue_max_bytes);
        AuditLogger {
            config,
            auth_token,
            queue,
            running: new_records(),
            started: new_times(),
            project_activity: new_records(),
        }
    }

    /// Report an event.
    pub fn emit(&mut self, event: JsonValue, now: &str) -> (done: Emission)
        requires
            well_ordered(event@),
            old(self).queue.dropped_pending < u64::MAX,
        ensures
            (final(self)@, done@) == reported(old(self)@, event@, now@),
            final(self).config == old(self).config,
    {
        self.queue.emit(event, now, self.auth_token.as_str(), self.config.file_event_bytes)
    }

    /// What was last done in a project.
    pub fn activity(&self, project: &ProjectContext) -> (activity: ProjectActivity)
        ensures
            activity@ == activity_in(self@, project@.effective_project_key),
    {
        if let Some(record) = get_record(
            &self.project_activity,
            project.effective_project_key.as_str(),
        ) {
            if record.len() == 4 {
                proof {
                    assert(opts(record@)[0] == opt_view(record@[0]));
                    assert(opts(record@)[1] == opt_view(record@[1]));
                    assert(opts(record@)[2] == opt_view(record@[2]));
                    assert(opts(record@)[3] == opt_view(record@[3]));
                }
                let last_error = match (&record[1], &record[2]) {
                    (Some(code), Some(message)) => Some((code.clone(), message.clone())),
                    _ => None,
                };
                return ProjectActivity {
                    last_tool: opt_copy(&record[0]),
                    last_error,
                    last_successful_operation: opt_copy(&record[3]),
                };
            }
            proof {
                assert(opts(record@).len() == record@.len());
            }
        }
        ProjectActivity::default()
    }

    /// Note what was done in a project.
    pub fn update_project_activity(&mut self, key: &str, activity: &ProjectActivity)
        ensures
            notes_activity(old(self)@, final(self)@, key@, activity@),
            final(self)@ == (AuditView { activity: final(self)@.activity, ..old(self)@ }),
            final(self).config == old(self).config,
    {
        let known = get_record(&self.project_activity, key).is_some();
        let full = !known && records_len(&self.project_activity) >= PROJECT_ACTIVITY_MAX_ENTRIES;
        let mut record: Vec<Option<String>> = Vec::new();
        record.push(opt_copy(&activity.last_tool));
        match &activity.last_error {
            Some((code, message)) => {
                record.push(Some(code.clone()));
                record.push(Some(message.clone()));
            },
            None => {
                record.push(None);
                record.push(None);
            },
        }
        record.push(opt_copy(&activity.last_successful_operation));
        proof {
            assert(opts(record@) =~= activity_record(activity@));
        }
        put_bounded(&mut self.project_activity, key, record, full);
    }

    /// A tool starts in a project. The answer is the identifier of the call, and
    /// what becomes of the event that tells of it.
    pub fn tool_started(
        &mut self,
        project: &ProjectContext,
        tool: &str,
        params: &JsonValue,
        started: u64,
        now: &str,
    ) -> (call: (String, Emission))
        requires
            well_ordered(params@),
            old(self).queue.dropped_pending < u64::MAX,
        ensures
            final(self).config == old(self).config,
            hyphenated(call.0@),
            (final(self)@, call.1@) == reported(
                AuditView {
                    running: old(self)@.running.insert(
                        call.0@,
                        running_record(tool@, project@.effective_project_key, summary_of(params@)),
                    ),
                    started: old(self)@.started.insert(call.0@, started),
                    ..old(self)@
                },
                call_event(call.0@, tool@, Some(project@), params@),
                now@,
            ),
    {
        let request_id = new_request_id();
        let mut record: Vec<Option<String>> = Vec::new();
        record.push(Some(tool.to_owned()));
        record.push(Some(project.effective_project_key.as_str().to_owned()));
        record.push(Some(summarize(params)));
        proof {
            assert(opts(record@) =~= running_record(
                tool@,
                project@.effective_project_key,
                summary_of(params@),
            ));
        }
        put_record(&mut self.running, request_id.clone(), record);
        put_time(&mut self.started, request_id.clone(), started);
        let event = tool_call_event(request_id.as_str(), tool, Some(project), params);
        let done = self.emit(event, now);
        (request_id, done)
    }

    /// A tool is called before it is known for which project.
    pub fn tool_attempt_started(&mut self, tool: &str, params: &JsonValue, now: &str) -> (call: (
        String,
        Emission,
    ))
        requires
            well_ordered(params@),
            old(self).queue.dropped_pending < u64::MAX,
        ensures
            final(self).config == old(self).config,
            hyphenated(call.0@),
            (final(self)@, call.1@) == reported(
                old(self)@,
                call_event(call.0@, tool@, None, params@),
                now@,
            ),
    {
        let request_id = new_request_id();
        let event = tool_call_event(request_id.as_str(), tool, None, params);
        let done = self.emit(event, now);
        (request_id, done)
    }

    /// A call that was attempted ended well.
    pub fn tool_attempt_finished(
        &mut self,
        project: Option<&ProjectContext>,
        request_id: &str,
        tool: &str,
        duration_ms: u64,
        result: &JsonValue,
        now: &str,
    ) -> (done: Emission)
        requires
            well_ordered(result@),
            old(self).queue.dropped_pending < u64::MAX,
        ensures
            final(self).config == old(self).config,
            (final(self)@, done@) == reported(
                old(self)@,
                result_event(request_id@, tool@, project_view(project), duration_ms, result@),
                now@,
            ),
    {
        self.emit(tool_result_event(request_id, tool, project, duration_ms, result), now)
    }

    /// A call that was attempted failed.
    pub fn tool_attempt_failed(
        &mut self,
        project: Option<&ProjectContext>,
        request_id: &str,
        tool: &str,
        duration_ms: u64,
        error: &AppError,
        now: &str,
    ) -> (done: Emission)
        requires
            old(self).queue.dropped_pending < u64::MAX,
        ensures
            final(self).config == old(self).config,
            (final(self)@, done@) == reported(
                old(self)@,
                failure_event(
                    request_id@,
                    tool@,
                    project_view(project),
                    duration_ms,
                    error@.code,
                    error@.message,
                ),
                now@,
            ),
    {
        self.emit(tool_failure_event(request_id, tool, project, duration_ms, error), now)
    }

    /// A tool ended well.
    pub fn tool_finished(
        &mut self,
        project: &ProjectContext,
        request_id: &str,
        tool: &str,
        duration_ms: u64,
        result: &JsonValue,
        now: &str,
    ) -> (done: Emission)
        requires
            well_ordered(result@),
            old(self).queue.dropped_pending < u64::MAX,
        ensures
            final(self).config == old(self).config,
            call_ended(
                old(self)@,
                final(self)@,
                project@.effective_project_key,
                request_id@,
                (ActivityView {
                    last_tool: Some(tool@),
                    last_successful_operation: Some(tool@),
                    ..activity_in(old(self)@, project@.effective_project_key)
                }),
            ),
            (final(self)@.queue, done@) == emission(
                old(self)@.queue,
                result_event(request_id@, tool@, Some(project@), duration_ms, result@),
                now@,
                old(self)@.auth_token,
                old(self)@.event_bytes,
            ),
    {
        drop_record(&mut self.running, request_id);
        drop_time(&mut self.started, request_id);
        let mut activity = self.activity(project);
        activity.last_tool = Some(tool.to_owned());
        activity.last_successful_operation = Some(tool.to_owned());
        self.update_project_activity(project.effective_project_key.as_str(), &activity);
        self.emit(tool_result_event(request_id, tool, Some(project), duration_ms, result), now)
    }

    /// A tool failed.
    pub fn tool_failed(
        &mut self,
        project: &ProjectContext,
        request_id: &str,
        tool: &str,
        duration_ms: u64,
        error: &AppError,
        now: &str,
    ) -> (done: Emission)
        requires
            old(self).queue.dropped_pending < u64::MAX,
        ensures
            final(self).config == old(self).config,
            call_ended(
                old(self)@,
                final(self)@,
                project@.effective_project_key,
                request_id@,
                (ActivityView {
                    last_tool: Some(tool@),
                    last_error: Some((error@.code, error@.message)),
                    ..activity_in(old(self)@, project@.effective_project_key)
                }),
            ),
            (final(self)@.queue, done@) == emission(
                old(self)@.queue,
                failure_event(
                    request_id@,
                    tool@,
                    Some(project@),
                    duration_ms,
                    error@.code,
                    error@.message,
                ),
                now@,
                old(self)@.auth_token,
                old(self)@.event_bytes,
            ),
    {
        drop_record(&mut self.running, request_id);
        drop_time(&mut self.started, request_id);
        let mut activity = self.activity(project);
        activity.last_tool = Some(tool.to_owned());
        activity.last_error = Some((error.code().to_owned(), error.message().to_owned()));
        self.update_project_activity(project.effective_project_key.as_str(), &activity);
        self.emit(tool_failure_event(request_id, tool, Some(project), duration_ms, error), now)
    }

    /// A tool that runs.
    pub fn running_tool(&self, request_id: &str) -> (found: Option<RunningTool>)
        ensures
            match (found, running_of(self@, request_id@)) {
                (Some(tool), Some(expected)) => tool@ == expected,
                (None, None) => true,
                _ => false,
            },
    {
        let record = match get_record(&self.running, request_id) {
            Some(record) => record,
            None => return None,
        };
        proof {
            assert(opts(record@).len() == record@.len());
        }
        if record.len() != 3 {
            return None;
        }
        proof {
            assert(opts(record@)[0] == opt_view(record@[0]));
            assert(opts(record@)[1] == opt_view(record@[1]));
            assert(opts(record@)[2] == opt_view(record@[2]));
        }
        let started: u64 = match get_time(&self.started, request_id) {
            Some(at) => at,
            None => 0,
        };
        match (&record[0], &record[1], &record[2]) {
            (Some(tool), Some(project_key), Some(summary)) => Some(
                RunningTool {
                    request_id: request_id.to_owned(),
                    tool: tool.clone(),
                    project_key: project_key.clone(),
                    started,
                    summary: summary.clone(),
                },
            ),
            _ => None,
        }
    }

    /// The tools that run in a project, in no particular order.
    pub fn running_for_project(&self, project: &ProjectContext, now: u64) -> (list: Vec<JsonValue>)
        ensures
            exists|names: Seq<Seq<char>>|
                #[trigger] names_running(self@, names) && views(list@) == running_list(
                    self@,
                    names,
                    names.len() as int,
                    project@.effective_project_key,
                    now,
                ),
    {
        let names = record_names(&self.running);
        let ghost all = texts(names@);
        let key = project.effective_project_key.as_str();
        let mut list: Vec<JsonValue> = Vec::new();
        let mut i: usize = 0;
        proof {
            assert(names_running(self@, all));
            assert(views(list@) =~= Seq::empty());
        }
        while i < names.len()
            invariant
                i <= names@.len(),
                all == texts(names@),
                names_running(self@, all),
                key@ == project@.effective_project_key,
                views(list@) == running_list(self@, all, i as int, key@, now),
            decreases names.len() - i,
        {
            proof {
                assert(all[i as int] == names@[i as int]@);
            }
            let ghost before = views(list@);
            if list.len() < RUNNING_LIST_MAX {
                if let Some(tool) = self.running_tool(names[i].as_str()) {
                    if tool.project_key.as_str().eq(key) {
                        let item = list_running(&tool, now);
                        let ghost shown = item@;
                        list.push(item);
                        proof {
                            assert(views(list@) =~= before.push(shown));
                        }
                    }
                }
            }
            i += 1;
        }
        proof {
            assert(all.len() == names@.len());
        }
        list
    }

    pub fn running_count(&self) -> (n: usize)
        ensures
            self@.running.dom().finite(),
            n == self@.running.len(),
    {
        records_len(&self.running)
    }

    /// How many events were dropped in all.
    pub fn dropped_count(&self) -> (n: u64)
        ensures
            n == self@.queue.dropped_total,
    {
        self.queue.dropped_total
    }

    pub fn queue_capacity(&self) -> (n: usize)
        ensures
            n == self.config.queue_capacity,
    {
        self.config.queue_capacity
    }

    /// How many bytes of the queue are free.
    pub fn queue_bytes_available(&self) -> (n: usize)
        ensures
            n == self@.queue.room,
    {
        self.queue.room
    }
}

}
