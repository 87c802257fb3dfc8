//! A scripted agent driver for exercising the host without a model: canned
//! answers, and a record of every call the host made (steer and follow-up
//! queues, aborts, bash runs, session operations, clipboard traffic), with
//! a thinking level that can be set or cycled through a support list.

use vstd::prelude::*;
use crate::style::views;
use std::collections::VecDeque;
use crate::text::{push_decimal, trim, trim_str};

verus! {

/// Reasoning effort of the model.
#[derive(Debug, Clone, Copy, PartialEq, Eq, Structural)]
pub enum ThinkingLevel {
    Off,
    Minimal,
    Low,
    Medium,
    High,
    Xhigh,
}

/// The name of a thinking level.
pub open spec fn level_name(l: ThinkingLevel) -> Seq<char> {
    match l {
        ThinkingLevel::Off => "off"@,
        ThinkingLevel::Minimal => "minimal"@,
        ThinkingLevel::Low => "low"@,
        ThinkingLevel::Medium => "medium"@,
        ThinkingLevel::High => "high"@,
        ThinkingLevel::Xhigh => "xhigh"@,
    }
}

/// The levels every thinking model supports, in cycling order.
pub open spec fn standard_levels() -> Seq<ThinkingLevel> {
    seq![
        ThinkingLevel::Off,
        ThinkingLevel::Minimal,
        ThinkingLevel::Low,
        ThinkingLevel::Medium,
        ThinkingLevel::High,
    ]
}

impl ThinkingLevel {
    /// The level's name.
    pub fn as_str(self) -> (s: &'static str)
        ensures
            s@ == level_name(self),
    {
        match self {
            ThinkingLevel::Off => "off",
            ThinkingLevel::Minimal => "minimal",
            ThinkingLevel::Low => "low",
            ThinkingLevel::Medium => "medium",
            ThinkingLevel::High => "high",
            ThinkingLevel::Xhigh => "xhigh",
        }
    }

    /// The standard support list (see [`standard_levels`]).
    pub fn standard() -> (v: Vec<ThinkingLevel>)
        ensures
            v@ == standard_levels(),
    {
        let v = vec![
            ThinkingLevel::Off,
            ThinkingLevel::Minimal,
            ThinkingLevel::Low,
            ThinkingLevel::Medium,
            ThinkingLevel::High,
        ];
        assert(v@ =~= standard_levels());
        v
    }
}

/// How many steering and follow-up messages wait in the queues.
#[derive(Debug, Clone, Copy, PartialEq, Eq, Structural)]
pub struct QueueStats {
    pub steer_count: usize,
    pub follow_up_count: usize,
}

/// The outcome of a bash run.
#[derive(Debug, Clone, PartialEq, Eq)]
pub struct BashResult {
    pub output: String,
    pub exit_code: Option<i32>,
    pub cancelled: bool,
    pub timed_out: bool,
    pub truncated: bool,
    pub full_output_path: Option<String>,
}

/// A bash result as values.
pub struct BashView {
    pub output: Seq<char>,
    pub exit_code: Option<i32>,
    pub cancelled: bool,
    pub timed_out: bool,
    pub truncated: bool,
    pub full_output_path: Option<Seq<char>>,
}

/// An optional string as values.
pub open spec fn opt_view(o: Option<String>) -> Option<Seq<char>> {
    match o {
        Some(s) => Some(s@),
        None => None,
    }
}

impl View for BashResult {
    type V = BashView;

    open spec fn view(&self) -> BashView {
        BashView {
            output: self.output@,
            exit_code: self.exit_code,
            cancelled: self.cancelled,
            timed_out: self.timed_out,
            truncated: self.truncated,
            full_output_path: opt_view(self.full_output_path),
        }
    }
}

/// The result a bash run gets when nothing was queued: output `ok`, exit 0.
pub open spec fn default_bash() -> BashView {
    BashView {
        output: "ok"@,
        exit_code: Some(0),
        cancelled: false,
        timed_out: false,
        truncated: false,
        full_output_path: None,
    }
}

/// The result of a bash run cancelled by an abort: no output, no exit code.
pub open spec fn cancelled_bash() -> BashView {
    BashView {
        output: seq![],
        exit_code: None,
        cancelled: true,
        timed_out: false,
        truncated: false,
        full_output_path: None,
    }
}

/// A copy of an optional string.
fn copy_opt(o: &Option<String>) -> (c: Option<String>)
    ensures
        opt_view(c) == opt_view(*o),
{
    match o {
        Some(s) => Some(s.clone()),
        None => None,
    }
}

/// A copy of a list of strings.
fn copy_strings(v: &Vec<String>) -> (c: Vec<String>)
    ensures
        views(c@) == views(v@),
{
    let mut c: Vec<String> = Vec::new();
    let mut i: usize = 0;
    while i < v.len()
        invariant
            i <= v@.len(),
            c@.len() == i,
            forall|k: int| 0 <= k < i ==> (#[trigger] c@[k])@ == v@[k]@,
        decreases v@.len() - i,
    {
        c.push(v[i].clone());
        i = i + 1;
    }
    assert(views(c@) =~= views(v@));
    c
}

/// Values of a list of string pairs.
pub open spec fn pair_views(v: Seq<(String, String)>) -> Seq<(Seq<char>, Seq<char>)> {
    v.map_values(|p: (String, String)| (p.0@, p.1@))
}

/// Values of a list of strings with a flag.
pub open spec fn flagged_views(v: Seq<(String, bool)>) -> Seq<(Seq<char>, bool)> {
    v.map_values(|p: (String, bool)| (p.0@, p.1))
}

/// Values of a list of labels: target and optional label.
pub open spec fn label_views(v: Seq<(String, Option<String>)>) -> Seq<(Seq<char>, Option<Seq<char>>)> {
    v.map_values(|p: (String, Option<String>)| (p.0@, opt_view(p.1)))
}

/// Values of a list of optional strings.
pub open spec fn opt_views(v: Seq<Option<String>>) -> Seq<Option<Seq<char>>> {
    v.map_values(|o: Option<String>| opt_view(o))
}

/// A model the driver can run.
#[derive(Debug, Clone, PartialEq, Eq)]
pub struct ModelInfo {
    pub id: String,
    pub display_name: String,
    pub thinking: bool,
    pub thinking_levels: Vec<ThinkingLevel>,
    pub context_window: u32,
}

/// A model as values.
pub struct ModelView {
    pub id: Seq<char>,
    pub display_name: Seq<char>,
    pub thinking: bool,
    pub thinking_levels: Seq<ThinkingLevel>,
    pub context_window: u32,
}

impl View for ModelInfo {
    type V = ModelView;

    open spec fn view(&self) -> ModelView {
        ModelView {
            id: self.id@,
            display_name: self.display_name@,
            thinking: self.thinking,
            thinking_levels: self.thinking_levels@,
            context_window: self.context_window,
        }
    }
}

/// A model without thinking levels.
pub open spec fn plain_model(id: Seq<char>, display_name: Seq<char>, thinking: bool, context_window: u32) -> ModelView {
    ModelView { id, display_name, thinking, thinking_levels: seq![], context_window }
}

/// The model a fresh driver runs.
pub open spec fn fake_model() -> ModelView {
    plain_model("fake"@, "Fake"@, false, 8000)
}

/// The models a fresh driver offers.
pub open spec fn default_models() -> Seq<ModelView> {
    seq![
        fake_model(),
        plain_model("ornith-fast"@, "Ornith Fast"@, false, 8000),
        plain_model("ornith-think"@, "Ornith Think"@, true, 32000),
    ]
}

/// Values of a list of models.
pub open spec fn model_views(v: Seq<ModelInfo>) -> Seq<ModelView> {
    v.map_values(|m: ModelInfo| m@)
}

/// A copy of a list of thinking levels.
fn copy_levels(v: &Vec<ThinkingLevel>) -> (c: Vec<ThinkingLevel>)
    ensures
        c@ == v@,
{
    let mut c: Vec<ThinkingLevel> = Vec::new();
    let mut i: usize = 0;
    while i < v.len()
        invariant
            i <= v@.len(),
            c@ == v@.take(i as int),
        decreases v@.len() - i,
    {
        c.push(v[i]);
        i = i + 1;
        assert(c@ =~= v@.take(i as int));
    }
    assert(v@.take(v@.len() as int) =~= v@);
    c
}

/// A copy of a model.
fn copy_model(m: &ModelInfo) -> (c: ModelInfo)
    ensures
        c@ == m@,
{
    ModelInfo {
        id: m.id.clone(),
        display_name: m.display_name.clone(),
        thinking: m.thinking,
        thinking_levels: copy_levels(&m.thinking_levels),
        context_window: m.context_window,
    }
}

/// A copy of a list of models.
fn copy_models(v: &Vec<ModelInfo>) -> (c: Vec<ModelInfo>)
    ensures
        model_views(c@) == model_views(v@),
{
    let mut c: Vec<ModelInfo> = Vec::new();
    let mut i: usize = 0;
    while i < v.len()
        invariant
            i <= v@.len(),
            c@.len() == i,
            forall|k: int| 0 <= k < i ==> (#[trigger] c@[k])@ == v@[k]@,
        decreases v@.len() - i,
    {
        c.push(copy_model(&v[i]));
        i = i + 1;
    }
    assert(model_views(c@) =~= model_views(v@));
    c
}

/// A model without thinking levels.
fn make_plain_model(id: &str, display_name: &str, thinking: bool, context_window: u32) -> (m: ModelInfo)
    ensures
        m@ == plain_model(id@, display_name@, thinking, context_window),
{
    let m = ModelInfo {
        id: String::from_str(id),
        display_name: String::from_str(display_name),
        thinking,
        thinking_levels: Vec::new(),
        context_window,
    };
    assert(m@.thinking_levels =~= Seq::<ThinkingLevel>::empty());
    m
}

/// A stored session as the session list shows it.
#[derive(Debug, Clone, PartialEq, Eq)]
pub struct SessionListEntry {
    pub id: String,
    pub name: Option<String>,
    pub first_message: Option<String>,
    pub message_count: usize,
    pub modified_unix: Option<i64>,
    pub parent_session_id: Option<String>,
    pub tree_prefix: String,
    pub cwd: Option<String>,
    pub path: Option<String>,
}

/// A session list entry as values.
pub struct SessionEntryView {
    pub id: Seq<char>,
    pub name: Option<Seq<char>>,
    pub first_message: Option<Seq<char>>,
    pub message_count: usize,
    pub modified_unix: Option<i64>,
    pub parent_session_id: Option<Seq<char>>,
    pub tree_prefix: Seq<char>,
    pub cwd: Option<Seq<char>>,
    pub path: Option<Seq<char>>,
}

impl View for SessionListEntry {
    type V = SessionEntryView;

    open spec fn view(&self) -> SessionEntryView {
        SessionEntryView {
            id: self.id@,
            name: opt_view(self.name),
            first_message: opt_view(self.first_message),
            message_count: self.message_count,
            modified_unix: self.modified_unix,
            parent_session_id: opt_view(self.parent_session_id),
            tree_prefix: self.tree_prefix@,
            cwd: opt_view(self.cwd),
            path: opt_view(self.path),
        }
    }
}

/// Values of a session list.
pub open spec fn entry_views(v: Seq<SessionListEntry>) -> Seq<SessionEntryView> {
    v.map_values(|e: SessionListEntry| e@)
}

/// A session list without the sessions whose id is `id`.
pub open spec fn without_session(list: Seq<SessionEntryView>, id: Seq<char>) -> Seq<SessionEntryView>
    decreases list.len(),
{
    if list.len() == 0 {
        seq![]
    } else if list.last().id == id {
        without_session(list.drop_last(), id)
    } else {
        without_session(list.drop_last(), id).push(list.last())
    }
}

/// A copy of a session list entry.
fn copy_entry(e: &SessionListEntry) -> (c: SessionListEntry)
    ensures
        c@ == e@,
{
    SessionListEntry {
        id: e.id.clone(),
        name: copy_opt(&e.name),
        first_message: copy_opt(&e.first_message),
        message_count: e.message_count,
        modified_unix: e.modified_unix,
        parent_session_id: copy_opt(&e.parent_session_id),
        tree_prefix: e.tree_prefix.clone(),
        cwd: copy_opt(&e.cwd),
        path: copy_opt(&e.path),
    }
}

/// Values of an optional clipboard image: its bytes and MIME type.
pub open spec fn image_view(o: Option<(Vec<u8>, String)>) -> Option<(Seq<u8>, Seq<char>)> {
    match o {
        Some((b, m)) => Some((b@, m@)),
        None => None,
    }
}

/// The file extension a pasted image is staged under, by MIME type.
pub open spec fn paste_extension(mime: Seq<char>) -> Seq<char> {
    if mime == "image/jpeg"@ || mime == "image/jpg"@ {
        "jpg"@
    } else if mime == "image/webp"@ {
        "webp"@
    } else if mime == "image/gif"@ {
        "gif"@
    } else {
        "png"@
    }
}

/// The file extension a pasted image is staged under (see
/// [`paste_extension`]).
pub fn paste_extension_of(mime: &str) -> (e: &'static str)
    ensures
        e@ == paste_extension(mime@),
{
    if crate::text::same_text(mime, "image/jpeg") || crate::text::same_text(mime, "image/jpg") {
        "jpg"
    } else if crate::text::same_text(mime, "image/webp") {
        "webp"
    } else if crate::text::same_text(mime, "image/gif") {
        "gif"
    } else {
        "png"
    }
}

/// How a bash run's output is streamed: the first half (rounded up), then
/// the rest when there is any; nothing for empty output.
pub open spec fn output_chunk_split(bytes: Seq<u8>) -> Seq<Seq<u8>> {
    let n = bytes.len();
    let mid = (n + 1) / 2;
    if n == 0 {
        seq![]
    } else if mid < n {
        seq![bytes.subrange(0, mid as int), bytes.subrange(mid as int, n as int)]
    } else {
        seq![bytes.subrange(0, mid as int)]
    }
}

/// The chunks a bash run's output is streamed in (see
/// [`output_chunk_split`]).
pub fn bash_output_chunks(bytes: &Vec<u8>) -> (c: Vec<Vec<u8>>)
    ensures
        c@.map_values(|v: Vec<u8>| v@) == output_chunk_split(bytes@),
{
    let n = bytes.len();
    let mut chunks: Vec<Vec<u8>> = Vec::new();
    if n == 0 {
        assert(chunks@.map_values(|v: Vec<u8>| v@) =~= output_chunk_split(bytes@));
        return chunks;
    }
    let mid: usize = if n < usize::MAX { (n + 1) / 2 } else { n / 2 + 1 };
    assert(mid == (n + 1) / 2);
    let mut first: Vec<u8> = Vec::new();
    let mut i: usize = 0;
    while i < mid
        invariant
            mid <= n,
            n == bytes@.len(),
            i <= mid,
            first@ == bytes@.subrange(0, i as int),
        decreases mid - i,
    {
        first.push(bytes[i]);
        i = i + 1;
        assert(first@ =~= bytes@.subrange(0, i as int));
    }
    chunks.push(first);
    if mid < n {
        let mut rest: Vec<u8> = Vec::new();
        let mut j: usize = mid;
        while j < n
            invariant
                mid <= j <= n,
                n == bytes@.len(),
                rest@ == bytes@.subrange(mid as int, j as int),
            decreases n - j,
        {
            rest.push(bytes[j]);
            j = j + 1;
            assert(rest@ =~= bytes@.subrange(mid as int, j as int));
        }
        chunks.push(rest);
    }
    assert(chunks@.map_values(|v: Vec<u8>| v@) =~= output_chunk_split(bytes@));
    chunks
}

/// Where a fork starts relative to its entry.
#[derive(Debug, Clone, Copy, PartialEq, Eq, Structural)]
pub enum ForkPosition {
    Before,
    At,
}

/// The views of recorded forks.
pub open spec fn fork_views(v: Seq<(String, ForkPosition)>) -> Seq<(Seq<char>, ForkPosition)> {
    v.map_values(|p: (String, ForkPosition)| (p.0@, p.1))
}

/// The driver's state as values.
pub struct DriverModel {
    pub runs: Seq<Seq<char>>,
    pub steer_calls: Seq<Seq<char>>,
    pub follow_up_calls: Seq<Seq<char>>,
    pub clear_calls: Seq<(bool, bool)>,
    pub bash_calls: Seq<(Seq<char>, bool)>,
    pub abort_count: usize,
    pub hang_bash_until_abort: bool,
    pub aborted: bool,
    /// A bash run that hangs until an abort is outstanding.
    pub bash_pending: bool,
    pub bash_results: Seq<BashView>,
    pub steer_queued: usize,
    pub follow_up_queued: usize,
    pub switch_calls: Seq<Seq<char>>,
    pub label_calls: Seq<(Seq<char>, Option<Seq<char>>)>,
    pub fork_calls: Seq<(Seq<char>, ForkPosition)>,
    pub active_session_id: Seq<char>,
    pub leaf_entry_id: Option<Seq<char>>,
    pub compact_calls: Seq<Option<Seq<char>>>,
    pub export_html_calls: Seq<Seq<char>>,
    pub export_jsonl_calls: Seq<Seq<char>>,
    pub import_jsonl_calls: Seq<Seq<char>>,
    pub new_session_calls: usize,
    pub session_name: Option<Seq<char>>,
    pub copy_text_calls: Seq<Seq<char>>,
    pub copy_pending_osc52: Option<Seq<char>>,
    pub dollar_skill_catalog: Seq<(Seq<char>, Seq<char>)>,
    pub thinking_level: ThinkingLevel,
    pub thinking_levels: Seq<ThinkingLevel>,
    pub clipboard_text: Option<Seq<char>>,
    pub model: ModelView,
    pub available_models: Seq<ModelView>,
    pub session_list: Seq<SessionEntryView>,
    pub list_sessions_calls: usize,
    pub delete_session_calls: Seq<Seq<char>>,
    pub clipboard_image: Option<(Seq<u8>, Seq<char>)>,
    pub clipboard_image_error: Option<Seq<char>>,
    pub staged_paste_paths: Seq<Seq<char>>,
}

/// Test double of the agent driver: canned results and call recording.
pub struct ScriptedDriver {
    pub runs: Vec<String>,
    pub steer_calls: Vec<String>,
    pub follow_up_calls: Vec<String>,
    pub clear_calls: Vec<(bool, bool)>,
    bash_calls: Vec<(String, bool)>,
    abort_count: usize,
    hang_bash_until_abort: bool,
    aborted: bool,
    bash_pending: bool,
    bash_results: VecDeque<BashResult>,
    steer_queued: usize,
    follow_up_queued: usize,
    switch_calls: Vec<String>,
    label_calls: Vec<(String, Option<String>)>,
    fork_calls: Vec<(String, ForkPosition)>,
    active_session_id: String,
    leaf_entry_id: Option<String>,
    compact_calls: Vec<Option<String>>,
    export_html_calls: Vec<String>,
    export_jsonl_calls: Vec<String>,
    import_jsonl_calls: Vec<String>,
    new_session_calls: usize,
    session_name: Option<String>,
    copy_text_calls: Vec<String>,
    copy_pending_osc52: Option<String>,
    dollar_skill_catalog: Vec<(String, String)>,
    thinking_level: ThinkingLevel,
    thinking_levels: Vec<ThinkingLevel>,
    clipboard_text: Option<String>,
    model: ModelInfo,
    available_models: Vec<ModelInfo>,
    session_list: Vec<SessionListEntry>,
    list_sessions_calls: usize,
    delete_session_calls: Vec<String>,
    clipboard_image: Option<(Vec<u8>, String)>,
    clipboard_image_error: Option<String>,
    staged_paste_paths: Vec<String>,
}

impl View for ScriptedDriver {
    type V = DriverModel;

    closed spec fn view(&self) -> DriverModel {
        DriverModel {
            runs: views(self.runs@),
            steer_calls: views(self.steer_calls@),
            follow_up_calls: views(self.follow_up_calls@),
            clear_calls: self.clear_calls@,
            bash_calls: flagged_views(self.bash_calls@),
            abort_count: self.abort_count,
            hang_bash_until_abort: self.hang_bash_until_abort,
            aborted: self.aborted,
            bash_pending: self.bash_pending,
            bash_results: self.bash_results@.map_values(|r: BashResult| r@),
            steer_queued: self.steer_queued,
            follow_up_queued: self.follow_up_queued,
            switch_calls: views(self.switch_calls@),
            label_calls: label_views(self.label_calls@),
            fork_calls: fork_views(self.fork_calls@),
            active_session_id: self.active_session_id@,
            leaf_entry_id: opt_view(self.leaf_entry_id),
            compact_calls: opt_views(self.compact_calls@),
            export_html_calls: views(self.export_html_calls@),
            export_jsonl_calls: views(self.export_jsonl_calls@),
            import_jsonl_calls: views(self.import_jsonl_calls@),
            new_session_calls: self.new_session_calls,
            session_name: opt_view(self.session_name),
            copy_text_calls: views(self.copy_text_calls@),
            copy_pending_osc52: opt_view(self.copy_pending_osc52),
            dollar_skill_catalog: pair_views(self.dollar_skill_catalog@),
            thinking_level: self.thinking_level,
            thinking_levels: self.thinking_levels@,
            clipboard_text: opt_view(self.clipboard_text),
            model: self.model@,
            available_models: model_views(self.available_models@),
            session_list: entry_views(self.session_list@),
            list_sessions_calls: self.list_sessions_calls,
            delete_session_calls: views(self.delete_session_calls@),
            clipboard_image: image_view(self.clipboard_image),
            clipboard_image_error: opt_view(self.clipboard_image_error),
            staged_paste_paths: views(self.staged_paste_paths@),
        }
    }
}

/// An abort: counted (the count wraps past `usize::MAX`) and latched.
pub open spec fn abort_step(o: DriverModel) -> DriverModel {
    DriverModel { abort_count: bump(o.abort_count), aborted: true, ..o }
}

/// A compaction with `instructions`: recorded after the earlier ones.
pub open spec fn compact_step(o: DriverModel, instructions: Option<Seq<char>>) -> DriverModel {
    DriverModel { compact_calls: o.compact_calls.push(instructions), ..o }
}

/// Completing a pending bash run: once an abort came after the call, the
/// cancelled result and no run pending; otherwise no answer, no change.
pub open spec fn complete_step(o: DriverModel) -> (DriverModel, Option<BashView>) {
    if o.bash_pending && o.aborted {
        (DriverModel { bash_pending: false, ..o }, Some(cancelled_bash()))
    } else {
        (o, None)
    }
}

/// One bash call on the driver: the abort latch is cleared and the call
/// recorded; when runs hang until an abort the run becomes pending with no
/// answer, otherwise the answer is the front of the queue (taken off it) or
/// `ok`, exit 0, when the queue is empty.
pub open spec fn bash_call(o: DriverModel, command: Seq<char>, exclude: bool) -> (DriverModel, Option<BashView>) {
    let recorded = DriverModel { aborted: false, bash_calls: o.bash_calls.push((command, exclude)), ..o };
    if o.hang_bash_until_abort {
        (DriverModel { bash_pending: true, ..recorded }, None)
    } else if o.bash_results.len() > 0 {
        (DriverModel { bash_results: o.bash_results.drop_first(), ..recorded }, Some(o.bash_results[0]))
    } else {
        (recorded, Some(default_bash()))
    }
}

/// A fresh driver: nothing recorded, session `scripted`, thinking off with
/// the standard support list, running the fake model among the default
/// ones.
pub open spec fn fresh_driver() -> DriverModel {
    DriverModel {
        runs: seq![],
        steer_calls: seq![],
        follow_up_calls: seq![],
        clear_calls: seq![],
        bash_calls: seq![],
        abort_count: 0,
        hang_bash_until_abort: false,
        aborted: false,
        bash_pending: false,
        bash_results: seq![],
        steer_queued: 0,
        follow_up_queued: 0,
        switch_calls: seq![],
        label_calls: seq![],
        fork_calls: seq![],
        active_session_id: "scripted"@,
        leaf_entry_id: None,
        compact_calls: seq![],
        export_html_calls: seq![],
        export_jsonl_calls: seq![],
        import_jsonl_calls: seq![],
        new_session_calls: 0,
        session_name: None,
        copy_text_calls: seq![],
        copy_pending_osc52: None,
        dollar_skill_catalog: seq![],
        thinking_level: ThinkingLevel::Off,
        thinking_levels: standard_levels(),
        clipboard_text: None,
        model: fake_model(),
        available_models: default_models(),
        session_list: seq![],
        list_sessions_calls: 0,
        delete_session_calls: seq![],
        clipboard_image: None,
        clipboard_image_error: None,
        staged_paste_paths: seq![],
    }
}

/// `n + 1`, wrapping to 0 past `usize::MAX`.
pub open spec fn bump(n: usize) -> usize {
    if n < usize::MAX {
        (n + 1) as usize
    } else {
        0
    }
}

/// Where `l` first occurs in `levels`.
pub open spec fn level_index(levels: Seq<ThinkingLevel>, l: ThinkingLevel) -> Option<int>
    decreases levels.len(),
{
    if levels.len() == 0 {
        None
    } else if levels[0] == l {
        Some(0)
    } else {
        match level_index(levels.drop_first(), l) {
            Some(k) => Some(k + 1),
            None => None,
        }
    }
}

/// The level after the current one in the support list, wrapping from the
/// last to the first; a current level not in the list counts as the first.
pub open spec fn next_level(levels: Seq<ThinkingLevel>, current: ThinkingLevel) -> ThinkingLevel {
    let idx = match level_index(levels, current) {
        Some(k) => k,
        None => 0,
    };
    levels[(idx + 1) % (levels.len() as int)]
}

/// The message of a refused thinking level.
pub open spec fn unsupported_level_message(l: ThinkingLevel) -> Seq<char> {
    "thinking level `"@ + level_name(l) + "` is not supported by the current model"@
}

/// The message of a cycle with no support list.
pub open spec fn no_levels_message() -> Seq<char> {
    "current model has no thinking levels"@
}

/// A label as stored: trimmed, and none when that leaves it empty.
pub open spec fn cleaned_label(label: Option<Seq<char>>) -> Option<Seq<char>> {
    match label {
        Some(l) => if trim(l).len() == 0 {
            None
        } else {
            Some(trim(l))
        },
        None => None,
    }
}

proof fn lemma_level_index(levels: Seq<ThinkingLevel>, l: ThinkingLevel)
    ensures
        match level_index(levels, l) {
            Some(k) => 0 <= k < levels.len() && levels[k] == l && forall|j: int|
                0 <= j < k ==> levels[j] != l,
            None => !levels.contains(l),
        },
    decreases levels.len(),
{
    if levels.len() > 0 {
        lemma_level_index(levels.drop_first(), l);
        if levels[0] != l {
            if level_index(levels.drop_first(), l).is_none() {
                assert forall|j: int| 0 <= j < levels.len() implies levels[j] != l by {
                    if j > 0 {
                        assert(levels[j] == levels.drop_first()[j - 1]);
                    }
                }
            } else {
                let k = level_index(levels.drop_first(), l).unwrap();
                assert forall|j: int| 0 <= j < k + 1 implies levels[j] != l by {
                    if j > 0 {
                        assert(levels[j] == levels.drop_first()[j - 1]);
                    }
                }
            }
        }
    }
}

/// Cycling stays inside a non-empty support list, and on a list without
/// repeats it moves from each level to the one after it, wrapping from the
/// last to the first.
pub proof fn law_cycle_wraps_support_list(levels: Seq<ThinkingLevel>, current: ThinkingLevel, i: int)
    requires
        levels.len() > 0,
    ensures
        levels.contains(next_level(levels, current)),
        0 <= i < levels.len() && (forall|a: int, b: int|
            0 <= a < b < levels.len() ==> levels[a] != levels[b]) ==> next_level(levels, levels[i])
            == levels[(i + 1) % (levels.len() as int)],
{
    lemma_level_index(levels, current);
    let idx = match level_index(levels, current) {
        Some(k) => k,
        None => 0,
    };
    let j = (idx + 1) % (levels.len() as int);
    assert(0 <= j < levels.len());
    assert(levels[j] == next_level(levels, current));
    if 0 <= i < levels.len() && (forall|a: int, b: int|
        0 <= a < b < levels.len() ==> levels[a] != levels[b]) {
        lemma_level_index(levels, levels[i]);
        let k = level_index(levels, levels[i]).unwrap();
        if k < i {
            assert(levels[k] != levels[i]);
        }
    }
}

/// Where `l` first occurs in `levels`.
fn find_level(levels: &Vec<ThinkingLevel>, l: ThinkingLevel) -> (r: Option<usize>)
    ensures
        match level_index(levels@, l) {
            Some(k) => r == Some(k as usize),
            None => r.is_none(),
        },
{
    proof {
        lemma_level_index(levels@, l);
    }
    let mut i: usize = 0;
    while i < levels.len()
        invariant
            i <= levels@.len(),
            forall|j: int| 0 <= j < i ==> levels@[j] != l,
            match level_index(levels@, l) {
                Some(k) => 0 <= k < levels@.len() && levels@[k] == l && forall|j: int|
                    0 <= j < k ==> levels@[j] != l,
                None => !levels@.contains(l),
            },
        decreases levels@.len() - i,
    {
        if levels[i] == l {
            return Some(i);
        }
        i = i + 1;
    }
    proof {
        if let Some(k) = level_index(levels@, l) {
            assert(levels@[k] == l);
        }
    }
    None
}

impl ScriptedDriver {
    /// A fresh driver (see [`fresh_driver`]).
    pub fn new() -> (d: Self)
        ensures
            d@ == fresh_driver(),
    {
        let mut available: Vec<ModelInfo> = Vec::new();
        available.push(make_plain_model("fake", "Fake", false, 8000));
        available.push(make_plain_model("ornith-fast", "Ornith Fast", false, 8000));
        available.push(make_plain_model("ornith-think", "Ornith Think", true, 32000));
        let d = ScriptedDriver {
            runs: Vec::new(),
            steer_calls: Vec::new(),
            follow_up_calls: Vec::new(),
            clear_calls: Vec::new(),
            bash_calls: Vec::new(),
            abort_count: 0,
            hang_bash_until_abort: false,
            aborted: false,
            bash_pending: false,
            bash_results: VecDeque::new(),
            steer_queued: 0,
            follow_up_queued: 0,
            switch_calls: Vec::new(),
            label_calls: Vec::new(),
            fork_calls: Vec::new(),
            active_session_id: String::from_str("scripted"),
            leaf_entry_id: None,
            compact_calls: Vec::new(),
            export_html_calls: Vec::new(),
            export_jsonl_calls: Vec::new(),
            import_jsonl_calls: Vec::new(),
            new_session_calls: 0,
            session_name: None,
            copy_text_calls: Vec::new(),
            copy_pending_osc52: None,
            dollar_skill_catalog: Vec::new(),
            thinking_level: ThinkingLevel::Off,
            thinking_levels: ThinkingLevel::standard(),
            clipboard_text: None,
            model: make_plain_model("fake", "Fake", false, 8000),
            available_models: available,
            session_list: Vec::new(),
            list_sessions_calls: 0,
            delete_session_calls: Vec::new(),
            clipboard_image: None,
            clipboard_image_error: None,
            staged_paste_paths: Vec::new(),
        };
        proof {
            reveal_strlit("scripted");
            let e = Seq::<Seq<char>>::empty();
            assert(views(d.runs@) =~= e);
            assert(views(d.steer_calls@) =~= e);
            assert(views(d.follow_up_calls@) =~= e);
            assert(views(d.switch_calls@) =~= e);
            assert(views(d.export_html_calls@) =~= e);
            assert(views(d.export_jsonl_calls@) =~= e);
            assert(views(d.import_jsonl_calls@) =~= e);
            assert(views(d.copy_text_calls@) =~= e);
            assert(flagged_views(d.bash_calls@) =~= Seq::<(Seq<char>, bool)>::empty());
            assert(label_views(d.label_calls@) =~= Seq::<(Seq<char>, Option<Seq<char>>)>::empty());
            assert(fork_views(d.fork_calls@) =~= Seq::<(Seq<char>, ForkPosition)>::empty());
            assert(opt_views(d.compact_calls@) =~= Seq::<Option<Seq<char>>>::empty());
            assert(pair_views(d.dollar_skill_catalog@) =~= Seq::<(Seq<char>, Seq<char>)>::empty());
            assert(d.bash_results@.map_values(|r: BashResult| r@) =~= Seq::<BashView>::empty());
            assert(views(d.delete_session_calls@) =~= e);
            assert(views(d.staged_paste_paths@) =~= e);
            assert(entry_views(d.session_list@) =~= Seq::<SessionEntryView>::empty());
            assert(model_views(d.available_models@) =~= default_models());
        }
        assert(d@ =~= fresh_driver());
        d
    }

    /// Queues clipboard text for the next [`Self::read_clipboard_text`].
    pub fn set_clipboard_text(&mut self, text: String)
        ensures
            final(self)@ == (DriverModel { clipboard_text: Some(text@), ..old(self)@ }),
    {
        self.clipboard_text = Some(text);
    }

    /// Replaces the thinking support list; when the list is not empty and
    /// lacks the current level, the current level becomes its first.
    pub fn set_thinking_levels(&mut self, levels: Vec<ThinkingLevel>)
        ensures
            final(self)@ == (DriverModel {
                thinking_levels: levels@,
                thinking_level: if levels@.len() > 0 && !levels@.contains(old(self)@.thinking_level) {
                    levels@[0]
                } else {
                    old(self)@.thinking_level
                },
                ..old(self)@
            }),
    {
        let ghost lv = levels@;
        self.thinking_levels = levels;
        if self.thinking_levels.len() > 0 && find_level(&self.thinking_levels, self.thinking_level).is_none() {
            self.thinking_level = self.thinking_levels[0];
        }
        proof {
            lemma_level_index(lv, old(self)@.thinking_level);
        }
    }

    /// Sets the OSC 52 sequence the next clipboard copy hands back.
    pub fn set_next_copy_pending_osc52(&mut self, sequence: Option<String>)
        ensures
            final(self)@ == (DriverModel { copy_pending_osc52: opt_view(sequence), ..old(self)@ }),
    {
        self.copy_pending_osc52 = sequence;
    }

    /// The texts copied to the clipboard, in order.
    pub fn copy_text_calls(&self) -> (v: Vec<String>)
        ensures
            views(v@) == self@.copy_text_calls,
    {
        copy_strings(&self.copy_text_calls)
    }

    /// Sets the `$skill` catalog: (name, description) pairs.
    pub fn set_dollar_skill_catalog_for_driver(&mut self, catalog: Vec<(String, String)>)
        ensures
            final(self)@ == (DriverModel { dollar_skill_catalog: pair_views(catalog@), ..old(self)@ }),
    {
        self.dollar_skill_catalog = catalog;
    }

    /// How many sessions were started.
    pub fn new_session_calls(&self) -> (n: usize)
        ensures
            n == self@.new_session_calls,
    {
        self.new_session_calls
    }

    /// Sets the leaf entry a session fork starts from.
    pub fn set_leaf_entry_id(&mut self, id: Option<String>)
        ensures
            final(self)@ == (DriverModel { leaf_entry_id: opt_view(id), ..old(self)@ }),
    {
        self.leaf_entry_id = id;
    }

    /// The sessions switched to, in order.
    pub fn switch_calls(&self) -> (v: Vec<String>)
        ensures
            views(v@) == self@.switch_calls,
    {
        copy_strings(&self.switch_calls)
    }

    /// How many compactions were asked for.
    pub fn compact_calls(&self) -> (n: usize)
        ensures
            n as nat == self@.compact_calls.len(),
    {
        self.compact_calls.len()
    }

    /// The instructions of each compaction, in order.
    pub fn compact_instructions(&self) -> (v: Vec<Option<String>>)
        ensures
            opt_views(v@) == self@.compact_calls,
    {
        let mut c: Vec<Option<String>> = Vec::new();
        let mut i: usize = 0;
        while i < self.compact_calls.len()
            invariant
                i <= self.compact_calls@.len(),
                c@.len() == i,
                forall|k: int| 0 <= k < i ==> opt_view(#[trigger] c@[k]) == opt_view(self.compact_calls@[k]),
            decreases self.compact_calls@.len() - i,
        {
            c.push(copy_opt(&self.compact_calls[i]));
            i = i + 1;
        }
        assert(opt_views(c@) =~= opt_views(self.compact_calls@));
        c
    }

    /// The paths of each HTML export, in order.
    pub fn export_html_calls(&self) -> (v: Vec<String>)
        ensures
            views(v@) == self@.export_html_calls,
    {
        copy_strings(&self.export_html_calls)
    }

    /// The paths of each JSONL export, in order.
    pub fn export_jsonl_calls(&self) -> (v: Vec<String>)
        ensures
            views(v@) == self@.export_jsonl_calls,
    {
        copy_strings(&self.export_jsonl_calls)
    }

    /// The paths of each JSONL import, in order.
    pub fn import_jsonl_calls(&self) -> (v: Vec<String>)
        ensures
            views(v@) == self@.import_jsonl_calls,
    {
        copy_strings(&self.import_jsonl_calls)
    }

    /// How many times the run was aborted.
    pub fn abort_count(&self) -> (n: usize)
        ensures
            n == self@.abort_count,
    {
        self.abort_count
    }

    /// The labels set, in order: target entry and cleaned label.
    pub fn label_calls(&self) -> (v: Vec<(String, Option<String>)>)
        ensures
            label_views(v@) == self@.label_calls,
    {
        let mut c: Vec<(String, Option<String>)> = Vec::new();
        let mut i: usize = 0;
        while i < self.label_calls.len()
            invariant
                i <= self.label_calls@.len(),
                c@.len() == i,
                forall|k: int|
                    0 <= k < i ==> (#[trigger] c@[k]).0@ == self.label_calls@[k].0@ && opt_view(c@[k].1)
                        == opt_view(self.label_calls@[k].1),
            decreases self.label_calls@.len() - i,
        {
            let (t, l) = (self.label_calls[i].0.clone(), copy_opt(&self.label_calls[i].1));
            c.push((t, l));
            i = i + 1;
        }
        assert(label_views(c@) =~= label_views(self.label_calls@));
        c
    }

    /// Records a fork at (or before) `entry_id` and answers with the child
    /// session `forked-child`.
    pub fn fork_session(&mut self, entry_id: &str, position: ForkPosition) -> (r: Result<String, String>)
        ensures
            r matches Ok(c) && c@ == "forked-child"@,
            final(self)@ == (DriverModel {
                fork_calls: old(self)@.fork_calls.push((entry_id@, position)),
                ..old(self)@
            }),
    {
        let ghost v0 = self.fork_calls@;
        self.fork_calls.push((String::from_str(entry_id), position));
        assert(fork_views(self.fork_calls@) =~= fork_views(v0).push((entry_id@, position)));
        Ok(String::from_str("forked-child"))
    }

    /// The forks, in order: entry and position.
    pub fn fork_calls(&self) -> (v: Vec<(String, ForkPosition)>)
        ensures
            fork_views(v@) == self@.fork_calls,
    {
        let mut c: Vec<(String, ForkPosition)> = Vec::new();
        let mut i: usize = 0;
        while i < self.fork_calls.len()
            invariant
                i <= self.fork_calls@.len(),
                fork_views(c@) == fork_views(self.fork_calls@).take(i as int),
            decreases self.fork_calls@.len() - i,
        {
            let ghost c0 = c@;
            c.push((self.fork_calls[i].0.clone(), self.fork_calls[i].1));
            assert(fork_views(c@) =~= fork_views(c0).push((self.fork_calls@[i as int].0@, self.fork_calls@[i as int].1)));
            assert(fork_views(self.fork_calls@).take(i + 1) =~= fork_views(self.fork_calls@).take(i as int).push(
                fork_views(self.fork_calls@)[i as int],
            ));
            i = i + 1;
        }
        assert(fork_views(self.fork_calls@).take(self.fork_calls@.len() as int) =~= fork_views(self.fork_calls@));
        c
    }

    /// The bash runs, in order: command and whether it stays out of the
    /// context.
    pub fn bash_calls(&self) -> (v: Vec<(String, bool)>)
        ensures
            flagged_views(v@) == self@.bash_calls,
    {
        let mut c: Vec<(String, bool)> = Vec::new();
        let mut i: usize = 0;
        while i < self.bash_calls.len()
            invariant
                i <= self.bash_calls@.len(),
                c@.len() == i,
                forall|k: int|
                    0 <= k < i ==> (#[trigger] c@[k]).0@ == self.bash_calls@[k].0@ && c@[k].1
                        == self.bash_calls@[k].1,
            decreases self.bash_calls@.len() - i,
        {
            c.push((self.bash_calls[i].0.clone(), self.bash_calls[i].1));
            i = i + 1;
        }
        assert(flagged_views(c@) =~= flagged_views(self.bash_calls@));
        c
    }

    /// Queues the result of the next bash run.
    pub fn push_bash_result(&mut self, result: BashResult)
        ensures
            final(self)@ == (DriverModel { bash_results: old(self)@.bash_results.push(result@), ..old(self)@ }),
    {
        self.bash_results.push_back(result);
        assert(self.bash_results@.map_values(|r: BashResult| r@) =~= old(self)@.bash_results.push(
            result@,
        ));
        assert(self@ =~= DriverModel { bash_results: old(self)@.bash_results.push(result@), ..old(self)@ });
    }

    /// Makes bash runs last until an abort (and forgets an earlier abort).
    pub fn set_hang_bash_until_abort(&mut self, hang: bool)
        ensures
            final(self)@ == (DriverModel { hang_bash_until_abort: hang, aborted: false, ..old(self)@ }),
    {
        self.hang_bash_until_abort = hang;
        self.aborted = false;
    }

    /// Aborts the current run: counts the abort and latches it.
    pub fn abort(&mut self)
        ensures
            final(self)@ == abort_step(old(self)@),
    {
        self.abort_count = if self.abort_count < usize::MAX {
            self.abort_count + 1
        } else {
            0
        };
        self.aborted = true;
    }

    /// The current thinking level.
    pub fn thinking_level(&self) -> (l: ThinkingLevel)
        ensures
            l == self@.thinking_level,
    {
        self.thinking_level
    }

    /// Sets the thinking level; a level outside a non-empty support list is
    /// refused and nothing changes.
    pub fn set_thinking_level(&mut self, level: ThinkingLevel) -> (r: Result<(), String>)
        ensures
            old(self)@.thinking_levels.len() > 0 && !old(self)@.thinking_levels.contains(level) ==> (r
                matches Err(e) && e@ == unsupported_level_message(level) && final(self)@ == old(self)@),
            !(old(self)@.thinking_levels.len() > 0 && !old(self)@.thinking_levels.contains(level)) ==> (r
                is Ok && final(self)@ == (DriverModel { thinking_level: level, ..old(self)@ })),
    {
        proof {
            lemma_level_index(self.thinking_levels@, level);
        }
        if self.thinking_levels.len() > 0 && find_level(&self.thinking_levels, level).is_none() {
            let mut msg = String::from_str("thinking level `");
            msg.append(level.as_str());
            msg.append("` is not supported by the current model");
            proof {
                reveal_strlit("thinking level `");
                reveal_strlit("` is not supported by the current model");
            }
            return Err(msg);
        }
        self.thinking_level = level;
        Ok(())
    }

    /// Moves to the next level of the support list (see [`next_level`]) and
    /// returns it; with no support list, an error and no change.
    pub fn cycle_thinking_level(&mut self) -> (r: Result<ThinkingLevel, String>)
        ensures
            old(self)@.thinking_levels.len() == 0 ==> (r matches Err(e) && e@ == no_levels_message()
                && final(self)@ == old(self)@),
            old(self)@.thinking_levels.len() > 0 ==> ({
                let next = next_level(old(self)@.thinking_levels, old(self)@.thinking_level);
                &&& r == Ok::<ThinkingLevel, String>(next)
                &&& final(self)@ == (DriverModel { thinking_level: next, ..old(self)@ })
            }),
    {
        if self.thinking_levels.len() == 0 {
            let e = String::from_str("current model has no thinking levels");
            proof {
                reveal_strlit("current model has no thinking levels");
            }
            return Err(e);
        }
        proof {
            lemma_level_index(self.thinking_levels@, self.thinking_level);
        }
        let idx = match find_level(&self.thinking_levels, self.thinking_level) {
            Some(k) => k,
            None => 0,
        };
        let next = self.thinking_levels[(idx + 1) % self.thinking_levels.len()];
        self.thinking_level = next;
        Ok(next)
    }

    /// The active session's id.
    pub fn session_id(&self) -> (r: Option<String>)
        ensures
            opt_view(r) == Some(self@.active_session_id),
    {
        Some(self.active_session_id.clone())
    }

    /// Queues a steering message.
    pub fn steer(&mut self, message: &str) -> (r: Result<(), String>)
        requires
            old(self)@.steer_queued < usize::MAX,
        ensures
            r is Ok,
            final(self)@ == (DriverModel {
                steer_calls: old(self)@.steer_calls.push(message@),
                steer_queued: (old(self)@.steer_queued + 1) as usize,
                ..old(self)@
            }),
    {
        let ghost v0 = self.steer_calls@;
        self.steer_calls.push(String::from_str(message));
        proof {
            assert(views(self.steer_calls@) =~= views(v0).push(message@));
        }
        self.steer_queued = self.steer_queued + 1;
        Ok(())
    }

    /// Queues a follow-up message.
    pub fn follow_up(&mut self, message: &str) -> (r: Result<(), String>)
        requires
            old(self)@.follow_up_queued < usize::MAX,
        ensures
            r is Ok,
            final(self)@ == (DriverModel {
                follow_up_calls: old(self)@.follow_up_calls.push(message@),
                follow_up_queued: (old(self)@.follow_up_queued + 1) as usize,
                ..old(self)@
            }),
    {
        let ghost v0 = self.follow_up_calls@;
        self.follow_up_calls.push(String::from_str(message));
        proof {
            assert(views(self.follow_up_calls@) =~= views(v0).push(message@));
        }
        self.follow_up_queued = self.follow_up_queued + 1;
        Ok(())
    }

    /// Empties the chosen queues (and records the call).
    pub fn clear_queue(&mut self, clear_steer: bool, clear_follow_up: bool) -> (r: Result<(), String>)
        ensures
            r is Ok,
            final(self)@ == (DriverModel {
                clear_calls: old(self)@.clear_calls.push((clear_steer, clear_follow_up)),
                steer_queued: if clear_steer {
                    0
                } else {
                    old(self)@.steer_queued
                },
                follow_up_queued: if clear_follow_up {
                    0
                } else {
                    old(self)@.follow_up_queued
                },
                ..old(self)@
            }),
    {
        self.clear_calls.push((clear_steer, clear_follow_up));
        if clear_steer {
            self.steer_queued = 0;
        }
        if clear_follow_up {
            self.follow_up_queued = 0;
        }
        Ok(())
    }

    /// The queue sizes.
    pub fn queue_stats(&self) -> (q: QueueStats)
        ensures
            q == (QueueStats { steer_count: self@.steer_queued, follow_up_count: self@.follow_up_queued }),
    {
        QueueStats { steer_count: self.steer_queued, follow_up_count: self.follow_up_queued }
    }

    /// Runs a bash command: forgets an earlier abort, records the call,
    /// and answers with the next queued result (or `ok`, exit 0, when none
    /// is queued). When runs hang until an abort, there is no answer yet:
    /// the run stays pending until [`Self::complete_pending_bash`] sees an
    /// abort made after this call.
    pub fn execute_bash(&mut self, command: &str, exclude_from_context: bool) -> (r: Result<
        Option<BashResult>,
        String,
    >)
        ensures
            r matches Ok(o) && final(self)@ == bash_call(old(self)@, command@, exclude_from_context).0 && match o {
                Some(b) => bash_call(old(self)@, command@, exclude_from_context).1 == Some(b@),
                None => bash_call(old(self)@, command@, exclude_from_context).1.is_none(),
            },
    {
        self.aborted = false;
        let ghost b0 = self.bash_calls@;
        self.bash_calls.push((String::from_str(command), exclude_from_context));
        proof {
            assert(flagged_views(self.bash_calls@) =~= flagged_views(b0).push((command@, exclude_from_context)));
        }
        if self.hang_bash_until_abort {
            self.bash_pending = true;
            return Ok(None);
        }
        let ghost r0 = self.bash_results@;
        if let Some(r) = self.bash_results.pop_front() {
            proof {
                assert(self.bash_results@.map_values(|x: BashResult| x@) =~= r0.map_values(
                    |x: BashResult| x@,
                ).drop_first());
            }
            return Ok(Some(r));
        }
        let r = BashResult {
            output: String::from_str("ok"),
            exit_code: Some(0),
            cancelled: false,
            timed_out: false,
            truncated: false,
            full_output_path: None,
        };
        proof {
            reveal_strlit("ok");
        }
        assert(r@ =~= default_bash());
        Ok(Some(r))
    }

    /// Completes a pending bash run: once an abort came after the call, the
    /// run ends with the cancelled result (no output, no exit code) and is
    /// no longer pending; before that (or with no run pending) there is no
    /// answer and nothing changes.
    pub fn complete_pending_bash(&mut self) -> (r: Option<BashResult>)
        ensures
            final(self)@ == complete_step(old(self)@).0,
            match r {
                Some(b) => complete_step(old(self)@).1 == Some(b@),
                None => complete_step(old(self)@).1.is_none(),
            },
    {
        if self.bash_pending && self.aborted {
            self.bash_pending = false;
            let r = BashResult {
                output: String::new(),
                exit_code: None,
                cancelled: true,
                timed_out: false,
                truncated: false,
                full_output_path: None,
            };
            assert(r@ =~= cancelled_bash());
            Some(r)
        } else {
            None
        }
    }

    /// Records a compaction request; nothing is compacted.
    pub fn compact(&mut self, instructions: Option<String>) -> (r: Result<bool, String>)
        ensures
            r == Ok::<bool, String>(false),
            final(self)@ == compact_step(old(self)@, opt_view(instructions)),
    {
        let ghost c0 = self.compact_calls@;
        let ghost iv = opt_view(instructions);
        self.compact_calls.push(instructions);
        assert(opt_views(self.compact_calls@) =~= opt_views(c0).push(iv));
        Ok(false)
    }

    /// Records an HTML export to `path` and answers with the path.
    pub fn export_html(&mut self, path: &str) -> (r: Result<String, String>)
        ensures
            r matches Ok(p) && p@ == path@,
            final(self)@ == (DriverModel {
                export_html_calls: old(self)@.export_html_calls.push(path@),
                ..old(self)@
            }),
    {
        let ghost v0 = self.export_html_calls@;
        self.export_html_calls.push(String::from_str(path));
        assert(views(self.export_html_calls@) =~= views(v0).push(path@));
        Ok(String::from_str(path))
    }

    /// Records a JSONL export to `path` and answers with the path.
    pub fn export_jsonl(&mut self, path: &str) -> (r: Result<String, String>)
        ensures
            r matches Ok(p) && p@ == path@,
            final(self)@ == (DriverModel {
                export_jsonl_calls: old(self)@.export_jsonl_calls.push(path@),
                ..old(self)@
            }),
    {
        let ghost v0 = self.export_jsonl_calls@;
        self.export_jsonl_calls.push(String::from_str(path));
        assert(views(self.export_jsonl_calls@) =~= views(v0).push(path@));
        Ok(String::from_str(path))
    }

    /// Records a JSONL import from `path` and answers `imported`.
    pub fn import_jsonl(&mut self, path: &str) -> (r: Result<String, String>)
        ensures
            r matches Ok(p) && p@ == "imported"@,
            final(self)@ == (DriverModel {
                import_jsonl_calls: old(self)@.import_jsonl_calls.push(path@),
                ..old(self)@
            }),
    {
        let ghost v0 = self.import_jsonl_calls@;
        self.import_jsonl_calls.push(String::from_str(path));
        assert(views(self.import_jsonl_calls@) =~= views(v0).push(path@));
        Ok(String::from_str("imported"))
    }

    /// Switches to session `session_id` (and records the switch).
    pub fn switch_session(&mut self, session_id: &str) -> (r: Result<String, String>)
        ensures
            r matches Ok(p) && p@ == session_id@,
            final(self)@ == (DriverModel {
                switch_calls: old(self)@.switch_calls.push(session_id@),
                active_session_id: session_id@,
                ..old(self)@
            }),
    {
        let ghost v0 = self.switch_calls@;
        self.switch_calls.push(String::from_str(session_id));
        assert(views(self.switch_calls@) =~= views(v0).push(session_id@));
        self.active_session_id = String::from_str(session_id);
        Ok(String::from_str(session_id))
    }

    /// Records a label on entry `target_id`, trimmed; a label that trims to
    /// nothing is recorded as none.
    pub fn append_entry_label(&mut self, target_id: &str, label: Option<&str>) -> (r: Result<(), String>)
        ensures
            r is Ok,
            final(self)@ == (DriverModel {
                label_calls: old(self)@.label_calls.push(
                    (
                        target_id@,
                        cleaned_label(
                            match label {
                                Some(l) => Some(l@),
                                None => None,
                            },
                        ),
                    ),
                ),
                ..old(self)@
            }),
    {
        let cleaned: Option<String> = match label {
            Some(l) => {
                let t = trim_str(l);
                if t.as_str().is_empty() {
                    None
                } else {
                    Some(t)
                }
            },
            None => None,
        };
        let ghost v0 = self.label_calls@;
        let ghost cv = opt_view(cleaned);
        self.label_calls.push((String::from_str(target_id), cleaned));
        assert(label_views(self.label_calls@) =~= label_views(v0).push((target_id@, cv)));
        Ok(())
    }

    /// The leaf entry a session fork starts from.
    pub fn leaf_entry_id(&self) -> (r: Option<String>)
        ensures
            opt_view(r) == self@.leaf_entry_id,
    {
        copy_opt(&self.leaf_entry_id)
    }

    /// Starts a new session: counts it, names it `new-<count>`, makes it
    /// active, and clears the fork leaf and the session name.
    pub fn new_session(&mut self) -> (r: Result<String, String>)
        ensures
            ({
                let n = bump(old(self)@.new_session_calls);
                let sid = "new-"@ + crate::text::decimal(n as nat);
                &&& r matches Ok(s) && s@ == sid
                &&& final(self)@ == (DriverModel {
                    new_session_calls: n,
                    active_session_id: sid,
                    leaf_entry_id: None,
                    session_name: None,
                    ..old(self)@
                })
            }),
    {
        self.new_session_calls = if self.new_session_calls < usize::MAX {
            self.new_session_calls + 1
        } else {
            0
        };
        let mut sid = String::from_str("new-");
        proof {
            reveal_strlit("new-");
        }
        push_decimal(&mut sid, self.new_session_calls as u128);
        self.active_session_id = sid.clone();
        self.leaf_entry_id = None;
        self.session_name = None;
        Ok(sid)
    }

    /// The session's display name.
    pub fn get_session_name(&self) -> (r: Result<Option<String>, String>)
        ensures
            r matches Ok(n) && opt_view(n) == self@.session_name,
    {
        Ok(copy_opt(&self.session_name))
    }

    /// Records a clipboard copy and hands back the pending OSC 52 sequence,
    /// if one was set (it is used once).
    pub fn copy_text_to_clipboard(&mut self, text: &str) -> (r: Result<Option<String>, String>)
        ensures
            r matches Ok(p) && opt_view(p) == old(self)@.copy_pending_osc52,
            final(self)@ == (DriverModel {
                copy_text_calls: old(self)@.copy_text_calls.push(text@),
                copy_pending_osc52: None,
                ..old(self)@
            }),
    {
        let ghost v0 = self.copy_text_calls@;
        self.copy_text_calls.push(String::from_str(text));
        assert(views(self.copy_text_calls@) =~= views(v0).push(text@));
        let pending = self.copy_pending_osc52.take();
        Ok(pending)
    }

    /// Hands back the queued clipboard text, if any (it is used once).
    pub fn read_clipboard_text(&mut self) -> (r: Result<Option<String>, String>)
        ensures
            r matches Ok(t) && opt_view(t) == old(self)@.clipboard_text,
            final(self)@ == (DriverModel { clipboard_text: None, ..old(self)@ }),
    {
        Ok(self.clipboard_text.take())
    }

    /// The `$skill` catalog.
    pub fn dollar_skill_catalog(&self) -> (v: Vec<(String, String)>)
        ensures
            pair_views(v@) == self@.dollar_skill_catalog,
    {
        let mut c: Vec<(String, String)> = Vec::new();
        let mut i: usize = 0;
        while i < self.dollar_skill_catalog.len()
            invariant
                i <= self.dollar_skill_catalog@.len(),
                c@.len() == i,
                forall|k: int|
                    0 <= k < i ==> (#[trigger] c@[k]).0@ == self.dollar_skill_catalog@[k].0@ && c@[k].1@
                        == self.dollar_skill_catalog@[k].1@,
            decreases self.dollar_skill_catalog@.len() - i,
        {
            c.push((self.dollar_skill_catalog[i].0.clone(), self.dollar_skill_catalog[i].1.clone()));
            i = i + 1;
        }
        assert(pair_views(c@) =~= pair_views(self.dollar_skill_catalog@));
        c
    }

    /// The model the driver runs.
    pub fn current_model(&self) -> (r: Option<ModelInfo>)
        ensures
            r matches Some(m) && m@ == self@.model,
    {
        Some(copy_model(&self.model))
    }

    /// The models offered: the set list, or just the current model when the
    /// list is empty.
    pub fn available_models(&self) -> (v: Vec<ModelInfo>)
        ensures
            model_views(v@) == (if self@.available_models.len() == 0 {
                seq![self@.model]
            } else {
                self@.available_models
            }),
    {
        if self.available_models.len() == 0 {
            let mut v: Vec<ModelInfo> = Vec::new();
            v.push(copy_model(&self.model));
            assert(model_views(v@) =~= seq![self@.model]);
            v
        } else {
            copy_models(&self.available_models)
        }
    }

    /// Selects the model with this id: it becomes current, named by its id,
    /// without thinking levels, with an 8000-token window.
    pub fn select_model(&mut self, model_id: &str) -> (r: Result<ModelInfo, String>)
        ensures
            r matches Ok(m) && m@ == plain_model(model_id@, model_id@, false, 8000),
            final(self)@ == (DriverModel { model: plain_model(model_id@, model_id@, false, 8000), ..old(self)@ }),
    {
        self.model = make_plain_model(model_id, model_id, false, 8000);
        Ok(copy_model(&self.model))
    }

    /// Cycling models keeps the current one.
    pub fn cycle_model(&mut self) -> (r: Result<ModelInfo, String>)
        ensures
            r matches Ok(m) && m@ == old(self)@.model,
            final(self)@ == old(self)@,
    {
        Ok(copy_model(&self.model))
    }

    /// Sets the current model.
    pub fn set_current_model(&mut self, model: ModelInfo)
        ensures
            final(self)@ == (DriverModel { model: model@, ..old(self)@ }),
    {
        self.model = model;
    }

    /// Sets the models offered.
    pub fn set_available_models(&mut self, models: Vec<ModelInfo>)
        ensures
            final(self)@ == (DriverModel { available_models: model_views(models@), ..old(self)@ }),
    {
        self.available_models = models;
    }

    /// Sets the stored sessions.
    pub fn set_session_list(&mut self, entries: Vec<SessionListEntry>)
        ensures
            final(self)@ == (DriverModel { session_list: entry_views(entries@), ..old(self)@ }),
    {
        self.session_list = entries;
    }

    /// The stored sessions; the listing is counted.
    pub fn list_sessions(&mut self) -> (r: Result<Vec<SessionListEntry>, String>)
        ensures
            r matches Ok(v) && entry_views(v@) == old(self)@.session_list,
            final(self)@ == (DriverModel {
                list_sessions_calls: bump(old(self)@.list_sessions_calls),
                ..old(self)@
            }),
    {
        self.list_sessions_calls = if self.list_sessions_calls < usize::MAX {
            self.list_sessions_calls + 1
        } else {
            0
        };
        let mut c: Vec<SessionListEntry> = Vec::new();
        let mut i: usize = 0;
        while i < self.session_list.len()
            invariant
                i <= self.session_list@.len(),
                c@.len() == i,
                forall|k: int| 0 <= k < i ==> (#[trigger] c@[k])@ == self.session_list@[k]@,
            decreases self.session_list@.len() - i,
        {
            c.push(copy_entry(&self.session_list[i]));
            i = i + 1;
        }
        assert(entry_views(c@) =~= entry_views(self.session_list@));
        Ok(c)
    }

    /// How many times the sessions were listed.
    pub fn list_sessions_calls(&self) -> (n: usize)
        ensures
            n == self@.list_sessions_calls,
    {
        self.list_sessions_calls
    }

    /// Deletes a session: records the call and drops every stored session
    /// with that id.
    pub fn delete_session(&mut self, session_id: &str) -> (r: Result<(), String>)
        ensures
            r is Ok,
            final(self)@ == (DriverModel {
                delete_session_calls: old(self)@.delete_session_calls.push(session_id@),
                session_list: without_session(old(self)@.session_list, session_id@),
                ..old(self)@
            }),
    {
        let ghost d0 = self.delete_session_calls@;
        self.delete_session_calls.push(String::from_str(session_id));
        assert(views(self.delete_session_calls@) =~= views(d0).push(session_id@));
        let ghost old_list = entry_views(self.session_list@);
        let mut kept_entries: Vec<SessionListEntry> = Vec::new();
        let mut i: usize = 0;
        while i < self.session_list.len()
            invariant
                i <= self.session_list@.len(),
                old_list == entry_views(self.session_list@),
                entry_views(kept_entries@) == without_session(old_list.take(i as int), session_id@),
            decreases self.session_list@.len() - i,
        {
            let ghost before = kept_entries@;
            assert(old_list.take(i as int + 1).drop_last() =~= old_list.take(i as int));
            assert(old_list.take(i as int + 1).last() == self.session_list@[i as int]@);
            if !crate::text::same_text(self.session_list[i].id.as_str(), session_id) {
                kept_entries.push(copy_entry(&self.session_list[i]));
                assert(entry_views(kept_entries@) =~= entry_views(before).push(self.session_list@[i as int]@));
            }
            i = i + 1;
        }
        assert(old_list.take(old_list.len() as int) =~= old_list);
        self.session_list = kept_entries;
        Ok(())
    }

    /// The sessions deleted, in order.
    pub fn delete_session_calls(&self) -> (v: Vec<String>)
        ensures
            views(v@) == self@.delete_session_calls,
    {
        copy_strings(&self.delete_session_calls)
    }

    /// Queues a clipboard image (bytes and MIME type) for the next paste.
    pub fn set_clipboard_image(&mut self, bytes: Vec<u8>, mime: String)
        ensures
            final(self)@ == (DriverModel { clipboard_image: Some((bytes@, mime@)), ..old(self)@ }),
    {
        self.clipboard_image = Some((bytes, mime));
    }

    /// Makes the next paste of an image fail with this message.
    pub fn set_clipboard_image_error(&mut self, err: String)
        ensures
            final(self)@ == (DriverModel { clipboard_image_error: Some(err@), ..old(self)@ }),
    {
        self.clipboard_image_error = Some(err);
    }

    /// The paths pasted images were staged at, in order.
    pub fn staged_paste_paths(&self) -> (v: Vec<String>)
        ensures
            views(v@) == self@.staged_paste_paths,
    {
        copy_strings(&self.staged_paste_paths)
    }

    /// Takes what the next image paste stages: the queued error if there is
    /// one (used once), else the queued image (used once) with the file
    /// extension for its MIME type, or nothing.
    pub fn take_clipboard_image(&mut self) -> (r: Result<Option<(Vec<u8>, &'static str)>, String>)
        ensures
            match old(self)@.clipboard_image_error {
                Some(e) => r matches Err(m) && m@ == e && final(self)@ == (DriverModel {
                    clipboard_image_error: None,
                    ..old(self)@
                }),
                None => final(self)@ == (DriverModel { clipboard_image: None, ..old(self)@ }) && match old(
                    self,
                )@.clipboard_image {
                    None => r matches Ok(None),
                    Some((b, m)) => r matches Ok(Some((bytes, ext))) && bytes@ == b && ext@ == paste_extension(m),
                },
            },
    {
        if let Some(err) = self.clipboard_image_error.take() {
            return Err(err);
        }
        match self.clipboard_image.take() {
            None => Ok(None),
            Some((bytes, mime)) => {
                let ext = paste_extension_of(mime.as_str());
                Ok(Some((bytes, ext)))
            },
        }
    }

    /// Records the path a pasted image was staged at.
    pub fn note_staged_paste_path(&mut self, path: String)
        ensures
            final(self)@ == (DriverModel { staged_paste_paths: old(self)@.staged_paste_paths.push(path@), ..old(self)@ }),
    {
        let ghost p0 = self.staged_paste_paths@;
        self.staged_paste_paths.push(path);
        assert(views(self.staged_paste_paths@) =~= views(p0).push(path@));
    }
}

/// Bash calls `cmds` made in order: the driver after them and their
/// answers, in order.
pub open spec fn bash_calls_run(o: DriverModel, cmds: Seq<(Seq<char>, bool)>) -> (DriverModel, Seq<Option<BashView>>)
    decreases cmds.len(),
{
    if cmds.len() == 0 {
        (o, seq![])
    } else {
        let (d, answers) = bash_calls_run(o, cmds.drop_last());
        let (d2, a) = bash_call(d, cmds.last().0, cmds.last().1);
        (d2, answers.push(a))
    }
}

/// Queued bash results come back in the order they were pushed: with runs
/// not hanging, the `i`-th of a series of calls answers the `i`-th queued
/// result, or `ok` (exit 0) once the queue is used up; every call is
/// recorded in order and the used results leave the queue.
pub proof fn law_bash_results_fifo(o: DriverModel, cmds: Seq<(Seq<char>, bool)>)
    requires
        !o.hang_bash_until_abort,
    ensures
        bash_calls_run(o, cmds).1.len() == cmds.len(),
        forall|i: int|
            0 <= i < cmds.len() ==> #[trigger] bash_calls_run(o, cmds).1[i] == if i < o.bash_results.len() {
                Some(o.bash_results[i])
            } else {
                Some(default_bash())
            },
        bash_calls_run(o, cmds).0.bash_calls == o.bash_calls + cmds,
        bash_calls_run(o, cmds).0.bash_results == o.bash_results.skip(
            if cmds.len() < o.bash_results.len() { cmds.len() as int } else { o.bash_results.len() as int },
        ),
        bash_calls_run(o, cmds).0.abort_count == o.abort_count,
        !bash_calls_run(o, cmds).0.hang_bash_until_abort,
    decreases cmds.len(),
{
    if cmds.len() == 0 {
        assert(o.bash_calls + cmds =~= o.bash_calls);
        assert(o.bash_results.skip(0) =~= o.bash_results);
    } else {
        let c0 = cmds.drop_last();
        law_bash_results_fifo(o, c0);
        let (d, answers) = bash_calls_run(o, c0);
        let k = c0.len() as int;
        assert(o.bash_calls + c0 + seq![cmds.last()] =~= o.bash_calls + cmds);
        assert(d.bash_calls.push((cmds.last().0, cmds.last().1)) =~= o.bash_calls + cmds);
        let n = o.bash_results.len() as int;
        if k < n {
            assert(d.bash_results.len() > 0);
            assert(d.bash_results[0] == o.bash_results[k]);
            assert(d.bash_results.drop_first() =~= o.bash_results.skip(k + 1));
        } else {
            assert(d.bash_results.len() == 0);
        }
        let r = bash_calls_run(o, cmds).1;
        assert forall|i: int| 0 <= i < cmds.len() implies #[trigger] r[i] == if i < o.bash_results.len() {
            Some(o.bash_results[i])
        } else {
            Some(default_bash())
        } by {
            if i < k {
                assert(r[i] == answers[i]);
            }
        }
    }
}

/// A bash run that hangs until an abort completes only after an abort:
/// the call leaves it pending with no answer, the abort latch cleared, so
/// completing it gives nothing and changes nothing; after an abort it
/// completes with the cancelled result and is no longer pending.
pub proof fn law_hung_bash_waits_for_abort(o: DriverModel, command: Seq<char>, exclude: bool)
    requires
        o.hang_bash_until_abort,
    ensures
        bash_call(o, command, exclude).1.is_none(),
        bash_call(o, command, exclude).0.bash_pending,
        bash_call(o, command, exclude).0.bash_calls == o.bash_calls.push((command, exclude)),
        complete_step(bash_call(o, command, exclude).0) == (bash_call(o, command, exclude).0, None::<BashView>),
        complete_step(abort_step(bash_call(o, command, exclude).0)) == (
            DriverModel { bash_pending: false, ..abort_step(bash_call(o, command, exclude).0) },
            Some(cancelled_bash()),
        ),
{
}

/// Compactions made in order are recorded in that order.
pub open spec fn compacts(o: DriverModel, instructions: Seq<Option<Seq<char>>>) -> DriverModel
    decreases instructions.len(),
{
    if instructions.len() == 0 {
        o
    } else {
        compact_step(compacts(o, instructions.drop_last()), instructions.last())
    }
}

/// The recorded compaction instructions are the earlier ones followed by
/// those of the new compactions, in call order.
pub proof fn law_compactions_in_order(o: DriverModel, instructions: Seq<Option<Seq<char>>>)
    ensures
        compacts(o, instructions).compact_calls == o.compact_calls + instructions,
    decreases instructions.len(),
{
    if instructions.len() > 0 {
        law_compactions_in_order(o, instructions.drop_last());
        assert(o.compact_calls + instructions.drop_last() + seq![instructions.last()] =~= o.compact_calls
            + instructions);
    } else {
        assert(o.compact_calls + instructions =~= o.compact_calls);
    }
}

/// `n` aborts in a row.
pub open spec fn aborts(o: DriverModel, n: nat) -> DriverModel
    decreases n,
{
    if n == 0 {
        o
    } else {
        abort_step(aborts(o, (n - 1) as nat))
    }
}

/// The abort count counts aborts: after `n` aborts it has grown by `n`
/// (wrapping past `usize::MAX`, so it never decreases short of that); a
/// bash call, completing a pending run and a compaction leave it as it was.
pub proof fn law_abort_count_counts_aborts(o: DriverModel, n: nat, command: Seq<char>, exclude: bool)
    ensures
        aborts(o, n).abort_count == (o.abort_count as int + n) % (usize::MAX as int + 1),
        o.abort_count + n <= usize::MAX ==> aborts(o, n).abort_count == o.abort_count + n,
        bash_call(o, command, exclude).0.abort_count == o.abort_count,
        complete_step(o).0.abort_count == o.abort_count,
        compact_step(o, None).abort_count == o.abort_count,
    decreases n,
{
    if n > 0 {
        law_abort_count_counts_aborts(o, (n - 1) as nat, command, exclude);
        let c = aborts(o, (n - 1) as nat).abort_count;
        let m: int = usize::MAX + 1;
        let a: int = o.abort_count as int;
        let ci: int = c as int;
        assert(ci == (a + n - 1) % m);
        assert((a + n) % m == if ci + 1 < m { ci + 1 } else { 0 }) by (nonlinear_arith)
            requires
                ci == (a + n - 1) % m,
                m > 1,
                0 <= ci < m,
        ;
    } else {
        let a: int = o.abort_count as int;
        let m: int = usize::MAX + 1;
        assert(a % m == a) by (nonlinear_arith)
            requires
                0 <= a < m,
        ;
    }
}

} // verus!
