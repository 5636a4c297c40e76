//! The decisions of the `write`, `read` and `mod` commands. The database and
//! the terminal are the caller's: each step here says what to run or show
//! next, and takes back what came of it.

use vstd::prelude::*;
use crate::text::{chars_of, trim, trim_bounds, CharClass};
use crate::helpers::{filtered_query, filtered_query_text, str_views};
use crate::urls::{opt_view, UrlEntry};

verus! {

/// The target that a command names, or `not defined` when it names none.
pub open spec fn target_or_default(target: Option<Seq<char>>) -> Seq<char> {
    match target {
        Some(t) => t,
        None => "not defined"@,
    }
}

pub open spec fn strings_view(v: Seq<String>) -> Seq<Seq<char>> {
    Seq::new(v.len(), |i: int| v[i]@)
}

/// The target that a command names, or `not defined`.
pub fn target_name(target: &Option<String>) -> (t: String)
    ensures
        t@ == target_or_default(opt_view(*target)),
{
    match target {
        Some(t) => t.clone(),
        None => String::from_str("not defined"),
    }
}

/// The string slices of a list of strings.
fn as_strs(v: &Vec<String>) -> (r: Vec<&str>)
    ensures
        str_views(r@) == strings_view(v@),
{
    let mut r: Vec<&str> = Vec::new();
    let mut i: usize = 0;
    while i < v.len()
        invariant
            i <= v@.len(),
            r@.len() == i,
            forall|k: int| 0 <= k < i ==> (#[trigger] r@[k])@ == v@[k]@,
        decreases v@.len() - i,
    {
        r.push(v[i].as_str());
        i = i + 1;
    }
    assert(str_views(r@) =~= strings_view(v@));
    r
}

// ---------------------------------------------------------------- write

/// `CREATE TABLE <target> (...)`: the table that the entries of a target go
/// to, with the URL as its primary key.
pub open spec fn create_table_text(target: Seq<char>) -> Seq<char> {
    "CREATE TABLE "@ + target
        + " (\n            id BIGSERIAL, \n            host VARCHAR(150), \n            url TEXT PRIMARY KEY NOT NULL,\n            status_code VARCHAR(50),\n            path TEXT\n        )"@
}

/// The statement that creates the target's table when it does not exist
/// yet; nothing when it does.
pub fn table_to_create(target: &str, exists: bool) -> (r: Option<String>)
    ensures
        exists ==> r is None,
        !exists ==> (r matches Some(s) && s@ == create_table_text(target@)),
{
    if exists {
        None
    } else {
        let mut s = String::from_str("CREATE TABLE ");
        s.append(target);
        s.append(
            " (\n            id BIGSERIAL, \n            host VARCHAR(150), \n            url TEXT PRIMARY KEY NOT NULL,\n            status_code VARCHAR(50),\n            path TEXT\n        )",
        );
        Some(s)
    }
}

/// Where the input of `write` comes from.
#[derive(Debug)]
pub enum InputSource {
    /// The lines piped in on standard input.
    Stdin,
    /// The file at this path.
    File(String),
    /// No input: nothing is written.
    NoInput,
}

/// Standard input when `--stdin` is set; otherwise the file unless its path
/// is the placeholder `not defined`.
pub fn read_input(stdin_set: bool, file_path: &str) -> (r: InputSource)
    ensures
        stdin_set ==> r is Stdin,
        !stdin_set && file_path@ != "not defined"@ ==> (r matches InputSource::File(p) && p@
            == file_path@),
        !stdin_set && file_path@ == "not defined"@ ==> r is NoInput,
{
    if stdin_set {
        InputSource::Stdin
    } else {
        let path = String::from_str(file_path);
        let placeholder = String::from_str("not defined");
        if path == placeholder {
            InputSource::NoInput
        } else {
            InputSource::File(path)
        }
    }
}

/// `INSERT INTO <target> (...) VALUES (...)` for one entry: under the host
/// given on the command line, or else under the URL's own host.
pub open spec fn insert_text(
    target: Seq<char>,
    host: Option<Seq<char>>,
    url: Seq<char>,
    url_host: Option<Seq<char>>,
    status: Seq<char>,
    path: Seq<char>,
) -> Seq<char> {
    match host {
        Some(h) => "INSERT INTO "@ + target + " (host,url, status_code, path) VALUES ('"@ + h + "','"@
            + url + "','"@ + status + "', '"@ + path + "')"@,
        None => "INSERT INTO "@ + target + " (host,url, status_code, path) VALUES ('"@
            + url_host.unwrap() + "','"@ + url + "','"@ + status + "','"@ + path + "')"@,
    }
}

/// With a host given on the command line, every entry is stored under that
/// host, whatever host its URL has.
pub proof fn lemma_given_host_overrides(
    target: Seq<char>,
    host: Seq<char>,
    url: Seq<char>,
    url_host1: Option<Seq<char>>,
    url_host2: Option<Seq<char>>,
    status: Seq<char>,
    path: Seq<char>,
)
    ensures
        insert_text(target, Some(host), url, url_host1, status, path) == insert_text(
            target,
            Some(host),
            url,
            url_host2,
            status,
            path,
        ),
{
}

/// Resets the id sequence of the target after a refused insertion.
pub open spec fn cleanup_text(target: Seq<char>) -> Seq<char> {
    "SELECT setval(pg_get_serial_sequence('"@ + target + "', 'id'), max(id)) FROM "@ + target
}

/// Reads the status code stored for a URL.
pub open spec fn probe_text(target: Seq<char>, url: Seq<char>) -> Seq<char> {
    "SELECT status_code FROM "@ + target + " WHERE url='"@ + url + "'"@
}

/// Stores the new status code of a URL, and the host given on the command
/// line when there is one.
pub open spec fn update_text(target: Seq<char>, host: Option<Seq<char>>, status: Seq<char>, url: Seq<char>) -> Seq<char> {
    "UPDATE "@ + target + " SET status_code='"@ + status + "'"@ + match host {
        Some(h) => ", host='"@ + h + "'"@,
        None => Seq::empty(),
    } + " WHERE url='"@ + url + "'"@
}

/// Whether a URL that is stored already needs its row updated: when a host
/// is given on the command line, or when its status code changed.
pub open spec fn needs_update(host: Option<Seq<char>>, stored_status: Seq<char>, status: Seq<char>) -> bool {
    host is Some || stored_status != status
}

/// The SQL state of a unique violation: the URL is in the table already.
pub open spec fn is_unique_violation(code: Option<Seq<char>>) -> bool {
    code == Some("23505"@)
}

/// How far the writing of one entry has come.
#[derive(Clone, Copy, PartialEq, Eq, Debug)]
pub enum EntryStage {
    Start,
    Inserting,
    CleaningUp,
    Probing,
    Updating,
    Done,
}

/// What came of the last action.
#[derive(Debug)]
pub enum DbEvent {
    /// The entry starts, or the last statement succeeded.
    Proceed,
    /// The insertion was refused, with this SQL state if the database gave
    /// one.
    InsertFailed(Option<String>),
    /// The status code stored for the URL.
    StatusRead(String),
}

/// What to do next.
#[derive(Debug)]
pub enum DbAction {
    /// Run the statement as a batch.
    BatchExecute(String),
    /// Run the statement.
    Execute(String),
    /// Run the query and read the `status_code` column of its one row.
    QueryStatus(String),
    /// The entry is written.
    Finish,
    /// The database refused the insertion for another reason than a
    /// duplicate URL: its SQL state, if it gave one.
    Fail(Option<String>),
}

pub enum DbActionView {
    BatchExecute(Seq<char>),
    Execute(Seq<char>),
    QueryStatus(Seq<char>),
    Finish,
    Fail(Option<Seq<char>>),
}

impl View for DbAction {
    type V = DbActionView;

    open spec fn view(&self) -> DbActionView {
        match self {
            DbAction::BatchExecute(s) => DbActionView::BatchExecute(s@),
            DbAction::Execute(s) => DbActionView::Execute(s@),
            DbAction::QueryStatus(s) => DbActionView::QueryStatus(s@),
            DbAction::Finish => DbActionView::Finish,
            DbAction::Fail(c) => DbActionView::Fail(opt_view(*c)),
        }
    }
}

pub enum DbEventView {
    Proceed,
    InsertFailed(Option<Seq<char>>),
    StatusRead(Seq<char>),
}

impl View for DbEvent {
    type V = DbEventView;

    open spec fn view(&self) -> DbEventView {
        match self {
            DbEvent::Proceed => DbEventView::Proceed,
            DbEvent::InsertFailed(c) => DbEventView::InsertFailed(opt_view(*c)),
            DbEvent::StatusRead(s) => DbEventView::StatusRead(s@),
        }
    }
}

/// Whether the entry can be written: a host comes from the command line or
/// from the URL.
pub open spec fn entry_has_host(host: Option<Seq<char>>, entry: ((Seq<char>, Option<Seq<char>>, Seq<char>), Seq<char>)) -> bool {
    host is Some || entry.0.1 is Some
}

/// One step of writing an entry into the target's table: the entry is
/// inserted; a duplicate URL resets the id sequence, reads the stored status
/// code, and stores the new one, with the host given on the command line,
/// unless no host is given and the status code is the same; any other
/// refusal fails.
/// An event that the stage does not wait for ends the entry.
pub open spec fn entry_step(
    target: Seq<char>,
    host: Option<Seq<char>>,
    entry: ((Seq<char>, Option<Seq<char>>, Seq<char>), Seq<char>),
    stage: EntryStage,
    event: DbEventView,
) -> (EntryStage, DbActionView) {
    let (url, status) = entry;
    match (stage, event) {
        (EntryStage::Start, _) => (
            EntryStage::Inserting,
            DbActionView::BatchExecute(insert_text(target, host, url.0, url.1, status, url.2)),
        ),
        (EntryStage::Inserting, DbEventView::Proceed) => (EntryStage::Done, DbActionView::Finish),
        (EntryStage::Inserting, DbEventView::InsertFailed(code)) => if is_unique_violation(code) {
            (EntryStage::CleaningUp, DbActionView::Execute(cleanup_text(target)))
        } else {
            (EntryStage::Done, DbActionView::Fail(code))
        },
        (EntryStage::CleaningUp, DbEventView::Proceed) => (
            EntryStage::Probing,
            DbActionView::QueryStatus(probe_text(target, url.0)),
        ),
        (EntryStage::Probing, DbEventView::StatusRead(old_status)) => if needs_update(
            host,
            old_status,
            status,
        ) {
            (EntryStage::Updating, DbActionView::Execute(update_text(target, host, status, url.0)))
        } else {
            (EntryStage::Done, DbActionView::Finish)
        },
        (EntryStage::Updating, DbEventView::Proceed) => (EntryStage::Done, DbActionView::Finish),
        _ => (EntryStage::Done, DbActionView::Finish),
    }
}

/// The order in which the stages of an entry come.
pub open spec fn stage_rank(stage: EntryStage) -> nat {
    match stage {
        EntryStage::Start => 0,
        EntryStage::Inserting => 1,
        EntryStage::CleaningUp => 2,
        EntryStage::Probing => 3,
        EntryStage::Updating => 4,
        EntryStage::Done => 5,
    }
}

/// Writing an entry always ends: each step moves to a later stage, until
/// the entry is done, and a done entry asks for nothing more.
pub proof fn lemma_entry_steps_advance(
    target: Seq<char>,
    host: Option<Seq<char>>,
    entry: ((Seq<char>, Option<Seq<char>>, Seq<char>), Seq<char>),
    stage: EntryStage,
    event: DbEventView,
)
    ensures
        stage != EntryStage::Done ==> stage_rank(entry_step(target, host, entry, stage, event).0)
            > stage_rank(stage),
        stage == EntryStage::Done ==> entry_step(target, host, entry, stage, event) == (
            EntryStage::Done,
            DbActionView::Finish,
        ),
{
}

/// Writing a URL that the table holds already: after the refused insertion
/// the id sequence is reset and the stored status code read; the new status
/// code, and the host given on the command line, are stored when a host is
/// given or the status code differs from the stored one, and nothing more
/// happens otherwise. A URL that is new is inserted and done with; any
/// other refusal of the insertion fails with the SQL state given.
pub proof fn lemma_duplicate_entry_run(
    target: Seq<char>,
    host: Option<Seq<char>>,
    entry: ((Seq<char>, Option<Seq<char>>, Seq<char>), Seq<char>),
    stored_status: Seq<char>,
)
    ensures
        entry_step(target, host, entry, EntryStage::Start, DbEventView::Proceed) == (
            EntryStage::Inserting,
            DbActionView::BatchExecute(
                insert_text(target, host, entry.0.0, entry.0.1, entry.1, entry.0.2),
            ),
        ),
        entry_step(target, host, entry, EntryStage::Inserting, DbEventView::Proceed) == (
            EntryStage::Done,
            DbActionView::Finish,
        ),
        entry_step(
            target,
            host,
            entry,
            EntryStage::Inserting,
            DbEventView::InsertFailed(Some("23505"@)),
        ) == (EntryStage::CleaningUp, DbActionView::Execute(cleanup_text(target))),
        forall|code: Option<Seq<char>>|
            code != Some("23505"@) ==> #[trigger] entry_step(
                target,
                host,
                entry,
                EntryStage::Inserting,
                DbEventView::InsertFailed(code),
            ) == (EntryStage::Done, DbActionView::Fail(code)),
        entry_step(target, host, entry, EntryStage::CleaningUp, DbEventView::Proceed) == (
            EntryStage::Probing,
            DbActionView::QueryStatus(probe_text(target, entry.0.0)),
        ),
        (host is Some || stored_status != entry.1) ==> entry_step(
            target,
            host,
            entry,
            EntryStage::Probing,
            DbEventView::StatusRead(stored_status),
        ) == (
            EntryStage::Updating,
            DbActionView::Execute(update_text(target, host, entry.1, entry.0.0)),
        ),
        (host is None && stored_status == entry.1) ==> entry_step(
            target,
            host,
            entry,
            EntryStage::Probing,
            DbEventView::StatusRead(stored_status),
        ) == (EntryStage::Done, DbActionView::Finish),
{
}

fn insert_statement(target: &str, host: &Option<String>, entry: &UrlEntry) -> (s: String)
    requires
        entry_has_host(opt_view(*host), entry@),
    ensures
        s@ == insert_text(
            target@,
            opt_view(*host),
            entry.url.serialization@,
            opt_view(entry.url.host),
            entry.status@,
            entry.url.path@,
        ),
{
    let mut s = String::from_str("INSERT INTO ");
    s.append(target);
    s.append(" (host,url, status_code, path) VALUES ('");
    match host {
        Some(h) => {
            s.append(h.as_str());
            s.append("','");
            s.append(entry.url.serialization.as_str());
            s.append("','");
            s.append(entry.status.as_str());
            s.append("', '");
        },
        None => {
            match &entry.url.host {
                Some(uh) => s.append(uh.as_str()),
                None => {},
            }
            s.append("','");
            s.append(entry.url.serialization.as_str());
            s.append("','");
            s.append(entry.status.as_str());
            s.append("','");
        },
    }
    s.append(entry.url.path.as_str());
    s.append("')");
    s
}

/// Takes one step of writing `entry` into the table of `target` (see
/// [`entry_step`]).
pub fn write_entry_step(
    target: &str,
    host: &Option<String>,
    entry: &UrlEntry,
    stage: EntryStage,
    event: DbEvent,
) -> (r: (EntryStage, DbAction))
    requires
        stage == EntryStage::Start ==> entry_has_host(opt_view(*host), entry@),
    ensures
        (r.0, r.1@) == entry_step(target@, opt_view(*host), entry@, stage, event@),
{
    match stage {
        EntryStage::Start => {
            (EntryStage::Inserting, DbAction::BatchExecute(insert_statement(target, host, entry)))
        },
        EntryStage::Inserting => match event {
            DbEvent::Proceed => (EntryStage::Done, DbAction::Finish),
            DbEvent::InsertFailed(code) => {
                let duplicate = match &code {
                    Some(c) => *c == String::from_str("23505"),
                    None => false,
                };
                if duplicate {
                    let mut s = String::from_str("SELECT setval(pg_get_serial_sequence('");
                    s.append(target);
                    s.append("', 'id'), max(id)) FROM ");
                    s.append(target);
                    (EntryStage::CleaningUp, DbAction::Execute(s))
                } else {
                    (EntryStage::Done, DbAction::Fail(code))
                }
            },
            _ => (EntryStage::Done, DbAction::Finish),
        },
        EntryStage::CleaningUp => match event {
            DbEvent::Proceed => {
                let mut s = String::from_str("SELECT status_code FROM ");
                s.append(target);
                s.append(" WHERE url='");
                s.append(entry.url.serialization.as_str());
                s.append("'");
                (EntryStage::Probing, DbAction::QueryStatus(s))
            },
            _ => (EntryStage::Done, DbAction::Finish),
        },
        EntryStage::Probing => match event {
            DbEvent::StatusRead(old_status) => {
                if host.is_some() || !(old_status == entry.status) {
                    let mut s = String::from_str("UPDATE ");
                    s.append(target);
                    s.append(" SET status_code='");
                    s.append(entry.status.as_str());
                    s.append("'");
                    match host {
                        Some(h) => {
                            s.append(", host='");
                            s.append(h.as_str());
                            s.append("'");
                        },
                        None => {},
                    }
                    s.append(" WHERE url='");
                    s.append(entry.url.serialization.as_str());
                    s.append("'");
                    assert(s@ =~= update_text(
                        target@,
                        opt_view(*host),
                        entry.status@,
                        entry.url.serialization@,
                    ));
                    (EntryStage::Updating, DbAction::Execute(s))
                } else {
                    (EntryStage::Done, DbAction::Finish)
                }
            },
            _ => (EntryStage::Done, DbAction::Finish),
        },
        EntryStage::Updating => match event {
            DbEvent::Proceed => (EntryStage::Done, DbAction::Finish),
            _ => (EntryStage::Done, DbAction::Finish),
        },
        EntryStage::Done => (EntryStage::Done, DbAction::Finish),
    }
}

// ---------------------------------------------------------------- read

/// What `read` was asked for.
#[derive(Debug)]
pub struct ReadRequest {
    /// `-t/--target`.
    pub target: Option<String>,
    /// `--list`.
    pub list: bool,
    /// `--path`.
    pub path: bool,
    /// `-u/--url`.
    pub url: bool,
    /// `-h/--host`: the hosts to filter by.
    pub hosts: Vec<String>,
    /// `--status-code`: the status codes to filter by.
    pub status_codes: Vec<String>,
}

/// How the rows of a filtered read are shown.
#[derive(Clone, Copy, PartialEq, Eq, Debug)]
pub enum RowOutput {
    /// As a grid of id, host, status code and path.
    Grid,
    /// Only their paths, one per line.
    Paths,
    /// Only their URLs, one per line.
    Urls,
    /// Not at all.
    Hidden,
}

/// What `read` does next.
#[derive(Debug)]
pub enum ReadAction {
    /// Ask whether the target's table exists, then go on with
    /// [`read_after_check`].
    CheckTable(String),
    /// The target's table does not exist.
    TargetMissing,
    /// `--url` was given without `--list`, `--host` or `--status-code`.
    UrlNeedsFilter,
    /// Run the query and print the first column of each row on a line.
    PrintColumn(String),
    /// Run the query and print each row's URL and status code.
    PrintUrlStatus(String),
    /// Run the query and show its rows.
    ShowRows(String, RowOutput),
    /// Nothing to do.
    Idle,
}

pub enum ReadActionView {
    CheckTable(Seq<char>),
    TargetMissing,
    UrlNeedsFilter,
    PrintColumn(Seq<char>),
    PrintUrlStatus(Seq<char>),
    ShowRows(Seq<char>, RowOutput),
    Idle,
}

impl View for ReadAction {
    type V = ReadActionView;

    open spec fn view(&self) -> ReadActionView {
        match self {
            ReadAction::CheckTable(t) => ReadActionView::CheckTable(t@),
            ReadAction::TargetMissing => ReadActionView::TargetMissing,
            ReadAction::UrlNeedsFilter => ReadActionView::UrlNeedsFilter,
            ReadAction::PrintColumn(q) => ReadActionView::PrintColumn(q@),
            ReadAction::PrintUrlStatus(q) => ReadActionView::PrintUrlStatus(q@),
            ReadAction::ShowRows(q, o) => ReadActionView::ShowRows(q@, *o),
            ReadAction::Idle => ReadActionView::Idle,
        }
    }
}

/// Lists every table: the targets.
pub open spec fn list_tables_text() -> Seq<char> {
    "SELECT tablename FROM pg_tables WHERE schemaname='public'"@
}

pub open spec fn row_output(path: bool, url: bool) -> RowOutput {
    if !path && !url {
        RowOutput::Grid
    } else if path && !url {
        RowOutput::Paths
    } else if url && !path {
        RowOutput::Urls
    } else {
        RowOutput::Hidden
    }
}

/// What `read` does once its target is known to exist, or needs not be:
/// with `--list` alone, it lists the targets; with `--list` and a target, it
/// lists the target's URLs, paths, URLs with status codes, or, with no other
/// flag, every entry; otherwise it shows the target's rows that meet every
/// host and status code filter given, or all of them when none is given.
pub open spec fn read_plan(req: ReadRequest) -> ReadActionView {
    let t = target_or_default(opt_view(req.target));
    let hosts = strings_view(req.hosts@);
    let codes = strings_view(req.status_codes@);
    let target_present = req.target is Some;
    let filters_off = !req.path && hosts.len() == 0 && codes.len() == 0;
    let print_all = filters_off && target_present && !req.url;
    if req.url && !req.list && hosts.len() == 0 && codes.len() == 0 {
        ReadActionView::UrlNeedsFilter
    } else if req.list {
        if filters_off && !target_present && !req.url {
            ReadActionView::PrintColumn(list_tables_text())
        } else if req.url {
            ReadActionView::PrintColumn("SELECT url FROM "@ + t)
        } else if req.path {
            ReadActionView::PrintColumn("SELECT path FROM "@ + t)
        } else if codes.len() > 0 {
            ReadActionView::PrintUrlStatus("SELECT url, status_code FROM "@ + t)
        } else if print_all {
            ReadActionView::ShowRows("SELECT * FROM "@ + t, RowOutput::Grid)
        } else {
            ReadActionView::Idle
        }
    } else {
        ReadActionView::ShowRows(
            filtered_query_text(t, hosts, codes, Seq::empty(), false),
            row_output(req.path, req.url),
        )
    }
}

fn prefixed(prefix: &str, t: &str) -> (s: String)
    ensures
        s@ == prefix@ + t@,
{
    let mut s = String::from_str(prefix);
    s.append(t);
    s
}

fn plan_read(req: &ReadRequest) -> (r: ReadAction)
    ensures
        r@ == read_plan(*req),
{
    let t = target_name(&req.target);
    let hosts_empty = req.hosts.len() == 0;
    let codes_empty = req.status_codes.len() == 0;
    let target_present = req.target.is_some();
    let filters_off = !req.path && hosts_empty && codes_empty;
    let print_all = filters_off && target_present && !req.url;
    if req.url && !req.list && hosts_empty && codes_empty {
        ReadAction::UrlNeedsFilter
    } else if req.list {
        if filters_off && !target_present && !req.url {
            ReadAction::PrintColumn(
                String::from_str("SELECT tablename FROM pg_tables WHERE schemaname='public'"),
            )
        } else if req.url {
            ReadAction::PrintColumn(prefixed("SELECT url FROM ", t.as_str()))
        } else if req.path {
            ReadAction::PrintColumn(prefixed("SELECT path FROM ", t.as_str()))
        } else if !codes_empty {
            ReadAction::PrintUrlStatus(prefixed("SELECT url, status_code FROM ", t.as_str()))
        } else if print_all {
            ReadAction::ShowRows(prefixed("SELECT * FROM ", t.as_str()), RowOutput::Grid)
        } else {
            ReadAction::Idle
        }
    } else {
        let hosts = as_strs(&req.hosts);
        let codes = as_strs(&req.status_codes);
        let no_ids: Vec<&str> = Vec::new();
        assert(str_views(no_ids@) =~= Seq::empty());
        let q = filtered_query(t.as_str(), hosts, codes, no_ids, false);
        let output = if !req.path && !req.url {
            RowOutput::Grid
        } else if req.path && !req.url {
            RowOutput::Paths
        } else if req.url && !req.path {
            RowOutput::Urls
        } else {
            RowOutput::Hidden
        };
        ReadAction::ShowRows(q, output)
    }
}

/// The first step of `read`: a host filter first asks whether the target's
/// table exists; otherwise see [`read_plan`].
pub fn read_start(req: &ReadRequest) -> (r: ReadAction)
    ensures
        req.hosts@.len() > 0 ==> r@ == ReadActionView::CheckTable(
            target_or_default(opt_view(req.target)),
        ),
        req.hosts@.len() == 0 ==> r@ == read_plan(*req),
{
    if req.hosts.len() > 0 {
        ReadAction::CheckTable(target_name(&req.target))
    } else {
        plan_read(req)
    }
}

/// The step of `read` after the target's table was looked for.
pub fn read_after_check(req: &ReadRequest, exists: bool) -> (r: ReadAction)
    ensures
        !exists ==> r@ == ReadActionView::TargetMissing,
        exists ==> r@ == read_plan(*req),
{
    if !exists {
        ReadAction::TargetMissing
    } else {
        plan_read(req)
    }
}

/// The widest of the lengths, in characters, of `hosts`, and at least 1.
pub open spec fn widest(hosts: Seq<Seq<char>>, k: nat) -> nat
    decreases k,
{
    if k == 0 {
        1
    } else {
        let w = widest(hosts, (k - 1) as nat);
        if hosts[k - 1].len() > w {
            hosts[k - 1].len()
        } else {
            w
        }
    }
}

/// The width of the grid's columns: that of the widest host, and at least
/// 21.
pub fn grid_width(hosts: &Vec<String>) -> (w: usize)
    ensures
        w == (if widest(strings_view(hosts@), hosts@.len()) < 21 {
            21
        } else {
            widest(strings_view(hosts@), hosts@.len())
        }),
        w >= 21,
        forall|i: int| 0 <= i < hosts@.len() ==> hosts@[i]@.len() <= w,
{
    let ghost views = strings_view(hosts@);
    let mut w: usize = 1;
    let mut i: usize = 0;
    while i < hosts.len()
        invariant
            i <= hosts@.len(),
            views == strings_view(hosts@),
            w == widest(views, i as nat),
        decreases hosts@.len() - i,
    {
        let n = hosts[i].as_str().unicode_len();
        assert(views[i as int] == hosts@[i as int]@);
        if n > w {
            w = n;
        }
        i = i + 1;
    }
    proof {
        lemma_widest_bounds(views, hosts@.len());
        assert forall|i: int| 0 <= i < hosts@.len() implies hosts@[i]@.len() <= w by {
            assert(views[i] == hosts@[i]@);
        }
    }
    if w < 21 {
        w = 21;
    }
    w
}

/// `<url>    [<status>]`
pub fn status_url_line(url: &str, status: &str) -> (s: String)
    ensures
        s@ == url@ + "    ["@ + status@ + "]"@,
{
    let mut s = String::from_str(url);
    s.append("    [");
    s.append(status);
    s.append("]");
    s
}

// ---------------------------------------------------------------- mod

/// What `mod` was asked for.
#[derive(Debug)]
pub struct ModRequest {
    /// `-t/--target`.
    pub target: String,
    /// `-h/--host`.
    pub hosts: Vec<String>,
    /// `--status-code`.
    pub status_codes: Vec<String>,
    /// `-i/--id`.
    pub ids: Vec<String>,
    /// `-d/--delete`.
    pub delete: bool,
}

/// What `mod` does once the target's table was looked for.
#[derive(Debug)]
pub enum ModAction {
    /// The target's table does not exist.
    TargetMissing,
    /// Run the deletion and report how many rows it removed.
    Delete(String),
    /// Ask, with this question, whether the whole target is to be dropped,
    /// then go on with [`confirm_drop`].
    Confirm(String),
    /// Nothing to do.
    Idle,
}

pub enum ModActionView {
    TargetMissing,
    Delete(Seq<char>),
    Confirm(Seq<char>),
    Idle,
}

impl View for ModAction {
    type V = ModActionView;

    open spec fn view(&self) -> ModActionView {
        match self {
            ModAction::TargetMissing => ModActionView::TargetMissing,
            ModAction::Delete(q) => ModActionView::Delete(q@),
            ModAction::Confirm(q) => ModActionView::Confirm(q@),
            ModAction::Idle => ModActionView::Idle,
        }
    }
}

pub open spec fn confirm_text(target: Seq<char>) -> Seq<char> {
    "Please confirm the decision to delete the "@ + target
        + " target by by typing: y/Y or: yes/YES"@
}

/// `delete` with a host, status code or id filter deletes the rows that
/// meet every filter given; without any filter it asks before the whole
/// target is dropped.
pub open spec fn mod_plan(req: ModRequest, exists: bool) -> ModActionView {
    let hosts = strings_view(req.hosts@);
    let codes = strings_view(req.status_codes@);
    let ids = strings_view(req.ids@);
    let no_filter = hosts.len() == 0 && codes.len() == 0 && ids.len() == 0;
    if !exists {
        ModActionView::TargetMissing
    } else if req.delete && !no_filter {
        ModActionView::Delete(filtered_query_text(req.target@, hosts, codes, ids, true))
    } else if req.delete && no_filter {
        ModActionView::Confirm(confirm_text(req.target@))
    } else {
        ModActionView::Idle
    }
}

/// The step of `mod` after the target's table was looked for (see
/// [`mod_plan`]).
pub fn mod_after_check(req: &ModRequest, exists: bool) -> (r: ModAction)
    ensures
        r@ == mod_plan(*req, exists),
{
    let no_filter = req.hosts.len() == 0 && req.status_codes.len() == 0 && req.ids.len() == 0;
    if !exists {
        ModAction::TargetMissing
    } else if req.delete && !no_filter {
        let hosts = as_strs(&req.hosts);
        let codes = as_strs(&req.status_codes);
        let ids = as_strs(&req.ids);
        ModAction::Delete(filtered_query(req.target.as_str(), hosts, codes, ids, true))
    } else if req.delete && no_filter {
        let mut q = String::from_str("Please confirm the decision to delete the ");
        q.append(req.target.as_str());
        q.append(" target by by typing: y/Y or: yes/YES");
        ModAction::Confirm(q)
    } else {
        ModAction::Idle
    }
}

/// The code of a character with ASCII upper case letters taken to lower
/// case.
pub open spec fn ascii_lower(c: char) -> u32 {
    let n = c as u32;
    if 65 <= n && n <= 90 {
        (n + 32) as u32
    } else {
        n
    }
}

/// `str::eq_ignore_ascii_case`: the two strings match when ASCII letters are
/// taken to lower case.
pub open spec fn eq_ignore_ascii_case(a: Seq<char>, b: Seq<char>) -> bool {
    a.len() == b.len() && forall|i: int| 0 <= i < a.len() ==> ascii_lower(#[trigger] a[i])
        == ascii_lower(b[i])
}

fn ascii_lower_char(c: char) -> (n: u32)
    ensures
        n == ascii_lower(c),
{
    let n = c as u32;
    if 65 <= n && n <= 90 {
        n + 32
    } else {
        n
    }
}

fn eq_ignore_case(a: &Vec<char>, lo: usize, hi: usize, b: &str) -> (r: bool)
    requires
        lo <= hi <= a@.len(),
    ensures
        r == eq_ignore_ascii_case(a@.subrange(lo as int, hi as int), b@),
{
    let bv = chars_of(b);
    let ghost sa = a@.subrange(lo as int, hi as int);
    if hi - lo != bv.len() {
        return false;
    }
    let mut i: usize = 0;
    while i < bv.len()
        invariant
            i <= bv@.len() == hi - lo,
            hi <= a@.len(),
            bv@ == b@,
            sa == a@.subrange(lo as int, hi as int),
            forall|k: int| 0 <= k < i ==> ascii_lower(#[trigger] sa[k]) == ascii_lower(bv@[k]),
        decreases bv@.len() - i,
    {
        if ascii_lower_char(a[lo + i]) != ascii_lower_char(bv[i]) {
            assert(sa[i as int] == a@[lo + i]);
            return false;
        }
        assert(sa[i as int] == a@[lo + i]);
        i = i + 1;
    }
    true
}

/// What came of asking whether to drop the whole target.
#[derive(Debug)]
pub enum Confirmation {
    /// No answer came.
    NoAnswer,
    /// The answer was not a yes.
    Aborted,
    /// The answer was yes: run this statement.
    Drop(String),
}

pub enum ConfirmationView {
    NoAnswer,
    Aborted,
    Drop(Seq<char>),
}

impl View for Confirmation {
    type V = ConfirmationView;

    open spec fn view(&self) -> ConfirmationView {
        match self {
            Confirmation::NoAnswer => ConfirmationView::NoAnswer,
            Confirmation::Aborted => ConfirmationView::Aborted,
            Confirmation::Drop(q) => ConfirmationView::Drop(q@),
        }
    }
}

/// Whether the answer, trimmed, is `y` or `yes` in any case.
pub open spec fn agrees(answer: Seq<char>) -> bool {
    eq_ignore_ascii_case(trim(answer), "yes"@) || eq_ignore_ascii_case(trim(answer), "y"@)
}

/// The target is dropped only when the answer, trimmed, is `y` or `yes` in
/// any case; an empty answer and any other answer leave it.
pub fn confirm_drop(target: &str, answer: &str) -> (r: Confirmation)
    ensures
        answer@.len() == 0 ==> r@ == ConfirmationView::NoAnswer,
        answer@.len() > 0 && !agrees(answer@) ==> r@ == ConfirmationView::Aborted,
        answer@.len() > 0 && agrees(answer@) ==> r@ == ConfirmationView::Drop(
            "DROP TABLE "@ + target@,
        ),
{
    let v = chars_of(answer);
    let (a, b) = trim_bounds(&v, 0, v.len(), CharClass::WhiteSpace);
    assert(v@.subrange(0, v@.len() as int) =~= v@);
    let user_agrees = eq_ignore_case(&v, a, b, "yes") || eq_ignore_case(&v, a, b, "y");
    if v.len() == 0 {
        Confirmation::NoAnswer
    } else if !user_agrees {
        Confirmation::Aborted
    } else {
        let mut q = String::from_str("DROP TABLE ");
        q.append(target);
        Confirmation::Drop(q)
    }
}

/// `--url` is refused only when neither `--list`, a host nor a status code
/// is given; with a host or status code filter and no `--list` it shows the
/// URLs (or, with `--path` too, nothing) of the rows that meet the filters.
pub proof fn lemma_url_flag(req: ReadRequest)
    ensures
        (read_plan(req) is UrlNeedsFilter) <==> (req.url && !req.list && req.hosts@.len() == 0
            && req.status_codes@.len() == 0),
        req.url && !req.list && (req.hosts@.len() > 0 || req.status_codes@.len() > 0) ==> read_plan(
            req,
        ) == ReadActionView::ShowRows(
            filtered_query_text(
                target_or_default(opt_view(req.target)),
                strings_view(req.hosts@),
                strings_view(req.status_codes@),
                Seq::empty(),
                false,
            ),
            if req.path {
                RowOutput::Hidden
            } else {
                RowOutput::Urls
            },
        ),
{
}

/// Without `--list`, `read` shows the rows that meet the host and status
/// code filters given (every row when none is given), as the grid unless
/// `--path` or `--url` asks for paths or URLs; a host or status code filter
/// given on its own is never dropped from the statement.
pub proof fn lemma_read_rows(req: ReadRequest)
    requires
        !req.list,
        !(req.url && req.hosts@.len() == 0 && req.status_codes@.len() == 0),
    ensures
        read_plan(req) == ReadActionView::ShowRows(
            filtered_query_text(
                target_or_default(opt_view(req.target)),
                strings_view(req.hosts@),
                strings_view(req.status_codes@),
                Seq::empty(),
                false,
            ),
            row_output(req.path, req.url),
        ),
        row_output(req.path, req.url) == RowOutput::Grid <==> !req.path && !req.url,
{
}

/// With `--delete` on an existing target, `mod` asks before dropping the
/// whole target exactly when no host, status code or id is given; any one of
/// them, ids alone included, deletes only the rows that meet the filters.
/// Without `--delete` it does nothing, and a missing target is reported.
pub proof fn lemma_mod_delete(req: ModRequest, exists: bool)
    ensures
        !exists ==> mod_plan(req, exists) is TargetMissing,
        exists && !req.delete ==> mod_plan(req, exists) is Idle,
        exists && req.delete ==> ((mod_plan(req, exists) is Confirm) <==> (req.hosts@.len() == 0
            && req.status_codes@.len() == 0 && req.ids@.len() == 0)),
        exists && req.delete && (req.hosts@.len() > 0 || req.status_codes@.len() > 0
            || req.ids@.len() > 0) ==> mod_plan(req, exists) == ModActionView::Delete(
            filtered_query_text(
                req.target@,
                strings_view(req.hosts@),
                strings_view(req.status_codes@),
                strings_view(req.ids@),
                true,
            ),
        ),
{
}

/// The answers that drop a target: once trimmed, `y` or `yes`, each letter
/// in either case, and nothing else.
pub proof fn lemma_agrees_only_yes(answer: Seq<char>)
    ensures
        agrees(answer) <==> {
            let t = trim(answer);
            ||| (t.len() == 1 && ascii_lower(t[0]) == 121)
            ||| (t.len() == 3 && ascii_lower(t[0]) == 121 && ascii_lower(t[1]) == 101
                && ascii_lower(t[2]) == 115)
        },
{
    reveal_strlit("y");
    reveal_strlit("yes");
    let t = trim(answer);
    let y = "y"@;
    let yes = "yes"@;
    assert(ascii_lower(y[0]) == 121);
    assert(ascii_lower(yes[0]) == 121);
    assert(ascii_lower(yes[1]) == 101);
    assert(ascii_lower(yes[2]) == 115);
    if t.len() == 1 && ascii_lower(t[0]) == 121 {
        assert(eq_ignore_ascii_case(t, y));
    }
    if t.len() == 3 && ascii_lower(t[0]) == 121 && ascii_lower(t[1]) == 101 && ascii_lower(t[2])
        == 115 {
        assert forall|i: int| 0 <= i < t.len() implies ascii_lower(#[trigger] t[i]) == ascii_lower(
            yes[i],
        ) by {
            if i == 0 {
            } else if i == 1 {
            } else {
            }
        }
        assert(eq_ignore_ascii_case(t, yes));
    }
    if eq_ignore_ascii_case(t, y) {
        assert(ascii_lower(t[0]) == ascii_lower(y[0]));
    }
    if eq_ignore_ascii_case(t, yes) {
        assert(ascii_lower(t[0]) == ascii_lower(yes[0]));
        assert(ascii_lower(t[1]) == ascii_lower(yes[1]));
        assert(ascii_lower(t[2]) == ascii_lower(yes[2]));
    }
}

/// With `--list`, `read` lists: the targets, when nothing else is given;
/// the target's URLs with `--url`; its paths with `--path` alone; its URLs
/// with their status codes when status codes are given; every entry of the
/// target when the target alone is given.
pub proof fn lemma_read_list(req: ReadRequest)
    requires
        req.list,
    ensures
        req.target is None && !req.url && !req.path && req.hosts@.len() == 0
            && req.status_codes@.len() == 0 ==> read_plan(req) == ReadActionView::PrintColumn(
            "SELECT tablename FROM pg_tables WHERE schemaname='public'"@,
        ),
        req.target is Some && req.url ==> read_plan(req) == ReadActionView::PrintColumn(
            "SELECT url FROM "@ + req.target->Some_0@,
        ),
        req.target is Some && req.path && !req.url ==> read_plan(req) == ReadActionView::PrintColumn(
            "SELECT path FROM "@ + req.target->Some_0@,
        ),
        req.target is Some && !req.path && !req.url && req.status_codes@.len() > 0 ==> read_plan(req)
            == ReadActionView::PrintUrlStatus(
            "SELECT url, status_code FROM "@ + req.target->Some_0@,
        ),
        req.target is Some && !req.path && !req.url && req.status_codes@.len() == 0
            && req.hosts@.len() == 0 ==> read_plan(req) == ReadActionView::ShowRows(
            "SELECT * FROM "@ + req.target->Some_0@,
            RowOutput::Grid,
        ),
        !(read_plan(req) is UrlNeedsFilter),
{
}

/// The widest length is at least 1 and at least the length of each of the
/// first `k` hosts, and is 1 or the length of one of them.
pub proof fn lemma_widest_bounds(hosts: Seq<Seq<char>>, k: nat)
    requires
        k <= hosts.len(),
    ensures
        widest(hosts, k) >= 1,
        forall|i: int| 0 <= i < k ==> hosts[i].len() <= widest(hosts, k),
        widest(hosts, k) == 1 || exists|i: int| 0 <= i < k && hosts[i].len() == widest(hosts, k),
    decreases k,
{
    if k > 0 {
        lemma_widest_bounds(hosts, (k - 1) as nat);
        if widest(hosts, k) != 1 && hosts[k - 1].len() <= widest(hosts, (k - 1) as nat) {
            let i = choose|i: int| 0 <= i < k - 1 && hosts[i].len() == widest(hosts, (k - 1) as nat);
            assert(0 <= i < k && hosts[i].len() == widest(hosts, k));
        }
    }
}

} // verus!
