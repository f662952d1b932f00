//! Docker container state, as the `docker` command tells it.
//!
//! `docker ps` is asked for one JSON object per line, so its output is read line by line.

use vstd::prelude::*;
use vstd::string::*;

use crate::command;
use crate::command::Ran;
use crate::json;
use crate::json::{get_at, get_text, get_text_or_empty, read_text, Json, JsonView};
use crate::text;
use crate::text::{first_piece, lines_of, pieces_of, read_lossy, same};

verus! {

/// One container as reported by `docker ps -a`.
pub struct ContainerInfo {
    /// Full container id.
    pub id: String,
    /// The container's primary name (first of `Names`).
    pub name: String,
    /// Image the container runs.
    pub image: String,
    /// Docker's state word: `running`, `exited`, `created`, `paused`, `restarting`, `dead`.
    pub state: String,
    /// True when the container is currently running.
    pub running: bool,
    /// Human-readable status line, e.g. `Up 3 hours (healthy)`.
    pub status: String,
}

/// What a [`ContainerInfo`] says.
#[verifier::ext_equal]
pub struct ContainerView {
    pub id: Seq<char>,
    pub name: Seq<char>,
    pub image: Seq<char>,
    pub state: Seq<char>,
    pub running: bool,
    pub status: Seq<char>,
}

impl View for ContainerInfo {
    type V = ContainerView;

    open spec fn view(&self) -> ContainerView {
        ContainerView {
            id: self.id@,
            name: self.name@,
            image: self.image@,
            state: self.state@,
            running: self.running,
            status: self.status@,
        }
    }
}

impl DeepView for ContainerInfo {
    type V = ContainerView;

    open spec fn deep_view(&self) -> ContainerView {
        self@
    }
}

/// What `docker` has to say: its output, or why there is none.
pub open spec fn answer(came: Ran) -> Result<Seq<char>, Seq<char>> {
    match came {
        Ok(output) => if output.success {
            Ok(text::lossy_text(output.stdout@))
        } else {
            Err(command::complaint(output.stderr@))
        },
        Err(reason) => Err(reason@),
    }
}

/// What `docker` has to say: its output, or why there is none.
pub fn docker_answer(came: Ran) -> (out: Result<String, String>)
    ensures
        command::outcome(out) == answer(came),
{
    match came {
        Ok(output) => if output.success {
            Ok(read_lossy(&output.stdout))
        } else {
            Err(output.complaint())
        },
        Err(reason) => Err(reason),
    }
}

/// The container that a row of `docker ps` describes. A row without names describes none; a field
/// that is missing otherwise is read as empty.
pub open spec fn container_in(row: JsonView) -> Option<ContainerView> {
    match json::text_at(json::at(Some(row), "Names"@)) {
        None => None,
        Some(names) => {
            let state = json::text_or_empty(json::at(Some(row), "State"@));
            Some(
                ContainerView {
                    id: json::text_or_empty(json::at(Some(row), "ID"@)),
                    name: text::pieces(names, ',')[0],
                    image: json::text_or_empty(json::at(Some(row), "Image"@)),
                    state,
                    running: state == "running"@,
                    status: json::text_or_empty(json::at(Some(row), "Status"@)),
                },
            )
        },
    }
}

/// The container that a line of output describes, if any.
pub open spec fn container_on(line: Seq<char>) -> Option<ContainerView> {
    match json::parsed_text(line) {
        Some(row) => container_in(row),
        None => None,
    }
}

/// The containers that the lines describe, in order; a line that describes none is passed over.
pub open spec fn containers_on(lines: Seq<Seq<char>>) -> Seq<ContainerView>
    decreases lines.len(),
{
    if lines.len() == 0 {
        Seq::empty()
    } else {
        let before = containers_on(lines.drop_last());
        match container_on(lines.last()) {
            Some(container) => before.push(container),
            None => before,
        }
    }
}

/// Reads the container that a row of `docker ps` describes.
pub fn read_container(row: &Json) -> (out: Option<ContainerInfo>)
    ensures
        out.deep_view() == container_in(row@),
{
    let names = match get_text(get_at(Some(row), "Names")) {
        Some(names) => names,
        None => {
            return None;
        },
    };
    let state = get_text_or_empty(get_at(Some(row), "State"));
    let running = same(state.as_str(), "running");
    Some(
        ContainerInfo {
            id: get_text_or_empty(get_at(Some(row), "ID")),
            name: first_piece(names.as_str(), ','),
            image: get_text_or_empty(get_at(Some(row), "Image")),
            state,
            running,
            status: get_text_or_empty(get_at(Some(row), "Status")),
        },
    )
}

/// Reads the container that a line of output describes.
pub fn parse_container_line(line: &str) -> (out: Option<ContainerInfo>)
    ensures
        out.deep_view() == container_on(line@),
{
    match read_text(line) {
        Some(row) => read_container(&row),
        None => None,
    }
}

/// Reads the containers that an output describes, one per line.
pub fn parse_containers(raw: &str) -> (out: Vec<ContainerInfo>)
    ensures
        out.deep_view() == containers_on(text::lines(raw@)),
{
    let lines = lines_of(raw);
    let mut out: Vec<ContainerInfo> = Vec::new();
    let mut i: usize = 0;
    assert(out.deep_view() == containers_on(lines.deep_view().take(0)));
    while i < lines.len()
        invariant
            i <= lines@.len(),
            out.deep_view() == containers_on(lines.deep_view().take(i as int)),
        decreases lines@.len() - i,
    {
        assert(lines.deep_view().take(i + 1).drop_last() == lines.deep_view().take(i as int));
        assert(lines.deep_view().take(i + 1).last() == lines@[i as int]@);
        let ghost before = out.deep_view();
        if let Some(container) = parse_container_line(lines[i].as_str()) {
            out.push(container);
            assert(out.deep_view() == before.push(container@));
        }
        i += 1;
    }
    assert(lines.deep_view().take(lines@.len() as int) == lines.deep_view());
    out
}

/// Arguments of `docker` that list all containers, one JSON object per line.
pub open spec fn list_args() -> Seq<Seq<char>> {
    seq!["ps"@, "-a"@, "--no-trunc"@, "--format"@, "{{json .}}"@]
}

/// Arguments of `docker` that list the containers for which `key` matches `selector`.
pub open spec fn select_args(key: Seq<char>, selector: Seq<char>) -> Seq<Seq<char>> {
    seq![
        "ps"@,
        "-a"@,
        "--no-trunc"@,
        "--filter"@,
        key + "="@ + selector,
        "--format"@,
        "{{json .}}"@,
    ]
}

fn listing() -> (args: Vec<String>)
    ensures
        args.deep_view() == list_args(),
{
    let args = vec![
        "ps".to_owned(),
        "-a".to_owned(),
        "--no-trunc".to_owned(),
        "--format".to_owned(),
        "{{json .}}".to_owned(),
    ];
    assert(args.deep_view() =~= list_args());
    args
}

fn selecting(key: &str, selector: &str) -> (args: Vec<String>)
    ensures
        args.deep_view() == select_args(key@, selector@),
{
    let mut filter = key.to_owned();
    filter.append("=");
    filter.append(selector);
    let args = vec![
        "ps".to_owned(),
        "-a".to_owned(),
        "--no-trunc".to_owned(),
        "--filter".to_owned(),
        filter,
        "--format".to_owned(),
        "{{json .}}".to_owned(),
    ];
    assert(args.deep_view() =~= select_args(key@, selector@));
    args
}

/// The containers that a run of `docker ps` lists, or why there is no list.
pub open spec fn listed(came: Ran) -> Result<Seq<ContainerView>, Seq<char>> {
    match answer(came) {
        Ok(raw) => Ok(containers_on(text::lines(raw))),
        Err(why) => Err(why),
    }
}

/// Reads the containers that a run of `docker ps` lists.
pub fn containers_from(came: Ran) -> (out: Result<Vec<ContainerInfo>, String>)
    ensures
        command::outcome(out) == listed(came),
{
    match docker_answer(came) {
        Ok(raw) => Ok(parse_containers(raw.as_str())),
        Err(why) => Err(why),
    }
}

/// A listed container with all the names that it bears.
pub struct Row {
    pub names: Vec<String>,
    pub container: ContainerInfo,
}

/// What a [`Row`] says.
#[verifier::ext_equal]
pub struct RowView {
    pub names: Seq<Seq<char>>,
    pub container: ContainerView,
}

impl DeepView for Row {
    type V = RowView;

    open spec fn deep_view(&self) -> RowView {
        RowView { names: self.names.deep_view(), container: self.container@ }
    }
}

/// The container that a line of output describes, if any, with all of its `Names`.
pub open spec fn row_on(line: Seq<char>) -> Option<RowView> {
    match container_on(line) {
        Some(container) => Some(
            RowView {
                names: text::pieces(
                    json::text_or_empty(json::at(json::parsed_text(line), "Names"@)),
                    ',',
                ),
                container,
            },
        ),
        None => None,
    }
}

/// The containers that the lines describe, in order, each with all of its names.
pub open spec fn rows_on(lines: Seq<Seq<char>>) -> Seq<RowView>
    decreases lines.len(),
{
    if lines.len() == 0 {
        Seq::empty()
    } else {
        let before = rows_on(lines.drop_last());
        match row_on(lines.last()) {
            Some(row) => before.push(row),
            None => before,
        }
    }
}

/// The containers that a run of `docker ps` lists, each with all of its names, or why there is no
/// list.
pub open spec fn rows(came: Ran) -> Result<Seq<RowView>, Seq<char>> {
    match answer(came) {
        Ok(raw) => Ok(rows_on(text::lines(raw))),
        Err(why) => Err(why),
    }
}

/// Reads the container that a line of output describes, with all of its names.
fn parse_row(line: &str) -> (out: Option<Row>)
    ensures
        out.deep_view() == row_on(line@),
{
    let row = match read_text(line) {
        Some(row) => row,
        None => {
            return None;
        },
    };
    let container = match read_container(&row) {
        Some(container) => container,
        None => {
            return None;
        },
    };
    let names = get_text_or_empty(get_at(Some(&row), "Names"));
    let names = pieces_of(names.as_str(), ',');
    Some(Row { names, container })
}

/// Reads the containers that an output describes, one per line, each with all of its names.
fn parse_rows(raw: &str) -> (out: Vec<Row>)
    ensures
        out.deep_view() == rows_on(text::lines(raw@)),
{
    let lines = lines_of(raw);
    let mut out: Vec<Row> = Vec::new();
    let mut i: usize = 0;
    assert(out.deep_view() == rows_on(lines.deep_view().take(0)));
    while i < lines.len()
        invariant
            i <= lines@.len(),
            out.deep_view() == rows_on(lines.deep_view().take(i as int)),
        decreases lines@.len() - i,
    {
        assert(lines.deep_view().take(i + 1).drop_last() == lines.deep_view().take(i as int));
        assert(lines.deep_view().take(i + 1).last() == lines@[i as int]@);
        let ghost before = out.deep_view();
        if let Some(row) = parse_row(lines[i].as_str()) {
            out.push(row);
            assert(out.deep_view() == before.push(row.deep_view()));
        }
        i += 1;
    }
    assert(lines.deep_view().take(lines@.len() as int) == lines.deep_view());
    out
}

/// Whether this is what a listing of all containers may come to.
pub open spec fn may_list<F: Fn(Vec<String>) -> Ran>(
    run: F,
    found: Result<Seq<ContainerView>, Seq<char>>,
) -> bool {
    exists|came: Ran| #[trigger]
        command::may_run(run, list_args(), came) && found == listed(came)
}

/// List all containers (including stopped ones), most recently created first.
pub fn list_containers<F: Fn(Vec<String>) -> Ran>(run: F) -> (out: Result<
    Vec<ContainerInfo>,
    String,
>)
    requires
        command::runs_anything(run),
    ensures
        may_list(run, command::outcome(out)),
{
    let args = listing();
    let came = run(args);
    assert(command::may_run(run, list_args(), came));
    containers_from(came)
}

/// What is said of a container that is not there.
pub open spec fn missing(selector: Seq<char>) -> Seq<char> {
    "no container "@ + selector
}

/// Whether a listed container bears exactly this name, as its first one or as another.
pub open spec fn bears(row: RowView, selector: Seq<char>) -> bool {
    row.names.contains(selector)
}

/// The first of some containers that bears exactly this name.
pub open spec fn named_in(found: Seq<RowView>, selector: Seq<char>) -> Option<ContainerView>
    decreases found.len(),
{
    if found.len() == 0 {
        None
    } else if bears(found[0], selector) {
        Some(found[0].container)
    } else {
        named_in(found.skip(1), selector)
    }
}

/// The first of some containers whose id begins with the selector.
pub open spec fn numbered_in(found: Seq<ContainerView>, selector: Seq<char>) -> Option<
    ContainerView,
>
    decreases found.len(),
{
    if found.len() == 0 {
        None
    } else if text::begins_with(found[0].id, selector) {
        Some(found[0])
    } else {
        numbered_in(found.skip(1), selector)
    }
}

/// The container that is picked, given what `docker` listed for the selector as a name and, where
/// none of those bears that name, what it listed for the selector as an id.
///
/// `docker` matches a part of a name, so a listing may hold containers that were not meant.
pub open spec fn picked(selector: Seq<char>, named: Ran, numbered: Ran) -> Result<
    ContainerView,
    Seq<char>,
> {
    match rows(named) {
        Err(why) => Err(why),
        Ok(found) => match named_in(found, selector) {
            Some(container) => Ok(container),
            None => match listed(numbered) {
                Err(why) => Err(why),
                Ok(found) => match numbered_in(found, selector) {
                    Some(container) => Ok(container),
                    None => Err(missing(selector)),
                },
            },
        },
    }
}

/// Whether one of some names is exactly this one.
fn is_named(names: &Vec<String>, selector: &str) -> (yes: bool)
    ensures
        yes == names.deep_view().contains(selector@),
{
    let mut i: usize = 0;
    while i < names.len()
        invariant
            i <= names@.len(),
            forall|k: int| 0 <= k < i ==> #[trigger] names.deep_view()[k] != selector@,
        decreases names@.len() - i,
    {
        assert(names.deep_view()[i as int] == names@[i as int]@);
        if same(names[i].as_str(), selector) {
            return true;
        }
        i += 1;
    }
    false
}

/// Takes the first of some containers that bears exactly this name.
fn take_named(found: Vec<Row>, selector: &str) -> (out: Option<ContainerInfo>)
    ensures
        out.deep_view() == named_in(found.deep_view(), selector@),
{
    let mut found = found;
    let ghost all = found.deep_view();
    let mut i: usize = 0;
    assert(all.skip(0) == all);
    #[verifier::loop_isolation(false)]
    while i < found.len()
        invariant
            found.deep_view() == all,
            all.len() == found@.len(),
            i <= all.len(),
            named_in(all, selector@) == named_in(all.skip(i as int), selector@),
        decreases all.len() - i,
    {
        assert(all.skip(i as int)[0] == all[i as int]);
        assert(all[i as int] == found@[i as int].deep_view());
        if is_named(&found[i].names, selector) {
            let row = found.swap_remove(i);
            return Some(row.container);
        }
        assert(all.skip(i as int).skip(1) == all.skip(i + 1));
        i += 1;
    }
    None
}

/// Takes the first of some containers whose id begins with the selector.
fn take_numbered(found: Vec<ContainerInfo>, selector: &str) -> (out: Option<ContainerInfo>)
    ensures
        out is Some == numbered_in(found.deep_view(), selector@) is Some,
        out matches Some(container) ==> numbered_in(found.deep_view(), selector@) == Some(
            container@,
        ),
{
    let mut found = found;
    let ghost rows = found.deep_view();
    let mut i: usize = 0;
    assert(rows.skip(0) == rows);
    #[verifier::loop_isolation(false)]
    while i < found.len()
        invariant
            found.deep_view() == rows,
            rows.len() == found@.len(),
            i <= rows.len(),
            numbered_in(rows, selector@) == numbered_in(rows.skip(i as int), selector@),
        decreases rows.len() - i,
    {
        assert(rows.skip(i as int)[0] == rows[i as int]);
        assert(rows[i as int] == found@[i as int]@);
        if text::starts_with(found[i].id.as_str(), selector) {
            let container = found.swap_remove(i);
            return Some(container);
        }
        assert(rows.skip(i as int).skip(1) == rows.skip(i + 1));
        i += 1;
    }
    None
}

/// Whether this is what a search for one container may come to. The selector is tried as an id
/// only where no container bears it as a name.
pub open spec fn may_pick<F: Fn(Vec<String>) -> Ran>(
    run: F,
    selector: Seq<char>,
    found: Result<ContainerView, Seq<char>>,
) -> bool {
    exists|named: Ran, numbered: Ran|
        {
            &&& #[trigger] command::may_run(run, select_args("name"@, selector), named)
            &&& rows(named) is Ok && named_in(rows(named)->Ok_0, selector) is None
                ==> command::may_run(run, select_args("id"@, selector), numbered)
            &&& found == #[trigger] picked(selector, named, numbered)
        }
}

/// Fetch one container by name or id: the first that bears exactly that name, or else the first
/// whose id begins with the selector.
pub fn container_info<F: Fn(Vec<String>) -> Ran>(selector: &str, run: F) -> (out: Result<
    ContainerInfo,
    String,
>)
    requires
        command::runs_anything(run),
    ensures
        may_pick(run, selector@, command::outcome(out)),
{
    let args = selecting("name", selector);
    let named = run(args);
    let ghost came = named;
    assert(command::may_run(run, select_args("name"@, selector@), named));
    let found = match docker_answer(named) {
        Ok(raw) => parse_rows(raw.as_str()),
        Err(why) => {
            assert(picked(selector@, came, came) == Err::<ContainerView, Seq<char>>(why@));
            return Err(why);
        },
    };
    if let Some(container) = take_named(found, selector) {
        assert(picked(selector@, came, came) == Ok::<ContainerView, Seq<char>>(container@));
        return Ok(container);
    }
    let args = selecting("id", selector);
    let numbered = run(args);
    let ghost came_too = numbered;
    assert(command::may_run(run, select_args("id"@, selector@), numbered));
    let found = match containers_from(numbered) {
        Ok(found) => found,
        Err(why) => {
            assert(picked(selector@, came, came_too) == Err::<ContainerView, Seq<char>>(why@));
            return Err(why);
        },
    };
    match take_numbered(found, selector) {
        Some(container) => {
            assert(picked(selector@, came, came_too) == Ok::<ContainerView, Seq<char>>(container@));
            Ok(container)
        },
        None => {
            let mut why = "no container ".to_owned();
            why.append(selector);
            assert(picked(selector@, came, came_too) == Err::<ContainerView, Seq<char>>(why@));
            Err(why)
        },
    }
}

/// Whether this is what a look at one container may come to: one that cannot be found does not
/// run.
pub open spec fn may_be_running<F: Fn(Vec<String>) -> Ran>(
    run: F,
    selector: Seq<char>,
    yes: bool,
) -> bool {
    exists|found: Result<ContainerView, Seq<char>>| #[trigger]
        may_pick(run, selector, found) && yes == match found {
            Ok(container) => container.running,
            Err(_) => false,
        }
}

/// Whether the named container is currently running. One that cannot be found is not.
pub fn container_running<F: Fn(Vec<String>) -> Ran>(selector: &str, run: F) -> (yes: bool)
    requires
        command::runs_anything(run),
    ensures
        may_be_running(run, selector@, yes),
{
    let found = container_info(selector, run);
    assert(may_pick(run, selector@, command::outcome(found)));
    match found {
        Ok(container) => container.running,
        Err(_) => false,
    }
}

/// A container that is found by its name bears exactly that name, and was listed.
proof fn lemma_named_is_listed(found: Seq<RowView>, selector: Seq<char>)
    ensures
        named_in(found, selector) matches Some(container) ==> exists|i: int|
            0 <= i < found.len() && bears(#[trigger] found[i], selector) && found[i].container
                == container,
        named_in(found, selector) is None ==> forall|i: int|
            0 <= i < found.len() ==> !bears(#[trigger] found[i], selector),
    decreases found.len(),
{
    if found.len() > 0 && !bears(found[0], selector) {
        let rest = found.skip(1);
        lemma_named_is_listed(rest, selector);
        assert forall|i: int| 0 <= i < found.len() && named_in(found, selector) is None implies !bears(
            #[trigger] found[i],
            selector,
        ) by {
            if i > 0 {
                assert(found[i] == rest[i - 1]);
            }
        }
        if let Some(container) = named_in(rest, selector) {
            let at = choose|at: int|
                0 <= at < rest.len() && bears(#[trigger] rest[at], selector) && rest[at].container
                    == container;
            assert(found[at + 1] == rest[at]);
        }
    } else if found.len() > 0 {
        assert(bears(found[0], selector));
    }
}

/// The containers that are listed are the same whether or not all of their names are read.
proof fn lemma_rows_are_listed(lines: Seq<Seq<char>>)
    ensures
        rows_on(lines).map_values(|row: RowView| row.container) == containers_on(lines),
    decreases lines.len(),
{
    if lines.len() > 0 {
        lemma_rows_are_listed(lines.drop_last());
        let before = rows_on(lines.drop_last());
        if let Some(row) = row_on(lines.last()) {
            assert(before.push(row).map_values(|row: RowView| row.container)
                == before.map_values(|row: RowView| row.container).push(row.container));
        }
    } else {
        assert(rows_on(lines).map_values(|row: RowView| row.container) == containers_on(lines));
    }
}

/// The name that is shown of a listed container is one that it bears, so every container that is
/// listed can be found by the name that is shown of it.
pub proof fn a_shown_name_is_borne(line: Seq<char>)
    requires
        row_on(line) is Some,
    ensures
        bears(row_on(line)->0, row_on(line)->0.container.name),
{
    let names = json::text_or_empty(json::at(json::parsed_text(line), "Names"@));
    text::pieces_hold_no_separator(names, ',');
    assert(row_on(line)->0.names[0] == row_on(line)->0.container.name);
}

/// A container that is found by its id has an id that begins with the selector, and was listed.
proof fn lemma_numbered_is_listed(found: Seq<ContainerView>, selector: Seq<char>)
    ensures
        numbered_in(found, selector) matches Some(container) ==> text::begins_with(
            container.id,
            selector,
        ) && found.contains(container),
    decreases found.len(),
{
    if found.len() > 0 && !text::begins_with(found[0].id, selector) {
        let rest = found.skip(1);
        lemma_numbered_is_listed(rest, selector);
        if let Some(container) = numbered_in(rest, selector) {
            let at = choose|at: int| 0 <= at < rest.len() && rest[at] == container;
            assert(found[at + 1] == container);
        }
    }
}

/// The container that is picked is one that was meant: `docker` listed it, and it bears exactly the
/// name that was asked for or, where none does, has an id that begins with what was asked for. A
/// container whose name merely contains that of another is never taken for it.
pub proof fn a_picked_container_was_meant(selector: Seq<char>, named: Ran, numbered: Ran)
    requires
        picked(selector, named, numbered) is Ok,
    ensures
        ({
            let container = picked(selector, named, numbered)->Ok_0;
            let found = rows(named)->Ok_0;
            if exists|i: int| 0 <= i < found.len() && bears(#[trigger] found[i], selector) {
                &&& listed(named)->Ok_0.contains(container)
                &&& exists|i: int|
                    0 <= i < found.len() && bears(#[trigger] found[i], selector)
                        && found[i].container == container
            } else {
                &&& listed(numbered)->Ok_0.contains(container)
                &&& text::begins_with(container.id, selector)
            }
        }),
{
    let container = picked(selector, named, numbered)->Ok_0;
    let found = rows(named)->Ok_0;
    lemma_named_is_listed(found, selector);
    if named_in(found, selector) is Some {
        lemma_rows_are_listed(text::lines(answer(named)->Ok_0));
        let at = choose|at: int|
            0 <= at < found.len() && bears(#[trigger] found[at], selector) && found[at].container
                == container;
        assert(listed(named)->Ok_0[at] == container);
    } else {
        lemma_numbered_is_listed(listed(numbered)->Ok_0, selector);
    }
}

/// What `docker` says is what it printed where it succeeded. Where it failed it is the reason that
/// it gave, and where it could not be run, why not.
pub proof fn docker_is_heard_only_where_it_succeeds(came: Ran)
    ensures
        answer(came) is Ok <==> came is Ok && came->Ok_0.success,
        answer(came) matches Ok(raw) ==> raw == text::lossy_text(came->Ok_0.stdout@),
        came matches Ok(output) && !output.success ==> answer(came) == Err::<
            Seq<char>,
            Seq<char>,
        >(text::trimmed(text::lossy_text(came->Ok_0.stderr@))),
        came matches Err(reason) ==> answer(came) == Err::<Seq<char>, Seq<char>>(reason@),
        listed(came) is Ok == answer(came) is Ok,
        rows(came) is Ok == answer(came) is Ok,
{
    if let Ok(output) = came {
        command::a_complaint_is_what_was_written(output.stderr@);
    }
}

/// A row is a container exactly where its `Names` are a text. The container is running exactly
/// where the `State` of the row is the text `running`: no other state is, and neither is a missing
/// one. Its other fields are those of the row, empty where they are missing or no text.
pub proof fn a_container_runs_exactly_where_its_state_is_running(row: JsonView, s: Seq<char>)
    ensures
        container_in(row) is Some <==> json::at(Some(row), "Names"@) is Some && json::at(
            Some(row),
            "Names"@,
        )->0 is Text,
        container_in(row) matches Some(container) ==> {
            &&& container.running <==> json::at(Some(row), "State"@) == Some(
                JsonView::Text("running"@),
            )
            &&& container.state == json::text_or_empty(json::at(Some(row), "State"@))
            &&& json::at(Some(row), "State"@) == Some(JsonView::Text(s)) ==> container.state == s
            &&& json::at(Some(row), "ID"@) == Some(JsonView::Text(s)) ==> container.id == s
            &&& json::at(Some(row), "ID"@) is None ==> container.id.len() == 0
            &&& json::at(Some(row), "Image"@) == Some(JsonView::Text(s)) ==> container.image == s
            &&& json::at(Some(row), "Image"@) is None ==> container.image.len() == 0
            &&& json::at(Some(row), "Status"@) == Some(JsonView::Text(s)) ==> container.status == s
            &&& json::at(Some(row), "Status"@) is None ==> container.status.len() == 0
        },
{
    reveal_strlit("running");
    if let Some(container) = container_in(row) {
        let state = json::at(Some(row), "State"@);
        assert(container.state == json::text_or_empty(state));
        if container.running {
            assert(container.state == "running"@);
            assert("running"@.len() == 7);
            assert(state == Some(JsonView::Text(container.state)));
            assert(state == Some(JsonView::Text("running"@)));
        }
        if state == Some(JsonView::Text("running"@)) {
            assert(container.running);
        }
        assert(json::at(Some(row), "ID"@) is None ==> container.id.len() == 0);
        assert(json::at(Some(row), "Image"@) is None ==> container.image.len() == 0);
        assert(json::at(Some(row), "Status"@) is None ==> container.status.len() == 0);
    }
}

/// The states other than `running` that a container can be in are those of a container that does
/// not run.
pub proof fn no_other_state_is_running(row: JsonView)
    requires
        json::at(Some(row), "State"@) matches Some(JsonView::Text(s)) ==> s == "restarting"@ || s
            == "exited"@ || s == "created"@ || s == "paused"@ || s == "dead"@ || s == "removing"@,
    ensures
        container_in(row) matches Some(container) ==> !container.running,
{
    reveal_strlit("running");
    reveal_strlit("restarting");
    reveal_strlit("exited");
    reveal_strlit("created");
    reveal_strlit("paused");
    reveal_strlit("dead");
    reveal_strlit("removing");
    assert("running"@[0] == 'r');
    assert("removing"@[1] == 'e');
    assert("running"@[1] == 'u');
    a_container_runs_exactly_where_its_state_is_running(row, Seq::empty());
}

/// The name that is shown is what stands before the first comma of `Names`, or all of it. Each part
/// between commas is a name that the container can be found by.
pub proof fn names_are_parted_by_commas(line: Seq<char>, row: JsonView, first: Seq<char>, rest: Seq<char>)
    requires
        json::parsed_text(line) == Some(row),
        !first.contains(','),
    ensures
        json::at(Some(row), "Names"@) == Some(JsonView::Text(first)) ==> {
            &&& row_on(line) matches Some(found)
            &&& found.container.name == first
            &&& found.names == seq![first]
        },
        json::at(Some(row), "Names"@) == Some(JsonView::Text(first.push(',') + rest)) ==> {
            &&& row_on(line) matches Some(found)
            &&& found.container.name == first
            &&& bears(found, first)
            &&& !rest.contains(',') ==> bears(found, rest)
            &&& !rest.contains(',') ==> forall|name: Seq<char>| #[trigger]
                bears(found, name) ==> name == first || name == rest
        },
{
    text::splitting_goes_piece_by_piece(first, ',', rest);
    text::splitting_goes_piece_by_piece(rest, ',', rest);
    if json::at(Some(row), "Names"@) == Some(JsonView::Text(first.push(',') + rest)) {
        let found = row_on(line)->0;
        assert(found.names == seq![first] + text::pieces(rest, ','));
        assert(found.names[0] == first);
        if !rest.contains(',') {
            assert(found.names[1] == rest);
            assert(found.names.len() == 2);
        }
    }
}

/// Containers are read line by line: a line that is no JSON, or no container, is passed over, and
/// every other one gives one container, in order.
pub proof fn containers_are_read_line_by_line(a: Seq<Seq<char>>, b: Seq<Seq<char>>, line: Seq<char>)
    ensures
        containers_on(a + b) == containers_on(a) + containers_on(b),
        rows_on(a + b) == rows_on(a) + rows_on(b),
        containers_on(seq![line]) == match json::parsed_text(line) {
            Some(row) => match container_in(row) {
                Some(container) => seq![container],
                None => Seq::empty(),
            },
            None => Seq::empty(),
        },
        rows_on(seq![line]).map_values(|row: RowView| row.container) == containers_on(seq![line]),
    decreases b.len(),
{
    if b.len() == 0 {
        assert(a + b == a);
        assert(containers_on(a) + containers_on(b) == containers_on(a));
        assert(rows_on(a) + rows_on(b) == rows_on(a));
        assert(seq![line].drop_last() == Seq::<Seq<char>>::empty());
        assert(seq![line].last() == line);
        assert(containers_on(seq![line].drop_last()) == Seq::<ContainerView>::empty());
        if let Some(container) = container_on(line) {
            assert(containers_on(seq![line]) == seq![container]);
        }
    } else {
        containers_are_read_line_by_line(a, b.drop_last(), line);
        assert((a + b).drop_last() == a + b.drop_last());
        assert((a + b).last() == b.last());
        assert(containers_on(a + b) == containers_on(a) + containers_on(b));
        assert(rows_on(a + b) == rows_on(a) + rows_on(b));
    }
    lemma_rows_are_listed(seq![line]);
}

/// A search finds what is there: a container that bears the name that is asked for, the first such,
/// whatever else is listed; else the first whose id begins with it; else it says that there is none.
pub proof fn a_search_finds_what_is_there(selector: Seq<char>, named: Ran, numbered: Ran, i: int)
    ensures
        rows(named) matches Ok(found) && 0 <= i < found.len() && found[i].names.contains(selector)
            && (forall|k: int| 0 <= k < i ==> !(#[trigger] found[k]).names.contains(selector))
            ==> picked(selector, named, numbered) == Ok::<ContainerView, Seq<char>>(
            rows(named)->Ok_0[i].container,
        ),
        rows(named) matches Ok(found) && (forall|k: int|
            0 <= k < found.len() ==> !(#[trigger] found[k]).names.contains(selector)) ==> match listed(
            numbered,
        ) {
            Err(why) => picked(selector, named, numbered) == Err::<ContainerView, Seq<char>>(why),
            Ok(others) => {
                &&& 0 <= i < others.len() && text::begins_with(others[i].id, selector) && (forall|
                    k: int,
                |
                    0 <= k < i ==> !text::begins_with((#[trigger] others[k]).id, selector))
                    ==> picked(selector, named, numbered) == Ok::<ContainerView, Seq<char>>(
                    others[i],
                )
                &&& (forall|k: int|
                    0 <= k < others.len() ==> !text::begins_with(
                        (#[trigger] others[k]).id,
                        selector,
                    )) ==> picked(selector, named, numbered) == Err::<ContainerView, Seq<char>>(
                    "no container "@ + selector,
                )
            },
        },
        rows(named) matches Err(why) ==> picked(selector, named, numbered) == Err::<
            ContainerView,
            Seq<char>,
        >(why),
{
    if rows(named) is Ok {
        let found = rows(named)->Ok_0;
        lemma_first_named(found, selector, i);
        if listed(numbered) is Ok {
            lemma_first_numbered(listed(numbered)->Ok_0, selector, i);
        }
    }
}

proof fn lemma_first_named(found: Seq<RowView>, selector: Seq<char>, i: int)
    ensures
        0 <= i < found.len() && found[i].names.contains(selector) && (forall|k: int|
            0 <= k < i ==> !(#[trigger] found[k]).names.contains(selector)) ==> named_in(
            found,
            selector,
        ) == Some(found[i].container),
        (forall|k: int| 0 <= k < found.len() ==> !(#[trigger] found[k]).names.contains(selector))
            ==> named_in(found, selector) is None,
    decreases found.len(),
{
    if found.len() > 0 && !bears(found[0], selector) {
        let rest = found.skip(1);
        lemma_first_named(rest, selector, i - 1);
        assert forall|k: int| 0 <= k < rest.len() implies #[trigger] rest[k] == found[k + 1] by {}
        if 0 < i < found.len() {
            assert(rest[i - 1] == found[i]);
        }
    } else if found.len() > 0 {
        assert(found[0].names.contains(selector));
    }
}

proof fn lemma_first_numbered(found: Seq<ContainerView>, selector: Seq<char>, i: int)
    ensures
        0 <= i < found.len() && text::begins_with(found[i].id, selector) && (forall|k: int|
            0 <= k < i ==> !text::begins_with((#[trigger] found[k]).id, selector)) ==> numbered_in(
            found,
            selector,
        ) == Some(found[i]),
        (forall|k: int|
            0 <= k < found.len() ==> !text::begins_with((#[trigger] found[k]).id, selector))
            ==> numbered_in(found, selector) is None,
    decreases found.len(),
{
    if found.len() > 0 && !text::begins_with(found[0].id, selector) {
        let rest = found.skip(1);
        lemma_first_numbered(rest, selector, i - 1);
        assert forall|k: int| 0 <= k < rest.len() implies #[trigger] rest[k] == found[k + 1] by {}
        if 0 < i < found.len() {
            assert(rest[i - 1] == found[i]);
        }
    } else if found.len() > 0 {
        assert(text::begins_with(found[0].id, selector));
    }
}

/// A container that is looked for counts as running exactly where it is found and its state is
/// `running`: one that is not found, and one in any other state, does not.
pub proof fn a_container_that_is_looked_for_runs_only_if_found<F: Fn(Vec<String>) -> Ran>(
    run: F,
    selector: Seq<char>,
    found: Result<ContainerView, Seq<char>>,
)
    requires
        may_pick(run, selector, found),
    ensures
        found is Err ==> may_be_running(run, selector, false),
        found matches Ok(container) ==> may_be_running(run, selector, container.running),
        (forall|other: Result<ContainerView, Seq<char>>| #[trigger]
            may_pick(run, selector, other) ==> other == found) ==> (may_be_running(
            run,
            selector,
            true,
        ) <==> found is Ok && found->Ok_0.running),
{
}

/// `docker` is asked for all containers, those that do not run too, with their whole ids and one
/// JSON object on each line; and where one is looked for, for those that match.
pub proof fn docker_is_asked_for_stopped_containers_too(key: Seq<char>, selector: Seq<char>)
    ensures
        list_args() == seq!["ps"@, "-a"@, "--no-trunc"@] + seq!["--format"@, "{{json .}}"@],
        select_args(key, selector) == seq!["ps"@, "-a"@, "--no-trunc"@] + seq![
            "--filter"@,
            key + "="@ + selector,
        ] + seq!["--format"@, "{{json .}}"@],
{
}

/// A listing is what `docker` printed when it was asked for all containers.
pub proof fn a_listing_is_what_docker_printed<F: Fn(Vec<String>) -> Ran>(
    run: F,
    came: Ran,
    found: Result<Seq<ContainerView>, Seq<char>>,
)
    requires
        may_list(run, found),
        forall|other: Ran| #[trigger]
            command::may_run(run, list_args(), other) ==> other == came,
    ensures
        found == match answer(came) {
            Ok(raw) => Ok(containers_on(text::lines(raw))),
            Err(why) => Err(why),
        },
{
}

/// A search is by what `docker` printed for the selector as a name and, where that finds nothing, as
/// an id.
pub proof fn a_search_is_by_name_and_then_by_id<F: Fn(Vec<String>) -> Ran>(
    run: F,
    selector: Seq<char>,
    named: Ran,
    numbered: Ran,
    found: Result<ContainerView, Seq<char>>,
)
    requires
        may_pick(run, selector, found),
        forall|other: Ran| #[trigger]
            command::may_run(run, select_args("name"@, selector), other) ==> other == named,
        forall|other: Ran| #[trigger]
            command::may_run(run, select_args("id"@, selector), other) ==> other == numbered,
    ensures
        found == picked(selector, named, numbered),
{
}

} // verus!
