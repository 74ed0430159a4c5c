//! What the command line shows and reads: task lines, and lists of task
//! ids.

use crate::common::Id;
use crate::lane::Lane;
use crate::priority::Priority;
use crate::task::Task;
use crate::text::{
    append_integer, chars_of, integer_text, integer_value, lines_of, parse_integer, span,
    split_lines, texts_of,
};
use crate::todo::{TodoSummary, TodoTask};
use std::collections::HashMap;
use vstd::prelude::*;
use vstd::string::StringExecFns;

verus! {

broadcast use vstd::std_specs::hash::group_hash_axioms;

/// The name shown for a lane or a priority level that is not known.
pub open spec fn unknown_name() -> Seq<char> {
    "UNKNOWN"@
}

/// The name under the id `id`, or "UNKNOWN".
pub open spec fn name_of(names: Map<Id, Seq<char>>, id: Id) -> Seq<char> {
    if names.contains_key(id) {
        names[id]
    } else {
        unknown_name()
    }
}

/// The names of the lanes of a table, by their ids.
pub open spec fn lane_names(lanes: Map<Id, &Lane>) -> Map<Id, Seq<char>> {
    lanes.map_values(|lane: &Lane| lane.name@)
}

/// The names of the priority levels of a table, by their ids.
pub open spec fn priority_names(priorities: Map<Id, &Priority>) -> Map<Id, Seq<char>> {
    priorities.map_values(|priority: &Priority| priority.name@)
}

/// Something that is shown as one line, with its lane and its priority
/// level by name.
pub trait FormatWithLanePriority {
    /// The line, given the names of the lanes and of the priority levels.
    spec fn formatted(&self, lanes: Map<Id, Seq<char>>, priorities: Map<Id, Seq<char>>) -> Seq<
        char,
    >;

    /// Renders the line.
    fn format(&self, lanes: &HashMap<Id, &Lane>, priorities: &HashMap<Id, &Priority>) -> (line:
        String)
        ensures
            line@ == self.formatted(lane_names(lanes@), priority_names(priorities@)),
    ;
}

/// The name of the lane `id` as it is shown.
fn shown_lane<'a>(lanes: &HashMap<Id, &'a Lane>, id: Id) -> (name: &'a str)
    ensures
        name@ == name_of(lane_names(lanes@), id),
{
    match lanes.get(&id) {
        Some(lane) => lane.name.as_str(),
        None => "UNKNOWN",
    }
}

/// The name of the priority level `id` as it is shown.
fn shown_priority<'a>(priorities: &HashMap<Id, &'a Priority>, id: Id) -> (name: &'a str)
    ensures
        name@ == name_of(priority_names(priorities@), id),
{
    match priorities.get(&id) {
        Some(priority) => priority.name.as_str(),
        None => "UNKNOWN",
    }
}

impl FormatWithLanePriority for Task {
    /// The id, the lane, the priority level, the estimate and the summary,
    /// with a tab between each two.
    open spec fn formatted(
        &self,
        lanes: Map<Id, Seq<char>>,
        priorities: Map<Id, Seq<char>>,
    ) -> Seq<char> {
        integer_text(self.id as int) + "\t"@ + name_of(lanes, self.lane_id) + "\t"@ + name_of(
            priorities,
            self.priority,
        ) + "\t"@ + integer_text(self.estimate as int) + "\t"@ + self.summary@
    }

    fn format(&self, lanes: &HashMap<Id, &Lane>, priorities: &HashMap<Id, &Priority>) -> (line:
        String) {
        let mut line = String::new();
        append_integer(&mut line, self.id);
        line.append("\t");
        line.append(shown_lane(lanes, self.lane_id));
        line.append("\t");
        line.append(shown_priority(priorities, self.priority));
        line.append("\t");
        append_integer(&mut line, self.estimate);
        line.append("\t");
        line.append(self.summary.as_str());
        proof {
            assert(line@ =~= self.formatted(lane_names(lanes@), priority_names(priorities@)));
        }
        line
    }
}

impl FormatWithLanePriority for TodoTask {
    /// The id of the task, the lane, the priority level, the work done and
    /// the estimate with a slash between them, and the summary, with a tab
    /// between each two.
    open spec fn formatted(
        &self,
        lanes: Map<Id, Seq<char>>,
        priorities: Map<Id, Seq<char>>,
    ) -> Seq<char> {
        integer_text(self.task_id as int) + "\t"@ + name_of(lanes, self.lane_id) + "\t"@
            + name_of(priorities, self.priority) + "\t"@ + integer_text(self.actual as int)
            + "/"@ + integer_text(self.estimate as int) + "\t"@ + self.summary@
    }

    fn format(&self, lanes: &HashMap<Id, &Lane>, priorities: &HashMap<Id, &Priority>) -> (line:
        String) {
        let mut line = String::new();
        append_integer(&mut line, self.task_id);
        line.append("\t");
        line.append(shown_lane(lanes, self.lane_id));
        line.append("\t");
        line.append(shown_priority(priorities, self.priority));
        line.append("\t");
        append_integer(&mut line, self.actual);
        line.append("/");
        append_integer(&mut line, self.estimate);
        line.append("\t");
        line.append(self.summary.as_str());
        proof {
            assert(line@ =~= self.formatted(lane_names(lanes@), priority_names(priorities@)));
        }
        line
    }
}

/// The names of the lanes by their ids. Of two lanes with one id the later
/// one counts.
pub open spec fn lane_names_by_id(lanes: Seq<Lane>) -> Map<Id, Seq<char>>
    decreases lanes.len(),
{
    if lanes.len() == 0 {
        Map::empty()
    } else {
        lane_names_by_id(lanes.drop_last()).insert(lanes.last().id, lanes.last().name@)
    }
}

/// The names of the priority levels by their ids. Of two levels with one id
/// the later one counts.
pub open spec fn priority_names_by_id(priorities: Seq<Priority>) -> Map<Id, Seq<char>>
    decreases priorities.len(),
{
    if priorities.len() == 0 {
        Map::empty()
    } else {
        priority_names_by_id(priorities.drop_last()).insert(
            priorities.last().id,
            priorities.last().name@,
        )
    }
}

/// The lanes and the priority levels that lines are shown with.
pub struct TaskContext<'l, 'p> {
    lanes: HashMap<Id, &'l Lane>,
    priorities: HashMap<Id, &'p Priority>,
}

impl<'l, 'p> TaskContext<'l, 'p> {
    /// The names of the lanes of the context, by their ids.
    pub closed spec fn lanes(&self) -> Map<Id, Seq<char>> {
        lane_names(self.lanes@)
    }

    /// The names of the priority levels of the context, by their ids.
    pub closed spec fn priorities(&self) -> Map<Id, Seq<char>> {
        priority_names(self.priorities@)
    }

    /// A context of the given lanes and priority levels.
    pub fn new(lanes: &'l [Lane], priorities: &'p [Priority]) -> (context: TaskContext<'l, 'p>)
        ensures
            context.lanes() == lane_names_by_id(lanes@),
            context.priorities() == priority_names_by_id(priorities@),
    {
        let mut lane_hash: HashMap<Id, &'l Lane> = HashMap::with_capacity(lanes.len());
        let mut priority_hash: HashMap<Id, &'p Priority> = HashMap::with_capacity(
            priorities.len(),
        );
        proof {
            assert(lane_names(lane_hash@) =~= Map::empty());
            assert(priority_names(priority_hash@) =~= Map::empty());
        }
        let mut i: usize = 0;
        while i < lanes.len()
            invariant
                i <= lanes@.len(),
                lane_names(lane_hash@) == lane_names_by_id(lanes@.take(i as int)),
            decreases lanes.len() - i,
        {
            let ghost before = lane_hash@;
            lane_hash.insert(lanes[i].id, &lanes[i]);
            proof {
                assert(lanes@.take(i as int + 1).drop_last() == lanes@.take(i as int));
                assert(lane_names(lane_hash@) =~= lane_names(before).insert(
                    lanes@[i as int].id,
                    lanes@[i as int].name@,
                ));
            }
            i = i + 1;
        }
        let mut k: usize = 0;
        while k < priorities.len()
            invariant
                k <= priorities@.len(),
                priority_names(priority_hash@) == priority_names_by_id(
                    priorities@.take(k as int),
                ),
            decreases priorities.len() - k,
        {
            let ghost before = priority_hash@;
            priority_hash.insert(priorities[k].id, &priorities[k]);
            proof {
                assert(priorities@.take(k as int + 1).drop_last() == priorities@.take(k as int));
                assert(priority_names(priority_hash@) =~= priority_names(before).insert(
                    priorities@[k as int].id,
                    priorities@[k as int].name@,
                ));
            }
            k = k + 1;
        }
        proof {
            assert(lanes@.take(i as int) == lanes@);
            assert(priorities@.take(k as int) == priorities@);
        }
        TaskContext { lanes: lane_hash, priorities: priority_hash }
    }

    /// Renders `target` as one line, with the names of its lane and of its
    /// priority level.
    pub fn format<T: FormatWithLanePriority>(&self, target: T) -> (line: String)
        ensures
            line@ == target.formatted(self.lanes(), self.priorities()),
    {
        target.format(&self.lanes, &self.priorities)
    }
}

/// The report line of a day: the date and the three numbers, each under its
/// name, with a tab between each two. The line begins with a hash, so that
/// it reads as a comment where a list of task ids is expected.
pub open spec fn summary_text(date: Seq<char>, summary: TodoSummary) -> Seq<char> {
    "#date:"@ + date + "\testimate:"@ + integer_text(summary.estimate as int) + "\tactual:"@
        + integer_text(summary.actual as int) + "\tremaining:"@ + integer_text(
        summary.remaining as int,
    )
}

/// Renders the report line of a day.
pub fn summary_line(date: &str, summary: &TodoSummary) -> (line: String)
    ensures
        line@ == summary_text(date@, *summary),
{
    let mut line = String::from_str("#date:");
    line.append(date);
    line.append("\testimate:");
    append_integer(&mut line, summary.estimate);
    line.append("\tactual:");
    append_integer(&mut line, summary.actual);
    line.append("\tremaining:");
    append_integer(&mut line, summary.remaining);
    proof {
        assert(line@ =~= summary_text(date@, *summary));
    }
    line
}

/// A line that is no comment does not begin with a task id.
#[derive(Debug, Clone, Copy, PartialEq, Eq, Structural)]
pub struct InvalidTaskId {
    /// The number of the line, the first line being 0.
    pub line: usize,
}

/// Whether the line is a comment: it begins with a hash.
pub open spec fn is_comment(line: Seq<char>) -> bool {
    line.len() > 0 && line[0] == '#'
}

/// The first field of a line: what stands before its first tab.
pub open spec fn id_field(line: Seq<char>) -> Seq<char> {
    line.take(span(line, '\t'))
}

/// The task ids that the lines begin with, comments left out; or the first
/// line that is no comment and does not begin with a task id.
pub open spec fn ids_of_lines(lines: Seq<Seq<char>>) -> Result<Seq<Id>, InvalidTaskId>
    decreases lines.len(),
{
    if lines.len() == 0 {
        Ok(Seq::empty())
    } else {
        match ids_of_lines(lines.drop_last()) {
            Err(e) => Err(e),
            Ok(ids) => if is_comment(lines.last()) {
                Ok(ids)
            } else {
                match integer_value(id_field(lines.last())) {
                    Some(id) => Ok(ids.push(id)),
                    None => Err(InvalidTaskId { line: (lines.len() - 1) as usize }),
                }
            },
        }
    }
}

/// The task ids listed in a text: one to a line, before the first tab;
/// lines that begin with a hash are comments.
pub open spec fn task_ids_in(text: Seq<char>) -> Result<Seq<Id>, InvalidTaskId> {
    ids_of_lines(lines_of(text))
}

/// Once a line is found invalid, the lines after it do not matter.
proof fn lemma_invalid_line_stays(lines: Seq<Seq<char>>, n: int)
    requires
        0 <= n <= lines.len(),
        ids_of_lines(lines.take(n)) is Err,
    ensures
        ids_of_lines(lines) == ids_of_lines(lines.take(n)),
    decreases lines.len() - n,
{
    if n < lines.len() {
        assert(lines.take(n + 1).drop_last() == lines.take(n));
        lemma_invalid_line_stays(lines, n + 1);
    } else {
        assert(lines.take(n) == lines);
    }
}

/// Reads a list of task ids, one to a line.
///
/// A line that begins with a hash is skipped. Of any other line, what stands
/// before the first tab is read as a task id, and the line is invalid where
/// that is no integer: the first such line is reported, and no ids.
pub fn parse_line_as_task_ids(input: &str) -> (ids: Result<Vec<Id>, InvalidTaskId>)
    ensures
        match ids {
            Ok(ids) => task_ids_in(input@) == Ok::<Seq<Id>, InvalidTaskId>(ids@),
            Err(e) => task_ids_in(input@) == Err::<Seq<Id>, InvalidTaskId>(e),
        },
{
    let chars = chars_of(input);
    let lines = split_lines(&chars);
    let ghost texts = texts_of(lines@);
    let mut ids: Vec<Id> = Vec::new();
    let mut i: usize = 0;
    while i < lines.len()
        invariant
            i <= lines@.len(),
            texts == texts_of(lines@),
            texts == lines_of(input@),
            ids_of_lines(texts.take(i as int)) == Ok::<Seq<Id>, InvalidTaskId>(ids@),
        decreases lines.len() - i,
    {
        let line = &lines[i];
        proof {
            assert(texts.take(i as int + 1).drop_last() == texts.take(i as int));
            assert(texts.take(i as int + 1).last() == line@);
        }
        if line.len() > 0 && line[0] == '#' {
        } else {
            let end = find_tab(line);
            let field = take_field(line, end);
            match parse_integer(&field) {
                Some(id) => {
                    ids.push(id);
                },
                None => {
                    proof {
                        lemma_invalid_line_stays(texts, i as int + 1);
                    }
                    return Err(InvalidTaskId { line: i });
                },
            }
        }
        i = i + 1;
    }
    proof {
        assert(texts.take(i as int) == texts);
    }
    Ok(ids)
}

/// The place of the first tab of a line, or its length where it has none.
fn find_tab(line: &Vec<char>) -> (at: usize)
    ensures
        at == span(line@, '\t'),
        at <= line@.len(),
{
    let mut at: usize = 0;
    while at < line.len() && line[at] != '\t'
        invariant
            at <= line@.len(),
            forall|j: int| 0 <= j < at ==> line@[j] != '\t',
        decreases line.len() - at,
    {
        at = at + 1;
    }
    proof {
        crate::text::lemma_span(line@, '\t', at as int);
    }
    at
}

/// The first `end` characters of a line.
fn take_field(line: &Vec<char>, end: usize) -> (field: Vec<char>)
    requires
        end <= line@.len(),
    ensures
        field@ == line@.take(end as int),
{
    let mut field: Vec<char> = Vec::new();
    let mut i: usize = 0;
    while i < end
        invariant
            i <= end <= line@.len(),
            field@ == line@.take(i as int),
        decreases end - i,
    {
        field.push(line[i]);
        proof {
            assert(field@ =~= line@.take(i as int + 1));
        }
        i = i + 1;
    }
    field
}

} // verus!
