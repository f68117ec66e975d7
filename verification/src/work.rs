//! What an agent is doing, and who asked for it.
//!
//! Two lines bracket a task: started, then finished or failed with one line
//! about why. Nobody writes a status field; whether someone is on a proposal
//! is what the log adds up to, which is the only version of the answer that
//! cannot go stale.

use vstd::prelude::*;

use crate::chunk::{line_refusal, one_line, opt_string_view, same_opt_text, Field};
use crate::errors::Error;
use crate::identity::{Author, Sha};
use crate::text::{copy_str, is_space, opt_chars, same_text, trim, trim_end, trim_start, trimmed};
use crate::record::RecordView;
use crate::timestamp::Timestamp;
use crate::wire::annotation::{record_writable, writable_moment};

verus! {

/// What an agent was asked to do. The set is closed because a task nobody can
/// run is a record nobody can act on.
#[derive(Debug, Clone, Copy, PartialEq, Eq, Hash)]
pub enum Task {
    /// Answer the open notes and leave a revision.
    Apply,
    /// Move the work onto a target that ran ahead.
    Rebase,
    /// Run what the repository declares.
    Check,
}

/// The word the wire format uses for a task.
pub open spec fn task_word(task: Task) -> Seq<char> {
    match task {
        Task::Apply => "apply"@,
        Task::Rebase => "rebase"@,
        Task::Check => "check"@,
    }
}

/// The task a word names, once trimmed, if this build runs it.
pub open spec fn task_named(word: Seq<char>) -> Option<Task> {
    let w = trimmed(word);
    if w == task_word(Task::Apply) {
        Some(Task::Apply)
    } else if w == task_word(Task::Rebase) {
        Some(Task::Rebase)
    } else if w == task_word(Task::Check) {
        Some(Task::Check)
    } else {
        None
    }
}

impl Task {
    /// Read a task off the wire or a command line, trimmed. A task this build
    /// does not run is refused, carrying the text as it came.
    pub fn parse(raw: &str) -> (r: Result<Task, Error>)
        ensures
            task_named(raw@) matches Some(t) ==> r == Ok::<Task, Error>(t),
            task_named(raw@) is None ==> (r matches Err(Error::UnknownTask(t)) && t@ == raw@),
    {
        let word = trim(raw);
        if same_text(word.as_str(), "apply") {
            Ok(Task::Apply)
        } else if same_text(word.as_str(), "rebase") {
            Ok(Task::Rebase)
        } else if same_text(word.as_str(), "check") {
            Ok(Task::Check)
        } else {
            Err(Error::UnknownTask(copy_str(raw)))
        }
    }

    /// The word the wire format uses.
    pub fn as_str(self) -> (s: &'static str)
        ensures
            s@ == task_word(self),
    {
        match self {
            Task::Apply => "apply",
            Task::Rebase => "rebase",
            Task::Check => "check",
        }
    }
}

/// Where a task is: it started, it finished, or it did not.
#[derive(Debug, Clone, Copy, PartialEq, Eq, Hash)]
pub enum Phase {
    /// Somebody has it in hand.
    Started,
    /// It was carried to the end.
    Finished,
    /// It was tried and did not work.
    Failed,
    /// A claim handed back without an answer, which is what a runner killed
    /// mid-job leaves behind. Not a failure: the task stays available.
    Cleared,
}

/// The word the wire format uses for a phase.
pub open spec fn phase_word(phase: Phase) -> Seq<char> {
    match phase {
        Phase::Started => "started"@,
        Phase::Finished => "finished"@,
        Phase::Failed => "failed"@,
        Phase::Cleared => "cleared"@,
    }
}

/// The phase a word names, once trimmed, if this build knows it.
pub open spec fn phase_named(word: Seq<char>) -> Option<Phase> {
    let w = trimmed(word);
    if w == phase_word(Phase::Started) {
        Some(Phase::Started)
    } else if w == phase_word(Phase::Finished) {
        Some(Phase::Finished)
    } else if w == phase_word(Phase::Failed) {
        Some(Phase::Failed)
    } else if w == phase_word(Phase::Cleared) {
        Some(Phase::Cleared)
    } else {
        None
    }
}

impl Phase {
    /// Read a phase off the wire or a command line, trimmed. A phase this
    /// build does not know is refused, carrying the text as it came.
    pub fn parse(raw: &str) -> (r: Result<Phase, Error>)
        ensures
            phase_named(raw@) matches Some(p) ==> r == Ok::<Phase, Error>(p),
            phase_named(raw@) is None ==> (r matches Err(Error::UnknownPhase(t)) && t@ == raw@),
    {
        let word = trim(raw);
        if same_text(word.as_str(), "started") {
            Ok(Phase::Started)
        } else if same_text(word.as_str(), "finished") {
            Ok(Phase::Finished)
        } else if same_text(word.as_str(), "failed") {
            Ok(Phase::Failed)
        } else if same_text(word.as_str(), "cleared") {
            Ok(Phase::Cleared)
        } else {
            Err(Error::UnknownPhase(copy_str(raw)))
        }
    }

    /// The word the wire format uses.
    pub fn as_str(self) -> (s: &'static str)
        ensures
            s@ == phase_word(self),
    {
        match self {
            Phase::Started => "started",
            Phase::Finished => "finished",
            Phase::Failed => "failed",
            Phase::Cleared => "cleared",
        }
    }
}

/// One line of what an agent did, appended as it happens.
#[derive(Debug, PartialEq, Eq)]
pub struct Work {
    revision: Sha,
    task: Task,
    phase: Phase,
    agent: Author,
    note: Option<String>,
    at: Timestamp,
}

/// What a work line says.
pub struct WorkView {
    pub revision: Seq<char>,
    pub task: Task,
    pub phase: Phase,
    pub agent: Seq<char>,
    pub note: Option<Seq<char>>,
    pub at: i64,
}

impl View for Work {
    type V = WorkView;

    closed spec fn view(&self) -> WorkView {
        WorkView {
            revision: self.revision@,
            task: self.task,
            phase: self.phase,
            agent: self.agent@,
            note: opt_string_view(self.note),
            at: self.at@,
        }
    }
}

/// Why a work line's note is refused, or nothing when it fits or is absent.
pub open spec fn note_refusal(note: Option<Seq<char>>) -> Option<Error> {
    match note {
        None => None,
        Some(raw) => line_refusal(Field::Note, raw),
    }
}

/// The note a work line keeps: absent when blank.
pub open spec fn kept_note(note: Option<Seq<char>>) -> Option<Seq<char>> {
    match note {
        None => None,
        Some(raw) => if trimmed(raw).len() == 0 {
            None
        } else {
            Some(trimmed(raw))
        },
    }
}

impl Task {
    /// Whether two tasks are the same task.
    pub fn same(self, other: Task) -> (b: bool)
        ensures
            b == (self == other),
    {
        proof {
            law_task_word_round_trip(self);
            law_task_word_round_trip(other);
        }
        same_text(self.as_str(), other.as_str())
    }
}

impl Phase {
    /// Whether two phases are the same phase.
    pub fn same(self, other: Phase) -> (b: bool)
        ensures
            b == (self == other),
    {
        proof {
            law_phase_word_round_trip(self);
            law_phase_word_round_trip(other);
        }
        same_text(self.as_str(), other.as_str())
    }
}

impl Clone for Work {
    fn clone(&self) -> (r: Work)
        ensures
            r@ == self@,
    {
        self.duplicate()
    }
}

impl Work {
    /// Every value is built by the constructors here, which validate it.
    #[verifier::type_invariant]
    pub(crate) closed spec fn is_sound(self) -> bool {
        crate::wire::annotation::record_sound(crate::record::RecordView::Work(self@))
    }

    /// What the invariant says of the record.
    pub(crate) proof fn lemma_sound(x: Work)
        requires
            x.is_sound(),
        ensures
            crate::wire::annotation::record_sound(crate::record::RecordView::Work(x@)),
    {
    }

    /// Whether two work lines say the same thing at the same moment.
    pub fn same(&self, other: &Work) -> (b: bool)
        ensures
            b == (self@ == other@),
    {
        self.revision.same(&other.revision) && self.task.same(other.task) && self.phase.same(
            other.phase,
        ) && same_text(self.agent.as_str(), other.agent.as_str()) && same_opt_text(
            &self.note,
            &other.note,
        ) && self.at.unix() == other.at.unix()
    }

    /// The only way to build one. A note over its ceiling, or carrying more
    /// than one line, is refused; a blank note is no note.
    pub fn new(
        revision: Sha,
        task: Task,
        phase: Phase,
        agent: Author,
        note: Option<&str>,
        at: Timestamp,
    ) -> (r: Result<Work, Error>)
        ensures
            note_refusal(opt_chars(note)) matches Some(e) ==> r == Err::<Work, Error>(e),
            note_refusal(opt_chars(note)) is None ==> (r matches Ok(w) && w@ == (WorkView {
                revision: revision@,
                task,
                phase,
                agent: agent@,
                note: kept_note(opt_chars(note)),
                at: at@,
            })),
            note_refusal(opt_chars(note)) is None && writable_moment(at@) ==> (r matches Ok(w)
                && record_writable(RecordView::Work(w@))),
    {
        proof {
            use_type_invariant(&revision);
            use_type_invariant(&agent);
            Sha::lemma_commit_name(revision);
            Author::lemma_valid(agent);
            if let Some(raw) = note {
                crate::text::lemma_trimmed_twice(raw@);
            }
        }
        let note = match note {
            None => None,
            Some(raw) => {
                let said = one_line(Field::Note, raw)?;
                if said.as_str().is_empty() {
                    None
                } else {
                    Some(said)
                }
            },
        };
        Ok(Work { revision, task, phase, agent, note, at })
    }

    /// The head the work was about.
    pub fn revision(&self) -> (s: &Sha)
        ensures
            s@ == self@.revision,
    {
        &self.revision
    }

    /// What was being done.
    pub fn task(&self) -> (t: Task)
        ensures
            t == self@.task,
    {
        self.task
    }

    /// How far it got.
    pub fn phase(&self) -> (p: Phase)
        ensures
            p == self@.phase,
    {
        self.phase
    }

    /// Who was doing it.
    pub fn agent(&self) -> (a: &Author)
        ensures
            a@ == self@.agent,
    {
        &self.agent
    }

    /// The one line it left behind, usually why it stopped.
    pub fn note(&self) -> (n: Option<&str>)
        ensures
            opt_chars(n) == self@.note,
    {
        match &self.note {
            Some(s) => Some(s.as_str()),
            None => None,
        }
    }

    /// When, to the second, in UTC.
    pub fn at(&self) -> (t: Timestamp)
        ensures
            t@ == self@.at,
    {
        self.at
    }

    /// A copy of it.
    pub fn duplicate(&self) -> (w: Work)
        ensures
            w@ == self@,
    {
        proof {
            use_type_invariant(self);
        }
        Work {
            revision: self.revision.duplicate(),
            task: self.task,
            phase: self.phase,
            agent: self.agent.duplicate(),
            note: match &self.note {
                Some(s) => Some(s.clone()),
                None => None,
            },
            at: self.at,
        }
    }
}

/// A person handing the open notes to an agent.
///
/// It carries nothing but the revision it was asked about, because everything
/// the agent needs to read is already in the log.
#[derive(Debug, PartialEq, Eq)]
pub struct Dispatch {
    revision: Sha,
    author: Author,
    at: Timestamp,
}

/// What a dispatch says.
pub struct DispatchView {
    pub revision: Seq<char>,
    pub author: Seq<char>,
    pub at: i64,
}

impl View for Dispatch {
    type V = DispatchView;

    closed spec fn view(&self) -> DispatchView {
        DispatchView { revision: self.revision@, author: self.author@, at: self.at@ }
    }
}

impl Clone for Dispatch {
    fn clone(&self) -> (r: Dispatch)
        ensures
            r@ == self@,
    {
        self.duplicate()
    }
}

impl Dispatch {
    /// Every value is built by the constructors here, which validate it.
    #[verifier::type_invariant]
    pub(crate) closed spec fn is_sound(self) -> bool {
        crate::wire::annotation::record_sound(crate::record::RecordView::Dispatch(self@))
    }

    /// What the invariant says of the record.
    pub(crate) proof fn lemma_sound(x: Dispatch)
        requires
            x.is_sound(),
        ensures
            crate::wire::annotation::record_sound(crate::record::RecordView::Dispatch(x@)),
    {
    }

    /// Whether two dispatches are the same hand-over.
    pub fn same(&self, other: &Dispatch) -> (b: bool)
        ensures
            b == (self@ == other@),
    {
        self.revision.same(&other.revision) && same_text(
            self.author.as_str(),
            other.author.as_str(),
        ) && self.at.unix() == other.at.unix()
    }

    /// The only way to build one. Nothing here can be refused.
    pub fn new(revision: Sha, author: Author, at: Timestamp) -> (d: Dispatch)
        ensures
            d@ == (DispatchView { revision: revision@, author: author@, at: at@ }),
            writable_moment(at@) ==> record_writable(RecordView::Dispatch(d@)),
    {
        proof {
            use_type_invariant(&revision);
            use_type_invariant(&author);
            Sha::lemma_commit_name(revision);
            Author::lemma_valid(author);
        }
        Dispatch { revision, author, at }
    }

    /// The head it was asked about.
    pub fn revision(&self) -> (s: &Sha)
        ensures
            s@ == self@.revision,
    {
        &self.revision
    }

    /// Who asked.
    pub fn author(&self) -> (a: &Author)
        ensures
            a@ == self@.author,
    {
        &self.author
    }

    /// When, to the second, in UTC.
    pub fn at(&self) -> (t: Timestamp)
        ensures
            t@ == self@.at,
    {
        self.at
    }

    /// A copy of it.
    pub fn duplicate(&self) -> (d: Dispatch)
        ensures
            d@ == self@,
    {
        proof {
            use_type_invariant(self);
        }
        Dispatch { revision: self.revision.duplicate(), author: self.author.duplicate(), at: self.at }
    }
}

/// What the work log adds up to right now.
///
/// One agent works on a proposal at a time, so the last line wins and there is
/// nothing to merge.
#[derive(Debug, Clone, PartialEq, Eq)]
pub struct Activity {
    phase: Phase,
    task: Task,
    agent: Author,
    since: Timestamp,
    note: Option<String>,
}

/// What an activity says.
pub struct ActivityView {
    pub phase: Phase,
    pub task: Task,
    pub agent: Seq<char>,
    pub since: i64,
    pub note: Option<Seq<char>>,
}

impl View for Activity {
    type V = ActivityView;

    closed spec fn view(&self) -> ActivityView {
        ActivityView {
            phase: self.phase,
            task: self.task,
            agent: self.agent@,
            since: self.since@,
            note: opt_string_view(self.note),
        }
    }
}

impl Activity {
    /// Whether an agent has this proposal in hand.
    pub fn working(&self) -> (b: bool)
        ensures
            b == (self@.phase == Phase::Started),
    {
        match self.phase {
            Phase::Started => true,
            _ => false,
        }
    }

    /// Whether the last thing tried did not work.
    pub fn failed(&self) -> (b: bool)
        ensures
            b == (self@.phase == Phase::Failed),
    {
        match self.phase {
            Phase::Failed => true,
            _ => false,
        }
    }

    /// Whether nobody is on it. A finished task and a handed-back claim are
    /// both idle.
    pub fn idle(&self) -> (b: bool)
        ensures
            b == (self@.phase != Phase::Started && self@.phase != Phase::Failed),
    {
        !self.working() && !self.failed()
    }

    /// Where the last task got to.
    pub fn phase(&self) -> (p: Phase)
        ensures
            p == self@.phase,
    {
        self.phase
    }

    /// What is being done, or what failed.
    pub fn task(&self) -> (t: Task)
        ensures
            t == self@.task,
    {
        self.task
    }

    /// Who is doing it.
    pub fn agent(&self) -> (a: &Author)
        ensures
            a@ == self@.agent,
    {
        &self.agent
    }

    /// When the current phase began.
    pub fn since(&self) -> (t: Timestamp)
        ensures
            t@ == self@.since,
    {
        self.since
    }

    /// The line the agent left, usually the reason it stopped.
    pub fn note(&self) -> (n: Option<&str>)
        ensures
            opt_chars(n) == self@.note,
    {
        match &self.note {
            Some(s) => Some(s.as_str()),
            None => None,
        }
    }
}

/// The position of the record that wins a fold: the latest moment, and among
/// records sharing it the one written last; `-1` for an empty log.
pub open spec fn latest_index(work: Seq<WorkView>) -> int
    decreases work.len(),
{
    if work.len() == 0 {
        -1
    } else {
        let best = latest_index(work.drop_last());
        if best < 0 || work.last().at >= work[best].at {
            work.len() - 1
        } else {
            best
        }
    }
}

/// What a work record says about who is on a proposal.
pub open spec fn activity_of(w: WorkView) -> ActivityView {
    ActivityView { phase: w.phase, task: w.task, agent: w.agent, since: w.at, note: w.note }
}

/// What a work log adds up to: the record that wins, or nobody for an empty log.
pub open spec fn activity_spec(work: Seq<WorkView>) -> Option<ActivityView> {
    if work.len() == 0 {
        None
    } else {
        Some(activity_of(work[latest_index(work)]))
    }
}

/// The views of a run of work records.
pub open spec fn work_views(work: Seq<Work>) -> Seq<WorkView> {
    work.map_values(|w: Work| w@)
}

/// The winning record is in range, no record is later than it, and none
/// written after it shares its moment.
pub proof fn law_latest_wins(work: Seq<WorkView>)
    requires
        work.len() > 0,
    ensures
        0 <= latest_index(work) < work.len(),
        forall|k: int| 0 <= k < work.len() ==> (#[trigger] work[k]).at <= work[latest_index(work)].at,
        forall|k: int| latest_index(work) < k < work.len() ==> (#[trigger] work[k]).at < work[latest_index(
            work,
        )].at,
    decreases work.len(),
{
    let d = work.drop_last();
    if work.len() == 1 {
        assert(latest_index(d) == -1);
    } else {
        law_latest_wins(d);
        assert forall|k: int| 0 <= k < work.len() - 1 implies work[k] == d[k] by {}
    }
}

/// Fold a work log in the order it happened: the latest record wins, and among
/// records sharing a moment the one written last does. An empty log is nobody
/// on it.
pub fn activity(work: &[Work]) -> (a: Option<Activity>)
    ensures
        match (a, activity_spec(work_views(work@))) {
            (Some(x), Some(y)) => x@ == y,
            (None, None) => true,
            _ => false,
        },
{
    let mut best: usize = 0;
    let mut found = false;
    let mut i: usize = 0;
    while i < work.len()
        invariant
            i <= work@.len(),
            found <==> i > 0,
            found ==> best < i && best as int == latest_index(work_views(work@.take(i as int))),
        decreases work.len() - i,
    {
        let ghost views = work_views(work@.take(i + 1));
        assert(views.drop_last() =~= work_views(work@.take(i as int)));
        assert(views.last() == work@[i as int]@);
        assert(found ==> views[best as int] == work@[best as int]@);
        if !found {
            assert(work_views(work@.take(i as int)).len() == 0);
            assert(latest_index(views.drop_last()) == -1);
        }
        if !found || work[i].at.not_before(work[best].at) {
            best = i;
        }
        assert(latest_index(views) == best as int);
        found = true;
        i = i + 1;
    }
    assert(work@.take(work@.len() as int) =~= work@);
    if !found {
        return None;
    }
    let w = &work[best];
    Some(
        Activity {
            phase: w.phase,
            task: w.task,
            agent: w.agent.duplicate(),
            since: w.at,
            note: match &w.note {
                Some(s) => Some(s.clone()),
                None => None,
            },
        },
    )
}

/// A word with no white space at either end is its own trim.
proof fn lemma_word_trimmed(w: Seq<char>)
    requires
        w.len() > 0,
        !is_space(w[0]),
        !is_space(w.last()),
    ensures
        trimmed(w) == w,
{
    assert(trim_start(w) == w);
    assert(trim_end(w) == w);
}

/// Every task reads back from the word it is written as.
pub proof fn law_task_word_round_trip(task: Task)
    ensures
        task_named(task_word(task)) == Some(task),
{
    reveal_strlit("apply");
    reveal_strlit("rebase");
    reveal_strlit("check");
    lemma_word_trimmed(task_word(task));
}

/// Every phase reads back from the word it is written as.
pub proof fn law_phase_word_round_trip(phase: Phase)
    ensures
        phase_named(phase_word(phase)) == Some(phase),
{
    reveal_strlit("started");
    reveal_strlit("finished");
    reveal_strlit("failed");
    reveal_strlit("cleared");
    lemma_word_trimmed(phase_word(phase));
}

} // verus!
