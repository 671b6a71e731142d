//! The course of one run, as a state machine.
//!
//! A driver lists the captures, hands the records to [`Run::new`], and then
//! calls [`Run::step`] again and again: each call says what to do next, and the
//! following call reports whether it went well. The driver waits
//! [`DOWNLOAD_DELAY_SECS`](crate::snapshot::DOWNLOAD_DELAY_SECS) before each
//! download it is asked for, and stops at `Finish`, `Abort` or
//! `ReportNoSnapshots`.

use vstd::prelude::*;
use crate::index::{lemma_empty_body_has_no_lines, lines_of, records_of};
use crate::snapshot::{
    playback_url, playback_url_of, save_path, save_path_of, ORIGINAL_URL_FIELD, TIMESTAMP_FIELD,
};

verus! {

/// Where a run stands.
#[derive(Clone, Copy, PartialEq, Eq, Debug, Structural)]
pub enum Stage {
    /// Records are in hand and nothing has been done with them.
    Ready,
    /// Records are being worked through.
    Working,
    /// Every record was handled, or there were none.
    Finished,
    /// A step failed; nothing more is done.
    Aborted,
}

/// What the driver reports of the action it was last given.
#[derive(Clone, Copy, PartialEq, Eq, Debug, Structural)]
pub enum Event {
    /// It was carried out (for the first call: the records are in hand).
    Proceed,
    /// It failed.
    Failed,
}

/// What the driver is to do next.
#[derive(Clone, Debug)]
pub enum Action {
    /// Say that the index holds no capture, and end.
    ReportNoSnapshots,
    /// Say how many records were found.
    Announce { count: usize },
    /// Wait, then download `url` into the file at `path`. `position` is the
    /// record's place in the listing, from zero.
    Fetch { position: usize, url: String, path: String },
    /// Pass over the record at `position`, which lacks a timestamp or a URL.
    SkipMalformed { position: usize },
    /// End: every record was handled.
    Finish,
    /// End in failure.
    Abort,
}

/// The mathematical content of an [`Action`].
pub enum ActionView {
    ReportNoSnapshots,
    Announce { count: nat },
    Fetch { position: nat, url: Seq<char>, path: Seq<char> },
    SkipMalformed { position: nat },
    Finish,
    Abort,
}

impl View for Action {
    type V = ActionView;

    open spec fn view(&self) -> ActionView {
        match self {
            Action::ReportNoSnapshots => ActionView::ReportNoSnapshots,
            Action::Announce { count } => ActionView::Announce { count: *count as nat },
            Action::Fetch { position, url, path } => ActionView::Fetch {
                position: *position as nat,
                url: url@,
                path: path@,
            },
            Action::SkipMalformed { position } => ActionView::SkipMalformed {
                position: *position as nat,
            },
            Action::Finish => ActionView::Finish,
            Action::Abort => ActionView::Abort,
        }
    }
}

/// One run over the records of a listing.
pub struct Run {
    records: Vec<Vec<String>>,
    output_dir: String,
    next: usize,
    stage: Stage,
}

/// The mathematical content of a [`Run`]: the records, the directory that
/// receives the captures, the position of the next record, and the stage.
pub struct RunView {
    pub records: Seq<Seq<Seq<char>>>,
    pub output_dir: Seq<char>,
    pub next: nat,
    pub stage: Stage,
}

impl View for Run {
    type V = RunView;

    closed spec fn view(&self) -> RunView {
        RunView {
            records: self.records.deep_view(),
            output_dir: self.output_dir@,
            next: self.next as nat,
            stage: self.stage,
        }
    }
}

/// A record that holds both a timestamp and an original URL.
pub open spec fn is_complete(record: Seq<Seq<char>>) -> bool {
    record.len() > ORIGINAL_URL_FIELD
}

/// A run that has only just been given its records.
pub open spec fn initial_run(records: Seq<Seq<Seq<char>>>, output_dir: Seq<char>) -> RunView {
    RunView { records, output_dir, next: 0, stage: Stage::Ready }
}

/// Stages at which a run does nothing more.
pub open spec fn is_terminal(stage: Stage) -> bool {
    stage == Stage::Finished || stage == Stage::Aborted
}

/// What a run does with the record at its next position.
pub open spec fn action_for_record(s: RunView) -> ActionView {
    let record = s.records[s.next as int];
    if is_complete(record) {
        ActionView::Fetch {
            position: s.next,
            url: playback_url_of(record[TIMESTAMP_FIELD as int], record[ORIGINAL_URL_FIELD as int]),
            path: save_path_of(s.output_dir, record[TIMESTAMP_FIELD as int]),
        }
    } else {
        ActionView::SkipMalformed { position: s.next }
    }
}

/// The action that a run in state `s` asks for on `e`.
pub open spec fn action_for(s: RunView, e: Event) -> ActionView {
    if s.stage == Stage::Finished {
        ActionView::Finish
    } else if s.stage == Stage::Aborted || e == Event::Failed {
        ActionView::Abort
    } else if s.stage == Stage::Ready {
        if s.records.len() == 0 {
            ActionView::ReportNoSnapshots
        } else {
            ActionView::Announce { count: s.records.len() }
        }
    } else if s.next >= s.records.len() {
        ActionView::Finish
    } else {
        action_for_record(s)
    }
}

/// The state that a run in state `s` moves to on `e`.
pub open spec fn next_run(s: RunView, e: Event) -> RunView {
    if is_terminal(s.stage) {
        s
    } else if e == Event::Failed {
        RunView { stage: Stage::Aborted, ..s }
    } else if s.stage == Stage::Ready {
        if s.records.len() == 0 {
            RunView { stage: Stage::Finished, ..s }
        } else {
            RunView { stage: Stage::Working, ..s }
        }
    } else if s.next >= s.records.len() {
        RunView { stage: Stage::Finished, ..s }
    } else {
        RunView { next: s.next + 1, ..s }
    }
}

/// The actions that a run starting in `s` asks for, one for each event of
/// `events` in turn.
pub open spec fn actions_after(s: RunView, events: Seq<Event>) -> Seq<ActionView>
    decreases events.len(),
{
    if events.len() == 0 {
        Seq::empty()
    } else {
        seq![action_for(s, events[0])] + actions_after(next_run(s, events[0]), events.drop_first())
    }
}

/// Once a run has finished or aborted it stays so, and every later call asks
/// for the same end again: `Finish` after finishing, `Abort` after aborting.
pub proof fn lemma_terminal_stays(s: RunView, events: Seq<Event>)
    requires
        is_terminal(s.stage),
    ensures
        actions_after(s, events).len() == events.len(),
        forall|i: int|
            0 <= i < events.len() ==> #[trigger] actions_after(s, events)[i] == if s.stage
                == Stage::Finished {
                ActionView::Finish
            } else {
                ActionView::Abort
            },
    decreases events.len(),
{
    if events.len() > 0 {
        lemma_terminal_stays(s, events.drop_first());
        let rest = actions_after(s, events.drop_first());
        assert forall|i: int| 0 <= i < events.len() implies #[trigger] actions_after(s, events)[i]
            == if s.stage == Stage::Finished {
            ActionView::Finish
        } else {
            ActionView::Abort
        } by {
            if i > 0 {
                assert(actions_after(s, events)[i] == rest[i - 1]);
            }
        }
    }
}

/// A failed step ends the run: the run aborts, and no later call asks for a
/// download, whatever is reported after it.
pub proof fn lemma_failure_ends_downloads(s: RunView, later: Seq<Event>)
    requires
        s.stage != Stage::Finished,
    ensures
        action_for(s, Event::Failed) == ActionView::Abort,
        next_run(s, Event::Failed).stage == Stage::Aborted,
        forall|i: int|
            0 <= i < later.len() ==> #[trigger] actions_after(next_run(s, Event::Failed), later)[i]
                == ActionView::Abort,
{
    lemma_terminal_stays(next_run(s, Event::Failed), later);
}

/// A run over no records reports that there is no capture and asks for no
/// download, whatever is reported to it.
pub proof fn lemma_no_records_no_downloads(output_dir: Seq<char>, events: Seq<Event>)
    ensures
        action_for(initial_run(Seq::empty(), output_dir), Event::Proceed)
            == ActionView::ReportNoSnapshots,
        forall|i: int|
            0 <= i < events.len() ==> !(#[trigger] actions_after(
                initial_run(Seq::empty(), output_dir),
                events,
            )[i] is Fetch),
{
    let s = initial_run(Seq::empty(), output_dir);
    if events.len() > 0 {
        let t = next_run(s, events[0]);
        lemma_terminal_stays(t, events.drop_first());
        assert forall|i: int| 0 <= i < events.len() implies !(#[trigger] actions_after(
            s,
            events,
        )[i] is Fetch) by {
            if i > 0 {
                assert(actions_after(s, events)[i] == actions_after(t, events.drop_first())[i - 1]);
            }
        }
    }
}

/// A response that holds only a header, or nothing at all, yields no record;
/// a run over its records reports that there is no capture and asks for no
/// download, whatever is reported to it.
pub proof fn lemma_header_only_listing_fetches_nothing(
    body: Seq<char>,
    output_dir: Seq<char>,
    events: Seq<Event>,
)
    requires
        lines_of(body).len() < 2,
    ensures
        records_of(body).len() == 0,
        lines_of(Seq::empty()).len() == 0,
        action_for(initial_run(records_of(body), output_dir), Event::Proceed)
            == ActionView::ReportNoSnapshots,
        forall|i: int|
            0 <= i < events.len() ==> !(#[trigger] actions_after(
                initial_run(records_of(body), output_dir),
                events,
            )[i] is Fetch),
{
    lemma_empty_body_has_no_lines();
    assert(records_of(body) == Seq::<Seq<Seq<char>>>::empty());
    lemma_no_records_no_downloads(output_dir, events);
}

/// `n` reports of success in a row.
pub open spec fn successes(n: nat) -> Seq<Event> {
    Seq::new(n, |i: int| Event::Proceed)
}

proof fn lemma_working_through(s: RunView, count: nat)
    requires
        s.stage == Stage::Working,
        s.next + count == s.records.len(),
    ensures
        actions_after(s, successes(count + 1)).len() == count + 1,
        forall|k: int|
            0 <= k < count ==> #[trigger] actions_after(s, successes(count + 1))[k]
                == action_for_record(RunView { next: (s.next + k) as nat, ..s }),
        actions_after(s, successes(count + 1))[count as int] == ActionView::Finish,
    decreases count,
{
    let events = successes(count + 1);
    if count == 0 {
        assert(events.drop_first() =~= Seq::<Event>::empty());
        assert(actions_after(next_run(s, events[0]), events.drop_first()) =~= Seq::empty());
    } else {
        let t = next_run(s, Event::Proceed);
        assert(events.drop_first() =~= successes(count as nat));
        lemma_working_through(t, (count - 1) as nat);
        let rest = actions_after(t, successes(count as nat));
        assert forall|k: int| 0 <= k < count implies #[trigger] actions_after(s, events)[k]
            == action_for_record(RunView { next: (s.next + k) as nat, ..s }) by {
            if k > 0 {
                assert(actions_after(s, events)[k] == rest[k - 1]);
                assert(RunView { next: (t.next + (k - 1)) as nat, ..t } == RunView {
                    next: (s.next + k) as nat,
                    ..s
                });
            }
        }
        assert(actions_after(s, events)[count as int] == rest[count - 1]);
    }
}

/// When every step succeeds, a run over a non-empty listing announces the
/// number of records, then handles each record once, in the order of the
/// listing (a download for each complete record, a skip for each other),
/// and then finishes.
pub proof fn lemma_records_handled_in_order(records: Seq<Seq<Seq<char>>>, output_dir: Seq<char>)
    requires
        records.len() > 0,
    ensures
        actions_after(initial_run(records, output_dir), successes(records.len() + 2)).len()
            == records.len() + 2,
        actions_after(initial_run(records, output_dir), successes(records.len() + 2))[0]
            == (ActionView::Announce { count: records.len() }),
        forall|k: int|
            0 <= k < records.len() ==> #[trigger] actions_after(
                initial_run(records, output_dir),
                successes(records.len() + 2),
            )[k + 1] == action_for_record(
                RunView { records, output_dir, next: k as nat, stage: Stage::Working },
            ),
        actions_after(initial_run(records, output_dir), successes(records.len() + 2))[records.len()
            + 1int] == ActionView::Finish,
{
    let s = initial_run(records, output_dir);
    let events = successes(records.len() + 2);
    let t = next_run(s, Event::Proceed);
    assert(events.drop_first() =~= successes(records.len() + 1));
    lemma_working_through(t, records.len());
    let rest = actions_after(t, successes(records.len() + 1));
    assert forall|k: int| 0 <= k < records.len() implies #[trigger] actions_after(s, events)[k + 1]
        == action_for_record(
        RunView { records, output_dir, next: k as nat, stage: Stage::Working },
    ) by {
        assert(actions_after(s, events)[k + 1] == rest[k]);
        assert(RunView { next: (t.next + k) as nat, ..t } == RunView {
            records,
            output_dir,
            next: k as nat,
            stage: Stage::Working,
        });
    }
    assert(actions_after(s, events)[records.len() + 1int] == rest[records.len() as int]);
}

impl Run {
    /// The run's own consistency: the next position lies within the records.
    pub open spec fn wf(&self) -> bool {
        self@.next <= self@.records.len()
    }

    /// Starts a run over `records`, saving captures under `output_dir`.
    pub fn new(records: Vec<Vec<String>>, output_dir: String) -> (r: Run)
        ensures
            r@ == initial_run(records.deep_view(), output_dir@),
            r.wf(),
    {
        Run { records, output_dir, next: 0, stage: Stage::Ready }
    }

    /// Where the run stands.
    pub fn stage(&self) -> (r: Stage)
        ensures
            r == self@.stage,
    {
        self.stage
    }

    /// Takes the outcome of the last action and says what to do next.
    pub fn step(&mut self, event: Event) -> (a: Action)
        requires
            old(self).wf(),
        ensures
            final(self).wf(),
            final(self)@ == next_run(old(self)@, event),
            a@ == action_for(old(self)@, event),
    {
        match self.stage {
            Stage::Finished => Action::Finish,
            Stage::Aborted => Action::Abort,
            Stage::Ready | Stage::Working => {
                if event == Event::Failed {
                    self.stage = Stage::Aborted;
                    Action::Abort
                } else if self.stage == Stage::Ready {
                    if self.records.len() == 0 {
                        self.stage = Stage::Finished;
                        Action::ReportNoSnapshots
                    } else {
                        self.stage = Stage::Working;
                        Action::Announce { count: self.records.len() }
                    }
                } else if self.next >= self.records.len() {
                    self.stage = Stage::Finished;
                    Action::Finish
                } else {
                    let position = self.next;
                    let record = &self.records[position];
                    assert(record.deep_view() == self@.records[position as int]);
                    let a = if record.len() > ORIGINAL_URL_FIELD {
                        let timestamp = record[TIMESTAMP_FIELD].as_str();
                        let original_url = record[ORIGINAL_URL_FIELD].as_str();
                        let url = playback_url(timestamp, original_url);
                        let path = save_path(self.output_dir.as_str(), timestamp);
                        Action::Fetch { position, url, path }
                    } else {
                        Action::SkipMalformed { position }
                    };
                    self.next = position + 1;
                    a
                }
            },
        }
    }
}

} // verus!
