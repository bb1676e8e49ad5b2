//! The two ends of a speed test together: what one end measures reaches the other one
//! unchanged, and both come to one result or to none.

use vstd::prelude::*;

use crate::speed::{Measured, RunAction, RunEvent, RunStage, RunView};
use crate::speed_control::{SpeedControl, SpeedLease};

verus! {

/// What some steps send, in order.
pub open spec fn controls(actions: Seq<RunAction>) -> Seq<SpeedControl>
    decreases actions.len(),
{
    if actions.len() == 0 {
        Seq::empty()
    } else {
        match actions.last() {
            RunAction::Send(_, control) => controls(actions.drop_last()).push(control),
            _ => controls(actions.drop_last()),
        }
    }
}

/// A test whose ends have just become ready.
pub open spec fn begun(lease: SpeedLease, receiver: bool) -> RunView {
    RunView {
        lease,
        receiver,
        stage: RunStage::Moving,
        next: 3,
        local: None,
        remote: None,
        problem: None,
    }
}

/// The control that reports a measurement.
pub open spec fn report(lease: SpeedLease, measured: Measured) -> SpeedControl {
    SpeedControl::Result { lease, bytes: measured.bytes, elapsed_ms: measured.elapsed_ms }
}

/// Whether every result on its way is what its end measured.
pub open spec fn speaks_for(run: RunView, wire: Seq<SpeedControl>) -> bool {
    forall|k: int|
        0 <= k < wire.len() ==> ((#[trigger] wire[k]) matches SpeedControl::Result {
            lease,
            bytes,
            elapsed_ms,
        } ==> run.local == Some(Measured { bytes, elapsed_ms }))
}

/// A test with everything that is on its way between its ends.
pub struct TestView {
    pub here: RunView,
    pub there: RunView,
    pub to_here: Seq<SpeedControl>,
    pub to_there: Seq<SpeedControl>,
}

impl TestView {
    /// What either end knows of the other one's measurement is what that end measured.
    pub open spec fn honest(self) -> bool {
        &&& self.here.valid()
        &&& self.there.valid()
        &&& self.here.receiver != self.there.receiver
        &&& speaks_for(self.here, self.to_there)
        &&& speaks_for(self.there, self.to_here)
        &&& self.here.remote is Some ==> self.here.remote == self.there.local
        &&& self.there.remote is Some ==> self.there.remote == self.here.local
    }

    /// The test seen from the other end.
    pub open spec fn turned(self) -> TestView {
        TestView {
            here: self.there,
            there: self.here,
            to_here: self.to_there,
            to_there: self.to_here,
        }
    }

    /// The test after something happened at this end other than a control that arrived.
    pub open spec fn moved(self, event: RunEvent) -> TestView {
        let (run, actions) = self.here.after(event);
        TestView { here: run, to_there: self.to_there + controls(actions), ..self }
    }

    /// The test after this end has taken the next control that is on its way.
    pub open spec fn told(self) -> TestView {
        let next = self.moved(RunEvent::Control(self.to_here[0]));
        TestView { to_here: self.to_here.skip(1), ..next }
    }
}

proof fn lemma_controls_push(actions: Seq<RunAction>, action: RunAction)
    ensures
        controls(actions.push(action)) == (match action {
            RunAction::Send(_, control) => controls(actions).push(control),
            _ => controls(actions),
        }),
{
    assert(actions.push(action).drop_last() =~= actions);
}

proof fn lemma_controls_of_few(actions: Seq<RunAction>)
    requires
        actions.len() <= 3,
    ensures
        actions.len() == 0 ==> controls(actions) == Seq::<SpeedControl>::empty(),
        actions.len() == 1 ==> controls(actions) == (match actions[0] {
            RunAction::Send(_, control) => seq![control],
            _ => Seq::empty(),
        }),
        actions.len() == 2 ==> controls(actions) == (match actions[0] {
            RunAction::Send(_, control) => seq![control],
            _ => Seq::empty(),
        }) + (match actions[1] {
            RunAction::Send(_, control) => seq![control],
            _ => Seq::empty(),
        }),
        actions.len() == 3 ==> controls(actions) == (match actions[0] {
            RunAction::Send(_, control) => seq![control],
            _ => Seq::empty(),
        }) + (match actions[1] {
            RunAction::Send(_, control) => seq![control],
            _ => Seq::empty(),
        }) + (match actions[2] {
            RunAction::Send(_, control) => seq![control],
            _ => Seq::empty(),
        }),
    decreases actions.len(),
{
    let none = Seq::<RunAction>::empty();
    assert(controls(none) =~= Seq::empty());
    if actions.len() == 1 {
        lemma_controls_push(none, actions[0]);
        assert(actions =~= none.push(actions[0]));
        assert(controls(actions) =~= match actions[0] {
            RunAction::Send(_, control) => seq![control],
            _ => Seq::empty(),
        });
    } else if actions.len() > 1 {
        let front = actions.drop_last();
        lemma_controls_of_few(front);
        lemma_controls_push(front, actions.last());
        assert(actions =~= front.push(actions.last()));
        if actions.len() == 2 {
            assert(controls(actions) =~= (match actions[0] {
                RunAction::Send(_, control) => seq![control],
                _ => Seq::empty(),
            }) + (match actions[1] {
                RunAction::Send(_, control) => seq![control],
                _ => Seq::empty(),
            }));
        } else {
            assert(controls(actions) =~= (match actions[0] {
                RunAction::Send(_, control) => seq![control],
                _ => Seq::empty(),
            }) + (match actions[1] {
                RunAction::Send(_, control) => seq![control],
                _ => Seq::empty(),
            }) + (match actions[2] {
                RunAction::Send(_, control) => seq![control],
                _ => Seq::empty(),
            }));
        }
    }
}

/// An end whose data have moved reports what it measured, the bytes and the time, and
/// reports nothing else.
pub proof fn ends_report_what_they_measured(run: RunView, measured: Measured)
    requires
        run.valid(),
        run.stage == RunStage::Moving,
    ensures
        ({
            let (after, actions) = run.after(RunEvent::DataDone(measured));
            &&& controls(actions).len() > 0
            &&& controls(actions)[0] == report(run.lease, measured)
            &&& after.local == Some(measured)
            &&& forall|k: int|
                1 <= k < controls(actions).len() ==> (#[trigger] controls(actions)[k])
                    == SpeedControl::Finished(run.lease)
        }),
{
    lemma_controls_of_few(run.after(RunEvent::DataDone(measured)).1);
}

/// What happens at one end keeps the test honest: a user's wish, the end of its data, or
/// a control of the other end.
pub proof fn events_keep_tests_honest(test: TestView, event: RunEvent)
    requires
        test.honest(),
        event is DataDone || event is CancelRequested || (test.to_here.len() > 0 && event
            == RunEvent::Control(test.to_here[0])),
    ensures
        test.moved(event).honest(),
        event is Control ==> test.told().honest(),
{
    let run = test.here;
    let (after, actions) = run.after(event);
    assert(actions.len() <= 3);
    lemma_controls_of_few(actions);
    let added = controls(actions);
    let wire = test.to_there + added;
    assert(run.local is Some ==> after.local == run.local);
    assert forall|k: int| 0 <= k < wire.len() implies ((#[trigger] wire[k]) matches
        SpeedControl::Result { lease, bytes, elapsed_ms } ==> after.local == Some(
        Measured { bytes, elapsed_ms },
    )) by {
        if k < test.to_there.len() {
            assert(wire[k] == test.to_there[k]);
        } else {
            assert(wire[k] == added[k - test.to_there.len()]);
        }
    }
    assert(after.valid());
    assert(test.moved(event).honest());
    if event is Control {
        let rest = test.to_here.skip(1);
        assert forall|k: int| 0 <= k < rest.len() implies ((#[trigger] rest[k]) matches
            SpeedControl::Result { lease, bytes, elapsed_ms } ==> test.there.local == Some(
            Measured { bytes, elapsed_ms },
        )) by {
            assert(rest[k] == test.to_here[k + 1]);
        }
    }
}

/// A test begins honest, and is so seen from either end.
pub proof fn tests_begin_honest(lease: SpeedLease, other: SpeedLease, receiver: bool)
    ensures
        (TestView {
            here: begun(lease, receiver),
            there: begun(other, !receiver),
            to_here: Seq::empty(),
            to_there: Seq::empty(),
        }).honest(),
{
}

/// Seen from the other end, an honest test is honest.
pub proof fn honesty_is_mutual(test: TestView)
    ensures
        test.turned().honest() == test.honest(),
{
}

/// Both ends of a completed test have one result, bytes and time: what the receiving end
/// measured.
pub proof fn completed_ends_have_one_result(test: TestView)
    requires
        test.honest(),
        test.here.stage == RunStage::Completed,
        test.there.stage == RunStage::Completed,
    ensures
        test.here.result() == test.there.result(),
        test.here.receiver ==> test.here.local == Some(test.here.result()),
        test.there.receiver ==> test.there.local == Some(test.here.result()),
{
}

/// Two measurements of the same bytes, each in a time that the test allows.
pub open spec fn plausible(sent: Measured, got: Measured, seconds: u16) -> bool {
    &&& sent.bytes == got.bytes
    &&& got.bytes > 0
    &&& 0 < sent.elapsed_ms <= seconds * 1000 + 60000
    &&& 0 < got.elapsed_ms <= seconds * 1000 + 60000
}

/// Two ends that measured the same bytes in the time that is allowed both complete, with
/// what the receiving end measured, whichever of them was done first.
pub proof fn plausible_tests_complete(lease: SpeedLease, sent: Measured, got: Measured)
    requires
        plausible(sent, got, lease.seconds),
    ensures
        ({
            let finished = RunEvent::Control(SpeedControl::Finished(lease));
            let sender = begun(lease, false).after(RunEvent::DataDone(sent)).0.after(
                RunEvent::Control(report(lease, got)),
            );
            let late = begun(lease, false).after(RunEvent::Control(report(lease, got))).0.after(
                RunEvent::DataDone(sent),
            );
            let receiver = begun(lease, true).after(RunEvent::Control(report(lease, sent))).0.after(
                RunEvent::DataDone(got),
            );
            let early = begun(lease, true).after(RunEvent::DataDone(got)).0.after(
                RunEvent::Control(report(lease, sent)),
            );
            &&& controls(sender.1) == seq![SpeedControl::Finished(lease)]
            &&& controls(late.1) == seq![report(lease, sent), SpeedControl::Finished(lease)]
            &&& controls(receiver.1) == seq![report(lease, got), SpeedControl::Finished(lease)]
            &&& controls(early.1) == seq![SpeedControl::Finished(lease)]
            &&& sender.1.contains(RunAction::MarkFinishing)
            &&& late.1.contains(RunAction::MarkFinishing)
            &&& receiver.1.contains(RunAction::MarkFinishing)
            &&& early.1.contains(RunAction::MarkFinishing)
            &&& forall|run: RunView|
                run == sender.0 || run == late.0 || run == receiver.0 || run == early.0 ==> {
                    let (end, last) = (#[trigger] run.after(finished));
                    &&& end.stage == RunStage::Completed
                    &&& end.result() == got
                    &&& end.problem is None
                    &&& last == seq![RunAction::CloseStream]
                }
        }),
{
    let finished = RunEvent::Control(SpeedControl::Finished(lease));
    let sender = begun(lease, false).after(RunEvent::DataDone(sent)).0.after(
        RunEvent::Control(report(lease, got)),
    );
    let late = begun(lease, false).after(RunEvent::Control(report(lease, got))).0.after(
        RunEvent::DataDone(sent),
    );
    let receiver = begun(lease, true).after(RunEvent::Control(report(lease, sent))).0.after(
        RunEvent::DataDone(got),
    );
    let early = begun(lease, true).after(RunEvent::DataDone(got)).0.after(
        RunEvent::Control(report(lease, sent)),
    );
    lemma_controls_of_few(sender.1);
    lemma_controls_of_few(late.1);
    lemma_controls_of_few(receiver.1);
    lemma_controls_of_few(early.1);
    assert(sender.1[0] == RunAction::MarkFinishing);
    assert(late.1[1] == RunAction::MarkFinishing);
    assert(receiver.1[1] == RunAction::MarkFinishing);
    assert(early.1[0] == RunAction::MarkFinishing);
    assert(controls(sender.1) =~= seq![SpeedControl::Finished(lease)]);
    assert(controls(early.1) =~= seq![SpeedControl::Finished(lease)]);
    assert(controls(late.1) =~= seq![report(lease, sent), SpeedControl::Finished(lease)]);
    assert(controls(receiver.1) =~= seq![report(lease, got), SpeedControl::Finished(lease)]);
}

/// Ends that measured different bytes, none, or a time that the test does not allow come
/// to no result.
pub proof fn implausible_reports_fail_the_test(
    run: RunView,
    lease: SpeedLease,
    local: Measured,
    remote: Measured,
)
    requires
        run.valid(),
        run.stage == RunStage::AwaitingResult,
        run.local == Some(local),
        lease@ == run.lease@,
        local.bytes != remote.bytes || remote.bytes == 0 || remote.elapsed_ms == 0
            || remote.elapsed_ms > run.lease.seconds * 1000 + 60000,
    ensures
        run.after(RunEvent::Control(report(lease, remote))).0.stage == RunStage::Failed,
        run.after(RunEvent::Control(report(lease, remote))).1.len() == 0,
{
}

/// A test that is cancelled at one end while data move or a result is awaited is
/// cancelled at the other end, which confirms it, wherever that end stands; then it is
/// cancelled at both.
pub proof fn cancelled_tests_end_at_both_ends(here: RunView, there: RunView)
    requires
        here.valid(),
        there.valid(),
        here.lease@ == there.lease@,
        here.stage == RunStage::Moving || here.stage == RunStage::AwaitingResult,
        there.stage == RunStage::Moving || there.stage == RunStage::AwaitingResult || there.stage
            == RunStage::AwaitingFinish || there.stage == RunStage::Cancelling,
    ensures
        ({
            let (asking, asked) = here.after(RunEvent::CancelRequested);
            let (told, answer) = there.after(RunEvent::Control(SpeedControl::Cancel(here.lease)));
            let (end, last) = asking.after(RunEvent::Control(SpeedControl::Finished(there.lease)));
            &&& asking.stage == RunStage::Cancelling
            &&& asked[0] == RunAction::MarkFinishing
            &&& controls(asked) == seq![SpeedControl::Cancel(here.lease)]
            &&& told.stage == RunStage::Cancelled
            &&& controls(answer) == seq![SpeedControl::Finished(there.lease)]
            &&& answer.last() == RunAction::CloseStream
            &&& end.stage == RunStage::Cancelled
            &&& last == seq![RunAction::CloseStream]
        }),
{
    let asked = here.after(RunEvent::CancelRequested).1;
    let answer = there.after(RunEvent::Control(SpeedControl::Cancel(here.lease))).1;
    lemma_controls_of_few(asked);
    lemma_controls_of_few(answer);
    assert(controls(asked) =~= seq![SpeedControl::Cancel(here.lease)]);
    assert(controls(answer) =~= seq![SpeedControl::Finished(there.lease)]);
}

/// An end that wants to cancel passes over the results that are still on their way.
pub proof fn cancelling_ends_pass_over_results(run: RunView, lease: SpeedLease, late: Measured)
    requires
        run.stage == RunStage::Cancelling,
        lease@ == run.lease@,
    ensures
        run.after(RunEvent::Control(report(lease, late))) == (run, Seq::<RunAction>::empty()),
{
}

/// A control of another test fails the test that it reaches, and sends nothing.
pub proof fn controls_of_other_tests_fail(run: RunView, lease: SpeedLease, measured: Measured)
    requires
        run.stage == RunStage::Moving || run.stage == RunStage::AwaitingResult || run.stage
            == RunStage::AwaitingFinish || run.stage == RunStage::Cancelling,
        lease@ != run.lease@,
    ensures
        forall|control: SpeedControl|
            control == SpeedControl::Cancel(lease) || control == SpeedControl::Finished(lease)
                || control == report(lease, measured) ==> {
                let (after, actions) = #[trigger] run.after(RunEvent::Control(control));
                after.stage == RunStage::Failed && after.problem is Some && actions.len() == 0
            },
{
}

/// A test that the peer cancels while data or results are on their way is marked as ending
/// before that is acknowledged, so that no other test is begun meanwhile.
pub proof fn cancelled_tests_are_marked_first(run: RunView)
    requires
        run.stage == RunStage::Moving || run.stage == RunStage::AwaitingResult,
    ensures
        run.after(RunEvent::Control(SpeedControl::Cancel(run.lease))).1 == seq![
            RunAction::MarkFinishing,
            RunAction::Send(run.next, SpeedControl::Finished(run.lease)),
            RunAction::CloseStream,
        ],
        run.after(RunEvent::CancelRequested).1 == seq![
            RunAction::MarkFinishing,
            RunAction::Send(run.next, SpeedControl::Cancel(run.lease)),
        ],
{
    assert(run.after(RunEvent::Control(SpeedControl::Cancel(run.lease))).1 =~= seq![
        RunAction::MarkFinishing,
        RunAction::Send(run.next, SpeedControl::Finished(run.lease)),
        RunAction::CloseStream,
    ]);
}

} // verus!
