//! Pauses and completion as both ends and the binding between them see them: what either
//! end asks for reaches the other one, and both come to the same end.

use vstd::prelude::*;

use crate::exchange::{announced, chunk_input};
use crate::manifest::is_bitmap;
use crate::protocol::{Actor, Binding, Both, Frame, Message, WireTaskState};
use crate::task_model::{TaskId, TaskState};
use crate::transfer_loops::{
    lemma_chunk_keeps_validity, paused_steps, without, ReceiverView, SenderView, TransferAction,
    TransferInput,
};

verus! {

/// The messages among some steps, in order.
pub open spec fn messages(actions: Seq<TransferAction>) -> Seq<Message>
    decreases actions.len(),
{
    if actions.len() == 0 {
        Seq::empty()
    } else {
        match actions.last() {
            TransferAction::Send(message) => messages(actions.drop_last()).push(message),
            _ => messages(actions.drop_last()),
        }
    }
}

/// A message as it reaches an end.
pub open spec fn received(request_id: u64, message: Message) -> TransferInput {
    TransferInput::Received(Frame { request_id, message })
}

/// Whether a receiver takes the chunks that it waits for, one after the other.
pub open spec fn accepts(receiver: ReceiverView, contents: Seq<Vec<u8>>) -> bool
    decreases contents.len(),
{
    contents.len() == 0 || {
        let input = chunk_input(receiver.id, 0, receiver.outstanding[0], contents[0]);
        receiver.refusal(input) is None && accepts(
            receiver.told(input, false).0,
            contents.skip(1),
        )
    }
}

/// A receiver after these chunks have arrived.
pub open spec fn arrived(receiver: ReceiverView, contents: Seq<Vec<u8>>) -> ReceiverView
    decreases contents.len(),
{
    if contents.len() == 0 {
        receiver
    } else {
        let input = chunk_input(receiver.id, 0, receiver.outstanding[0], contents[0]);
        arrived(receiver.told(input, false).0, contents.skip(1))
    }
}

/// Whether some data are all the chunks that a receiver waits for.
pub open spec fn outstanding_contents(receiver: ReceiverView, contents: Seq<Vec<u8>>) -> bool {
    &&& contents.len() == receiver.outstanding.len()
    &&& forall|k: int|
        0 <= k < contents.len() ==> announced(
            receiver.manifest,
            receiver.outstanding[k],
            #[trigger] contents[k]@,
        )
}

proof fn lemma_messages_push(actions: Seq<TransferAction>, action: TransferAction)
    ensures
        messages(actions.push(action)) == (match action {
            TransferAction::Send(message) => messages(actions).push(message),
            _ => messages(actions),
        }),
{
    assert(actions.push(action).drop_last() =~= actions);
}

proof fn lemma_chunks_arrive(receiver: ReceiverView, contents: Seq<Vec<u8>>)
    requires
        receiver.valid(),
        outstanding_contents(receiver, contents),
    ensures
        accepts(receiver, contents),
        ({
            let after = arrived(receiver, contents);
            &&& after.valid()
            &&& after.outstanding.len() == 0
            &&& after.id == receiver.id
            &&& after.manifest == receiver.manifest
            &&& after.missing == receiver.missing
            &&& after.pausing == receiver.pausing
            &&& after.remote_pause == receiver.remote_pause
            &&& after.checkpointed == receiver.checkpointed
        }),
    decreases contents.len(),
{
    if contents.len() > 0 {
        let index = receiver.outstanding[0];
        let input = chunk_input(receiver.id, 0, index, contents[0]);
        let next = receiver.told(input, false).0;
        assert(receiver.outstanding.contains(index));
        assert(announced(receiver.manifest, receiver.outstanding[0], contents[0]@));
        receiver.outstanding.index_of_first_ensures(index);
        lemma_chunk_keeps_validity(receiver, index);
        assert(without(receiver.outstanding, index) =~= receiver.outstanding.skip(1));
        assert(outstanding_contents(next, contents.skip(1))) by {
            assert forall|k: int| 0 <= k < contents.skip(1).len() implies announced(
                next.manifest,
                next.outstanding[k],
                #[trigger] contents.skip(1)[k]@,
            ) by {
                assert(announced(
                    receiver.manifest,
                    receiver.outstanding[k + 1],
                    contents[k + 1]@,
                ));
            }
        }
        lemma_chunks_arrive(next, contents.skip(1));
    }
}

/// A gate between the ends of a running transfer, on which nobody has paused.
pub open spec fn running(gate: Binding) -> bool {
    &&& gate.state == WireTaskState::Transferring
    &&& gate.pauses.local is None
    &&& gate.pauses.remote is None
}

/// Whether the pause of the sending end, sent under a number, is acknowledged by a
/// receiver once what it waits for has arrived: the receiver then writes down what it has
/// before it says so, the binding lets the answer through and is paused, and both ends note
/// the task as paused and finish.
pub open spec fn pause_is_settled(
    receiver: ReceiverView,
    contents: Seq<Vec<u8>>,
    gate: Binding,
    number: u64,
    answer: u64,
) -> bool {
    let quiet = arrived(receiver, contents);
    let (settled, steps) = quiet.turned();
    let paused = Message::Paused { task_id: receiver.id, pause_request_id: number };
    let end = gate.after(gate.sender.other(), answer, paused);
    &&& accepts(receiver, contents)
    &&& quiet.missing == receiver.missing
    &&& !quiet.complete() ==> {
        &&& messages(steps) == seq![paused]
        &&& quiet.checkpointed || steps[0] == TransferAction::Checkpoint
        &&& gate.refusal(gate.sender.other(), paused) is None
        &&& end.state == WireTaskState::Paused
        &&& paused_steps(Some(end.state)).contains(TransferAction::SetState(TaskState::Paused))
        &&& paused_steps(Some(end.state)).last() == TransferAction::Finish
        &&& settled.settling(Some(end.state)).contains(
            TransferAction::SetState(TaskState::Paused),
        )
        &&& settled.settling(Some(end.state)).last() == TransferAction::Finish
    }
}

proof fn lemma_pause_settles(
    receiver: ReceiverView,
    contents: Seq<Vec<u8>>,
    gate: Binding,
    number: u64,
    answer: u64,
)
    requires
        receiver.valid(),
        receiver.pausing,
        receiver.remote_pause == Some(number),
        outstanding_contents(receiver, contents),
        gate.state == WireTaskState::Pausing,
        gate.pauses.of(gate.sender) == Some(number),
        gate.pauses.of(gate.sender.other()) is None,
    ensures
        pause_is_settled(receiver, contents, gate, number, answer),
{
    lemma_chunks_arrive(receiver, contents);
    let quiet = arrived(receiver, contents);
    let paused = Message::Paused { task_id: receiver.id, pause_request_id: number };
    if !quiet.complete() {
        let (settled, steps) = quiet.turned();
        let front = if quiet.checkpointed {
            Seq::empty()
        } else {
            seq![TransferAction::Checkpoint]
        };
        assert(steps =~= front.push(TransferAction::Send(paused)));
        reveal_with_fuel(messages, 3);
        assert(front.len() > 0 ==> front.drop_last() =~= Seq::empty());
        lemma_messages_push(front, TransferAction::Send(paused));
        assert(messages(steps) =~= seq![paused]);
        let end = gate.after(gate.sender.other(), answer, paused);
        let ours = paused_steps(Some(end.state));
        let theirs = settled.settling(Some(end.state));
        assert(ours[0] == TransferAction::SetState(TaskState::Paused));
        assert(theirs[1] == TransferAction::SetState(TaskState::Paused));
    }
}

/// A pause that the user of the sending end asks for during a transfer reaches the
/// receiver, and both ends end paused once the chunks on their way have arrived.
pub proof fn sender_pauses_end_paused(
    sender: SenderView,
    receiver: ReceiverView,
    contents: Seq<Vec<u8>>,
    gate: Binding,
    number: u64,
    numbers: Both<u64>,
    answer: u64,
    due: bool,
)
    requires
        sender.valid(),
        sender.resumed,
        !sender.pausing,
        receiver.valid(),
        !receiver.pausing,
        receiver.id == sender.id,
        outstanding_contents(receiver, contents),
        running(gate),
    ensures
        ({
            let pause = Message::Pause { task_id: sender.id };
            let (asking, steps) = sender.told(TransferInput::PauseRequested, due);
            let heard = received(number, pause);
            let waiting = receiver.told(heard, due).0;
            &&& sender.refusal(TransferInput::PauseRequested) is None
            &&& asking.pausing
            &&& steps[0] == TransferAction::SetState(TaskState::Pausing)
            &&& messages(steps) == seq![pause]
            &&& gate.refusal(gate.sender, pause) is None
            &&& receiver.refusal(heard) is None
            &&& receiver.told(heard, due).1 == seq![TransferAction::SetState(TaskState::Pausing)]
            &&& pause_is_settled(
                waiting,
                contents,
                Binding { sequence: numbers, ..gate.after(gate.sender, number, pause) },
                number,
                answer,
            )
        }),
{
    let pause = Message::Pause { task_id: sender.id };
    let steps = sender.told(TransferInput::PauseRequested, due).1;
    let front = seq![TransferAction::SetState(TaskState::Pausing)];
    assert(steps =~= front.push(TransferAction::Send(pause)));
    reveal_with_fuel(messages, 3);
    assert(front.drop_last() =~= Seq::empty());
    lemma_messages_push(front, TransferAction::Send(pause));
    assert(messages(steps) =~= seq![pause]);
    let waiting = receiver.told(received(number, pause), due).0;
    lemma_pause_settles(
        waiting,
        contents,
        Binding { sequence: numbers, ..gate.after(gate.sender, number, pause) },
        number,
        answer,
    );
}

/// A pause that the user of the sending end asks for before the receiver has said what it
/// has is sent as soon as the receiver does, once.
pub proof fn early_pauses_are_sent_with_the_resume(
    sender: SenderView,
    request_id: u64,
    resume: Message,
    have: Seq<bool>,
    due: bool,
)
    requires
        sender.valid(),
        !sender.resumed,
        resume is Resume,
        have.len() == sender.acknowledged.len(),
        is_bitmap(resume->have@, have),
    ensures
        ({
            let pause = Message::Pause { task_id: sender.id };
            let (asking, steps) = sender.told(TransferInput::PauseRequested, due);
            let input = received(request_id, resume);
            let (going, answers) = asking.told(input, due);
            &&& messages(steps) == Seq::<Message>::empty()
            &&& !sender.pausing ==> steps == seq![TransferAction::SetState(TaskState::Pausing)]
            &&& asking.refusal(input) is None
            &&& messages(answers) == seq![pause]
            &&& going.resumed
            &&& going.pausing
            &&& !going.pending_pause
        }),
{
    let pause = Message::Pause { task_id: sender.id };
    let (asking, steps) = sender.told(TransferInput::PauseRequested, due);
    let input = received(request_id, resume);
    let (going, answers) = asking.told(input, due);
    reveal_with_fuel(messages, 3);
    assert(steps.len() > 0 ==> steps.drop_last() =~= Seq::empty());
    let front = seq![TransferAction::NoteProgress(going.confirmed() as u64)];
    assert(answers =~= front.push(TransferAction::Send(pause)));
    assert(front.drop_last() =~= Seq::empty());
    lemma_messages_push(front, TransferAction::Send(pause));
    assert(messages(answers) =~= seq![pause]);
}

/// A pause that the user of the receiving end asks for is acknowledged by the sender,
/// which pauses too; both ends end paused once the chunks on their way have arrived.
pub proof fn receiver_pauses_end_paused(
    sender: SenderView,
    receiver: ReceiverView,
    contents: Seq<Vec<u8>>,
    gate: Binding,
    theirs: u64,
    ours: u64,
    next: u64,
    numbers: Both<u64>,
    answer: u64,
    due: bool,
)
    requires
        sender.valid(),
        sender.resumed,
        !sender.pausing,
        receiver.valid(),
        !receiver.pausing,
        receiver.id == sender.id,
        outstanding_contents(receiver, contents),
        running(gate),
    ensures
        ({
            let far = gate.sender.other();
            let pause = Message::Pause { task_id: sender.id };
            let paused = Message::Paused { task_id: sender.id, pause_request_id: theirs };
            let (asking, steps) = receiver.told(TransferInput::PauseRequested, due);
            let first = gate.after(far, theirs, pause);
            let second = first.after(gate.sender, ours, pause);
            let third = second.after(gate.sender, next, paused);
            let heard = received(theirs, pause);
            let waiting = asking.told(received(ours, pause), due).0;
            &&& receiver.refusal(TransferInput::PauseRequested) is None
            &&& steps[0] == TransferAction::SetState(TaskState::Pausing)
            &&& messages(steps) == seq![pause]
            &&& gate.refusal(far, pause) is None
            &&& sender.refusal(heard) is None
            &&& sender.told(heard, due).0.pausing
            &&& sender.told(heard, due).1[0] == TransferAction::SetState(TaskState::Pausing)
            &&& messages(sender.told(heard, due).1) == seq![pause, paused]
            &&& first.refusal(gate.sender, pause) is None
            &&& second.refusal(gate.sender, paused) is None
            &&& third.state == WireTaskState::Pausing
            &&& asking.refusal(received(ours, pause)) is None
            &&& waiting.refusal(received(next, paused)) is None
            &&& waiting.told(received(next, paused), due).0 == waiting
            &&& pause_is_settled(
                waiting,
                contents,
                Binding { sequence: numbers, ..third },
                ours,
                answer,
            )
        }),
{
    let far = gate.sender.other();
    let pause = Message::Pause { task_id: sender.id };
    let paused = Message::Paused { task_id: sender.id, pause_request_id: theirs };
    let (asking, steps) = receiver.told(TransferInput::PauseRequested, due);
    let front = seq![TransferAction::SetState(TaskState::Pausing)];
    reveal_with_fuel(messages, 4);
    assert(front.drop_last() =~= Seq::empty());
    assert(steps =~= front.push(TransferAction::Send(pause)));
    lemma_messages_push(front, TransferAction::Send(pause));
    assert(messages(steps) =~= seq![pause]);
    let answers = sender.told(received(theirs, pause), due).1;
    assert(answers =~= front.push(TransferAction::Send(pause)).push(TransferAction::Send(paused)));
    lemma_messages_push(front.push(TransferAction::Send(pause)), TransferAction::Send(paused));
    assert(messages(answers) =~= seq![pause, paused]);
    let third = gate.after(far, theirs, pause).after(gate.sender, ours, pause).after(
        gate.sender,
        next,
        paused,
    );
    let waiting = asking.told(received(ours, pause), due).0;
    lemma_pause_settles(
        waiting,
        contents,
        Binding { sequence: numbers, ..third },
        ours,
        answer,
    );
}

/// Pauses of both ends that cross each other are acknowledged by both, and both ends end
/// paused once the chunks on their way have arrived.
pub proof fn crossing_pauses_end_paused(
    sender: SenderView,
    receiver: ReceiverView,
    contents: Seq<Vec<u8>>,
    gate: Binding,
    ours: u64,
    theirs: u64,
    next: u64,
    numbers: Both<u64>,
    answer: u64,
    due: bool,
)
    requires
        sender.valid(),
        sender.resumed,
        !sender.pausing,
        receiver.valid(),
        !receiver.pausing,
        receiver.id == sender.id,
        outstanding_contents(receiver, contents),
        running(gate),
    ensures
        ({
            let far = gate.sender.other();
            let pause = Message::Pause { task_id: sender.id };
            let paused = Message::Paused { task_id: sender.id, pause_request_id: theirs };
            let here = sender.told(TransferInput::PauseRequested, due).0;
            let there = receiver.told(TransferInput::PauseRequested, due).0;
            let first = gate.after(gate.sender, ours, pause);
            let second = first.after(far, theirs, pause);
            let third = second.after(gate.sender, next, paused);
            let waiting = there.told(received(ours, pause), due).0;
            &&& first.refusal(far, pause) is None
            &&& here.refusal(received(theirs, pause)) is None
            &&& messages(here.told(received(theirs, pause), due).1) == seq![paused]
            &&& second.refusal(gate.sender, paused) is None
            &&& third.state == WireTaskState::Pausing
            &&& there.refusal(received(ours, pause)) is None
            &&& waiting.refusal(received(next, paused)) is None
            &&& waiting.told(received(next, paused), due).0 == waiting
            &&& pause_is_settled(
                waiting,
                contents,
                Binding { sequence: numbers, ..third },
                ours,
                answer,
            )
        }),
{
    let far = gate.sender.other();
    let pause = Message::Pause { task_id: sender.id };
    let paused = Message::Paused { task_id: sender.id, pause_request_id: theirs };
    let here = sender.told(TransferInput::PauseRequested, due).0;
    let there = receiver.told(TransferInput::PauseRequested, due).0;
    let answers = here.told(received(theirs, pause), due).1;
    reveal_with_fuel(messages, 3);
    assert(answers =~= Seq::<TransferAction>::empty().push(TransferAction::Send(paused)));
    lemma_messages_push(Seq::empty(), TransferAction::Send(paused));
    assert(messages(answers) =~= seq![paused]);
    let third = gate.after(gate.sender, ours, pause).after(far, theirs, pause).after(
        gate.sender,
        next,
        paused,
    );
    lemma_pause_settles(
        there.told(received(ours, pause), due).0,
        contents,
        Binding { sequence: numbers, ..third },
        ours,
        answer,
    );
}

/// A receiver that pauses asks for nothing more, and acknowledges nothing while it waits
/// for chunks.
pub proof fn pausing_receivers_ask_for_nothing(receiver: ReceiverView)
    requires
        receiver.valid(),
        receiver.pausing,
        !receiver.complete(),
        receiver.outstanding.len() > 0,
    ensures
        receiver.turned().1.len() == 0,
        receiver.turned().0 == receiver,
{
}

/// Transfers that are not paused on both sides go on: nothing is finished for a pause.
pub proof fn only_paused_gates_end_transfers(receiver: ReceiverView, gate: Option<WireTaskState>)
    requires
        gate != Some(WireTaskState::Paused),
    ensures
        paused_steps(gate).len() == 0,
        receiver.settling(gate).len() == 0,
{
}

/// A receiver that has everything publishes it before it says so, the binding lets that
/// through, paused or not, and the sender notes the whole length and commits the receipt
/// before it finishes.
pub proof fn complete_receivers_end_transfers(
    sender: SenderView,
    receiver: ReceiverView,
    gate: Binding,
    number: u64,
    due: bool,
)
    requires
        receiver.complete(),
        sender.id == receiver.id,
        sender.manifest == receiver.manifest,
        gate.root == receiver.manifest.root_hash,
        gate.state == WireTaskState::Transferring || gate.state == WireTaskState::Pausing,
    ensures
        ({
            let steps = receiver.turned().1;
            let far = gate.sender.other();
            let completed = Message::Completed {
                task_id: receiver.id,
                root_hash: receiver.manifest.root_hash,
                receipt_version: 1,
            };
            let input = received(number, completed);
            let answers = sender.told(input, due).1;
            exists|at: int, said: int|
                {
                    &&& 0 <= at < said < steps.len() - 1
                    &&& #[trigger] steps[at] == TransferAction::Publish
                    &&& #[trigger] steps[said] == TransferAction::Send(completed)
                    &&& steps.last() == TransferAction::Finish
                    &&& steps.contains(TransferAction::SetState(TaskState::Finalizing))
                    &&& steps.contains(TransferAction::NoteProgress(receiver.manifest.total_len))
                    &&& completed.refusal() is None
                    &&& gate.refusal(far, completed) is None
                    &&& gate.after(far, number, completed).state == WireTaskState::Completed
                    &&& sender.refusal(input) is None
                    &&& answers.contains(TransferAction::NoteProgress(sender.manifest.total_len))
                    &&& answers.contains(TransferAction::SetState(TaskState::Finalizing))
                    &&& answers.contains(TransferAction::CommitReceipt)
                    &&& answers.last() == TransferAction::Finish
                }
        }),
{
    let steps = receiver.turned().1;
    let completed = Message::Completed {
        task_id: receiver.id,
        root_hash: receiver.manifest.root_hash,
        receipt_version: 1,
    };
    let answers = sender.told(received(number, completed), due).1;
    assert(steps[0] == TransferAction::SetState(TaskState::Finalizing));
    assert(steps[1] == TransferAction::Publish);
    assert(steps[2] == TransferAction::NoteProgress(receiver.manifest.total_len));
    assert(steps[3] == TransferAction::Send(completed));
    assert(answers[0] == TransferAction::NoteProgress(sender.manifest.total_len));
    assert(answers[1] == TransferAction::SetState(TaskState::Finalizing));
    assert(answers[2] == TransferAction::CommitReceipt);
}

/// Receipts are committed by senders that were told of the completion, and by nobody
/// else.
pub proof fn receipts_follow_completion(
    sender: SenderView,
    receiver: ReceiverView,
    input: TransferInput,
    due: bool,
    at: int,
)
    requires
        0 <= at,
    ensures
        at < sender.told(input, due).1.len() && sender.told(input, due).1[at]
            == TransferAction::CommitReceipt ==> (input matches TransferInput::Received(frame)
            && frame.message is Completed),
        at < receiver.told(input, due).1.len() ==> receiver.told(input, due).1[at]
            != TransferAction::CommitReceipt && receiver.told(input, due).1[at]
            != TransferAction::Publish && receiver.told(input, due).1[at]
            != TransferAction::Finish,
{
}

} // verus!
