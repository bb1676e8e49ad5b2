//! The two ends of a transfer together: between honest ends nothing is refused, nothing
//! stalls, and the whole file arrives.

use vstd::prelude::*;

use crate::manifest::{
    bitmap_reads_back, chunk_extent, is_bitmap, ChunkHash, ManifestView,
};
use crate::protocol::{Frame, Message};
use crate::task_model::TaskId;
use crate::transfer::WINDOW;
use crate::transfer_loops::{
    either, lemma_chunk_keeps_validity, lemma_turn_keeps_validity, nothing_missing_means_complete,
    receivers_begin_with_what_is_missing, requests, without, ReceiverView, SenderView, TransferAction, TransferInput,
};

verus! {

/// What a receiver tells its sender once both know what is present.
pub enum Note {
    Request(u32),
    Acknowledge(u32),
}

impl Note {
    /// The note as it reaches the sender.
    pub open spec fn input(self, id: TaskId, request_id: u64) -> TransferInput {
        TransferInput::Received(
            Frame {
                request_id,
                message: match self {
                    Note::Request(index) => Message::RequestChunk { task_id: id, index },
                    Note::Acknowledge(index) => Message::ChunkAck { task_id: id, index },
                },
            },
        )
    }
}

/// A chunk as it reaches the receiver.
pub open spec fn chunk_input(
    id: TaskId,
    request_id: u64,
    index: u32,
    data: Vec<u8>,
) -> TransferInput {
    TransferInput::Received(
        Frame { request_id, message: Message::Chunk { task_id: id, index, data } },
    )
}

/// Whether some data are the announced chunk.
pub open spec fn announced(manifest: ManifestView, index: u32, data: Seq<u8>) -> bool {
    &&& data.len() == chunk_extent(
        manifest.total_len as nat,
        manifest.chunk_size as nat,
        index as nat,
    ).1
    &&& manifest.chunks[index as int] == ChunkHash::digest(data)
}

/// The chunks that are asked for in some notes, in order.
pub open spec fn requested(notes: Seq<Note>) -> Seq<u32>
    decreases notes.len(),
{
    if notes.len() == 0 {
        Seq::empty()
    } else {
        match notes[0] {
            Note::Request(index) => seq![index] + requested(notes.skip(1)),
            Note::Acknowledge(_) => requested(notes.skip(1)),
        }
    }
}

/// The notes that ask for some chunks.
pub open spec fn asking(indices: Seq<u32>) -> Seq<Note> {
    indices.map_values(|index: u32| Note::Request(index))
}

/// Whether a sender accepts every note on its way, and then knows what its receiver
/// waits for and what is present.
pub open spec fn settles(
    sender: SenderView,
    notes: Seq<Note>,
    outstanding: Seq<u32>,
    present: Seq<bool>,
) -> bool
    decreases notes.len(),
{
    if notes.len() == 0 {
        sender.resumed && sender.sent == outstanding && sender.acknowledged == present
    } else {
        let input = notes[0].input(sender.id, 0);
        sender.refusal(input) is None && settles(
            sender.told(input, false).0,
            notes.skip(1),
            outstanding,
            present,
        )
    }
}

/// A transfer with everything that is on its way.
pub struct ExchangeView {
    pub sender: SenderView,
    pub receiver: ReceiverView,
    pub notes: Seq<Note>,
    pub chunks: Seq<u32>,
}

impl ExchangeView {
    /// Both ends agree on what is on its way.
    pub open spec fn sound(self) -> bool {
        &&& self.receiver.valid()
        &&& !self.receiver.pausing
        &&& settles(self.sender, self.notes, self.receiver.outstanding, self.receiver.present)
        &&& self.receiver.outstanding == self.chunks + requested(self.notes)
    }

    /// The receiver takes its turn and asks for more.
    pub open spec fn asked(self) -> ExchangeView {
        ExchangeView {
            receiver: self.receiver.turned().0,
            notes: self.notes + asking(self.receiver.missing.take(self.receiver.room())),
            ..self
        }
    }

    /// The sender takes the next note; a chunk that it asks for sets out.
    pub open spec fn served(self) -> ExchangeView {
        ExchangeView {
            sender: self.sender.told(self.notes[0].input(self.sender.id, 0), false).0,
            notes: self.notes.skip(1),
            chunks: match self.notes[0] {
                Note::Request(index) => self.chunks.push(index),
                Note::Acknowledge(_) => self.chunks,
            },
            ..self
        }
    }

    /// The receiver takes the next chunk and acknowledges it.
    pub open spec fn taken(self, data: Vec<u8>) -> ExchangeView {
        ExchangeView {
            receiver: self.receiver.told(
                chunk_input(self.receiver.id, 0, self.chunks[0], data),
                false,
            ).0,
            notes: self.notes.push(Note::Acknowledge(self.chunks[0])),
            chunks: self.chunks.skip(1),
            ..self
        }
    }

    /// How many steps are left at most.
    pub open spec fn remaining(self) -> nat {
        4 * self.receiver.missing.len() + 2 * requested(self.notes).len() + self.notes.len() + 2
            * self.chunks.len()
    }
}

proof fn lemma_requested_push(notes: Seq<Note>, note: Note)
    ensures
        requested(notes.push(note)) == (match note {
            Note::Request(index) => requested(notes).push(index),
            Note::Acknowledge(_) => requested(notes),
        }),
        requested(notes).len() <= notes.len(),
    decreases notes.len(),
{
    let longer = notes.push(note);
    reveal_with_fuel(requested, 2);
    if notes.len() == 0 {
        assert(longer.skip(1) =~= Seq::<Note>::empty());
        assert(requested(longer) =~= (match note {
            Note::Request(index) => requested(notes).push(index),
            Note::Acknowledge(_) => requested(notes),
        }));
    } else {
        lemma_requested_push(notes.skip(1), note);
        assert(longer.skip(1) =~= notes.skip(1).push(note));
        assert(longer[0] == notes[0]);
        assert(requested(longer) =~= (match note {
            Note::Request(index) => requested(notes).push(index),
            Note::Acknowledge(_) => requested(notes),
        }));
    }
}

proof fn lemma_ask_settles(
    sender: SenderView,
    notes: Seq<Note>,
    outstanding: Seq<u32>,
    present: Seq<bool>,
    index: u32,
)
    requires
        settles(sender, notes, outstanding, present),
        outstanding.len() < WINDOW,
        index < present.len(),
        !present[index as int],
        !outstanding.contains(index),
    ensures
        settles(sender, notes.push(Note::Request(index)), outstanding.push(index), present),
    decreases notes.len(),
{
    let longer = notes.push(Note::Request(index));
    reveal_with_fuel(settles, 2);
    if notes.len() == 0 {
        assert(longer.skip(1) =~= Seq::<Note>::empty());
    } else {
        let input = notes[0].input(sender.id, 0);
        lemma_ask_settles(
            sender.told(input, false).0,
            notes.skip(1),
            outstanding,
            present,
            index,
        );
        assert(longer.skip(1) =~= notes.skip(1).push(Note::Request(index)));
        assert(longer[0] == notes[0]);
    }
}

proof fn lemma_acknowledge_settles(
    sender: SenderView,
    notes: Seq<Note>,
    outstanding: Seq<u32>,
    present: Seq<bool>,
    index: u32,
)
    requires
        settles(sender, notes, outstanding, present),
        outstanding.contains(index),
        index < present.len(),
        !present[index as int],
    ensures
        settles(
            sender,
            notes.push(Note::Acknowledge(index)),
            without(outstanding, index),
            present.update(index as int, true),
        ),
    decreases notes.len(),
{
    let longer = notes.push(Note::Acknowledge(index));
    reveal_with_fuel(settles, 2);
    if notes.len() == 0 {
        assert(longer.skip(1) =~= Seq::<Note>::empty());
    } else {
        let input = notes[0].input(sender.id, 0);
        lemma_acknowledge_settles(
            sender.told(input, false).0,
            notes.skip(1),
            outstanding,
            present,
            index,
        );
        assert(longer.skip(1) =~= notes.skip(1).push(Note::Acknowledge(index)));
        assert(longer[0] == notes[0]);
    }
}

proof fn lemma_asking_settles(
    sender: SenderView,
    notes: Seq<Note>,
    outstanding: Seq<u32>,
    present: Seq<bool>,
    indices: Seq<u32>,
)
    requires
        settles(sender, notes, outstanding, present),
        outstanding.len() + indices.len() <= WINDOW,
        indices.no_duplicates(),
        forall|k: int|
            0 <= k < indices.len() ==> (#[trigger] indices[k]) < present.len()
                && !present[indices[k] as int] && !outstanding.contains(indices[k]),
    ensures
        settles(sender, notes + asking(indices), outstanding + indices, present),
        requested(notes + asking(indices)) == requested(notes) + indices,
    decreases indices.len(),
{
    if indices.len() == 0 {
        assert(notes + asking(indices) =~= notes);
        assert(outstanding + indices =~= outstanding);
        assert(requested(notes) + indices =~= requested(notes));
    } else {
        let front = indices.drop_last();
        let last = indices.last();
        lemma_asking_settles(sender, notes, outstanding, present, front);
        assert forall|k: int| 0 <= k < (outstanding + front).len() implies (outstanding + front)[k]
            != last by {
            if k < outstanding.len() {
                assert(!outstanding.contains(indices[indices.len() - 1]));
                assert(outstanding.contains(outstanding[k]));
            } else {
                assert(front[k - outstanding.len()] == indices[k - outstanding.len()]);
            }
        }
        assert(indices[indices.len() - 1] == last);
        lemma_ask_settles(sender, notes + asking(front), outstanding + front, present, last);
        lemma_requested_push(notes + asking(front), Note::Request(last));
        assert(notes + asking(indices) =~= (notes + asking(front)).push(Note::Request(last)));
        assert(outstanding + indices =~= (outstanding + front).push(last));
        assert(requested(notes) + indices =~= (requested(notes) + front).push(last));
    }
}

/// A sender accepts what its receiver says is present, and the two agree from there on.
pub proof fn exchanges_start_sound(
    sender: SenderView,
    receiver: ReceiverView,
    request_id: u64,
    root_hash: ChunkHash,
    have: Vec<u8>,
)
    requires
        receiver.valid(),
        !receiver.pausing,
        receiver.outstanding.len() == 0,
        sender.valid(),
        sender.manifest == receiver.manifest,
        sender.sent.len() == 0,
        forall|c: int| 0 <= c < sender.acknowledged.len() ==> !sender.acknowledged[c],
        is_bitmap(have@, receiver.present),
    ensures
        ({
            let input = TransferInput::Received(
                Frame {
                    request_id,
                    message: Message::Resume { task_id: receiver.id, root_hash, have },
                },
            );
            sender.refusal(input) is None && (ExchangeView {
                sender: sender.told(input, false).0,
                receiver,
                notes: Seq::empty(),
                chunks: Seq::empty(),
            }).sound()
        }),
{
    let read = choose|flags: Seq<bool>|
        flags.len() == sender.acknowledged.len() && #[trigger] is_bitmap(have@, flags);
    bitmap_reads_back(have@, receiver.present, read);
    assert(either(sender.acknowledged, read) =~= receiver.present);
    assert(sender.sent =~= receiver.outstanding);
    assert(receiver.outstanding =~= Seq::<u32>::empty() + requested(Seq::empty()));
}

/// A receiver that asks for more sends one request for each chunk that it now waits
/// for, and the ends still agree.
pub proof fn asking_keeps_exchanges_sound(exchange: ExchangeView)
    requires
        exchange.sound(),
        !exchange.receiver.complete(),
    ensures
        exchange.asked().sound(),
        exchange.receiver.turned().1 == requests(
            exchange.receiver.id,
            exchange.receiver.missing.take(exchange.receiver.room()),
        ),
        exchange.receiver.room() > 0 ==> exchange.asked().remaining() < exchange.remaining(),
{
    let receiver = exchange.receiver;
    let indices = receiver.missing.take(receiver.room());
    lemma_turn_keeps_validity(receiver);
    assert forall|k: int| 0 <= k < indices.len() implies (#[trigger] indices[k])
        < receiver.present.len() && !receiver.present[indices[k] as int]
        && !receiver.outstanding.contains(indices[k]) by {
        assert(indices[k] == receiver.missing[k]);
    }
    lemma_asking_settles(
        exchange.sender,
        exchange.notes,
        receiver.outstanding,
        receiver.present,
        indices,
    );
    assert(exchange.asked().receiver.outstanding =~= exchange.chunks + requested(
        exchange.asked().notes,
    ));
}

/// A sender refuses nothing that reaches it, sends each chunk that it is asked for, and
/// the ends still agree.
pub proof fn serving_keeps_exchanges_sound(exchange: ExchangeView)
    requires
        exchange.sound(),
        exchange.notes.len() > 0,
    ensures
        ({
            let input = exchange.notes[0].input(exchange.sender.id, 0);
            &&& exchange.sender.refusal(input) is None
            &&& exchange.notes[0] matches Note::Request(index) ==> exchange.sender.told(
                input,
                false,
            ).1 == seq![TransferAction::SendChunk(index)]
        }),
        exchange.served().sound(),
        exchange.served().remaining() < exchange.remaining(),
{
    assert(exchange.receiver.outstanding =~= exchange.served().chunks + requested(
        exchange.served().notes,
    ));
}

/// A receiver refuses no announced chunk that reaches it, writes and acknowledges it,
/// and the ends still agree.
pub proof fn taking_keeps_exchanges_sound(exchange: ExchangeView, data: Vec<u8>)
    requires
        exchange.sound(),
        exchange.chunks.len() > 0,
        announced(exchange.receiver.manifest, exchange.chunks[0], data@),
    ensures
        ({
            let index = exchange.chunks[0];
            let input = chunk_input(exchange.receiver.id, 0, index, data);
            &&& exchange.receiver.refusal(input) is None
            &&& exchange.receiver.told(input, false).1 == seq![
                TransferAction::WriteChunk(index, data),
                TransferAction::Send(
                    Message::ChunkAck { task_id: exchange.receiver.id, index },
                ),
            ]
        }),
        exchange.taken(data).sound(),
        exchange.taken(data).remaining() < exchange.remaining(),
{
    let receiver = exchange.receiver;
    let index = exchange.chunks[0];
    assert(receiver.outstanding[0] == index);
    receiver.outstanding.index_of_first_ensures(index);
    lemma_chunk_keeps_validity(receiver, index);
    lemma_acknowledge_settles(
        exchange.sender,
        exchange.notes,
        receiver.outstanding,
        receiver.present,
        index,
    );
    lemma_requested_push(exchange.notes, Note::Acknowledge(index));
    assert(without(receiver.outstanding, index) =~= exchange.chunks.skip(1) + requested(
        exchange.notes,
    ));
    assert(receiver.told(chunk_input(receiver.id, 0, index, data), false).1 =~= seq![
        TransferAction::WriteChunk(index, data),
        TransferAction::Send(Message::ChunkAck { task_id: receiver.id, index }),
    ]);
}

/// When nothing is on its way and nothing more is asked for, the whole file has
/// arrived, the sender knows it, and the receiver publishes it.
pub proof fn exchanges_end_complete(exchange: ExchangeView)
    requires
        exchange.sound(),
        exchange.notes.len() == 0,
        exchange.chunks.len() == 0,
        exchange.receiver.room() == 0,
    ensures
        exchange.receiver.complete(),
        exchange.receiver.turned().1[1] == TransferAction::Publish,
        exchange.sender.acknowledged == exchange.receiver.present,
        exchange.sender.sent.len() == 0,
{
    nothing_missing_means_complete(exchange.receiver);
}

/// A transfer that begins gets going: the receiver tells its sender what is present, the
/// sender accepts it, and from there on both agree on what is still to come.
pub proof fn transfers_begin_in_agreement(
    id: TaskId,
    manifest: ManifestView,
    present: Seq<bool>,
    actions: Seq<TransferAction>,
    request_id: u64,
)
    requires
        manifest.shaped(),
        manifest.chunks.len() <= u32::MAX,
        present.len() == manifest.chunks.len(),
        ReceiverView::begun(id, manifest, present).opens(actions),
    ensures
        ({
            let sender = SenderView::begun(id, manifest);
            let receiver = ReceiverView::begun(id, manifest, present);
            &&& actions.len() == 2
            &&& actions[1] == TransferAction::NoteProgress(receiver.received() as u64)
            &&& !sender.resumed && !sender.pending_pause && !sender.pausing
            &&& actions[0] matches TransferAction::Send(message) && {
                let input = TransferInput::Received(Frame { request_id, message });
                &&& message matches Message::Resume { task_id, root_hash, .. } && task_id == id
                    && root_hash == manifest.root_hash
                &&& sender.refusal(input) is None
                &&& (ExchangeView {
                    sender: sender.told(input, false).0,
                    receiver,
                    notes: Seq::empty(),
                    chunks: Seq::empty(),
                }).sound()
                &&& sender.told(input, false).0.acknowledged == present
                &&& receiver.missing.len() == 0 ==> receiver.complete()
            }
        }),
{
    let sender = SenderView::begun(id, manifest);
    let receiver = ReceiverView::begun(id, manifest, present);
    receivers_begin_with_what_is_missing(id, manifest, present);
    match actions[0] {
        TransferAction::Send(Message::Resume { task_id, root_hash, have }) => {
            exchanges_start_sound(sender, receiver, request_id, root_hash, have);
        },
        _ => {},
    }
    if receiver.missing.len() == 0 {
        nothing_missing_means_complete(receiver);
    }
}

} // verus!
